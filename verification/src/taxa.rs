//! The denormalized lineage record kept per taxon ID.

use vstd::prelude::*;
use crate::strutil::no_char;

verus! {

/// One denormalized lineage record.  Any source field that was empty after
/// trimming has been normalized to `"Unknown"`; the species field is the
/// last whitespace-delimited token of the raw species column.
pub struct NcbiTaxEntry {
    pub tax_id: i64,
    pub name: String,
    pub species: String,
    pub genus: String,
    pub family: String,
    pub order: String,
    pub class: String,
    pub phylum: String,
    pub kingdom: String,
    pub superkingdom: String,
}

/// The mathematical shape of a lineage record.
pub ghost struct EntryView {
    pub tax_id: int,
    pub name: Seq<char>,
    pub species: Seq<char>,
    pub genus: Seq<char>,
    pub family: Seq<char>,
    pub order: Seq<char>,
    pub class: Seq<char>,
    pub phylum: Seq<char>,
    pub kingdom: Seq<char>,
    pub superkingdom: Seq<char>,
}

impl View for NcbiTaxEntry {
    type V = EntryView;

    open spec fn view(&self) -> EntryView {
        EntryView {
            tax_id: self.tax_id as int,
            name: self.name@,
            species: self.species@,
            genus: self.genus@,
            family: self.family@,
            order: self.order@,
            class: self.class@,
            phylum: self.phylum@,
            kingdom: self.kingdom@,
            superkingdom: self.superkingdom@,
        }
    }
}

/// A record whose text fields hold no newline, so that it can stand in the
/// line-oriented cache document.  Every record the parsers and the loader
/// build satisfies this: dump fields come from single lines.
pub open spec fn entry_line_safe(e: EntryView) -> bool {
    no_char(e.name, '\n') && no_char(e.species, '\n') && no_char(e.genus, '\n') && no_char(
        e.family,
        '\n',
    ) && no_char(e.order, '\n') && no_char(e.class, '\n') && no_char(e.phylum, '\n') && no_char(
        e.kingdom,
        '\n',
    ) && no_char(e.superkingdom, '\n')
}

} // verus!
