//! The cache-construction passes: resolving merge-history rows against the
//! working ID set, and turning taxonomy rows into lineage records.
//!
//! Both passes are specified as folds over the dump's lines.  A fold result
//! carries an `ok` flag: a malformed ID field stops the pass at that row,
//! with everything before it already applied, which is exactly how the
//! mutating passes behave.

use vstd::prelude::*;
use crate::digits::spec_parse_i64;
use crate::digits::parse_i64;
use crate::errors::ASDBTaxonError;
use crate::idset::IdSet;
use crate::kvmap::KvMap;
use crate::strutil::no_char;
use crate::strutil::spec_lines;
use crate::strutil::spec_splitn;
use crate::strutil::spec_trim;
use crate::strutil::spec_last_token;
use crate::strutil::split_to_lines;
use crate::strutil::splitn_str;
use crate::strutil::trim_str;
use crate::strutil::last_token;
use crate::strutil::views_of;
use crate::strutil::lemma_split_basics;
use crate::strutil::lemma_no_char_subrange;
use crate::strutil::lemma_trim_no_char;
use crate::strutil::lemma_last_token_no_char;
use crate::strutil::find_char_from;
use crate::strutil::lemma_find_char_from;
use crate::taxa::EntryView;
use crate::taxa::NcbiTaxEntry;
use crate::taxa::entry_line_safe;

verus! {

/// The literal `"Unknown"`, which every empty field is normalized to.
pub open spec fn unknown_seq() -> Seq<char> {
    seq!['U', 'n', 'k', 'n', 'o', 'w', 'n']
}

pub open spec fn spec_norm(t: Seq<char>) -> Seq<char> {
    if t.len() == 0 {
        unknown_seq()
    } else {
        t
    }
}

/// Field `i` of a merge-history row: the trimmed row split on pipes into at
/// most three parts, each part trimmed; a missing field reads as empty.
pub open spec fn merge_field(line: Seq<char>, i: int) -> Seq<char> {
    let parts = spec_splitn(spec_trim(line), 3, '|');
    if 0 <= i < parts.len() {
        spec_trim(parts[i])
    } else {
        Seq::empty()
    }
}

/// One merge-history row against the working set: `old | new | ...` is
/// relevant only while `old` is in the set; a relevant row moves the set
/// from `old` to `new` and records the redirect.  A malformed ID in a
/// consulted field clears the `ok` flag and changes nothing.
pub open spec fn spec_merge_row(line: Seq<char>, taxids: Set<int>, dep: Map<int, i64>) -> (
    bool,
    Set<int>,
    Map<int, i64>,
) {
    match spec_parse_i64(merge_field(line, 0)) {
        Option::None => (false, taxids, dep),
        Option::Some(old) => {
            if !taxids.contains(old as int) {
                (true, taxids, dep)
            } else {
                match spec_parse_i64(merge_field(line, 1)) {
                    Option::None => (false, taxids, dep),
                    Option::Some(new) => (
                        true,
                        taxids.remove(old as int).insert(new as int),
                        dep.insert(old as int, new),
                    ),
                }
            }
        },
    }
}

/// The whole resolver pass, row by row, stopping at the first malformed row.
pub open spec fn spec_resolve(lines: Seq<Seq<char>>, taxids: Set<int>, dep: Map<int, i64>) -> (
    bool,
    Set<int>,
    Map<int, i64>,
)
    decreases lines.len(),
{
    if lines.len() == 0 {
        (true, taxids, dep)
    } else {
        let step = spec_merge_row(lines[0], taxids, dep);
        if !step.0 {
            step
        } else {
            spec_resolve(lines.drop_first(), step.1, step.2)
        }
    }
}

/// Field `i` of a taxonomy row: the trimmed row split on pipes into at most
/// eleven parts, each part trimmed and an empty part normalized to
/// `"Unknown"`; a missing field also reads as `"Unknown"`.
pub open spec fn tax_field(line: Seq<char>, i: int) -> Seq<char> {
    let parts = spec_splitn(spec_trim(line), 11, '|');
    if 0 <= i < parts.len() {
        spec_norm(spec_trim(parts[i]))
    } else {
        unknown_seq()
    }
}

/// The record a taxonomy row denotes, keyed under `id`.  The species field
/// is the last whitespace-delimited token of the raw species column; every
/// other field is the normalized column text.
pub open spec fn spec_row_entry(id: i64, line: Seq<char>) -> EntryView {
    EntryView {
        tax_id: id as int,
        name: tax_field(line, 1),
        species: spec_last_token(tax_field(line, 2)),
        genus: tax_field(line, 3),
        family: tax_field(line, 4),
        order: tax_field(line, 5),
        class: tax_field(line, 6),
        phylum: tax_field(line, 7),
        kingdom: tax_field(line, 8),
        superkingdom: tax_field(line, 9),
    }
}

/// One taxonomy row: parse the nominal ID, redirect it through the
/// deprecation map, and keep the row only if the redirected ID is in the
/// working set, the last row per ID winning.
pub open spec fn spec_tax_row(
    line: Seq<char>,
    taxids: Set<int>,
    dep: Map<int, i64>,
    m: Map<int, EntryView>,
) -> (bool, Map<int, EntryView>) {
    match spec_parse_i64(tax_field(line, 0)) {
        Option::None => (false, m),
        Option::Some(id0) => {
            let id = if dep.contains_key(id0 as int) {
                dep[id0 as int]
            } else {
                id0
            };
            if !taxids.contains(id as int) {
                (true, m)
            } else {
                (true, m.insert(id as int, spec_row_entry(id, line)))
            }
        },
    }
}

/// The whole lineage-parser pass, row by row, stopping at the first
/// malformed row.
pub open spec fn spec_populate(
    lines: Seq<Seq<char>>,
    taxids: Set<int>,
    dep: Map<int, i64>,
    m: Map<int, EntryView>,
) -> (bool, Map<int, EntryView>)
    decreases lines.len(),
{
    if lines.len() == 0 {
        (true, m)
    } else {
        let step = spec_tax_row(lines[0], taxids, dep, m);
        if !step.0 {
            step
        } else {
            spec_populate(lines.drop_first(), taxids, dep, step.1)
        }
    }
}

/// A whole build over already-read dump texts: the resolver pass, then, if
/// it went through, the lineage-parser pass.  The result carries the `ok`
/// flag, the resolved working set, the deprecation map and the record
/// mapping.
pub open spec fn spec_build(
    taxdump: Seq<char>,
    merged: Seq<char>,
    taxids: Set<int>,
    dep: Map<int, i64>,
    m: Map<int, EntryView>,
) -> (bool, Set<int>, Map<int, i64>, Map<int, EntryView>) {
    let r1 = spec_resolve(spec_lines(merged), taxids, dep);
    if !r1.0 {
        (false, r1.1, r1.2, m)
    } else {
        let r2 = spec_populate(spec_lines(taxdump), r1.1, r1.2, m);
        (r2.0, r1.1, r1.2, r2.1)
    }
}

/// A relevant merge row moves the working set from the old ID to the new
/// one, and an irrelevant row leaves the set alone.  (For a degenerate row
/// redirecting an ID to itself the old ID stays, so it is left out here.)
pub proof fn lemma_merge_row_working_set(line: Seq<char>, taxids: Set<int>, dep: Map<int, i64>)
    requires
        spec_parse_i64(merge_field(line, 0)) is Some,
        spec_parse_i64(merge_field(line, 1)) is Some,
        spec_parse_i64(merge_field(line, 0)) != spec_parse_i64(merge_field(line, 1)),
    ensures
        ({
            let old_id = spec_parse_i64(merge_field(line, 0))->Some_0 as int;
            let new_id = spec_parse_i64(merge_field(line, 1))->Some_0 as int;
            let step = spec_merge_row(line, taxids, dep);
            &&& step.0
            &&& taxids.contains(old_id) ==> !step.1.contains(old_id) && step.1.contains(new_id)
                && step.2 == dep.insert(old_id, spec_parse_i64(merge_field(line, 1))->Some_0)
            &&& !taxids.contains(old_id) ==> step.1 == taxids && step.2 == dep
        }),
{
}

/// The lineage parser writes only under IDs of the working set: a record
/// keyed outside it is exactly what it was before the pass.
pub proof fn lemma_populate_frame(
    lines: Seq<Seq<char>>,
    taxids: Set<int>,
    dep: Map<int, i64>,
    m: Map<int, EntryView>,
    k: int,
)
    requires
        !taxids.contains(k),
    ensures
        spec_populate(lines, taxids, dep, m).1.contains_key(k) == m.contains_key(k),
        m.contains_key(k) ==> spec_populate(lines, taxids, dep, m).1[k] == m[k],
    decreases lines.len(),
{
    if lines.len() > 0 {
        let step = spec_tax_row(lines[0], taxids, dep, m);
        if step.0 {
            lemma_populate_frame(lines.drop_first(), taxids, dep, step.1, k);
        }
    }
}

/// A later build touches no record whose ID lies outside that build's
/// resolved working set: run against an already-populated mapping, it
/// leaves every such prior record exactly as it was and adds records only
/// under IDs of its resolved set.
pub proof fn lemma_build_preserves_unrelated(
    taxdump: Seq<char>,
    merged: Seq<char>,
    taxids: Set<int>,
    dep: Map<int, i64>,
    m: Map<int, EntryView>,
    k: int,
)
    requires
        !spec_build(taxdump, merged, taxids, dep, m).1.contains(k),
    ensures
        spec_build(taxdump, merged, taxids, dep, m).3.contains_key(k) == m.contains_key(k),
        m.contains_key(k) ==> spec_build(taxdump, merged, taxids, dep, m).3[k] == m[k],
{
    let res = spec_build(taxdump, merged, taxids, dep, m);
    let r1 = spec_resolve(spec_lines(merged), taxids, dep);
    if r1.0 {
        let r2 = spec_populate(spec_lines(taxdump), r1.1, r1.2, m);
        assert(res == (r2.0, r1.1, r1.2, r2.1));
        lemma_populate_frame(spec_lines(taxdump), r1.1, r1.2, m, k);
    } else {
        assert(res == (false, r1.1, r1.2, m));
    }
}

/// Every part `spec_splitn` yields keeps avoiding a character the whole
/// string avoids.
pub proof fn lemma_splitn_no_char(s: Seq<char>, n: nat, sep: char, c: char)
    requires
        no_char(s, c),
    ensures
        forall|j: int|
            0 <= j < spec_splitn(s, n, sep).len() ==> no_char(
                #[trigger] spec_splitn(s, n, sep)[j],
                c,
            ),
    decreases n,
{
    if n > 1 {
        lemma_find_char_from(s, sep, 0);
        let i = find_char_from(s, sep, 0);
        if i < s.len() {
            let rest = s.subrange(i + 1 as int, s.len() as int);
            lemma_no_char_subrange(s, c, i + 1 as int, s.len() as int);
            lemma_no_char_subrange(s, c, 0, i as int);
            lemma_splitn_no_char(rest, (n - 1) as nat, sep, c);
            assert forall|j: int|
                0 <= j < spec_splitn(s, n, sep).len() implies no_char(
                #[trigger] spec_splitn(s, n, sep)[j],
                c,
            ) by {
                if j > 0 {
                    assert(spec_splitn(s, n, sep)[j] == spec_splitn(rest, (n - 1) as nat, sep)[j
                        - 1]);
                }
            }
        }
    }
}

/// Every field of a single-line row is free of newlines, so the record it
/// denotes can stand in the line-oriented cache document.
pub proof fn lemma_row_entry_line_safe(id: i64, line: Seq<char>)
    requires
        no_char(line, '\n'),
    ensures
        entry_line_safe(spec_row_entry(id, line)),
{
    lemma_trim_no_char(line, '\n');
    lemma_splitn_no_char(spec_trim(line), 11, '|', '\n');
    assert forall|i: int| 0 <= i < 11 implies no_char(tax_field(line, i), '\n') by {
        let parts = spec_splitn(spec_trim(line), 11, '|');
        if 0 <= i < parts.len() {
            lemma_trim_no_char(parts[i], '\n');
        }
    }
    lemma_last_token_no_char(tax_field(line, 2), '\n');
}

/// Each line `spec_lines` yields is free of newlines.
pub proof fn lemma_lines_no_newline(s: Seq<char>)
    ensures
        forall|j: int|
            0 <= j < spec_lines(s).len() ==> no_char(#[trigger] spec_lines(s)[j], '\n'),
{
    if s.len() > 0 {
        lemma_split_basics(s, '\n');
    }
}

/// A parser pass over newline-free lines keeps every record in the mapping
/// fit for the line-oriented cache document.
pub proof fn lemma_populate_line_safe(
    lines: Seq<Seq<char>>,
    taxids: Set<int>,
    dep: Map<int, i64>,
    m: Map<int, EntryView>,
)
    requires
        forall|j: int| 0 <= j < lines.len() ==> no_char(#[trigger] lines[j], '\n'),
        forall|k: int| m.contains_key(k) ==> entry_line_safe(#[trigger] m[k]),
    ensures
        forall|k: int|
            spec_populate(lines, taxids, dep, m).1.contains_key(k) ==> entry_line_safe(
                #[trigger] spec_populate(lines, taxids, dep, m).1[k],
            ),
    decreases lines.len(),
{
    if lines.len() > 0 {
        let step = spec_tax_row(lines[0], taxids, dep, m);
        match spec_parse_i64(tax_field(lines[0], 0)) {
            Option::None => {},
            Option::Some(id0) => {
                let id = if dep.contains_key(id0 as int) {
                    dep[id0 as int]
                } else {
                    id0
                };
                lemma_row_entry_line_safe(id, lines[0]);
            },
        }
        if step.0 {
            assert forall|k: int| step.1.contains_key(k) implies entry_line_safe(
                #[trigger] step.1[k],
            ) by {
                match spec_parse_i64(tax_field(lines[0], 0)) {
                    Option::None => {},
                    Option::Some(id0) => {
                        let id = if dep.contains_key(id0 as int) {
                            dep[id0 as int]
                        } else {
                            id0
                        };
                        if taxids.contains(id as int) && k != id as int {
                            assert(m.contains_key(k) && step.1[k] == m[k]);
                        }
                    },
                }
            }
            assert(forall|j: int|
                0 <= j < lines.drop_first().len() ==> (#[trigger] lines.drop_first()[j])
                    == lines[j + 1]);
            lemma_populate_line_safe(lines.drop_first(), taxids, dep, step.1);
            assert(spec_populate(lines, taxids, dep, m) == spec_populate(
                lines.drop_first(),
                taxids,
                dep,
                step.1,
            ));
        } else {
            assert(spec_populate(lines, taxids, dep, m) == step);
        }
    }
}

/// Normalizes one already-split field: trim it, and let an empty or missing
/// field read `"Unknown"`.
fn field_string(parts: &Vec<String>, i: usize) -> (r: String)
    ensures
        r@ == (if i < views_of(parts@).len() {
            spec_norm(spec_trim(views_of(parts@)[i as int]))
        } else {
            unknown_seq()
        }),
{
    if i < parts.len() {
        let t = trim_str(parts[i].as_str());
        if t.unicode_len() == 0 {
            let u = "Unknown".to_owned();
            proof {
                reveal_strlit("Unknown");
                assert(u@ =~= unknown_seq());
            }
            u
        } else {
            t.to_owned()
        }
    } else {
        let u = "Unknown".to_owned();
        proof {
            reveal_strlit("Unknown");
            assert(u@ =~= unknown_seq());
        }
        u
    }
}

/// Processes one merge-history row against the working set, as
/// `spec_merge_row` states it: the old ID leaves the set and the new ID
/// enters it exactly when the old ID was present, and a malformed consulted
/// ID field is a fatal parse error leaving both untouched.
pub fn process_merge_row(line: &str, taxids: &mut IdSet, deprecated_ids: &mut KvMap<i64>) -> (r:
    Result<(), ASDBTaxonError>)
    ensures
        ({
            let step = spec_merge_row(line@, old(taxids)@, old(deprecated_ids)@);
            &&& final(taxids)@ == step.1
            &&& final(deprecated_ids)@ == step.2
            &&& (r is Ok <==> step.0)
            &&& (r matches Err(e) ==> e is IntParserError)
        }),
{
    let trimmed = trim_str(line);
    let parts = splitn_str(trimmed, 3, '|');
    proof {
        assert(views_of(parts@).len() >= 1);
        assert(views_of(parts@)[0] == parts@[0]@);
    }
    let f0 = trim_str(parts[0].as_str());
    match parse_i64(f0) {
        Option::None => Err(ASDBTaxonError::IntParserError(f0.to_owned())),
        Option::Some(old_id) => {
            if !taxids.contains(old_id) {
                Ok(())
            } else {
                let f1 = if parts.len() >= 2 {
                    proof {
                        assert(views_of(parts@)[1] == parts@[1]@);
                    }
                    trim_str(parts[1].as_str())
                } else {
                    proof {
                        reveal_strlit("");
                        assert(""@ =~= Seq::<char>::empty());
                        assert(spec_trim(Seq::<char>::empty()) =~= Seq::<char>::empty());
                    }
                    ""
                };
                match parse_i64(f1) {
                    Option::None => Err(ASDBTaxonError::IntParserError(f1.to_owned())),
                    Option::Some(new_id) => {
                        deprecated_ids.insert(old_id, new_id);
                        taxids.remove(old_id);
                        taxids.insert(new_id);
                        Ok(())
                    },
                }
            }
        },
    }
}

/// The resolver pass over a whole dump text: every row applied in order,
/// stopping at the first malformed row with the earlier rows' effect kept.
pub fn populate_merged_ids(
    merged_id_dump: &str,
    taxids: &mut IdSet,
    deprecated_ids: &mut KvMap<i64>,
) -> (r: Result<(), ASDBTaxonError>)
    ensures
        ({
            let res = spec_resolve(spec_lines(merged_id_dump@), old(taxids)@, old(deprecated_ids)@);
            &&& final(taxids)@ == res.1
            &&& final(deprecated_ids)@ == res.2
            &&& (r is Ok <==> res.0)
            &&& (r matches Err(e) ==> e is IntParserError)
        }),
{
    let lines = split_to_lines(merged_id_dump);
    let n = lines.len();
    let mut i: usize = 0;
    proof {
        assert(views_of(lines@).subrange(0, n as int) =~= views_of(lines@));
    }
    loop
        invariant
            i <= n,
            n == lines@.len(),
            views_of(lines@) == spec_lines(merged_id_dump@),
            spec_resolve(spec_lines(merged_id_dump@), old(taxids)@, old(deprecated_ids)@)
                == spec_resolve(
                views_of(lines@).subrange(i as int, n as int),
                taxids@,
                deprecated_ids@,
            ),
        decreases n - i,
    {
        let ghost vs = views_of(lines@);
        if i == n {
            proof {
                assert(vs.subrange(n as int, n as int) =~= Seq::<Seq<char>>::empty());
            }
            return Ok(());
        }
        proof {
            assert(vs.subrange(i as int, n as int)[0] == vs[i as int]);
            assert(vs.subrange(i as int, n as int).drop_first() =~= vs.subrange(
                i + 1,
                n as int,
            ));
        }
        let row = process_merge_row(lines[i].as_str(), taxids, deprecated_ids);
        match row {
            Err(e) => {
                return Err(e);
            },
            Ok(()) => {
                i += 1;
            },
        }
    }
}

/// Builds the record one taxonomy row denotes.
fn build_row_entry(id: i64, parts: &Vec<String>, Ghost(line): Ghost<Seq<char>>) -> (r:
    NcbiTaxEntry)
    requires
        views_of(parts@) == spec_splitn(spec_trim(line), 11, '|'),
    ensures
        r@ == spec_row_entry(id, line),
{
    let species_col = field_string(parts, 2);
    let species = last_token(species_col.as_str()).to_owned();
    NcbiTaxEntry {
        tax_id: id,
        name: field_string(parts, 1),
        species,
        genus: field_string(parts, 3),
        family: field_string(parts, 4),
        order: field_string(parts, 5),
        class: field_string(parts, 6),
        phylum: field_string(parts, 7),
        kingdom: field_string(parts, 8),
        superkingdom: field_string(parts, 9),
    }
}

/// Processes one taxonomy row, as `spec_tax_row` states it.
pub fn process_tax_row(
    line: &str,
    taxids: &IdSet,
    deprecated_ids: &KvMap<i64>,
    mappings: &mut KvMap<NcbiTaxEntry>,
) -> (r: Result<(), ASDBTaxonError>)
    ensures
        ({
            let step = spec_tax_row(line@, taxids@, deprecated_ids@, old(mappings)@);
            &&& final(mappings)@ == step.1
            &&& (r is Ok <==> step.0)
            &&& (r matches Err(e) ==> e is IntParserError)
        }),
{
    let trimmed = trim_str(line);
    let parts = splitn_str(trimmed, 11, '|');
    let f0 = field_string(&parts, 0);
    match parse_i64(f0.as_str()) {
        Option::None => Err(ASDBTaxonError::IntParserError(f0)),
        Option::Some(id0) => {
            let id = match deprecated_ids.get(id0) {
                Option::Some(new_id) => *new_id,
                Option::None => id0,
            };
            if !taxids.contains(id) {
                Ok(())
            } else {
                let entry = build_row_entry(id, &parts, Ghost(line@));
                mappings.insert(id, entry);
                Ok(())
            }
        },
    }
}

/// The lineage-parser pass over a whole dump text: every row applied in
/// order, stopping at the first malformed row with the earlier rows' effect
/// kept.
pub fn populate_mappings(
    taxdump: &str,
    taxids: &IdSet,
    deprecated_ids: &KvMap<i64>,
    mappings: &mut KvMap<NcbiTaxEntry>,
) -> (r: Result<(), ASDBTaxonError>)
    ensures
        ({
            let res = spec_populate(spec_lines(taxdump@), taxids@, deprecated_ids@, old(mappings)@);
            &&& final(mappings)@ == res.1
            &&& (r is Ok <==> res.0)
            &&& (r matches Err(e) ==> e is IntParserError)
        }),
{
    let lines = split_to_lines(taxdump);
    let n = lines.len();
    let mut i: usize = 0;
    proof {
        assert(views_of(lines@).subrange(0, n as int) =~= views_of(lines@));
    }
    loop
        invariant
            i <= n,
            n == lines@.len(),
            views_of(lines@) == spec_lines(taxdump@),
            spec_populate(spec_lines(taxdump@), taxids@, deprecated_ids@, old(mappings)@)
                == spec_populate(
                views_of(lines@).subrange(i as int, n as int),
                taxids@,
                deprecated_ids@,
                mappings@,
            ),
        decreases n - i,
    {
        let ghost vs = views_of(lines@);
        if i == n {
            proof {
                assert(vs.subrange(n as int, n as int) =~= Seq::<Seq<char>>::empty());
            }
            return Ok(());
        }
        proof {
            assert(vs.subrange(i as int, n as int)[0] == vs[i as int]);
            assert(vs.subrange(i as int, n as int).drop_first() =~= vs.subrange(
                i + 1,
                n as int,
            ));
        }
        let row = process_tax_row(lines[i].as_str(), taxids, deprecated_ids, mappings);
        match row {
            Err(e) => {
                return Err(e);
            },
            Ok(()) => {
                i += 1;
            },
        }
    }
}

} // verus!
