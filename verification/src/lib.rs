//! A local lookup cache mapping NCBI taxonomy IDs to denormalized lineage
//! records, sourced from NCBI taxonomy dump files and restricted to the taxon
//! IDs referenced by a corpus of annotation records.
//!
//! The cache is built in passes: the reference-ID scanner collects the
//! working set of taxon IDs out of corpus texts, the deprecation resolver
//! redirects merged IDs, and the lineage parser assembles the ID-to-record
//! mapping.  The whole cache round-trips through a line-oriented document.

use vstd::prelude::*;

pub mod codec;
pub mod digits;
pub mod errors;
pub mod idset;
pub mod kvmap;
pub mod passes;
pub mod scan;
pub mod strutil;
pub mod taxa;

pub use passes::populate_merged_ids;
pub use passes::populate_mappings;

verus! {

use crate::errors::ASDBTaxonError;
use crate::idset::IdSet;
use crate::kvmap::KvMap;
use crate::passes::spec_build;
use crate::passes::lemma_lines_no_newline;
use crate::passes::lemma_populate_line_safe;
use crate::strutil::spec_lines;
use crate::taxa::EntryView;
use crate::taxa::NcbiTaxEntry;
use crate::taxa::entry_line_safe;
use crate::scan::extract_taxid;
use crate::scan::spec_extract_taxid;

/// The cache: the accumulated deprecation map and the ID-to-record mapping.
pub struct TaxonCache {
    pub deprecated_ids: KvMap<i64>,
    pub mappings: KvMap<NcbiTaxEntry>,
}

impl TaxonCache {
    /// Every record held is fit for the line-oriented cache document; this
    /// holds of every cache that `new`, `initialise` and `load` hand out.
    pub open spec fn wf(self) -> bool {
        forall|k: int|
            self.mappings@.contains_key(k) ==> entry_line_safe(#[trigger] self.mappings@[k])
    }

    /// An empty cache.
    pub fn new() -> (r: TaxonCache)
        ensures
            r.deprecated_ids@ == Map::<int, i64>::empty(),
            r.mappings@ == Map::<int, EntryView>::empty(),
            r.wf(),
    {
        TaxonCache { deprecated_ids: KvMap::new(), mappings: KvMap::new() }
    }

    /// One build: resolve the merge-history dump against the working set,
    /// then assemble lineage records for every taxonomy row whose redirected
    /// ID the set holds.  A malformed ID field in either dump is a fatal
    /// parse error; everything the earlier rows did stays applied.
    pub fn initialise(&mut self, taxdump: &str, merged_id_dump: &str, taxids: &mut IdSet) -> (r:
        Result<(), ASDBTaxonError>)
        ensures
            ({
                let res = spec_build(
                    taxdump@,
                    merged_id_dump@,
                    old(taxids)@,
                    old(self).deprecated_ids@,
                    old(self).mappings@,
                );
                &&& final(taxids)@ == res.1
                &&& final(self).deprecated_ids@ == res.2
                &&& final(self).mappings@ == res.3
                &&& (r is Ok <==> res.0)
                &&& (r matches Err(e) ==> e is IntParserError)
            }),
            old(self).wf() ==> final(self).wf(),
    {
        let r1 = crate::passes::populate_merged_ids(
            merged_id_dump,
            taxids,
            &mut self.deprecated_ids,
        );
        match r1 {
            Err(e) => Err(e),
            Ok(()) => {
                let ghost dep = self.deprecated_ids@;
                let ghost set_now = taxids@;
                let r2 = crate::passes::populate_mappings(
                    taxdump,
                    taxids,
                    &self.deprecated_ids,
                    &mut self.mappings,
                );
                proof {
                    if old(self).wf() {
                        lemma_lines_no_newline(taxdump@);
                        lemma_populate_line_safe(
                            spec_lines(taxdump@),
                            set_now,
                            dep,
                            old(self).mappings@,
                        );
                    }
                }
                r2
            },
        }
    }

    /// Writes the whole cache as one line-oriented document.  Reading the
    /// result back yields exactly the two maps held now: persist then load
    /// reproduces an equal cache.
    pub fn save(&self) -> (doc: String)
        requires
            self.wf(),
        ensures
            crate::codec::spec_decode(doc@) == Some((self.deprecated_ids@, self.mappings@)),
    {
        let dep_entries = self.deprecated_ids.entries();
        let rec_entries = self.mappings.entries();
        proof {
            crate::kvmap::lemma_entries_view::<i64>(dep_entries@);
            crate::kvmap::lemma_entries_view::<NcbiTaxEntry>(rec_entries@);
        }
        let mut lines: Vec<String> = Vec::new();
        lines.push("taxoncache".to_owned());
        lines.push(crate::digits::u64_to_string(dep_entries.len() as u64));
        let ghost head = seq![
            crate::codec::tag_seq(),
            crate::digits::dec_digits(dep_entries@.len()),
        ];
        proof {
            reveal_strlit("taxoncache");
            assert(lines@[0]@ =~= crate::codec::tag_seq());
            assert(crate::strutil::views_of(lines@) =~= head + crate::codec::dep_lines(
                dep_entries@.subrange(0, 0),
            ));
        }
        let dn = dep_entries.len();
        let mut i: usize = 0;
        while i < dn
            invariant
                i <= dn,
                dn == dep_entries@.len(),
                crate::strutil::views_of(lines@) == head + crate::codec::dep_lines(
                    dep_entries@.subrange(0, i as int),
                ),
            decreases dn - i,
        {
            let ghost pre = dep_entries@.subrange(0, i as int);
            let ghost lines0 = lines@;
            let a = crate::digits::i64_to_string(dep_entries[i].0);
            let b = crate::digits::i64_to_string(dep_entries[i].1);
            let ghost av = a@;
            let ghost bv = b@;
            lines.push(a);
            lines.push(b);
            proof {
                crate::codec::lemma_dep_lines_snoc(pre, dep_entries@[i as int]);
                assert(pre.push(dep_entries@[i as int]) =~= dep_entries@.subrange(0, i + 1));
                assert(crate::strutil::views_of(lines@) =~= crate::strutil::views_of(lines0)
                    + seq![av, bv]);
                assert(head + (crate::codec::dep_lines(pre) + seq![av, bv]) =~= head
                    + crate::codec::dep_lines(dep_entries@.subrange(0, i + 1)));
                assert(crate::strutil::views_of(lines0) + seq![av, bv] =~= head + (
                crate::codec::dep_lines(pre) + seq![av, bv]));
            }
            i += 1;
        }
        proof {
            assert(dep_entries@.subrange(0, dn as int) =~= dep_entries@);
        }
        lines.push(crate::digits::u64_to_string(rec_entries.len() as u64));
        let ghost mid = head + crate::codec::dep_lines(dep_entries@) + seq![
            crate::digits::dec_digits(rec_entries@.len()),
        ];
        proof {
            assert(crate::strutil::views_of(lines@) =~= mid + crate::codec::rec_lines(
                rec_entries@.subrange(0, 0),
            ));
        }
        let rn = rec_entries.len();
        let mut j: usize = 0;
        while j < rn
            invariant
                j <= rn,
                rn == rec_entries@.len(),
                crate::strutil::views_of(lines@) == mid + crate::codec::rec_lines(
                    rec_entries@.subrange(0, j as int),
                ),
            decreases rn - j,
        {
            let ghost pre = rec_entries@.subrange(0, j as int);
            let ghost lines0 = lines@;
            let e = &rec_entries[j].1;
            lines.push(crate::digits::i64_to_string(rec_entries[j].0));
            lines.push(crate::digits::i64_to_string(e.tax_id));
            lines.push(e.name.clone());
            lines.push(e.species.clone());
            lines.push(e.genus.clone());
            lines.push(e.family.clone());
            lines.push(e.order.clone());
            lines.push(e.class.clone());
            lines.push(e.phylum.clone());
            lines.push(e.kingdom.clone());
            lines.push(e.superkingdom.clone());
            proof {
                let block = crate::codec::rec_block(rec_entries@[j as int]);
                crate::codec::lemma_rec_lines_snoc(pre, rec_entries@[j as int]);
                assert(pre.push(rec_entries@[j as int]) =~= rec_entries@.subrange(0, j + 1));
                assert(crate::strutil::views_of(lines@) =~= crate::strutil::views_of(lines0)
                    + block);
                assert(mid + (crate::codec::rec_lines(pre) + block) =~= mid
                    + crate::codec::rec_lines(rec_entries@.subrange(0, j + 1)));
                assert(crate::strutil::views_of(lines0) + block =~= mid + (
                crate::codec::rec_lines(pre) + block));
            }
            j += 1;
        }
        proof {
            assert(rec_entries@.subrange(0, rn as int) =~= rec_entries@);
            assert(crate::strutil::views_of(lines@) =~= crate::codec::enc_lines(
                dep_entries@,
                rec_entries@,
            ));
            assert forall|a: int| 0 <= a < rec_entries@.len() implies entry_line_safe(
                (#[trigger] rec_entries@[a]).1@,
            ) by {
                assert(self.mappings@[rec_entries@[a].0 as int] == rec_entries@[a].1@);
            }
            crate::codec::lemma_encode_decode(dep_entries@, rec_entries@);
        }
        crate::strutil::join_with(&lines, '\n')
    }

    /// Reads a document `save` wrote, replacing both maps; the record count
    /// comes back.  A malformed document is a parse error that leaves the
    /// cache untouched.
    #[verifier::loop_isolation(false)]
    pub fn load(&mut self, input: &str) -> (r: Result<usize, ASDBTaxonError>)
        ensures
            match crate::codec::spec_decode(input@) {
                Some(dm) => r is Ok && r->Ok_0 == dm.1.len() && final(self).deprecated_ids@ == dm.0
                    && final(self).mappings@ == dm.1 && final(self).wf(),
                None => r is Err && r->Err_0 is JSONParserError && final(self).deprecated_ids@ == old(self).deprecated_ids@ && final(self).mappings@ == old(self).mappings@,
            },
    {
        let lines = crate::strutil::split_str(input, '\n');
        let ghost vs = crate::strutil::views_of(lines@);
        proof {
            crate::strutil::lemma_split_basics(input@, '\n');
        }
        let nl = lines.len();
        if nl < 2 {
            return Err(ASDBTaxonError::JSONParserError("truncated cache document".to_owned()));
        }
        let tag = "taxoncache".to_owned();
        proof {
            reveal_strlit("taxoncache");
            assert(tag@ =~= crate::codec::tag_seq());
            assert(vs[0] == lines@[0]@);
            assert(vs[1] == lines@[1]@);
        }
        if !(lines[0] == tag) {
            proof {
                assert(vs[0] != crate::codec::tag_seq());
            }
            return Err(ASDBTaxonError::JSONParserError("unrecognized cache document".to_owned()));
        }
        let dcount = match crate::digits::parse_u64(lines[1].as_str()) {
            Option::None => {
                return Err(
                    ASDBTaxonError::JSONParserError("malformed deprecation count".to_owned()),
                );
            },
            Option::Some(d) => d,
        };
        let mut dep: KvMap<i64> = KvMap::new();
        let mut i: usize = 2;
        let mut done: u64 = 0;
        while done < dcount
            invariant
                2 <= i <= nl,
                nl == vs.len(),
                vs == crate::strutil::views_of(lines@),
                done <= dcount,
                crate::codec::dec_deps(vs, 2, dcount as nat, Map::empty())
                    == crate::codec::dec_deps(vs, i as int, (dcount - done) as nat, dep@),
            decreases dcount - done,
        {
            if nl - i < 2 {
                return Err(
                    ASDBTaxonError::JSONParserError("truncated deprecation entries".to_owned()),
                );
            }
            proof {
                assert(vs[i as int] == lines@[i as int]@);
                assert(vs[i + 1] == lines@[i + 1]@);
            }
            let old_id = match crate::digits::parse_i64(lines[i].as_str()) {
                Option::None => {
                    return Err(
                        ASDBTaxonError::JSONParserError("malformed deprecated ID".to_owned()),
                    );
                },
                Option::Some(v) => v,
            };
            let new_id = match crate::digits::parse_i64(lines[i + 1].as_str()) {
                Option::None => {
                    return Err(
                        ASDBTaxonError::JSONParserError("malformed redirect ID".to_owned()),
                    );
                },
                Option::Some(v) => v,
            };
            dep.insert(old_id, new_id);
            i += 2;
            done += 1;
        }
        if i >= nl {
            return Err(ASDBTaxonError::JSONParserError("truncated cache document".to_owned()));
        }
        proof {
            assert(vs[i as int] == lines@[i as int]@);
        }
        let rcount = match crate::digits::parse_u64(lines[i].as_str()) {
            Option::None => {
                return Err(ASDBTaxonError::JSONParserError("malformed record count".to_owned()));
            },
            Option::Some(rv) => rv,
        };
        let mut maps: KvMap<NcbiTaxEntry> = KvMap::new();
        let mut j: usize = i + 1;
        let mut rdone: u64 = 0;
        while rdone < rcount
            invariant
                0 <= j <= nl,
                nl == vs.len(),
                vs == crate::strutil::views_of(lines@),
                rdone <= rcount,
                crate::codec::dec_recs(vs, i + 1, rcount as nat, Map::empty())
                    == crate::codec::dec_recs(vs, j as int, (rcount - rdone) as nat, maps@),
                forall|c: int| 0 <= c < vs.len() ==> crate::strutil::no_char(#[trigger] vs[c], '\n'),
                forall|k: int|
                    maps@.contains_key(k) ==> entry_line_safe(#[trigger] maps@[k]),
            decreases rcount - rdone,
        {
            if nl - j < 11 {
                return Err(ASDBTaxonError::JSONParserError("truncated record".to_owned()));
            }
            proof {
                assert(forall|t: int| 0 <= t < 11 ==> #[trigger] vs[j + t] == lines@[j + t]@);
            }
            let key = match crate::digits::parse_i64(lines[j].as_str()) {
                Option::None => {
                    return Err(ASDBTaxonError::JSONParserError("malformed record key".to_owned()));
                },
                Option::Some(v) => v,
            };
            let tid = match crate::digits::parse_i64(lines[j + 1].as_str()) {
                Option::None => {
                    return Err(ASDBTaxonError::JSONParserError("malformed taxon ID".to_owned()));
                },
                Option::Some(v) => v,
            };
            let entry = NcbiTaxEntry {
                tax_id: tid,
                name: lines[j + 2].clone(),
                species: lines[j + 3].clone(),
                genus: lines[j + 4].clone(),
                family: lines[j + 5].clone(),
                order: lines[j + 6].clone(),
                class: lines[j + 7].clone(),
                phylum: lines[j + 8].clone(),
                kingdom: lines[j + 9].clone(),
                superkingdom: lines[j + 10].clone(),
            };
            proof {
                assert(crate::codec::dec_entry(vs, j as int) == Some((key, entry@)));
            }
            maps.insert(key, entry);
            j += 11;
            rdone += 1;
        }
        if j != nl {
            return Err(ASDBTaxonError::JSONParserError("oversized cache document".to_owned()));
        }
        self.deprecated_ids = dep;
        self.mappings = maps;
        Ok(self.mappings.len())
    }

    /// The reference-ID scanner over already-read corpus file texts, in the
    /// callers' fixed file order: the set of exactly those IDs that some
    /// file's first `"taxon:` occurrence names.
    pub fn find_taxids(&self, file_contents: &Vec<String>) -> (r: IdSet)
        ensures
            forall|x: int|
                r@.contains(x) ==> exists|k: int|
                    0 <= k < file_contents@.len() && (spec_extract_taxid(
                        #[trigger] file_contents@[k]@,
                    ) matches Some(v) && v as int == x),
            forall|k: int|
                0 <= k < file_contents@.len() && spec_extract_taxid(#[trigger] file_contents@[k]@)
                    is Some ==> r@.contains(
                    spec_extract_taxid(file_contents@[k]@)->Some_0 as int,
                ),
    {
        let mut taxids = IdSet::new();
        let n = file_contents.len();
        let mut i: usize = 0;
        while i < n
            invariant
                i <= n,
                n == file_contents@.len(),
                forall|x: int|
                    taxids@.contains(x) ==> exists|k: int|
                        0 <= k < i && (spec_extract_taxid(#[trigger] file_contents@[k]@)
                            matches Some(v) && v as int == x),
                forall|k: int|
                    0 <= k < i && spec_extract_taxid(#[trigger] file_contents@[k]@) is Some
                        ==> taxids@.contains(
                        spec_extract_taxid(file_contents@[k]@)->Some_0 as int,
                    ),
            decreases n - i,
        {
            let found = extract_taxid(file_contents[i].as_str());
            match found {
                Some(id) => {
                    taxids.insert(id);
                },
                None => {},
            }
            i += 1;
        }
        taxids
    }

    /// The read-only listing: each held ID with its record's display name,
    /// in insertion order, one pair per record.
    pub fn list(&self) -> (r: Vec<(i64, String)>)
        ensures
            r@.len() == self.mappings@.len(),
            forall|i: int|
                0 <= i < r@.len() ==> self.mappings@.contains_key((#[trigger] r@[i]).0 as int)
                    && r@[i].1@ == self.mappings@[r@[i].0 as int].name,
            forall|i: int, j: int| 0 <= i < j < r@.len() ==> (#[trigger] r@[i]).0 != (#[trigger] r@[j]).0,
    {
        let entries = self.mappings.entries();
        proof {
            crate::kvmap::lemma_entries_view::<NcbiTaxEntry>(entries@);
        }
        let mut out: Vec<(i64, String)> = Vec::new();
        let n = entries.len();
        let mut i: usize = 0;
        while i < n
            invariant
                i <= n,
                n == entries@.len(),
                crate::kvmap::unique_keys(entries@),
                crate::kvmap::kv_fold(Map::<int, EntryView>::empty(), entries@) == self.mappings@,
                self.mappings@.len() == entries@.len(),
                out@.len() == i,
                forall|a: int|
                    0 <= a < entries@.len() ==> self.mappings@.contains_key(
                        (#[trigger] entries@[a]).0 as int,
                    ) && self.mappings@[entries@[a].0 as int] == entries@[a].1@,
                forall|a: int| 0 <= a < i ==> (#[trigger] out@[a]).0 == entries@[a].0,
                forall|a: int| 0 <= a < i ==> (#[trigger] out@[a]).1@ == entries@[a].1@.name,
            decreases n - i,
        {
            let id = entries[i].0;
            let name = entries[i].1.name.clone();
            out.push((id, name));
            i += 1;
        }
        out
    }
}

} // verus!

