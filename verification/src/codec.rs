//! The persisted cache document: a line-oriented text holding both maps,
//! written by `TaxonCache::save` and read back by `TaxonCache::load`.
//!
//! Layout, one value per line, lines joined with a newline: the format tag;
//! the deprecation-entry count; two lines (old ID, new ID) per deprecation
//! entry; the record count; eleven lines per record (key, taxon ID, then
//! the nine text fields).  Record fields never hold a newline, so nothing
//! needs escaping, and decoding undoes encoding exactly.

use vstd::prelude::*;
use crate::digits::dec_digits;
use crate::digits::spec_i64_str;
use crate::digits::spec_parse_i64;
use crate::digits::spec_parse_u64;
use crate::digits::lemma_dec_digits;
use crate::digits::lemma_digit_chars_plain;
use crate::digits::lemma_parse_i64_round_trip;
use crate::digits::lemma_parse_u64_round_trip;
use crate::kvmap::kv_fold;
use crate::strutil::no_char;
use crate::strutil::spec_join;
use crate::strutil::spec_split;
use crate::strutil::lemma_split_join;
use crate::taxa::EntryView;
use crate::taxa::NcbiTaxEntry;
use crate::taxa::entry_line_safe;

verus! {

/// The document's format tag.
pub open spec fn tag_seq() -> Seq<char> {
    seq!['t', 'a', 'x', 'o', 'n', 'c', 'a', 'c', 'h', 'e']
}

/// Two lines per deprecation entry: the old ID, then the new one.
pub open spec fn dep_lines(s: Seq<(i64, i64)>) -> Seq<Seq<char>>
    decreases s.len(),
{
    if s.len() == 0 {
        Seq::empty()
    } else {
        seq![spec_i64_str(s[0].0 as int), spec_i64_str(s[0].1 as int)] + dep_lines(s.drop_first())
    }
}

/// Eleven lines per record: key, taxon ID, then the nine text fields.
pub open spec fn rec_block(p: (i64, NcbiTaxEntry)) -> Seq<Seq<char>> {
    seq![
        spec_i64_str(p.0 as int),
        spec_i64_str(p.1.tax_id as int),
        p.1.name@,
        p.1.species@,
        p.1.genus@,
        p.1.family@,
        p.1.order@,
        p.1.class@,
        p.1.phylum@,
        p.1.kingdom@,
        p.1.superkingdom@,
    ]
}

pub open spec fn rec_lines(s: Seq<(i64, NcbiTaxEntry)>) -> Seq<Seq<char>>
    decreases s.len(),
{
    if s.len() == 0 {
        Seq::empty()
    } else {
        rec_block(s[0]) + rec_lines(s.drop_first())
    }
}

/// The whole document, as its sequence of lines.
pub open spec fn enc_lines(deps: Seq<(i64, i64)>, recs: Seq<(i64, NcbiTaxEntry)>) -> Seq<
    Seq<char>,
> {
    seq![tag_seq(), dec_digits(deps.len())] + dep_lines(deps) + seq![dec_digits(recs.len())]
        + rec_lines(recs)
}

/// Reads `cnt` deprecation entries starting at line `i`, returning the
/// accumulated map and the next line index.
pub open spec fn dec_deps(lines: Seq<Seq<char>>, i: int, cnt: nat, acc: Map<int, i64>) -> Option<
    (Map<int, i64>, int),
>
    decreases cnt,
{
    if cnt == 0 {
        Some((acc, i))
    } else if i < 0 || i + 2 > lines.len() {
        None
    } else {
        match (spec_parse_i64(lines[i]), spec_parse_i64(lines[i + 1])) {
            (Some(old_id), Some(new_id)) => dec_deps(
                lines,
                i + 2,
                (cnt - 1) as nat,
                acc.insert(old_id as int, new_id),
            ),
            _ => None,
        }
    }
}

/// Reads one record's eleven lines starting at line `i`.
pub open spec fn dec_entry(lines: Seq<Seq<char>>, i: int) -> Option<(i64, EntryView)> {
    if i < 0 || i + 11 > lines.len() {
        None
    } else {
        match (spec_parse_i64(lines[i]), spec_parse_i64(lines[i + 1])) {
            (Some(key), Some(tid)) => Some(
                (
                    key,
                    EntryView {
                        tax_id: tid as int,
                        name: lines[i + 2],
                        species: lines[i + 3],
                        genus: lines[i + 4],
                        family: lines[i + 5],
                        order: lines[i + 6],
                        class: lines[i + 7],
                        phylum: lines[i + 8],
                        kingdom: lines[i + 9],
                        superkingdom: lines[i + 10],
                    },
                ),
            ),
            _ => None,
        }
    }
}

/// Reads `cnt` records starting at line `i`.
pub open spec fn dec_recs(lines: Seq<Seq<char>>, i: int, cnt: nat, acc: Map<int, EntryView>) -> Option<
    (Map<int, EntryView>, int),
>
    decreases cnt,
{
    if cnt == 0 {
        Some((acc, i))
    } else {
        match dec_entry(lines, i) {
            None => None,
            Some((key, e)) => dec_recs(lines, i + 11, (cnt - 1) as nat, acc.insert(key as int, e)),
        }
    }
}

/// What `load` accepts: the two maps a well-formed document denotes, or
/// nothing for a malformed one.
pub open spec fn spec_decode(doc: Seq<char>) -> Option<(Map<int, i64>, Map<int, EntryView>)> {
    let lines = spec_split(doc, '\n');
    if lines.len() < 2 || lines[0] != tag_seq() {
        None
    } else {
        match spec_parse_u64(lines[1]) {
            None => None,
            Some(dcount) => match dec_deps(lines, 2, dcount as nat, Map::empty()) {
                None => None,
                Some((dep, i)) => {
                    if i >= lines.len() {
                        None
                    } else {
                        match spec_parse_u64(lines[i]) {
                            None => None,
                            Some(rcount) => match dec_recs(
                                lines,
                                i + 1,
                                rcount as nat,
                                Map::empty(),
                            ) {
                                None => None,
                                Some((m, j)) => {
                                    if j == lines.len() {
                                        Some((dep, m))
                                    } else {
                                        None
                                    }
                                },
                            },
                        }
                    }
                },
            },
        }
    }
}

pub proof fn lemma_i64_str_no_newline(v: int)
    ensures
        no_char(spec_i64_str(v), '\n'),
{
    if v >= 0 {
        lemma_dec_digits(v as nat);
        lemma_digit_chars_plain(dec_digits(v as nat));
    } else {
        lemma_dec_digits((-v) as nat);
        lemma_digit_chars_plain(dec_digits((-v) as nat));
        assert forall|k: int| 0 <= k < spec_i64_str(v).len() implies spec_i64_str(v)[k]
            != '\n' by {
            if k > 0 {
                assert(spec_i64_str(v)[k] == dec_digits((-v) as nat)[k - 1]);
            }
        }
    }
}

pub proof fn lemma_dep_lines_shape(s: Seq<(i64, i64)>)
    ensures
        dep_lines(s).len() == 2 * s.len(),
        forall|j: int|
            0 <= j < s.len() ==> dep_lines(s)[2 * j] == spec_i64_str((#[trigger] s[j]).0 as int)
                && dep_lines(s)[2 * j + 1] == spec_i64_str(s[j].1 as int),
        forall|j: int| 0 <= j < dep_lines(s).len() ==> no_char(#[trigger] dep_lines(s)[j], '\n'),
    decreases s.len(),
{
    if s.len() > 0 {
        lemma_dep_lines_shape(s.drop_first());
        lemma_i64_str_no_newline(s[0].0 as int);
        lemma_i64_str_no_newline(s[0].1 as int);
        assert(forall|a: int|
            0 <= a < s.drop_first().len() ==> (#[trigger] s.drop_first()[a]) == s[a + 1]);
        assert forall|j: int|
            0 <= j < s.len() implies dep_lines(s)[2 * j] == spec_i64_str(
            (#[trigger] s[j]).0 as int,
        ) && dep_lines(s)[2 * j + 1] == spec_i64_str(s[j].1 as int) by {
            if j == 0 {
                assert(dep_lines(s)[0] == spec_i64_str(s[0].0 as int));
                assert(dep_lines(s)[1] == spec_i64_str(s[0].1 as int));
            } else {
                assert(s.drop_first()[j - 1] == s[j]);
                assert(dep_lines(s)[2 * j] == dep_lines(s.drop_first())[2 * (j - 1)]);
                assert(dep_lines(s)[2 * j + 1] == dep_lines(s.drop_first())[2 * (j - 1) + 1]);
                assert(dep_lines(s.drop_first())[2 * (j - 1)] == spec_i64_str(
                    s.drop_first()[j - 1].0 as int,
                ));
            }
        }
    }
}

pub proof fn lemma_rec_lines_shape(s: Seq<(i64, NcbiTaxEntry)>)
    requires
        forall|j: int| 0 <= j < s.len() ==> entry_line_safe((#[trigger] s[j]).1@),
    ensures
        rec_lines(s).len() == 11 * s.len(),
        forall|j: int, t: int|
            0 <= j < s.len() && 0 <= t < 11 ==> rec_lines(s)[11 * j + t] == #[trigger] rec_block(
                s[j],
            )[t],
        forall|j: int| 0 <= j < rec_lines(s).len() ==> no_char(#[trigger] rec_lines(s)[j], '\n'),
    decreases s.len(),
{
    if s.len() > 0 {
        assert(forall|a: int|
            0 <= a < s.drop_first().len() ==> (#[trigger] s.drop_first()[a]) == s[a + 1]);
        lemma_rec_lines_shape(s.drop_first());
        lemma_i64_str_no_newline(s[0].0 as int);
        lemma_i64_str_no_newline(s[0].1.tax_id as int);
        assert(entry_line_safe(s[0].1@));
        assert forall|j: int, t: int|
            0 <= j < s.len() && 0 <= t < 11 implies rec_lines(s)[11 * j + t] == #[trigger] rec_block(
            s[j],
        )[t] by {
            if j == 0 {
                assert(rec_lines(s)[t] == rec_block(s[0])[t]);
            } else {
                assert(s.drop_first()[j - 1] == s[j]);
                assert(rec_lines(s)[11 * j + t] == rec_lines(s.drop_first())[11 * (j - 1) + t]);
                assert(rec_lines(s.drop_first())[11 * (j - 1) + t] == rec_block(
                    s.drop_first()[j - 1],
                )[t]);
            }
        }
        assert forall|j: int|
            0 <= j < rec_lines(s).len() implies no_char(#[trigger] rec_lines(s)[j], '\n') by {
            if j < 11 {
                assert(rec_lines(s)[j] == rec_block(s[0])[j]);
            } else {
                assert(rec_lines(s)[j] == rec_lines(s.drop_first())[j - 11]);
            }
        }
    }
}

/// Appending one entry appends its two lines.
pub proof fn lemma_dep_lines_snoc(s: Seq<(i64, i64)>, p: (i64, i64))
    ensures
        dep_lines(s.push(p)) == dep_lines(s) + seq![
            spec_i64_str(p.0 as int),
            spec_i64_str(p.1 as int),
        ],
    decreases s.len(),
{
    if s.len() == 0 {
        assert(s.push(p).drop_first() =~= Seq::<(i64, i64)>::empty());
        assert(s.push(p)[0] == p);
        assert(dep_lines(s.push(p)) == seq![
            spec_i64_str(p.0 as int),
            spec_i64_str(p.1 as int),
        ] + dep_lines(s.push(p).drop_first()));
        assert(dep_lines(Seq::<(i64, i64)>::empty()) == Seq::<Seq<char>>::empty());
        assert(dep_lines(s) == Seq::<Seq<char>>::empty());
        assert(dep_lines(s.push(p)) =~= dep_lines(s) + seq![
            spec_i64_str(p.0 as int),
            spec_i64_str(p.1 as int),
        ]);
    } else {
        assert(s.push(p)[0] == s[0]);
        assert(s.push(p).drop_first() =~= s.drop_first().push(p));
        lemma_dep_lines_snoc(s.drop_first(), p);
        let block0 = seq![spec_i64_str(s[0].0 as int), spec_i64_str(s[0].1 as int)];
        assert(dep_lines(s.push(p)) == block0 + dep_lines(s.drop_first().push(p)));
        assert(dep_lines(s) == block0 + dep_lines(s.drop_first()));
        assert(block0 + (dep_lines(s.drop_first()) + seq![
            spec_i64_str(p.0 as int),
            spec_i64_str(p.1 as int),
        ]) =~= dep_lines(s) + seq![spec_i64_str(p.0 as int), spec_i64_str(p.1 as int)]);
    }
}

/// Appending one record appends its eleven lines.
pub proof fn lemma_rec_lines_snoc(s: Seq<(i64, NcbiTaxEntry)>, p: (i64, NcbiTaxEntry))
    ensures
        rec_lines(s.push(p)) == rec_lines(s) + rec_block(p),
    decreases s.len(),
{
    if s.len() == 0 {
        assert(s.push(p).drop_first() =~= Seq::<(i64, NcbiTaxEntry)>::empty());
        assert(s.push(p)[0] == p);
        assert(rec_lines(s.push(p)) == rec_block(p) + rec_lines(s.push(p).drop_first()));
        assert(rec_lines(Seq::<(i64, NcbiTaxEntry)>::empty()) == Seq::<Seq<char>>::empty());
        assert(rec_lines(s) == Seq::<Seq<char>>::empty());
        assert(rec_lines(s.push(p)) =~= rec_lines(s) + rec_block(p));
    } else {
        assert(s.push(p)[0] == s[0]);
        assert(s.push(p).drop_first() =~= s.drop_first().push(p));
        lemma_rec_lines_snoc(s.drop_first(), p);
        assert(rec_lines(s.push(p)) == rec_block(s[0]) + rec_lines(s.drop_first().push(p)));
        assert(rec_lines(s) == rec_block(s[0]) + rec_lines(s.drop_first()));
        assert(rec_block(s[0]) + (rec_lines(s.drop_first()) + rec_block(p)) =~= rec_lines(s)
            + rec_block(p));
    }
}

proof fn lemma_dec_deps_inverse(lines: Seq<Seq<char>>, i: int, deps: Seq<(i64, i64)>, acc: Map<
    int,
    i64,
>)
    requires
        0 <= i,
        i + 2 * deps.len() <= lines.len(),
        forall|j: int| 0 <= j < 2 * deps.len() ==> lines[i + j] == dep_lines(deps)[j],
    ensures
        dec_deps(lines, i, deps.len() as nat, acc) == Some(
            (kv_fold(acc, deps), i + 2 * deps.len()),
        ),
    decreases deps.len(),
{
    if deps.len() > 0 {
        lemma_dep_lines_shape(deps);
        assert(lines[i] == spec_i64_str(deps[0].0 as int));
        assert(lines[i + 1] == spec_i64_str(deps[0].1 as int));
        lemma_parse_i64_round_trip(deps[0].0);
        lemma_parse_i64_round_trip(deps[0].1);
        let rest = deps.drop_first();
        lemma_dep_lines_shape(rest);
        assert forall|j: int| 0 <= j < 2 * rest.len() implies lines[i + 2 + j] == dep_lines(
            rest,
        )[j] by {
            assert(dep_lines(deps)[j + 2] == dep_lines(rest)[j]);
            assert(lines[i + (j + 2)] == dep_lines(deps)[j + 2]);
        }
        lemma_dec_deps_inverse(lines, i + 2, rest, acc.insert(deps[0].0 as int, deps[0].1));
    }
}

proof fn lemma_dec_recs_inverse(
    lines: Seq<Seq<char>>,
    i: int,
    recs: Seq<(i64, NcbiTaxEntry)>,
    acc: Map<int, EntryView>,
)
    requires
        0 <= i,
        i + 11 * recs.len() <= lines.len(),
        forall|j: int| 0 <= j < recs.len() ==> entry_line_safe((#[trigger] recs[j]).1@),
        forall|j: int| 0 <= j < 11 * recs.len() ==> lines[i + j] == rec_lines(recs)[j],
    ensures
        dec_recs(lines, i, recs.len() as nat, acc) == Some(
            (kv_fold(acc, recs), i + 11 * recs.len()),
        ),
    decreases recs.len(),
{
    if recs.len() > 0 {
        lemma_rec_lines_shape(recs);
        assert forall|t: int| 0 <= t < 11 implies lines[i + t] == rec_block(recs[0])[t] by {
            assert(rec_lines(recs)[11 * 0 + t] == rec_block(recs[0])[t]);
            assert(lines[i + t] == rec_lines(recs)[t]);
        }
        lemma_parse_i64_round_trip(recs[0].0);
        lemma_parse_i64_round_trip(recs[0].1.tax_id);
        assert(dec_entry(lines, i) == Some((recs[0].0, recs[0].1@)));
        let rest = recs.drop_first();
        assert(forall|a: int|
            0 <= a < rest.len() ==> (#[trigger] rest[a]) == recs[a + 1]);
        lemma_rec_lines_shape(rest);
        assert forall|j: int| 0 <= j < 11 * rest.len() implies lines[i + 11 + j] == rec_lines(
            rest,
        )[j] by {
            assert(rec_lines(recs)[j + 11] == rec_lines(rest)[j]);
            assert(lines[i + (j + 11)] == rec_lines(recs)[j + 11]);
        }
        lemma_dec_recs_inverse(lines, i + 11, rest, acc.insert(recs[0].0 as int, recs[0].1@));
    }
}

/// Decoding undoes encoding: the document built from any entry listing
/// denotes exactly the two maps those entries fold to.
pub proof fn lemma_encode_decode(deps: Seq<(i64, i64)>, recs: Seq<(i64, NcbiTaxEntry)>)
    requires
        deps.len() <= u64::MAX,
        recs.len() <= u64::MAX,
        forall|j: int| 0 <= j < recs.len() ==> entry_line_safe((#[trigger] recs[j]).1@),
    ensures
        spec_decode(spec_join(enc_lines(deps, recs), '\n')) == Some(
            (
                kv_fold(Map::<int, i64>::empty(), deps),
                kv_fold(Map::<int, EntryView>::empty(), recs),
            ),
        ),
{
    let all = enc_lines(deps, recs);
    lemma_dep_lines_shape(deps);
    lemma_rec_lines_shape(recs);
    let dn = deps.len() as int;
    let rn = recs.len() as int;
    assert(all.len() == 3 + 2 * dn + 11 * rn);
    lemma_dec_digits(deps.len());
    lemma_dec_digits(recs.len());
    lemma_digit_chars_plain(dec_digits(deps.len()));
    lemma_digit_chars_plain(dec_digits(recs.len()));
    assert forall|j: int| 0 <= j < all.len() implies no_char(#[trigger] all[j], '\n') by {
        if j == 0 {
        } else if j == 1 {
        } else if j < 2 + 2 * dn {
            assert(all[j] == dep_lines(deps)[j - 2]);
        } else if j == 2 + 2 * dn {
            assert(all[j] == dec_digits(recs.len()));
        } else {
            assert(all[j] == rec_lines(recs)[j - 3 - 2 * dn]);
        }
    }
    lemma_split_join(all, '\n');
    let lines = spec_split(spec_join(all, '\n'), '\n');
    assert(lines == all);
    assert(lines[0] == tag_seq());
    assert(lines[1] == dec_digits(deps.len()));
    lemma_parse_u64_round_trip(deps.len() as u64);
    assert(dec_digits((deps.len() as u64) as nat) == dec_digits(deps.len()));
    assert(spec_parse_u64(lines[1]) == Some(deps.len() as u64));
    assert forall|j: int| 0 <= j < 2 * dn implies lines[2 + j] == dep_lines(deps)[j] by {
        assert(all[2 + j] == dep_lines(deps)[j]);
    }
    lemma_dec_deps_inverse(lines, 2, deps, Map::empty());
    let inext: int = 2 + 2 * dn;
    assert(lines[inext] == dec_digits(recs.len()));
    lemma_parse_u64_round_trip(recs.len() as u64);
    assert(dec_digits((recs.len() as u64) as nat) == dec_digits(recs.len()));
    assert(spec_parse_u64(lines[inext]) == Some(recs.len() as u64));
    assert forall|j: int| 0 <= j < 11 * rn implies lines[inext + 1 + j] == rec_lines(recs)[j] by {
        assert(all[3 + 2 * dn + j] == rec_lines(recs)[j]);
    }
    lemma_dec_recs_inverse(lines, inext + 1, recs, Map::empty());
}

} // verus!
