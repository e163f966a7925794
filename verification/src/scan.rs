//! The reference-ID scanner: pulling the first referenced taxon ID out of
//! one corpus file's text.  The pattern is the literal `"taxon:` followed by
//! one or more digits; only the first occurrence counts, and a digit run too
//! large for an ID is silently skipped.

use vstd::prelude::*;
use crate::digits::digits_val;
use crate::digits::digits_value_capped;
use crate::digits::is_digit_char;
use crate::digits::spec_digits_ok;
use crate::digits::lemma_digits_val_nonneg;

verus! {

/// The fixed pattern prefix: a double quote, then `taxon:`.
pub open spec fn taxon_pat() -> Seq<char> {
    seq!['"', 't', 'a', 'x', 'o', 'n', ':']
}

/// The pattern matches at `i`: the prefix stands there, followed by at
/// least one digit.
pub open spec fn match_at(s: Seq<char>, i: int) -> bool {
    0 <= i && i + 8 <= s.len() && s.subrange(i, i + 7) == taxon_pat() && is_digit_char(s[i + 7])
}

/// The leftmost match position at or after `i`, if any.
pub open spec fn find_match_from(s: Seq<char>, i: nat) -> Option<nat>
    decreases s.len() - i,
    when i <= s.len()
{
    if i + 8 > s.len() {
        None
    } else if match_at(s, i as int) {
        Some(i)
    } else {
        find_match_from(s, (i + 1) as nat)
    }
}

/// The end of the maximal digit run starting at `j`.
pub open spec fn digits_end(s: Seq<char>, j: nat) -> nat
    decreases s.len() - j,
    when j <= s.len()
{
    if j < s.len() && is_digit_char(s[j as int]) {
        digits_end(s, (j + 1) as nat)
    } else {
        j
    }
}

pub proof fn lemma_digits_end(s: Seq<char>, j: nat)
    requires
        j <= s.len(),
    ensures
        j <= digits_end(s, j) <= s.len(),
        forall|k: int| j <= k < digits_end(s, j) ==> is_digit_char(s[k]),
        digits_end(s, j) < s.len() ==> !is_digit_char(s[digits_end(s, j) as int]),
    decreases s.len() - j,
{
    if j < s.len() && is_digit_char(s[j as int]) {
        lemma_digits_end(s, (j + 1) as nat);
    }
}

/// The taxon ID the scanner reads out of one file's text: the digits after
/// the first `"taxon:` occurrence, if they parse as a 64-bit ID.
pub open spec fn spec_extract_taxid(s: Seq<char>) -> Option<i64> {
    match find_match_from(s, 0) {
        None => None,
        Some(i) => {
            let j = digits_end(s, (i + 7) as nat);
            let ds = s.subrange(i + 7 as int, j as int);
            if digits_val(ds) <= i64::MAX {
                Some(digits_val(ds) as i64)
            } else {
                None
            }
        },
    }
}

fn match_tag_at(s: &str, i: usize) -> (b: bool)
    requires
        i + 8 <= s@.len(),
        s@.len() <= usize::MAX,
    ensures
        b == match_at(s@, i as int),
{
    let m = s.get_char(i) == '"' && s.get_char(i + 1) == 't' && s.get_char(i + 2) == 'a'
        && s.get_char(i + 3) == 'x' && s.get_char(i + 4) == 'o' && s.get_char(i + 5) == 'n'
        && s.get_char(i + 6) == ':' && {
        let u = s.get_char(i + 7) as u32;
        48 <= u && u <= 57
    };
    proof {
        let sub = s@.subrange(i as int, i + 7);
        assert(forall|k: int| 0 <= k < 7 ==> sub[k] == s@[i + k]);
        if m {
            assert(sub =~= taxon_pat());
        }
        if match_at(s@, i as int) {
            assert(sub == taxon_pat());
            assert(sub[0] == '"' && sub[1] == 't' && sub[2] == 'a' && sub[3] == 'x' && sub[4]
                == 'o' && sub[5] == 'n' && sub[6] == ':');
        }
    }
    m
}

/// Reads the first referenced taxon ID out of one file's text, or nothing
/// if no pattern occurrence is there or its digits overflow an ID.
pub fn extract_taxid(s: &str) -> (r: Option<i64>)
    ensures
        r == spec_extract_taxid(s@),
{
    let n = s.unicode_len();
    if n < 8 {
        return None;
    }
    let mut i: usize = 0;
    while i <= n - 8
        invariant
            n >= 8,
            i <= n - 8 + 1,
            n == s@.len(),
            find_match_from(s@, 0) == find_match_from(s@, i as nat),
        decreases n - i,
    {
        if match_tag_at(s, i) {
            let start: usize = i + 7;
            let mut j: usize = start;
            loop
                invariant
                    start <= j <= n,
                    n == s@.len(),
                    digits_end(s@, start as nat) == digits_end(s@, j as nat),
                ensures
                    start <= j <= n,
                    digits_end(s@, start as nat) == j as nat,
                decreases n - j,
            {
                if j < n {
                    let u = s.get_char(j) as u32;
                    if 48 <= u && u <= 57 {
                        j += 1;
                    } else {
                        break;
                    }
                } else {
                    break;
                }
            }
            let ds = s.substring_char(start, j);
            proof {
                lemma_digits_end(s@, start as nat);
                assert(ds@ =~= s@.subrange(start as int, j as int));
                assert(ds@.len() >= 1);
                assert(forall|k: int| 0 <= k < ds@.len() ==> is_digit_char(ds@[k]));
                lemma_digits_val_nonneg(ds@);
            }
            let parsed = digits_value_capped(ds, 0x7FFFFFFFFFFFFFFFu64);
            match parsed {
                Some(v) => {
                    return Some(v as i64);
                },
                None => {
                    proof {
                        assert(!spec_digits_ok(ds@, 0x7FFFFFFFFFFFFFFFu64));
                        assert(digits_val(ds@) > i64::MAX);
                    }
                    return None;
                },
            }
        }
        i += 1;
    }
    proof {
        assert(find_match_from(s@, i as nat) is None);
    }
    None
}

} // verus!
