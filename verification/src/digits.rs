//! Decimal reading and writing of taxon IDs and entry counts, specified
//! against `Seq<char>`, with the round-trip laws the persisted-document
//! codec rests on.

use vstd::prelude::*;

verus! {

pub open spec fn is_digit_char(c: char) -> bool {
    48 <= c as u32 <= 57
}

pub open spec fn char_digit(c: char) -> int {
    c as u32 - 48
}

pub open spec fn digit_char(d: int) -> char {
    ((48 + d) as u8) as char
}

pub open spec fn all_digits(s: Seq<char>) -> bool {
    forall|k: int| 0 <= k < s.len() ==> is_digit_char(s[k])
}

/// The value of a digit string, most significant digit first.
pub open spec fn digits_val(s: Seq<char>) -> int
    decreases s.len(),
{
    if s.len() == 0 {
        0
    } else {
        digits_val(s.drop_last()) * 10 + char_digit(s.last())
    }
}

/// The canonical decimal digits of `n`: no sign, no leading zero except for
/// `n == 0` itself.
pub open spec fn dec_digits(n: nat) -> Seq<char>
    decreases n,
{
    if n < 10 {
        seq![digit_char(n as int)]
    } else {
        dec_digits(n / 10).push(digit_char((n % 10) as int))
    }
}

/// `s` is a plain digit string whose value stays within `cap`.
pub open spec fn spec_digits_ok(s: Seq<char>, cap: u64) -> bool {
    s.len() > 0 && all_digits(s) && digits_val(s) <= cap
}

/// What `str::parse::<u64>` returns, restricted to unsigned digit strings.
pub open spec fn spec_parse_u64(s: Seq<char>) -> Option<u64> {
    if spec_digits_ok(s, u64::MAX) {
        Some(digits_val(s) as u64)
    } else {
        None
    }
}

/// What `str::parse::<i64>` returns: an optional sign, then digits, and the
/// value must fit.
pub open spec fn spec_parse_i64(s: Seq<char>) -> Option<i64> {
    if s.len() == 0 {
        None
    } else {
        let signed = s[0] == '-' || s[0] == '+';
        let ds = if signed {
            s.drop_first()
        } else {
            s
        };
        if s[0] == '-' {
            if spec_digits_ok(ds, 0x8000000000000000u64) {
                Some((-digits_val(ds)) as i64)
            } else {
                None
            }
        } else {
            if spec_digits_ok(ds, 0x7FFFFFFFFFFFFFFFu64) {
                Some(digits_val(ds) as i64)
            } else {
                None
            }
        }
    }
}

/// The decimal rendering of `v`, as `i64`'s `Display` writes it.
pub open spec fn spec_i64_str(v: int) -> Seq<char> {
    if v >= 0 {
        dec_digits(v as nat)
    } else {
        seq!['-'] + dec_digits((-v) as nat)
    }
}

pub proof fn lemma_digits_val_nonneg(s: Seq<char>)
    requires
        all_digits(s),
    ensures
        digits_val(s) >= 0,
    decreases s.len(),
{
    if s.len() > 0 {
        assert(all_digits(s.drop_last())) by {
            assert(forall|k: int| 0 <= k < s.len() - 1 ==> s.drop_last()[k] == s[k]);
        }
        lemma_digits_val_nonneg(s.drop_last());
    }
}

/// A digit string is worth at least any of its prefixes.
pub proof fn lemma_digits_val_prefix_le(s: Seq<char>, i: int)
    requires
        all_digits(s),
        0 <= i <= s.len(),
    ensures
        digits_val(s.subrange(0, i)) <= digits_val(s),
    decreases s.len() - i,
{
    if i == s.len() {
        assert(s.subrange(0, i) =~= s);
    } else {
        lemma_digits_val_prefix_le(s, i + 1);
        let t = s.subrange(0, i + 1);
        assert(t.drop_last() =~= s.subrange(0, i));
        assert(all_digits(s.subrange(0, i))) by {
            assert(forall|k: int| 0 <= k < i ==> s.subrange(0, i)[k] == s[k]);
        }
        lemma_digits_val_nonneg(s.subrange(0, i));
        assert(digits_val(t) == digits_val(s.subrange(0, i)) * 10 + char_digit(s[i]));
        assert(char_digit(s[i]) >= 0);
    }
}

pub proof fn lemma_dec_digits(n: nat)
    ensures
        dec_digits(n).len() >= 1,
        all_digits(dec_digits(n)),
        digits_val(dec_digits(n)) == n,
    decreases n,
{
    if n < 10 {
        assert(digit_char(n as int) as u32 == 48 + n);
        let s = seq![digit_char(n as int)];
        assert(s.drop_last() =~= Seq::<char>::empty());
        assert(digits_val(s.drop_last()) == 0);
        assert(digits_val(s) == char_digit(digit_char(n as int)));
    } else {
        lemma_dec_digits(n / 10);
        let c = digit_char((n % 10) as int);
        assert(c as u32 == 48 + n % 10);
        let s = dec_digits(n);
        assert(s == dec_digits(n / 10).push(c));
        assert(s.drop_last() =~= dec_digits(n / 10));
        assert(s.last() == c);
        assert(digits_val(s) == digits_val(dec_digits(n / 10)) * 10 + char_digit(c));
        assert(digits_val(s) == (n / 10) * 10 + n % 10);
    }
}

/// Digits are never a sign, a separator or a newline.
pub proof fn lemma_digit_chars_plain(s: Seq<char>)
    requires
        all_digits(s),
    ensures
        forall|k: int|
            0 <= k < s.len() ==> s[k] != '\n' && s[k] != '-' && s[k] != '+' && s[k] != '|',
{
    assert forall|k: int|
        0 <= k < s.len() implies s[k] != '\n' && s[k] != '-' && s[k] != '+' && s[k]
        != '|' by {
        assert(is_digit_char(s[k]));
        assert('\n' as u32 == 10 && '-' as u32 == 45 && '+' as u32 == 43 && '|' as u32 == 124);
    }
}

/// Reading back what was written: the unsigned round trip.
pub proof fn lemma_parse_u64_round_trip(n: u64)
    ensures
        spec_parse_u64(dec_digits(n as nat)) == Some(n),
{
    lemma_dec_digits(n as nat);
}

/// Reading back what was written: the signed round trip.
pub proof fn lemma_parse_i64_round_trip(v: i64)
    ensures
        spec_parse_i64(spec_i64_str(v as int)) == Some(v),
{
    if v >= 0 {
        let s = spec_i64_str(v as int);
        lemma_dec_digits(v as nat);
        lemma_digit_chars_plain(s);
        assert(s[0] != '-' && s[0] != '+');
    } else {
        let m = (-(v as int)) as nat;
        let s = spec_i64_str(v as int);
        lemma_dec_digits(m);
        assert(s[0] == '-');
        assert(s.drop_first() =~= dec_digits(m));
        assert(m <= 0x8000000000000000u64);
    }
}

fn digit_to_char(d: u64) -> (c: char)
    requires
        d <= 9,
    ensures
        c == digit_char(d as int),
{
    ((48 + d) as u8) as char
}

/// Writes `n` in decimal.
pub fn u64_to_string(n: u64) -> (r: String)
    ensures
        r@ == dec_digits(n as nat),
    decreases n,
{
    if n < 10 {
        let mut s = String::new();
        crate::strutil::push_char(&mut s, digit_to_char(n));
        proof {
            assert(s@ =~= seq![digit_char(n as int)]);
        }
        s
    } else {
        let mut s = u64_to_string(n / 10);
        crate::strutil::push_char(&mut s, digit_to_char(n % 10));
        s
    }
}

/// Writes `v` in decimal, with a leading minus for negative values.
pub fn i64_to_string(v: i64) -> (r: String)
    ensures
        r@ == spec_i64_str(v as int),
{
    if v >= 0 {
        u64_to_string(v as u64)
    } else {
        let m: u64 = if v == i64::MIN {
            9223372036854775808u64
        } else {
            (-v) as u64
        };
        let mut s = String::new();
        crate::strutil::push_char(&mut s, '-');
        let digits = u64_to_string(m);
        s.append(digits.as_str());
        proof {
            assert(s@ =~= seq!['-'] + dec_digits(m as nat));
        }
        s
    }
}

/// The shared digit loop: the value of `s` if `s` is all digits and worth no
/// more than `cap`, and `None` otherwise.
pub fn digits_value_capped(s: &str, cap: u64) -> (r: Option<u64>)
    ensures
        spec_digits_ok(s@, cap) ==> r == Some(digits_val(s@) as u64) && 0 <= digits_val(s@) <= cap,
        !spec_digits_ok(s@, cap) ==> r is None,
{
    let n = s.unicode_len();
    if n == 0 {
        return None;
    }
    let mut acc: u128 = 0;
    let mut i: usize = 0;
    while i < n
        invariant
            i <= n,
            n == s@.len(),
            all_digits(s@.subrange(0, i as int)),
            acc == digits_val(s@.subrange(0, i as int)),
            acc <= cap as u128,
        decreases n - i,
    {
        let c = s.get_char(i);
        let u = c as u32;
        if !(48 <= u && u <= 57) {
            proof {
                assert(!is_digit_char(s@[i as int]));
                assert(!all_digits(s@));
            }
            return None;
        }
        let d: u128 = (u - 48) as u128;
        let acc2: u128 = acc * 10 + d;
        proof {
            let t = s@.subrange(0, i + 1);
            assert(t.drop_last() =~= s@.subrange(0, i as int));
            assert(t.last() == s@[i as int]);
            assert(digits_val(t) == acc * 10 + char_digit(s@[i as int]));
            assert(all_digits(t)) by {
                assert(forall|k: int| 0 <= k < i ==> t[k] == s@.subrange(0, i as int)[k]);
            }
        }
        if acc2 > cap as u128 {
            proof {
                if all_digits(s@) {
                    lemma_digits_val_prefix_le(s@, i + 1);
                }
            }
            return None;
        }
        acc = acc2;
        i += 1;
    }
    proof {
        assert(s@.subrange(0, n as int) =~= s@);
    }
    Some(acc as u64)
}

/// What `str::parse::<u64>` accepts for plain digit strings.
pub fn parse_u64(s: &str) -> (r: Option<u64>)
    ensures
        r == spec_parse_u64(s@),
{
    digits_value_capped(s, u64::MAX)
}

/// What `str::parse::<i64>` accepts: an optional sign, then digits, with the
/// value in range.
pub fn parse_i64(s: &str) -> (r: Option<i64>)
    ensures
        r == spec_parse_i64(s@),
{
    let n = s.unicode_len();
    if n == 0 {
        return None;
    }
    let c0 = s.get_char(0);
    if c0 == '-' {
        let ds = s.substring_char(1, n);
        proof {
            assert(ds@ =~= s@.drop_first());
        }
        match digits_value_capped(ds, 0x8000000000000000u64) {
            None => None,
            Some(m) => {
                proof {
                    lemma_digits_val_nonneg(ds@);
                }
                if m == 9223372036854775808u64 {
                    Some(i64::MIN)
                } else {
                    Some(-(m as i64))
                }
            },
        }
    } else if c0 == '+' {
        let ds = s.substring_char(1, n);
        proof {
            assert(ds@ =~= s@.drop_first());
        }
        match digits_value_capped(ds, 0x7FFFFFFFFFFFFFFFu64) {
            None => None,
            Some(m) => Some(m as i64),
        }
    } else {
        match digits_value_capped(s, 0x7FFFFFFFFFFFFFFFu64) {
            None => None,
            Some(m) => Some(m as i64),
        }
    }
}

} // verus!
