//! Character-level string operations shared by the dump parsers and the
//! persisted-document codec: whitespace trimming, separator splitting and
//! joining, and line handling, each specified against `Seq<char>`.

use vstd::prelude::*;

verus! {

/// The Unicode `White_Space` characters, as `char::is_whitespace` sees them.
pub open spec fn is_ws_char(c: char) -> bool {
    let u = c as u32;
    (9 <= u && u <= 13) || u == 32 || u == 0x85 || u == 0xA0 || u == 0x1680 || (0x2000 <= u
        && u <= 0x200A) || u == 0x2028 || u == 0x2029 || u == 0x202F || u == 0x205F || u == 0x3000
}

/// `c` does not occur in `s`.
pub open spec fn no_char(s: Seq<char>, c: char) -> bool {
    forall|k: int| 0 <= k < s.len() ==> s[k] != c
}

/// The first index at or after `i` where `sep` occurs, or `s.len()` if none.
pub open spec fn find_char_from(s: Seq<char>, sep: char, i: nat) -> nat
    decreases s.len() - i,
    when i <= s.len()
{
    if i >= s.len() {
        s.len() as nat
    } else if s[i as int] == sep {
        i
    } else {
        find_char_from(s, sep, (i + 1) as nat)
    }
}

pub proof fn lemma_find_char_from(s: Seq<char>, sep: char, i: nat)
    requires
        i <= s.len(),
    ensures
        i <= find_char_from(s, sep, i) <= s.len(),
        forall|k: int| i <= k < find_char_from(s, sep, i) ==> s[k] != sep,
        find_char_from(s, sep, i) < s.len() ==> s[find_char_from(s, sep, i) as int] == sep,
    decreases s.len() - i,
{
    if i < s.len() && s[i as int] != sep {
        lemma_find_char_from(s, sep, (i + 1) as nat);
    }
}

/// If `sep` does not occur in `s`, the search runs off the end.
pub proof fn lemma_find_char_none(s: Seq<char>, sep: char)
    requires
        no_char(s, sep),
    ensures
        find_char_from(s, sep, 0) == s.len(),
{
    lemma_find_char_from(s, sep, 0);
    if find_char_from(s, sep, 0) < s.len() {
        assert(s[find_char_from(s, sep, 0) as int] == sep);
    }
}

pub proof fn lemma_no_char_subrange(s: Seq<char>, c: char, a: int, b: int)
    requires
        no_char(s, c),
        0 <= a <= b <= s.len(),
    ensures
        no_char(s.subrange(a, b), c),
{
    assert forall|k: int| 0 <= k < s.subrange(a, b).len() implies s.subrange(a, b)[k] != c by {
        assert(s.subrange(a, b)[k] == s[a + k]);
    }
}

/// The first index at or after `i` holding a non-whitespace character, or
/// `s.len()` if the rest is all whitespace.
pub open spec fn first_non_ws(s: Seq<char>, i: nat) -> nat
    decreases s.len() - i,
    when i <= s.len()
{
    if i >= s.len() {
        s.len() as nat
    } else if !is_ws_char(s[i as int]) {
        i
    } else {
        first_non_ws(s, (i + 1) as nat)
    }
}

pub proof fn lemma_first_non_ws(s: Seq<char>, i: nat)
    requires
        i <= s.len(),
    ensures
        i <= first_non_ws(s, i) <= s.len(),
        forall|k: int| i <= k < first_non_ws(s, i) ==> is_ws_char(s[k]),
        first_non_ws(s, i) < s.len() ==> !is_ws_char(s[first_non_ws(s, i) as int]),
    decreases s.len() - i,
{
    if i < s.len() && is_ws_char(s[i as int]) {
        lemma_first_non_ws(s, (i + 1) as nat);
    }
}

/// One past the last non-whitespace character strictly before `j`, or `0` if
/// everything before `j` is whitespace.
pub open spec fn last_non_ws(s: Seq<char>, j: nat) -> nat
    decreases j,
{
    if j == 0 {
        0
    } else if j <= s.len() && !is_ws_char(s[j - 1]) {
        j
    } else {
        last_non_ws(s, (j - 1) as nat)
    }
}

pub proof fn lemma_last_non_ws(s: Seq<char>, j: nat)
    requires
        j <= s.len(),
    ensures
        last_non_ws(s, j) <= j,
        forall|k: int| last_non_ws(s, j) <= k < j ==> is_ws_char(s[k]),
        last_non_ws(s, j) > 0 ==> !is_ws_char(s[last_non_ws(s, j) - 1]),
    decreases j,
{
    if j > 0 && is_ws_char(s[j - 1]) {
        lemma_last_non_ws(s, (j - 1) as nat);
    }
}

/// What `str::trim` leaves: the contents with leading and trailing
/// whitespace removed.
pub open spec fn spec_trim(s: Seq<char>) -> Seq<char> {
    let a = first_non_ws(s, 0);
    let b = last_non_ws(s, s.len() as nat);
    if a >= b {
        Seq::empty()
    } else {
        s.subrange(a as int, b as int)
    }
}

pub proof fn lemma_trim_no_char(s: Seq<char>, c: char)
    requires
        no_char(s, c),
    ensures
        no_char(spec_trim(s), c),
{
    lemma_first_non_ws(s, 0);
    lemma_last_non_ws(s, s.len() as nat);
    let a = first_non_ws(s, 0);
    let b = last_non_ws(s, s.len() as nat);
    if a < b {
        lemma_no_char_subrange(s, c, a as int, b as int);
    }
}

/// The last whitespace-delimited token of `s`, or `s` itself if `s` holds no
/// token at all; this is what `split_whitespace().next_back().unwrap_or(s)`
/// returns.
pub open spec fn token_start(s: Seq<char>, j: nat) -> nat
    decreases j,
{
    if j == 0 {
        0
    } else if j <= s.len() && is_ws_char(s[j - 1]) {
        j
    } else {
        token_start(s, (j - 1) as nat)
    }
}

pub proof fn lemma_token_start(s: Seq<char>, j: nat)
    requires
        j <= s.len(),
    ensures
        token_start(s, j) <= j,
        forall|k: int| token_start(s, j) <= k < j ==> !is_ws_char(s[k]),
        token_start(s, j) > 0 ==> is_ws_char(s[token_start(s, j) - 1]),
    decreases j,
{
    if j > 0 && !is_ws_char(s[j - 1]) {
        lemma_token_start(s, (j - 1) as nat);
    }
}

pub open spec fn spec_last_token(s: Seq<char>) -> Seq<char> {
    let b = last_non_ws(s, s.len() as nat);
    if b == 0 {
        s
    } else {
        s.subrange(token_start(s, b) as int, b as int)
    }
}

pub proof fn lemma_last_token_no_char(s: Seq<char>, c: char)
    requires
        no_char(s, c),
    ensures
        no_char(spec_last_token(s), c),
{
    let b = last_non_ws(s, s.len() as nat);
    lemma_last_non_ws(s, s.len() as nat);
    if b > 0 {
        lemma_token_start(s, b);
        lemma_no_char_subrange(s, c, token_start(s, b) as int, b as int);
    }
}

/// Splitting on `sep` without a limit, as `str::split` collects it.
pub open spec fn spec_split(s: Seq<char>, sep: char) -> Seq<Seq<char>>
    decreases s.len(),
{
    let i = find_char_from(s, sep, 0);
    if i >= s.len() {
        seq![s]
    } else {
        seq![s.subrange(0, i as int)] + spec_split(s.subrange(i + 1 as int, s.len() as int), sep)
    }
}

/// Splitting on `sep` into at most `n` parts, the last part keeping the
/// rest, as `str::splitn` collects it for `n >= 1`.
pub open spec fn spec_splitn(s: Seq<char>, n: nat, sep: char) -> Seq<Seq<char>>
    decreases n,
{
    if n <= 1 {
        seq![s]
    } else {
        let i = find_char_from(s, sep, 0);
        if i >= s.len() {
            seq![s]
        } else {
            seq![s.subrange(0, i as int)] + spec_splitn(
                s.subrange(i + 1 as int, s.len() as int),
                (n - 1) as nat,
                sep,
            )
        }
    }
}

pub proof fn lemma_split_basics(s: Seq<char>, sep: char)
    ensures
        spec_split(s, sep).len() >= 1,
        forall|j: int| 0 <= j < spec_split(s, sep).len() ==> no_char(#[trigger] spec_split(s, sep)[j], sep),
    decreases s.len(),
{
    lemma_find_char_from(s, sep, 0);
    let i = find_char_from(s, sep, 0);
    if i < s.len() {
        lemma_split_basics(s.subrange(i + 1 as int, s.len() as int), sep);
        assert forall|j: int| 0 <= j < spec_split(s, sep).len() implies no_char(
            #[trigger] spec_split(s, sep)[j],
            sep,
        ) by {
            if j == 0 {
                assert(spec_split(s, sep)[0] == s.subrange(0, i as int));
                assert forall|k: int| 0 <= k < i implies s.subrange(0, i as int)[k] != sep by {
                    assert(s.subrange(0, i as int)[k] == s[k]);
                }
            } else {
                assert(spec_split(s, sep)[j] == spec_split(s.subrange(i + 1 as int, s.len() as int), sep)[j
                    - 1]);
            }
        }
    }
}

/// Joining with a separator character, the inverse of `spec_split`.
pub open spec fn spec_join(parts: Seq<Seq<char>>, sep: char) -> Seq<char>
    decreases parts.len(),
{
    if parts.len() == 0 {
        Seq::empty()
    } else if parts.len() == 1 {
        parts[0]
    } else {
        parts[0] + seq![sep] + spec_join(parts.drop_first(), sep)
    }
}

/// Splitting undoes joining, as long as no part contains the separator.
pub proof fn lemma_split_join(parts: Seq<Seq<char>>, sep: char)
    requires
        parts.len() >= 1,
        forall|j: int| 0 <= j < parts.len() ==> no_char(#[trigger] parts[j], sep),
    ensures
        spec_split(spec_join(parts, sep), sep) == parts,
    decreases parts.len(),
{
    let s = spec_join(parts, sep);
    if parts.len() == 1 {
        lemma_find_char_none(s, sep);
        assert(spec_split(s, sep) =~= parts);
    } else {
        let p0 = parts[0];
        let rest = parts.drop_first();
        let rj = spec_join(rest, sep);
        assert(s == p0 + seq![sep] + rj);
        lemma_find_char_from(s, sep, 0);
        let i = find_char_from(s, sep, 0);
        // the first separator stands exactly after the first part
        assert(s[p0.len() as int] == sep);
        assert forall|k: int| 0 <= k < p0.len() implies s[k] != sep by {
            assert(s[k] == p0[k]);
        }
        assert(i == p0.len()) by {
            if i < p0.len() {
                assert(s[i as int] != sep);
            }
            if i > p0.len() {
                assert(s[p0.len() as int] != sep);
            }
        }
        assert(s.subrange(0, i as int) =~= p0);
        assert(s.subrange(i + 1 as int, s.len() as int) =~= rj);
        lemma_split_join(rest, sep);
        assert(spec_split(s, sep) =~= seq![p0] + spec_split(rj, sep));
        assert(seq![p0] + rest =~= parts);
    }
}

/// What `BufRead::lines` yields for a complete text, up to the carriage
/// returns that the callers strip with `trim` anyway: the text split on
/// newlines, without a final empty line.
pub open spec fn spec_lines(s: Seq<char>) -> Seq<Seq<char>> {
    if s.len() == 0 {
        Seq::empty()
    } else {
        let p = spec_split(s, '\n');
        if p.last().len() == 0 {
            p.drop_last()
        } else {
            p
        }
    }
}

/// The views of a vector of strings.
pub open spec fn views_of(v: Seq<String>) -> Seq<Seq<char>> {
    v.map_values(|x: String| x@)
}

fn is_ws(c: char) -> (b: bool)
    ensures
        b == is_ws_char(c),
{
    let u = c as u32;
    (9 <= u && u <= 13) || u == 32 || u == 0x85 || u == 0xA0 || u == 0x1680 || (0x2000 <= u
        && u <= 0x200A) || u == 0x2028 || u == 0x2029 || u == 0x202F || u == 0x205F || u == 0x3000
}

/// The first index at or after `from` where `sep` occurs in `s`, or the
/// character length of `s` if it does not.
pub fn find_char(s: &str, sep: char, from: usize) -> (r: usize)
    requires
        from <= s@.len(),
    ensures
        r == find_char_from(s@, sep, from as nat),
        from <= r <= s@.len(),
{
    let n = s.unicode_len();
    let mut i = from;
    while i < n
        invariant
            from <= i <= n,
            n == s@.len(),
            find_char_from(s@, sep, from as nat) == find_char_from(s@, sep, i as nat),
        decreases n - i,
    {
        if s.get_char(i) == sep {
            return i;
        }
        i += 1;
    }
    i
}

/// What `str::trim` returns.
pub fn trim_str(s: &str) -> (r: &str)
    ensures
        r@ == spec_trim(s@),
{
    let n = s.unicode_len();
    let mut a: usize = 0;
    while a < n && is_ws(s.get_char(a))
        invariant
            0 <= a <= n,
            n == s@.len(),
            first_non_ws(s@, 0) == first_non_ws(s@, a as nat),
        decreases n - a,
    {
        a += 1;
    }
    let mut b: usize = n;
    while b > 0 && is_ws(s.get_char(b - 1))
        invariant
            0 <= b <= n,
            n == s@.len(),
            last_non_ws(s@, n as nat) == last_non_ws(s@, b as nat),
        decreases b,
    {
        b -= 1;
    }
    if a >= b {
        proof {
            reveal_strlit("");
            assert(""@ =~= Seq::<char>::empty());
        }
        ""
    } else {
        s.substring_char(a, b)
    }
}

/// The last whitespace-delimited token of `s`, or `s` itself if there is
/// none.
pub fn last_token(s: &str) -> (r: &str)
    ensures
        r@ == spec_last_token(s@),
{
    let n = s.unicode_len();
    let mut b: usize = n;
    while b > 0 && is_ws(s.get_char(b - 1))
        invariant
            0 <= b <= n,
            n == s@.len(),
            last_non_ws(s@, n as nat) == last_non_ws(s@, b as nat),
        decreases b,
    {
        b -= 1;
    }
    if b == 0 {
        s
    } else {
        let mut st: usize = b;
        while st > 0 && !is_ws(s.get_char(st - 1))
            invariant
                0 <= st <= b <= n,
                n == s@.len(),
                token_start(s@, b as nat) == token_start(s@, st as nat),
            decreases st,
        {
            st -= 1;
        }
        s.substring_char(st, b)
    }
}

/// Splitting on `sep` without a limit, as `str::split` collects it.
pub fn split_str(s: &str, sep: char) -> (r: Vec<String>)
    ensures
        views_of(r@) == spec_split(s@, sep),
{
    let n = s.unicode_len();
    let mut parts: Vec<String> = Vec::new();
    let mut pos: usize = 0;
    proof {
        assert(s@.subrange(0, n as int) =~= s@);
        assert(views_of(parts@) =~= Seq::<Seq<char>>::empty());
        assert(views_of(parts@) + spec_split(s@, sep) =~= spec_split(s@, sep));
    }
    loop
        invariant
            pos <= n,
            n == s@.len(),
            spec_split(s@, sep) == views_of(parts@) + spec_split(
                s@.subrange(pos as int, n as int),
                sep,
            ),
        decreases n - pos,
    {
        let ghost parts0 = parts@;
        let tail = s.substring_char(pos, n);
        let tlen = n - pos;
        let f = find_char(tail, sep, 0);
        proof {
            lemma_find_char_from(tail@, sep, 0);
        }
        if f == tlen {
            parts.push(tail.to_owned());
            proof {
                assert(spec_split(tail@, sep) =~= seq![tail@]);
                assert(views_of(parts@) =~= views_of(parts0) + seq![tail@]);
                assert(spec_split(s@, sep) =~= views_of(parts@));
            }
            return parts;
        } else {
            let piece = tail.substring_char(0, f);
            parts.push(piece.to_owned());
            proof {
                assert(spec_split(tail@, sep) == seq![tail@.subrange(0, f as int)] + spec_split(
                    tail@.subrange(f + 1 as int, tlen as int),
                    sep,
                ));
                assert(tail@.subrange(f + 1 as int, tlen as int) =~= s@.subrange(
                    pos + f + 1,
                    n as int,
                ));
                assert(views_of(parts@) =~= views_of(parts0) + seq![piece@]);
                assert(spec_split(s@, sep) =~= views_of(parts@) + spec_split(
                    s@.subrange(pos + f + 1, n as int),
                    sep,
                ));
            }
            pos = pos + f + 1;
        }
    }
}

/// Splitting on `sep` into at most `n` parts, as `str::splitn` collects it.
pub fn splitn_str(s: &str, n: usize, sep: char) -> (r: Vec<String>)
    requires
        n >= 1,
    ensures
        views_of(r@) == spec_splitn(s@, n as nat, sep),
    decreases n,
{
    let len = s.unicode_len();
    if n == 1 {
        let mut parts: Vec<String> = Vec::new();
        parts.push(s.to_owned());
        proof {
            assert(views_of(parts@) =~= seq![s@]);
        }
        return parts;
    }
    let f = find_char(s, sep, 0);
    proof {
        lemma_find_char_from(s@, sep, 0);
    }
    if f == len {
        let mut parts: Vec<String> = Vec::new();
        parts.push(s.to_owned());
        proof {
            assert(views_of(parts@) =~= seq![s@]);
        }
        parts
    } else {
        let head = s.substring_char(0, f).to_owned();
        let rest = s.substring_char(f + 1, len);
        let mut out = splitn_str(rest, n - 1, sep);
        out.insert(0, head);
        proof {
            assert(views_of(out@) =~= seq![s@.subrange(0, f as int)] + views_of(
                out@.drop_first(),
            ));
        }
        out
    }
}

/// The lines of a complete text, as `BufRead::lines` yields them (up to
/// carriage returns, which the callers trim off).
pub fn split_to_lines(s: &str) -> (r: Vec<String>)
    ensures
        views_of(r@) == spec_lines(s@),
{
    let n = s.unicode_len();
    if n == 0 {
        let parts: Vec<String> = Vec::new();
        proof {
            assert(views_of(parts@) =~= spec_lines(s@));
        }
        return parts;
    }
    let mut parts = split_str(s, '\n');
    proof {
        lemma_split_basics(s@, '\n');
    }
    let ghost pre = parts@;
    let last_len = parts[parts.len() - 1].as_str().unicode_len();
    if last_len == 0 {
        parts.pop();
        proof {
            assert(views_of(parts@) =~= views_of(pre).drop_last());
        }
    }
    proof {
        assert(views_of(parts@) =~= spec_lines(s@));
    }
    parts
}

/// Joins parts with the separator, the exec side of `spec_join`.
pub fn join_with(parts: &Vec<String>, sep: char) -> (r: String)
    requires
        parts@.len() >= 1,
    ensures
        r@ == spec_join(views_of(parts@), sep),
{
    let mut out: String = parts[0].clone();
    let mut i: usize = 1;
    let mut sep_str = String::new();
    push_char(&mut sep_str, sep);
    proof {
        assert(sep_str@ =~= seq![sep]);
        if parts@.len() > 1 {
            assert(views_of(parts@).drop_first() =~= views_of(parts@).subrange(
                1,
                parts@.len() as int,
            ));
        }
    }
    while i < parts.len()
        invariant
            1 <= i <= parts@.len(),
            sep_str@ == seq![sep],
            i < parts@.len() ==> spec_join(views_of(parts@), sep) == out@ + seq![sep] + spec_join(
                views_of(parts@).subrange(i as int, parts@.len() as int),
                sep,
            ),
            i == parts@.len() ==> out@ == spec_join(views_of(parts@), sep),
        decreases parts@.len() - i,
    {
        let ghost out0 = out@;
        out.append(sep_str.as_str());
        out.append(parts[i].as_str());
        proof {
            let vs = views_of(parts@);
            let tail = vs.subrange(i as int, vs.len() as int);
            assert(out@ == out0 + seq![sep] + vs[i as int]);
            if i + 1 < parts@.len() {
                assert(tail.drop_first() =~= vs.subrange(i + 1, vs.len() as int));
                assert(spec_join(tail, sep) == tail[0] + seq![sep] + spec_join(
                    tail.drop_first(),
                    sep,
                ));
                assert(out0 + seq![sep] + spec_join(tail, sep) =~= out@ + seq![sep] + spec_join(
                    vs.subrange(i + 1, vs.len() as int),
                    sep,
                ));
            } else {
                assert(tail.len() == 1);
                assert(spec_join(tail, sep) == tail[0]);
                assert(out0 + seq![sep] + spec_join(tail, sep) =~= out@);
            }
        }
        i += 1;
    }
    out
}

/// Relies on `String::push`: appends one character at the end.
#[verifier::external_body]
pub fn push_char(s: &mut String, c: char)
    ensures
        final(s)@ == old(s)@.push(c),
{
    s.push(c);
}

} // verus!
