//! Character-level string utilities: equality, searching, splitting, and
//! decimal digit parsing and printing, with exact contracts over `Seq<char>`.
//!
//! The spec-level split functions (`split_once_ch`, `split_once_two`,
//! `split_ch`) are the mathematical model that the request parser's
//! contracts are stated against.

use vstd::prelude::*;
use vstd::string::StrSliceExecFns;

verus! {

// ---------------------------------------------------------------------------
// Spec model: searching and splitting character sequences
// ---------------------------------------------------------------------------

/// Splits `s` at the first occurrence of `c`; `None` when `c` does not occur.
/// The separator itself belongs to neither piece.
pub open spec fn split_once_ch(s: Seq<char>, c: char) -> Option<(Seq<char>, Seq<char>)>
    decreases s.len(),
{
    if s.len() == 0 {
        None
    } else if s[0] == c {
        Some((Seq::<char>::empty(), s.drop_first()))
    } else {
        match split_once_ch(s.drop_first(), c) {
            None => None,
            Some((a, b)) => Some((seq![s[0]] + a, b)),
        }
    }
}

/// Splits `s` at the first occurrence of the two-character separator
/// `c1 c2`; `None` when it does not occur.
pub open spec fn split_once_two(s: Seq<char>, c1: char, c2: char) -> Option<
    (Seq<char>, Seq<char>),
>
    decreases s.len(),
{
    if s.len() < 2 {
        None
    } else if s[0] == c1 && s[1] == c2 {
        Some((Seq::<char>::empty(), s.skip(2)))
    } else {
        match split_once_two(s.drop_first(), c1, c2) {
            None => None,
            Some((a, b)) => Some((seq![s[0]] + a, b)),
        }
    }
}

/// Splits `s` on every occurrence of `c`. The result always has at least one
/// piece; an empty input gives one empty piece.
pub open spec fn split_ch(s: Seq<char>, c: char) -> Seq<Seq<char>>
    decreases s.len(),
{
    if s.len() == 0 {
        seq![Seq::<char>::empty()]
    } else if s[0] == c {
        seq![Seq::<char>::empty()] + split_ch(s.drop_first(), c)
    } else {
        let rest = split_ch(s.drop_first(), c);
        seq![seq![s[0]] + rest.first()] + rest.drop_first()
    }
}

pub proof fn lemma_split_ch_len(s: Seq<char>, c: char)
    ensures
        split_ch(s, c).len() >= 1,
    decreases s.len(),
{
    if s.len() > 0 {
        lemma_split_ch_len(s.drop_first(), c);
    }
}

// ---------------------------------------------------------------------------
// Exec searching
// ---------------------------------------------------------------------------

/// Compares two string slices character by character.
pub fn str_eq(a: &str, b: &str) -> (r: bool)
    ensures
        r == (a@ == b@),
{
    let alen = a.unicode_len();
    let blen = b.unicode_len();
    if alen != blen {
        assert(a@ != b@) by {
            assert(a@.len() != b@.len());
        }
        return false;
    }
    let mut i: usize = 0;
    while i < alen
        invariant
            alen == a@.len(),
            a@.len() == b@.len(),
            i <= alen,
            forall|j: int| 0 <= j < i ==> a@[j] == b@[j],
        decreases alen - i,
    {
        if a.get_char(i) != b.get_char(i) {
            return false;
        }
        i += 1;
    }
    proof {
        assert(a@ =~= b@);
    }
    true
}

/// Index of the first occurrence of `c` in `s`, if any.
pub fn find_char(s: &str, c: char) -> (r: Option<usize>)
    ensures
        match r {
            Some(i) => i < s@.len() && s@[i as int] == c && forall|j: int|
                0 <= j < i ==> s@[j] != c,
            None => forall|j: int| 0 <= j < s@.len() ==> s@[j] != c,
        },
{
    let n = s.unicode_len();
    let mut i: usize = 0;
    while i < n
        invariant
            n == s@.len(),
            i <= n,
            forall|j: int| 0 <= j < i ==> s@[j] != c,
        decreases n - i,
    {
        if s.get_char(i) == c {
            return Some(i);
        }
        i += 1;
    }
    None
}

/// Index of the first occurrence of the two-character separator `c1 c2`.
pub fn find_two(s: &str, c1: char, c2: char) -> (r: Option<usize>)
    ensures
        match r {
            Some(i) => i + 1 < s@.len() && s@[i as int] == c1 && s@[i + 1] == c2 && forall|j: int|
                0 <= j < i ==> !((#[trigger] s@[j]) == c1 && s@[j + 1] == c2),
            None => forall|j: int| 0 <= j && j + 1 < s@.len() ==> !((#[trigger] s@[j]) == c1 && s@[j + 1] == c2),
        },
{
    let n = s.unicode_len();
    if n < 2 {
        return None;
    }
    let mut i: usize = 0;
    while i + 1 < n
        invariant
            n == s@.len(),
            n >= 2,
            i + 1 <= n,
            forall|j: int| 0 <= j < i ==> !((#[trigger] s@[j]) == c1 && s@[j + 1] == c2),
        decreases n - i,
    {
        if s.get_char(i) == c1 && s.get_char(i + 1) == c2 {
            return Some(i);
        }
        i += 1;
    }
    None
}

// ---------------------------------------------------------------------------
// Relating the first-occurrence facts to the recursive spec splits
// ---------------------------------------------------------------------------

/// `split_once_ch` returns exactly the pieces around the first occurrence.
pub proof fn lemma_split_once_ch(s: Seq<char>, c: char, i: int)
    requires
        0 <= i < s.len(),
        s[i] == c,
        forall|j: int| 0 <= j < i ==> s[j] != c,
    ensures
        split_once_ch(s, c) == Some((s.take(i), s.skip(i + 1))),
    decreases s.len(),
{
    if i == 0 {
        assert(s.take(0) =~= Seq::<char>::empty());
        assert(s.skip(1) =~= s.drop_first());
    } else {
        lemma_split_once_ch(s.drop_first(), c, i - 1);
        assert(s.take(i) =~= seq![s[0]] + s.drop_first().take(i - 1));
        assert(s.skip(i + 1) =~= s.drop_first().skip(i));
    }
}

/// When `c` does not occur in `s`, `split_once_ch` finds nothing.
pub proof fn lemma_split_once_ch_none(s: Seq<char>, c: char)
    requires
        forall|j: int| 0 <= j < s.len() ==> s[j] != c,
    ensures
        split_once_ch(s, c) is None,
    decreases s.len(),
{
    if s.len() > 0 {
        lemma_split_once_ch_none(s.drop_first(), c);
    }
}

/// `split_once_two` returns exactly the pieces around the first occurrence.
pub proof fn lemma_split_once_two(s: Seq<char>, c1: char, c2: char, i: int)
    requires
        0 <= i,
        i + 1 < s.len(),
        s[i] == c1,
        s[i + 1] == c2,
        forall|j: int| 0 <= j < i ==> !((#[trigger] s[j]) == c1 && s[j + 1] == c2),
    ensures
        split_once_two(s, c1, c2) == Some((s.take(i), s.skip(i + 2))),
    decreases s.len(),
{
    if i == 0 {
        assert(s.take(0) =~= Seq::<char>::empty());
    } else {
        lemma_split_once_two(s.drop_first(), c1, c2, i - 1);
        assert(s.take(i) =~= seq![s[0]] + s.drop_first().take(i - 1));
        assert(s.skip(i + 2) =~= s.drop_first().skip(i + 1));
    }
}

/// When the separator does not occur in `s`, `split_once_two` finds nothing.
pub proof fn lemma_split_once_two_none(s: Seq<char>, c1: char, c2: char)
    requires
        forall|j: int| 0 <= j && j + 1 < s.len() ==> !((#[trigger] s[j]) == c1 && s[j + 1] == c2),
    ensures
        split_once_two(s, c1, c2) is None,
    decreases s.len(),
{
    if s.len() >= 2 {
        let d = s.drop_first();
        assert forall|j: int| 0 <= j && j + 1 < d.len() implies !((#[trigger] d[j]) == c1 && d[j + 1]
            == c2) by {
            assert(d[j] == s[j + 1]);
            assert(d[j + 1] == s[j + 2]);
            assert(!(s[j + 1] == c1 && s[j + 2] == c2));
        }
        lemma_split_once_two_none(d, c1, c2);
    }
}

// ---------------------------------------------------------------------------
// Exec splitting
// ---------------------------------------------------------------------------

/// Splits at the first occurrence of `c`, as Rust's `split_once` does.
pub fn split_once_char<'a>(s: &'a str, c: char) -> (r: Option<(&'a str, &'a str)>)
    ensures
        match r {
            Some((a, b)) => split_once_ch(s@, c) == Some((a@, b@)),
            None => split_once_ch(s@, c) is None,
        },
{
    let n = s.unicode_len();
    match find_char(s, c) {
        Some(i) => {
            let a = s.substring_char(0, i);
            let b = s.substring_char(i + 1, n);
            proof {
                lemma_split_once_ch(s@, c, i as int);
                assert(a@ =~= s@.take(i as int));
                assert(b@ =~= s@.skip(i as int + 1));
            }
            Some((a, b))
        },
        None => {
            proof {
                lemma_split_once_ch_none(s@, c);
            }
            None
        },
    }
}

/// Splits at the first occurrence of the two-character separator `c1 c2`,
/// as Rust's `split_once` with a two-character pattern does.
pub fn split_once_pair<'a>(s: &'a str, c1: char, c2: char) -> (r: Option<(&'a str, &'a str)>)
    ensures
        match r {
            Some((a, b)) => split_once_two(s@, c1, c2) == Some((a@, b@)),
            None => split_once_two(s@, c1, c2) is None,
        },
{
    let n = s.unicode_len();
    match find_two(s, c1, c2) {
        Some(i) => {
            let a = s.substring_char(0, i);
            let b = s.substring_char(i + 2, n);
            proof {
                lemma_split_once_two(s@, c1, c2, i as int);
                assert(a@ =~= s@.take(i as int));
                assert(b@ =~= s@.skip(i as int + 2));
            }
            Some((a, b))
        },
        None => {
            proof {
                lemma_split_once_two_none(s@, c1, c2);
            }
            None
        },
    }
}

} // verus!

verus! {

// ---------------------------------------------------------------------------
// Decimal digits
// ---------------------------------------------------------------------------

/// A decimal digit character.
pub open spec fn is_digit(c: char) -> bool {
    48 <= c as int && c as int <= 57
}

pub open spec fn all_digits(s: Seq<char>) -> bool {
    forall|i: int| 0 <= i < s.len() ==> is_digit(#[trigger] s[i])
}

pub open spec fn digit_val(c: char) -> nat {
    (c as int - 48) as nat
}

/// Numeric value of a decimal digit string, most significant digit first.
pub open spec fn dec_value(s: Seq<char>) -> nat
    decreases s.len(),
{
    if s.len() == 0 {
        0
    } else {
        dec_value(s.drop_last()) * 10 + digit_val(s.last())
    }
}

/// The digit character for a value below ten.
pub open spec fn digit_char(d: nat) -> char {
    if d == 0 { '0' }
    else if d == 1 { '1' }
    else if d == 2 { '2' }
    else if d == 3 { '3' }
    else if d == 4 { '4' }
    else if d == 5 { '5' }
    else if d == 6 { '6' }
    else if d == 7 { '7' }
    else if d == 8 { '8' }
    else { '9' }
}

/// Decimal representation of a natural number, without leading zeros.
pub open spec fn dec_rep(n: nat) -> Seq<char>
    decreases n,
{
    if n < 10 {
        seq![digit_char(n)]
    } else {
        dec_rep(n / 10).push(digit_char(n % 10))
    }
}

/// A prefix of a digit string never exceeds the whole string's value.
pub proof fn lemma_dec_value_prefix(s: Seq<char>, i: int)
    requires
        all_digits(s),
        0 <= i <= s.len(),
    ensures
        dec_value(s.take(i)) <= dec_value(s),
    decreases s.len(),
{
    if i < s.len() {
        let d = s.drop_last();
        assert(all_digits(d)) by {
            assert(forall|j: int| 0 <= j < d.len() ==> #[trigger] d[j] == s[j]);
        }
        assert(s.take(i) =~= d.take(i));
        lemma_dec_value_prefix(d, i);
    } else {
        assert(s.take(i) =~= s);
    }
}

/// Parses a nonempty decimal digit string into a `usize`, rejecting any
/// other character and any value that does not fit.
pub fn parse_usize(s: &str) -> (r: Option<usize>)
    ensures
        r is Some <==> s@.len() > 0 && all_digits(s@) && dec_value(s@) <= usize::MAX,
        r is Some ==> r->0 == dec_value(s@),
{
    let n = s.unicode_len();
    if n == 0 {
        return None;
    }
    let mut acc: usize = 0;
    let mut i: usize = 0;
    while i < n
        invariant
            n == s@.len(),
            i <= n,
            all_digits(s@.take(i as int)),
            acc == dec_value(s@.take(i as int)),
        decreases n - i,
    {
        let c = s.get_char(i);
        let v = c as u32;
        if v < 48 || v > 57 {
            assert(!all_digits(s@)) by {
                assert(!is_digit(s@[i as int]));
            }
            return None;
        }
        let d = (v - 48) as usize;
        if acc > (usize::MAX - d) / 10 {
            proof {
                assert(s@.take(i as int + 1).drop_last() =~= s@.take(i as int));
                assert(s@.take(i as int + 1).last() == s@[i as int]);
                assert(dec_value(s@.take(i as int + 1)) > usize::MAX);
                if all_digits(s@) {
                    lemma_dec_value_prefix(s@, i as int + 1);
                }
            }
            return None;
        }
        proof {
            assert(s@.take(i as int + 1).drop_last() =~= s@.take(i as int));
            assert(s@.take(i as int + 1).last() == s@[i as int]);
        }
        acc = acc * 10 + d;
        i += 1;
    }
    proof {
        assert(s@.take(n as int) =~= s@);
    }
    Some(acc)
}

/// The one-character string for a digit value.
pub fn digit_str(d: u32) -> (r: &'static str)
    requires
        d < 10,
    ensures
        r@ =~= seq![digit_char(d as nat)],
{
    proof {
        reveal_strlit("0");
        reveal_strlit("1");
        reveal_strlit("2");
        reveal_strlit("3");
        reveal_strlit("4");
        reveal_strlit("5");
        reveal_strlit("6");
        reveal_strlit("7");
        reveal_strlit("8");
        reveal_strlit("9");
    }
    if d == 0 { "0" }
    else if d == 1 { "1" }
    else if d == 2 { "2" }
    else if d == 3 { "3" }
    else if d == 4 { "4" }
    else if d == 5 { "5" }
    else if d == 6 { "6" }
    else if d == 7 { "7" }
    else if d == 8 { "8" }
    else { "9" }
}

/// Renders a number in decimal, most significant digit first.
pub fn u32_to_string(n: u32) -> (s: String)
    ensures
        s@ == dec_rep(n as nat),
    decreases n,
{
    if n < 10 {
        let mut s = String::new();
        s.append(digit_str(n));
        proof {
            assert(s@ =~= dec_rep(n as nat));
        }
        s
    } else {
        let mut s = u32_to_string(n / 10);
        s.append(digit_str(n % 10));
        proof {
            assert(s@ =~= dec_rep(n as nat));
        }
        s
    }
}

// ---------------------------------------------------------------------------
// Prefix and suffix
// ---------------------------------------------------------------------------

/// Whether `s` begins with `p`.
pub fn has_prefix(s: &str, p: &str) -> (r: bool)
    ensures
        r == (s@.len() >= p@.len() && s@.take(p@.len() as int) == p@),
{
    let n = s.unicode_len();
    let m = p.unicode_len();
    if n < m {
        return false;
    }
    let head = s.substring_char(0, m);
    let r = str_eq(head, p);
    proof {
        assert(head@ =~= s@.take(p@.len() as int));
    }
    r
}

/// `s` ends with `p`.
pub open spec fn has_suffix_seq(s: Seq<char>, p: Seq<char>) -> bool {
    s.len() >= p.len() && s.skip(s.len() - p.len()) == p
}

/// Whether `s` ends with `p`.
pub fn has_suffix(s: &str, p: &str) -> (r: bool)
    ensures
        r == has_suffix_seq(s@, p@),
{
    let n = s.unicode_len();
    let m = p.unicode_len();
    if n < m {
        return false;
    }
    let tail = s.substring_char(n - m, n);
    let r = str_eq(tail, p);
    proof {
        assert(tail@ =~= s@.skip(s@.len() - p@.len()));
    }
    r
}

} // verus!

verus! {

// ---------------------------------------------------------------------------
// Substring search and single replacement
// ---------------------------------------------------------------------------

/// Whether `pat` occurs in `s` starting at position `i`.
pub open spec fn matches_at(s: Seq<char>, pat: Seq<char>, i: int) -> bool {
    &&& 0 <= i
    &&& i + pat.len() <= s.len()
    &&& forall|k: int| 0 <= k < pat.len() ==> s[i + k] == #[trigger] pat[k]
}

/// Position of the first occurrence of `pat` in `s`, if any.
pub open spec fn first_match(s: Seq<char>, pat: Seq<char>) -> Option<nat>
    decreases s.len(),
{
    if pat.len() > s.len() {
        None
    } else if s.take(pat.len() as int) == pat {
        Some(0)
    } else if s.len() == 0 {
        None
    } else {
        match first_match(s.drop_first(), pat) {
            None => None,
            Some(i) => Some((i + 1) as nat),
        }
    }
}

/// `s` with every occurrence of `pat` replaced by `rep`, scanning left to
/// right without overlap, as `str::replace` computes it. An empty pattern
/// replaces nothing.
pub open spec fn replace_all(s: Seq<char>, pat: Seq<char>, rep: Seq<char>) -> Seq<char>
    decreases s.len(),
{
    if pat.len() == 0 || s.len() < pat.len() {
        s
    } else if s.take(pat.len() as int) == pat {
        rep + replace_all(s.skip(pat.len() as int), pat, rep)
    } else {
        seq![s[0]] + replace_all(s.drop_first(), pat, rep)
    }
}

pub proof fn lemma_first_match_some(s: Seq<char>, pat: Seq<char>, i: int)
    requires
        matches_at(s, pat, i),
        forall|j: int| 0 <= j < i ==> !(#[trigger] matches_at(s, pat, j)),
    ensures
        first_match(s, pat) == Some(i as nat),
    decreases s.len(),
{
    if i == 0 {
        assert(s.take(pat.len() as int) =~= pat);
    } else {
        assert(!matches_at(s, pat, 0));
        if s.take(pat.len() as int) == pat {
            assert forall|k: int| 0 <= k < pat.len() implies s[0 + k] == #[trigger] pat[k] by {
                assert(s.take(pat.len() as int)[k] == s[k]);
            }
            assert(matches_at(s, pat, 0));
        }
        let d = s.drop_first();
        assert(matches_at(d, pat, i - 1)) by {
            assert forall|k: int| 0 <= k < pat.len() implies d[i - 1 + k] == #[trigger] pat[k] by {
                assert(d[i - 1 + k] == s[i + k]);
            }
        }
        assert forall|j: int| 0 <= j < i - 1 implies !(#[trigger] matches_at(d, pat, j)) by {
            assert(!matches_at(s, pat, j + 1));
            if matches_at(d, pat, j) {
                assert forall|k: int| 0 <= k < pat.len() implies s[j + 1 + k] == #[trigger] pat[k] by {
                    assert(d[j + k] == s[j + 1 + k]);
                }
                assert(matches_at(s, pat, j + 1));
            }
        }
        lemma_first_match_some(d, pat, i - 1);
    }
}

pub proof fn lemma_first_match_none(s: Seq<char>, pat: Seq<char>)
    requires
        forall|j: int| 0 <= j <= s.len() - pat.len() ==> !(#[trigger] matches_at(s, pat, j)),
    ensures
        first_match(s, pat) is None,
    decreases s.len(),
{
    if pat.len() <= s.len() {
        assert(!matches_at(s, pat, 0));
        if s.take(pat.len() as int) == pat {
            assert forall|k: int| 0 <= k < pat.len() implies s[0 + k] == #[trigger] pat[k] by {
                assert(s.take(pat.len() as int)[k] == s[k]);
            }
            assert(matches_at(s, pat, 0));
        }
        let d = s.drop_first();
        assert forall|j: int| 0 <= j <= d.len() - pat.len() implies !(#[trigger] matches_at(
            d,
            pat,
            j,
        )) by {
            assert(!matches_at(s, pat, j + 1));
            if matches_at(d, pat, j) {
                assert forall|k: int| 0 <= k < pat.len() implies s[j + 1 + k] == #[trigger] pat[k] by {
                    assert(d[j + k] == s[j + 1 + k]);
                }
                assert(matches_at(s, pat, j + 1));
            }
        }
        lemma_first_match_none(d, pat);
    }
}

/// A found match lies within bounds and the pattern occurs there.
pub proof fn lemma_first_match_props(s: Seq<char>, pat: Seq<char>)
    ensures
        first_match(s, pat) matches Some(i) ==> matches_at(s, pat, i as int),
    decreases s.len(),
{
    if pat.len() <= s.len() && s.take(pat.len() as int) != pat {
        assert(s.len() > 0) by {
            if s.len() == 0 {
                assert(s.take(pat.len() as int) =~= pat);
            }
        }
        let d = s.drop_first();
        lemma_first_match_props(d, pat);
        if first_match(d, pat) is Some {
            let i = first_match(d, pat)->0 as int;
            assert forall|k: int| 0 <= k < pat.len() implies s[i + 1 + k] == #[trigger] pat[k] by {
                assert(d[i + k] == s[i + 1 + k]);
            }
        }
    } else if pat.len() <= s.len() {
        assert forall|k: int| 0 <= k < pat.len() implies s[0 + k] == #[trigger] pat[k] by {
            assert(s.take(pat.len() as int)[k] == s[k]);
        }
    }
}

/// Position of the first occurrence of `pat` in `s`, if any.
pub fn find_sub(s: &str, pat: &str) -> (r: Option<usize>)
    ensures
        match r {
            Some(i) => first_match(s@, pat@) == Some(i as nat),
            None => first_match(s@, pat@) is None,
        },
{
    let n = s.unicode_len();
    let m = pat.unicode_len();
    if m > n {
        return None;
    }
    if m == 0 {
        proof {
            assert(s@.take(0) =~= pat@);
        }
        return Some(0);
    }
    let mut i: usize = 0;
    while i <= n - m
        invariant
            n == s@.len(),
            m == pat@.len(),
            0 < m <= n,
            i <= n - m + 1,
            forall|j: int| 0 <= j < i ==> !(#[trigger] matches_at(s@, pat@, j)),
        decreases n - i,
    {
        let piece = s.substring_char(i, i + m);
        let same = str_eq(piece, pat);
        proof {
            assert forall|k: int| 0 <= k < m implies piece@[k] == s@[i + k] by {
                assert(piece@[k] == s@.subrange(i as int, i as int + m)[k]);
            }
            if same {
                assert(matches_at(s@, pat@, i as int)) by {
                    assert forall|k: int| 0 <= k < pat@.len() implies s@[i + k]
                        == #[trigger] pat@[k] by {
                        assert(piece@[k] == pat@[k]);
                    }
                }
                lemma_first_match_some(s@, pat@, i as int);
            } else {
                assert(!matches_at(s@, pat@, i as int)) by {
                    if matches_at(s@, pat@, i as int) {
                        assert(piece@ =~= pat@);
                    }
                }
            }
        }
        if same {
            return Some(i);
        }
        i += 1;
    }
    proof {
        lemma_first_match_none(s@, pat@);
    }
    None
}

/// Replaces every occurrence of `pat` in `s` by `rep`, scanning left to
/// right without overlap, as `str::replace` does.
pub fn replace_all_str(s: &str, pat: &str, rep: &str) -> (r: String)
    ensures
        r@ == replace_all(s@, pat@, rep@),
{
    let n = s.unicode_len();
    let m = pat.unicode_len();
    if m == 0 {
        return s.to_owned();
    }
    let mut out = String::new();
    let mut i: usize = 0;
    proof {
        assert(s@.skip(0) =~= s@);
    }
    while m <= n && i <= n - m
        invariant
            m == pat@.len(),
            m >= 1,
            n == s@.len(),
            i <= n,
            out@ + replace_all(s@.skip(i as int), pat@, rep@) == replace_all(s@, pat@, rep@),
        decreases n - i,
    {
        let piece = s.substring_char(i, i + m);
        let same = str_eq(piece, pat);
        proof {
            assert(s@.skip(i as int).take(m as int) =~= piece@);
        }
        if same {
            out.append(rep);
            proof {
                assert(s@.skip(i as int).skip(m as int) =~= s@.skip(i + m));
                assert(out@ + replace_all(s@.skip(i + m), pat@, rep@) =~= replace_all(
                    s@,
                    pat@,
                    rep@,
                ));
            }
            i += m;
        } else {
            let c = s.substring_char(i, i + 1);
            out.append(c);
            proof {
                assert(c@ =~= seq![s@[i as int]]);
                assert(s@.skip(i as int)[0] == s@[i as int]);
                assert(s@.skip(i as int).drop_first() =~= s@.skip(i + 1));
                assert(out@ + replace_all(s@.skip(i + 1), pat@, rep@) =~= replace_all(
                    s@,
                    pat@,
                    rep@,
                ));
            }
            i += 1;
        }
    }
    let tail = s.substring_char(i, n);
    out.append(tail);
    proof {
        assert(tail@ =~= s@.skip(i as int));
        assert(replace_all(s@.skip(i as int), pat@, rep@) == s@.skip(i as int));
        assert(out@ =~= replace_all(s@, pat@, rep@));
    }
    out
}

} // verus!

verus! {

// ---------------------------------------------------------------------------
// Splitting on every occurrence of a two-character separator, and the step
// lemmas that let a loop peel one piece at a time off either kind of split
// ---------------------------------------------------------------------------

/// Splits `s` on every occurrence of the separator `c1 c2`.
pub open spec fn split_two(s: Seq<char>, c1: char, c2: char) -> Seq<Seq<char>>
    decreases s.len(),
{
    if s.len() < 2 {
        seq![s]
    } else if s[0] == c1 && s[1] == c2 {
        seq![Seq::<char>::empty()] + split_two(s.skip(2), c1, c2)
    } else {
        let rest = split_two(s.drop_first(), c1, c2);
        seq![seq![s[0]] + rest.first()] + rest.drop_first()
    }
}

pub proof fn lemma_split_two_len(s: Seq<char>, c1: char, c2: char)
    ensures
        split_two(s, c1, c2).len() >= 1,
    decreases s.len(),
{
    if s.len() >= 2 && !(s[0] == c1 && s[1] == c2) {
        lemma_split_two_len(s.drop_first(), c1, c2);
    }
}

/// The two pieces of a single-character split make up the whole string.
pub proof fn lemma_split_once_ch_parts(s: Seq<char>, c: char)
    ensures
        split_once_ch(s, c) matches Some((a, b)) ==> a.len() + 1 + b.len() == s.len(),
    decreases s.len(),
{
    if s.len() > 0 && s[0] != c {
        lemma_split_once_ch_parts(s.drop_first(), c);
    }
}

/// The two pieces of a two-character split make up the whole string.
pub proof fn lemma_split_once_two_parts(s: Seq<char>, c1: char, c2: char)
    ensures
        split_once_two(s, c1, c2) matches Some((a, b)) ==> a.len() + 2 + b.len() == s.len(),
    decreases s.len(),
{
    if s.len() >= 2 && !(s[0] == c1 && s[1] == c2) {
        lemma_split_once_two_parts(s.drop_first(), c1, c2);
    }
}

/// Peeling the first piece: the full split is the piece before the first
/// separator followed by the split of what comes after it.
pub proof fn lemma_split_ch_step(s: Seq<char>, c: char)
    ensures
        match split_once_ch(s, c) {
            None => split_ch(s, c) == seq![s],
            Some((a, b)) => split_ch(s, c) == seq![a] + split_ch(b, c),
        },
    decreases s.len(),
{
    if s.len() == 0 {
        assert(s =~= Seq::<char>::empty());
        assert(split_ch(s, c) =~= seq![s]);
    } else if s[0] == c {
    } else {
        let d = s.drop_first();
        lemma_split_ch_step(d, c);
        lemma_split_ch_len(d, c);
        match split_once_ch(d, c) {
            None => {
                assert(split_ch(d, c) == seq![d]);
                assert(seq![s[0]] + d =~= s);
                assert(split_ch(s, c) =~= seq![s]);
            },
            Some((a, b)) => {
                assert(split_ch(d, c) == seq![a] + split_ch(b, c));
                assert((seq![a] + split_ch(b, c)).first() == a);
                assert((seq![a] + split_ch(b, c)).drop_first() =~= split_ch(b, c));
                assert(split_ch(s, c) =~= seq![seq![s[0]] + a] + split_ch(b, c));
            },
        }
    }
}

/// Peeling the first piece of a two-character split, as above.
pub proof fn lemma_split_two_step(s: Seq<char>, c1: char, c2: char)
    ensures
        match split_once_two(s, c1, c2) {
            None => split_two(s, c1, c2) == seq![s],
            Some((a, b)) => split_two(s, c1, c2) == seq![a] + split_two(b, c1, c2),
        },
    decreases s.len(),
{
    if s.len() < 2 {
    } else if s[0] == c1 && s[1] == c2 {
    } else {
        let d = s.drop_first();
        lemma_split_two_step(d, c1, c2);
        lemma_split_two_len(d, c1, c2);
        match split_once_two(d, c1, c2) {
            None => {
                assert(split_two(d, c1, c2) == seq![d]);
                assert(seq![s[0]] + d =~= s);
                assert(split_two(s, c1, c2) =~= seq![s]);
            },
            Some((a, b)) => {
                assert(split_two(d, c1, c2) == seq![a] + split_two(b, c1, c2));
                assert((seq![a] + split_two(b, c1, c2)).first() == a);
                assert((seq![a] + split_two(b, c1, c2)).drop_first() =~= split_two(b, c1, c2));
                assert(split_two(s, c1, c2) =~= seq![seq![s[0]] + a] + split_two(b, c1, c2));
            },
        }
    }
}

} // verus!

verus! {

// ---------------------------------------------------------------------------
// Leading-slash trimming (for static asset file names)
// ---------------------------------------------------------------------------

/// `s` without its leading `/` characters.
pub open spec fn trim_slashes(s: Seq<char>) -> Seq<char>
    decreases s.len(),
{
    if s.len() > 0 && s[0] == '/' {
        trim_slashes(s.drop_first())
    } else {
        s
    }
}

proof fn lemma_trim_slashes_at(s: Seq<char>, i: int)
    requires
        0 <= i <= s.len(),
        forall|j: int| 0 <= j < i ==> s[j] == '/',
        i < s.len() ==> s[i] != '/',
    ensures
        trim_slashes(s) == s.skip(i),
    decreases i,
{
    if i == 0 {
        assert(s.skip(0) =~= s);
    } else {
        let d = s.drop_first();
        assert forall|j: int| 0 <= j < i - 1 implies d[j] == '/' by {
            assert(d[j] == s[j + 1]);
        }
        lemma_trim_slashes_at(d, i - 1);
        assert(s.skip(i) =~= d.skip(i - 1));
    }
}

/// `s` with every leading `/` removed, as `str::trim_start_matches("/")`
/// computes it.
pub fn trim_leading_slashes<'a>(s: &'a str) -> (r: &'a str)
    ensures
        r@ == trim_slashes(s@),
{
    let n = s.unicode_len();
    let mut i: usize = 0;
    while i < n
        invariant
            n == s@.len(),
            i <= n,
            forall|j: int| 0 <= j < i ==> s@[j] == '/',
        decreases n - i,
    {
        if s.get_char(i) != '/' {
            let r = s.substring_char(i, n);
            proof {
                lemma_trim_slashes_at(s@, i as int);
                assert(r@ =~= s@.skip(i as int));
            }
            return r;
        }
        i += 1;
    }
    let r = s.substring_char(n, n);
    proof {
        lemma_trim_slashes_at(s@, n as int);
        assert(r@ =~= s@.skip(n as int));
    }
    r
}

} // verus!
