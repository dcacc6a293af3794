//! Character classes and small text primitives shared by the parsers.
//!
//! Everything here works on sequences of characters: a `&str` is first turned
//! into its characters, positions are character positions, and a piece of text
//! is a half-open range `[lo, hi)` of positions.

use vstd::prelude::*;
use vstd::string::StrSliceExecFns;

verus! {

/// The character classes that the grammars are built from.
#[derive(Clone, Copy, Debug, PartialEq, Eq, Structural)]
pub enum CharClass {
    /// `0` to `9`.
    Digit,
    /// A character with the Unicode `White_Space` property.
    Space,
    /// The hyphen-minus `-`.
    Dash,
    /// A digit or a full stop.
    NumDot,
    /// A dash or white space.
    DashSpace,
}

/// Decimal digits: `0` to `9`.
pub open spec fn is_digit(c: char) -> bool {
    '0' <= c && c <= '9'
}

/// White space in the sense of the Unicode `White_Space` property.
pub open spec fn is_space(c: char) -> bool {
    ||| c == ' '
    ||| ('\u{9}' <= c && c <= '\u{d}')
    ||| c == '\u{85}'
    ||| c == '\u{a0}'
    ||| c == '\u{1680}'
    ||| ('\u{2000}' <= c && c <= '\u{200a}')
    ||| c == '\u{2028}'
    ||| c == '\u{2029}'
    ||| c == '\u{202f}'
    ||| c == '\u{205f}'
    ||| c == '\u{3000}'
}

/// Membership of a character in a class.
pub open spec fn in_class(cls: CharClass, c: char) -> bool {
    match cls {
        CharClass::Digit => is_digit(c),
        CharClass::Space => is_space(c),
        CharClass::Dash => c == '-',
        CharClass::NumDot => is_digit(c) || c == '.',
        CharClass::DashSpace => c == '-' || is_space(c),
    }
}

/// `c` is the lower-case ASCII letter `lower` or its upper-case form.
pub open spec fn is_letter(c: char, lower: char) -> bool {
    c == lower || c as int + 32 == lower as int
}

/// Every character of `s[lo, hi)` is in `cls`; the range lies inside `s`.
pub open spec fn all_in(s: Seq<char>, cls: CharClass, lo: int, hi: int) -> bool {
    &&& 0 <= lo <= hi <= s.len()
    &&& forall|k: int| lo <= k < hi ==> in_class(cls, #[trigger] s[k])
}

/// `s[lo, hi)` is a non-empty stretch of characters of `cls`.
pub open spec fn run(s: Seq<char>, cls: CharClass, lo: int, hi: int) -> bool {
    lo < hi && all_in(s, cls, lo, hi)
}

/// `s[lo, hi)` is a stretch of `cls` that cannot be extended to the right.
pub open spec fn maximal(s: Seq<char>, cls: CharClass, lo: int, hi: int) -> bool {
    all_in(s, cls, lo, hi) && (hi == s.len() || !in_class(cls, s[hi]))
}

/// No line feed occurs in `s[lo, hi)`.
pub open spec fn no_newline(s: Seq<char>, lo: int, hi: int) -> bool {
    forall|k: int| lo <= k < hi ==> #[trigger] s[k] != '\n'
}

pub fn is_digit_char(c: char) -> (r: bool)
    ensures
        r == is_digit(c),
{
    '0' <= c && c <= '9'
}

pub fn is_space_char(c: char) -> (r: bool)
    ensures
        r == is_space(c),
{
    c == ' ' || ('\u{9}' <= c && c <= '\u{d}') || c == '\u{85}' || c == '\u{a0}' || c == '\u{1680}'
        || ('\u{2000}' <= c && c <= '\u{200a}') || c == '\u{2028}' || c == '\u{2029}' || c
        == '\u{202f}' || c == '\u{205f}' || c == '\u{3000}'
}

pub fn class_has(cls: CharClass, c: char) -> (r: bool)
    ensures
        r == in_class(cls, c),
{
    match cls {
        CharClass::Digit => is_digit_char(c),
        CharClass::Space => is_space_char(c),
        CharClass::Dash => c == '-',
        CharClass::NumDot => is_digit_char(c) || c == '.',
        CharClass::DashSpace => c == '-' || is_space_char(c),
    }
}

pub fn letter_is(c: char, lower: char) -> (r: bool)
    ensures
        r == is_letter(c, lower),
{
    c == lower || c as u32 + 32 == lower as u32
}

/// Where the longest stretch of `cls` that starts at `lo` ends.
pub open spec fn run_stop(s: Seq<char>, cls: CharClass, lo: int) -> int
    decreases s.len() - lo,
{
    if 0 <= lo < s.len() && in_class(cls, s[lo]) {
        run_stop(s, cls, lo + 1)
    } else {
        lo
    }
}

/// `run_stop` ends a stretch that cannot be extended.
pub proof fn lemma_run_stop(s: Seq<char>, cls: CharClass, lo: int)
    requires
        0 <= lo <= s.len(),
    ensures
        maximal(s, cls, lo, run_stop(s, cls, lo)),
    decreases s.len() - lo,
{
    if lo < s.len() && in_class(cls, s[lo]) {
        lemma_run_stop(s, cls, lo + 1);
    }
}

/// A stretch that cannot be extended ends where `run_stop` says.
pub proof fn lemma_maximal_is_stop(s: Seq<char>, cls: CharClass, lo: int, hi: int)
    requires
        maximal(s, cls, lo, hi),
    ensures
        hi == run_stop(s, cls, lo),
{
    lemma_run_stop(s, cls, lo);
    lemma_maximal_unique(s, cls, lo, hi, run_stop(s, cls, lo));
}

/// The end of the longest stretch of `cls` that starts at `lo`.
pub(crate) fn run_end(s: &Vec<char>, cls: CharClass, lo: usize) -> (hi: usize)
    requires
        lo <= s.len(),
    ensures
        lo <= hi <= s.len(),
        maximal(s@, cls, lo as int, hi as int),
        hi == run_stop(s@, cls, lo as int),
{
    let mut hi: usize = lo;
    while hi < s.len() && class_has(cls, s[hi])
        invariant
            lo <= hi <= s.len(),
            all_in(s@, cls, lo as int, hi as int),
        decreases s.len() - hi,
    {
        hi = hi + 1;
    }
    proof {
        lemma_maximal_is_stop(s@, cls, lo as int, hi as int);
    }
    hi
}

/// Two maximal stretches of one class from one start end in the same place.
pub proof fn lemma_maximal_unique(s: Seq<char>, cls: CharClass, lo: int, a: int, b: int)
    requires
        maximal(s, cls, lo, a),
        maximal(s, cls, lo, b),
    ensures
        a == b,
{
    if a < b {
        assert(in_class(cls, s[a]));
    }
    if b < a {
        assert(in_class(cls, s[b]));
    }
}

/// A stretch of a class never reaches past the maximal one from the same start.
pub proof fn lemma_within_maximal(s: Seq<char>, cls: CharClass, lo: int, hi: int, end: int)
    requires
        all_in(s, cls, lo, hi),
        maximal(s, cls, lo, end),
    ensures
        hi <= end,
{
    if end < hi {
        assert(in_class(cls, s[end]));
    }
}

/// The characters of a string slice, in order.
pub fn chars_of(s: &str) -> (v: Vec<char>)
    ensures
        v@ == s@,
{
    broadcast use vstd::string::group_string_axioms;

    let mut v: Vec<char> = Vec::new();
    for c in it: s.chars()
        invariant
            it.seq() == s@,
            v@ == it.seq().take(it.index()),
    {
        v.push(c);
    }
    v
}

/// The texts of a sequence of strings.
pub open spec fn texts_of(v: Seq<String>) -> Seq<Seq<char>> {
    Seq::new(v.len(), |i: int| v[i]@)
}

/// The first position in `[lo, hi]` that is `hi` or holds no white space.
pub open spec fn skip_space(s: Seq<char>, lo: int, hi: int) -> int
    decreases hi - lo,
{
    if lo < hi && 0 <= lo < s.len() && is_space(s[lo]) {
        skip_space(s, lo + 1, hi)
    } else {
        lo
    }
}

/// The last position in `[lo, hi]` that is `lo` or follows a character that is
/// no white space.
pub open spec fn drop_space(s: Seq<char>, lo: int, hi: int) -> int
    decreases hi - lo,
{
    if lo < hi && 0 < hi <= s.len() && is_space(s[hi - 1]) {
        drop_space(s, lo, hi - 1)
    } else {
        hi
    }
}

/// `t` without the white space at its two ends.
pub open spec fn trimmed(t: Seq<char>) -> Seq<char> {
    let lo = skip_space(t, 0, t.len() as int);
    let hi = drop_space(t, lo, t.len() as int);
    t.subrange(lo, hi)
}

/// Skipping white space inside a slice is skipping it in the whole text.
pub proof fn lemma_skip_space_slice(s: Seq<char>, a: int, b: int, lo: int)
    requires
        0 <= a <= b <= s.len(),
        0 <= lo <= b - a,
    ensures
        skip_space(s.subrange(a, b), lo, b - a) + a == skip_space(s, a + lo, b),
    decreases b - a - lo,
{
    let t = s.subrange(a, b);
    if lo < b - a {
        assert(t[lo] == s[a + lo]);
        if is_space(t[lo]) {
            lemma_skip_space_slice(s, a, b, lo + 1);
        }
    }
}

/// Dropping white space inside a slice is dropping it in the whole text.
pub proof fn lemma_drop_space_slice(s: Seq<char>, a: int, b: int, lo: int, hi: int)
    requires
        0 <= a <= b <= s.len(),
        0 <= lo <= hi <= b - a,
    ensures
        drop_space(s.subrange(a, b), lo, hi) + a == drop_space(s, a + lo, a + hi),
    decreases hi - lo,
{
    let t = s.subrange(a, b);
    if lo < hi {
        assert(t[hi - 1] == s[a + hi - 1]);
        if is_space(t[hi - 1]) {
            lemma_drop_space_slice(s, a, b, lo, hi - 1);
        }
    }
}

/// The range that is left of `s[lo, hi)` when the white space at its two ends
/// is taken away.
pub(crate) fn trim_range(s: &Vec<char>, lo: usize, hi: usize) -> (r: (usize, usize))
    requires
        lo <= hi <= s.len(),
    ensures
        lo <= r.0 <= r.1 <= hi,
        r.0 == skip_space(s@, lo as int, hi as int),
        r.1 == drop_space(s@, r.0 as int, hi as int),
        s@.subrange(r.0 as int, r.1 as int) == trimmed(s@.subrange(lo as int, hi as int)),
{
    let mut a: usize = lo;
    while a < hi && is_space_char(s[a])
        invariant
            lo <= a <= hi <= s.len(),
            skip_space(s@, a as int, hi as int) == skip_space(s@, lo as int, hi as int),
        decreases hi - a,
    {
        a = a + 1;
    }
    let mut b: usize = hi;
    while a < b && is_space_char(s[b - 1])
        invariant
            a <= b <= hi <= s.len(),
            drop_space(s@, a as int, b as int) == drop_space(s@, a as int, hi as int),
        decreases b - a,
    {
        b = b - 1;
    }
    proof {
        let t = s@.subrange(lo as int, hi as int);
        lemma_skip_space_slice(s@, lo as int, hi as int, 0);
        let ta = skip_space(t, 0, t.len() as int);
        assert(ta + lo == a);
        lemma_drop_space_slice(s@, lo as int, hi as int, ta, t.len() as int);
        let tb = drop_space(t, ta, t.len() as int);
        assert(tb + lo == b);
        assert(t.subrange(ta, tb) =~= s@.subrange(a as int, b as int));
    }
    (a, b)
}

/// `text` without the white space at its two ends.
pub fn trim_text(text: &str) -> (r: String)
    ensures
        r@ == trimmed(text@),
{
    let s = chars_of(text);
    let (lo, hi) = trim_range(&s, 0, s.len());
    assert(s@.subrange(0, s.len() as int) =~= s@);
    text.substring_char(lo, hi).to_owned()
}

/// The value of a decimal digit.
pub open spec fn digit_value(c: char) -> int {
    c as int - '0' as int
}

/// The number that a string of decimal digits writes.
pub open spec fn decimal_value(digits: Seq<char>) -> int
    decreases digits.len(),
{
    if digits.len() == 0 {
        0
    } else {
        decimal_value(digits.drop_last()) * 10 + digit_value(digits.last())
    }
}

/// A numeral is at least as large as each of its prefixes.
pub proof fn lemma_decimal_prefix(s: Seq<char>, lo: int, mid: int, hi: int)
    requires
        lo <= mid <= hi,
        all_in(s, CharClass::Digit, lo, hi),
    ensures
        0 <= decimal_value(s.subrange(lo, mid)) <= decimal_value(s.subrange(lo, hi)),
    decreases hi - lo,
{
    if lo == hi {
        assert(s.subrange(lo, mid).len() == 0);
    } else if mid == hi {
        lemma_decimal_prefix(s, lo, lo, hi - 1);
        assert(s.subrange(lo, hi).drop_last() =~= s.subrange(lo, hi - 1));
        assert(is_digit(s[hi - 1]));
        assert(s.subrange(lo, hi).last() == s[hi - 1]);
    } else {
        lemma_decimal_prefix(s, lo, mid, hi - 1);
        assert(s.subrange(lo, hi).drop_last() =~= s.subrange(lo, hi - 1));
        assert(is_digit(s[hi - 1]));
        assert(s.subrange(lo, hi).last() == s[hi - 1]);
    }
}

/// Reads the decimal numeral `s[lo, hi)` as an `i32`; `None` when it is too
/// large for one.
pub(crate) fn parse_decimal(s: &Vec<char>, lo: usize, hi: usize) -> (r: Option<i32>)
    requires
        all_in(s@, CharClass::Digit, lo as int, hi as int),
    ensures
        match r {
            Some(v) => v == decimal_value(s@.subrange(lo as int, hi as int)),
            None => decimal_value(s@.subrange(lo as int, hi as int)) > i32::MAX,
        },
{
    let mut acc: i32 = 0;
    let mut k: usize = lo;
    assert(s@.subrange(lo as int, lo as int).len() == 0);
    while k < hi
        invariant
            lo <= k <= hi <= s.len(),
            all_in(s@, CharClass::Digit, lo as int, hi as int),
            0 <= acc,
            acc == decimal_value(s@.subrange(lo as int, k as int)),
        decreases hi - k,
    {
        let c = s[k];
        assert(is_digit(s@[k as int]));
        let d: i32 = (c as u32 - '0' as u32) as i32;
        proof {
            assert(s@.subrange(lo as int, k + 1).drop_last() =~= s@.subrange(lo as int, k as int));
            assert(s@.subrange(lo as int, k + 1).last() == c);
            assert(decimal_value(s@.subrange(lo as int, k + 1)) == acc * 10 + d);
            lemma_decimal_prefix(s@, lo as int, k + 1, hi as int);
        }
        if acc > (i32::MAX - d) / 10 {
            return None;
        }
        acc = acc * 10 + d;
        k = k + 1;
    }
    Some(acc)
}

} // verus!
