//! Splitting a text at the occurrences of a separator.

use vstd::prelude::*;
use vstd::string::{StrSliceExecFns, StringExecFns};
use crate::grammar::Range;
use crate::matcher::Span;
use crate::text::{chars_of, texts_of};

verus! {

/// `sep` stands in `s` at `i`.
pub open spec fn occurs_at(s: Seq<char>, sep: Seq<char>, i: int) -> bool {
    0 <= i && i + sep.len() <= s.len() && s.subrange(i, i + sep.len()) == sep
}

/// The first place at or behind `from` where `sep`, which is not empty, stands
/// in `s`; `-1` when there is none.
pub open spec fn next_occurrence(s: Seq<char>, sep: Seq<char>, from: int) -> int
    decreases s.len() - from,
{
    if from < 0 || from >= s.len() || from + sep.len() > s.len() {
        -1
    } else if occurs_at(s, sep, from) {
        from
    } else {
        next_occurrence(s, sep, from + 1)
    }
}

/// The ranges between the occurrences of `sep` in `s[from, ..)`, the
/// occurrences taken from left to right and none overlapping another. There
/// is one range more than there are occurrences. An empty `sep` occurs
/// nowhere.
pub open spec fn split_ranges(s: Seq<char>, sep: Seq<char>, from: int) -> Seq<Range>
    decreases s.len() - from,
{
    let at = next_occurrence(s, sep, from);
    if 0 <= from <= at && at + sep.len() <= s.len() && sep.len() > 0 {
        seq![Range { lo: from, hi: at }] + split_ranges(s, sep, at + sep.len())
    } else {
        seq![Range { lo: from, hi: s.len() as int }]
    }
}

/// The texts of `s` in the ranges `ranges`.
pub open spec fn texts_in(s: Seq<char>, ranges: Seq<Range>) -> Seq<Seq<char>> {
    Seq::new(ranges.len(), |i: int| s.subrange(ranges[i].lo, ranges[i].hi))
}

/// The pieces of `s` between the occurrences of `sep`.
pub open spec fn split(s: Seq<char>, sep: Seq<char>) -> Seq<Seq<char>> {
    texts_in(s, split_ranges(s, sep, 0))
}

/// The ranges of a vector of spans, as plain values.
pub open spec fn ranges_of(spans: Seq<Span>) -> Seq<Range> {
    Seq::new(spans.len(), |i: int| spans[i]@)
}

fn stands_at(s: &Vec<char>, sep: &Vec<char>, i: usize) -> (r: bool)
    requires
        i + sep.len() <= s.len(),
    ensures
        r == occurs_at(s@, sep@, i as int),
{
    let m = sep.len();
    let mut k: usize = 0;
    while k < m
        invariant
            k <= m == sep.len(),
            i + m <= s.len(),
            forall|j: int| 0 <= j < k ==> s@[i + j] == sep@[j],
        decreases m - k,
    {
        if s[i + k] != sep[k] {
            proof {
                let piece = s@.subrange(i as int, i + m);
                assert(piece[k as int] == s@[i + k]);
            }
            return false;
        }
        k = k + 1;
    }
    assert(s@.subrange(i as int, i + m) =~= sep@);
    true
}

/// The first place at or behind `from` where `sep` stands in `s`.
pub(crate) fn find_from(s: &Vec<char>, sep: &Vec<char>, from: usize) -> (r: Option<usize>)
    requires
        from <= s.len(),
        sep.len() > 0,
    ensures
        match r {
            Some(at) => at == next_occurrence(s@, sep@, from as int) && from <= at && at
                + sep.len() <= s.len(),
            None => next_occurrence(s@, sep@, from as int) == -1,
        },
{
    let n = s.len();
    let m = sep.len();
    if m > n {
        return None;
    }
    let mut i: usize = from;
    while i <= n - m
        invariant
            from <= i <= n,
            0 < m <= n,
            n == s.len(),
            m == sep.len(),
            next_occurrence(s@, sep@, i as int) == next_occurrence(s@, sep@, from as int),
        decreases n - i,
    {
        if stands_at(s, sep, i) {
            return Some(i);
        }
        i = i + 1;
    }
    None
}

/// Splits `s` at the occurrences of `sep` and returns where the pieces lie.
/// An empty separator occurs nowhere.
pub(crate) fn split_spans(s: &Vec<char>, sep: &Vec<char>) -> (r: Vec<Span>)
    ensures
        ranges_of(r@) == split_ranges(s@, sep@, 0),
        r.len() >= 1,
        forall|i: int| 0 <= i < r.len() ==> #[trigger] r[i].lo <= r[i].hi <= s.len(),
{
    let n = s.len();
    let mut out: Vec<Span> = Vec::new();
    if sep.len() == 0 {
        out.push(Span { lo: 0, hi: n });
        assert(ranges_of(out@) =~= split_ranges(s@, sep@, 0));
        return out;
    }
    let mut from: usize = 0;
    loop
        invariant
            sep.len() > 0,
            from <= n == s.len(),
            ranges_of(out@) + split_ranges(s@, sep@, from as int) == split_ranges(s@, sep@, 0),
            forall|i: int| 0 <= i < out.len() ==> #[trigger] out[i].lo <= out[i].hi <= s.len(),
        decreases n - from,
    {
        let ghost before = ranges_of(out@);
        match find_from(s, sep, from) {
            Some(at) => {
                out.push(Span { lo: from, hi: at });
                proof {
                    let piece = seq![Range { lo: from as int, hi: at as int }];
                    assert(ranges_of(out@) =~= before + piece);
                    assert(before + (piece + split_ranges(s@, sep@, at + sep.len())) =~= (before
                        + piece) + split_ranges(s@, sep@, at + sep.len()));
                }
                from = at + sep.len();
            },
            None => {
                out.push(Span { lo: from, hi: n });
                proof {
                    let piece = seq![Range { lo: from as int, hi: n as int }];
                    assert(ranges_of(out@) =~= before + piece);
                }
                return out;
            },
        }
    }
}

/// `sep` stands in `s`: splitting at it gives more than one piece.
pub open spec fn occurs(s: Seq<char>, sep: Seq<char>) -> bool {
    split(s, sep).len() > 1
}

/// The pieces one behind the other.
pub open spec fn joined(pieces: Seq<Seq<char>>) -> Seq<char>
    decreases pieces.len(),
{
    if pieces.len() == 0 {
        Seq::empty()
    } else {
        joined(pieces.drop_last()) + pieces.last()
    }
}

/// `s` without the occurrences of `pattern`, taken from left to right.
pub open spec fn without(s: Seq<char>, pattern: Seq<char>) -> Seq<char> {
    joined(split(s, pattern))
}

/// The pieces of `text` between the occurrences of `sep`. An empty separator
/// occurs nowhere: the text is then the one piece.
pub fn split_text(text: &str, sep: &str) -> (r: Vec<String>)
    ensures
        texts_of(r@) == split(text@, sep@),
        r.len() >= 1,
{
    let s = chars_of(text);
    let pattern = chars_of(sep);
    let spans = split_spans(&s, &pattern);
    let ghost ranges = split_ranges(text@, sep@, 0);
    let mut out: Vec<String> = Vec::new();
    let n = spans.len();
    let mut i: usize = 0;
    while i < n
        invariant
            i <= n == spans.len(),
            s@ == text@,
            ranges_of(spans@) == ranges,
            forall|k: int| 0 <= k < spans.len() ==> #[trigger] spans[k].lo <= spans[k].hi <= s.len(),
            out.len() == i,
            forall|k: int|
                0 <= k < i ==> (#[trigger] out[k])@ == text@.subrange(ranges[k].lo, ranges[k].hi),
        decreases n - i,
    {
        let span = spans[i];
        assert(ranges[i as int] == span@);
        out.push(text.substring_char(span.lo, span.hi).to_owned());
        i = i + 1;
    }
    assert(texts_of(out@) =~= texts_in(text@, ranges));
    out
}

/// `text` without the occurrences of `pattern`.
pub fn remove_all(text: &str, pattern: &str) -> (r: String)
    ensures
        r@ == without(text@, pattern@),
{
    let pieces = split_text(text, pattern);
    let ghost all = texts_of(pieces@);
    let mut out = String::new();
    let n = pieces.len();
    let mut i: usize = 0;
    assert(all.take(0) =~= Seq::<Seq<char>>::empty());
    while i < n
        invariant
            i <= n == pieces.len(),
            all == texts_of(pieces@),
            out@ == joined(all.take(i as int)),
        decreases n - i,
    {
        out.append(pieces[i].as_str());
        proof {
            assert(all.take(i + 1).drop_last() =~= all.take(i as int));
            assert(all.take(i + 1).last() == pieces[i as int]@);
        }
        i = i + 1;
    }
    assert(all.take(n as int) =~= all);
    out
}

} // verus!
