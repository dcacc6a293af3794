//! The grammar of a progress line, as predicates on a sequence of characters.
//!
//! A progress line reads
//!
//! ```text
//! <marker> <anything> <dashes> <current>/<total> <percent>% <size> <speed> <eta>
//! ```
//!
//! with white space between the tokens. `<marker>` is one of `vid`, `aud`,
//! `sub` in any mix of upper and lower case; `<anything>` holds no line feed.
//! The pattern may begin anywhere in the line, and nothing is asked of what
//! follows `<eta>`.
//!
//! Where the grammar leaves a choice, the line is read as a backtracking
//! matcher reads it: `<anything>` is as short as it can be, and every later
//! token, from left to right, is as long as it can be.

use vstd::prelude::*;
use crate::text::{
    all_in, in_class, is_letter, lemma_maximal_is_stop, no_newline, run, run_stop, CharClass,
};

verus! {

/// A half-open range of character positions.
pub struct Range {
    pub lo: int,
    pub hi: int,
}

/// Where the tokens of a progress line lie.
pub struct Layout {
    /// The dashes in front of the counters.
    pub bar: Range,
    pub current: Range,
    pub total: Range,
    /// The numeral in front of the percent sign.
    pub percent: Range,
    pub size: Range,
    pub speed: Range,
    pub eta: Range,
}

/// One of the three track markers stands at `i`.
pub open spec fn marker_at(s: Seq<char>, i: int) -> bool {
    &&& 0 <= i
    &&& i + 3 <= s.len()
    &&& {
        ||| is_letter(s[i], 'v') && is_letter(s[i + 1], 'i') && is_letter(s[i + 2], 'd')
        ||| is_letter(s[i], 'a') && is_letter(s[i + 1], 'u') && is_letter(s[i + 2], 'd')
        ||| is_letter(s[i], 's') && is_letter(s[i + 1], 'u') && is_letter(s[i + 2], 'b')
    }
}

/// A track marker ends at or before `p`, with no line feed between its end
/// and `p`.
pub open spec fn armed(s: Seq<char>, p: int) -> bool {
    exists|a: int| #[trigger] marker_at(s, a) && a + 3 <= p <= s.len() && no_newline(s, a + 3, p)
}

/// `KB` or `MB` stands at `i`, in either case.
pub open spec fn unit_at(s: Seq<char>, i: int) -> bool {
    &&& 0 <= i
    &&& i + 2 <= s.len()
    &&& (is_letter(s[i], 'k') || is_letter(s[i], 'm'))
    &&& is_letter(s[i + 1], 'b')
}

/// `ps` stands at `i`, in either case.
pub open spec fn per_second_at(s: Seq<char>, i: int) -> bool {
    &&& 0 <= i
    &&& i + 2 <= s.len()
    &&& is_letter(s[i], 'p')
    &&& is_letter(s[i + 1], 's')
}

/// `s[lo, hi)` is one or more digits.
pub open spec fn number(s: Seq<char>, lo: int, hi: int) -> bool {
    run(s, CharClass::Digit, lo, hi)
}

/// `s[lo, hi)` is digits, then perhaps a full stop and further digits; the
/// digits in front of the full stop end at `dot`.
pub open spec fn percent_numeral_with(s: Seq<char>, lo: int, hi: int, dot: int) -> bool {
    &&& number(s, lo, dot)
    &&& dot == hi || (dot < hi && s[dot] == '.' && all_in(s, CharClass::Digit, dot + 1, hi))
}

/// `s[lo, hi)` is a numeral as it stands in front of the percent sign.
pub open spec fn percent_numeral(s: Seq<char>, lo: int, hi: int) -> bool {
    exists|dot: int| percent_numeral_with(s, lo, hi, dot)
}

/// `s[lo, hi)` is a byte count: digits and full stops, then `KB` or `MB`.
pub open spec fn amount(s: Seq<char>, lo: int, hi: int) -> bool {
    &&& run(s, CharClass::NumDot, lo, hi - 2)
    &&& unit_at(s, hi - 2)
}

/// `s[lo, hi)` is a byte count, a slash at `slash`, and a second byte count:
/// what was fetched of what there is in all. Each of the two has its own
/// unit, `KB` or `MB`.
pub open spec fn amount_pair_with(s: Seq<char>, lo: int, hi: int, slash: int) -> bool {
    &&& amount(s, lo, slash)
    &&& slash < s.len()
    &&& s[slash] == '/'
    &&& amount(s, slash + 1, hi)
}

/// `s[lo, hi)` is a size: a byte count, or a byte count of a total.
pub open spec fn size_token(s: Seq<char>, lo: int, hi: int) -> bool {
    amount(s, lo, hi) || exists|slash: int| amount_pair_with(s, lo, hi, slash)
}

/// `s[lo, hi)` is a rate: a byte count and `ps`.
pub open spec fn speed_token(s: Seq<char>, lo: int, hi: int) -> bool {
    &&& amount(s, lo, hi - 2)
    &&& per_second_at(s, hi - 2)
}

/// `s[lo, hi)` stands for a value that is not there: dashes and white space.
pub open spec fn placeholder(s: Seq<char>, lo: int, hi: int) -> bool {
    run(s, CharClass::DashSpace, lo, hi)
}

/// `s[lo, hi)` is three numbers with colons at `a` and `b` between them.
pub open spec fn clock_with(s: Seq<char>, lo: int, hi: int, a: int, b: int) -> bool {
    &&& number(s, lo, a)
    &&& s[a] == ':'
    &&& number(s, a + 1, b)
    &&& s[b] == ':'
    &&& number(s, b + 1, hi)
}

/// `s[lo, hi)` is the text `--:--:--`.
pub open spec fn blank_clock(s: Seq<char>, lo: int, hi: int) -> bool {
    &&& 0 <= lo
    &&& hi == lo + 8
    &&& hi <= s.len()
    &&& s[lo] == '-'
    &&& s[lo + 1] == '-'
    &&& s[lo + 2] == ':'
    &&& s[lo + 3] == '-'
    &&& s[lo + 4] == '-'
    &&& s[lo + 5] == ':'
    &&& s[lo + 6] == '-'
    &&& s[lo + 7] == '-'
}

/// `s[lo, hi)` is a time left: three numbers between colons, or `--:--:--`.
pub open spec fn eta_token(s: Seq<char>, lo: int, hi: int) -> bool {
    blank_clock(s, lo, hi) || exists|a: int, b: int| clock_with(s, lo, hi, a, b)
}

/// White space from `from`, then the time left.
pub open spec fn tail_eta(s: Seq<char>, from: int, eta: Range) -> bool {
    &&& run(s, CharClass::Space, from, eta.lo)
    &&& eta_token(s, eta.lo, eta.hi)
}

/// The speed at `speed`, then what `tail_eta` asks.
pub open spec fn tail_speed(s: Seq<char>, speed: Range, eta: Range) -> bool {
    &&& speed_token(s, speed.lo, speed.hi) || placeholder(s, speed.lo, speed.hi)
    &&& tail_eta(s, speed.hi, eta)
}

/// White space from `from`, then what `tail_speed` asks.
pub open spec fn tail_gap(s: Seq<char>, from: int, speed: Range, eta: Range) -> bool {
    &&& run(s, CharClass::Space, from, speed.lo)
    &&& tail_speed(s, speed, eta)
}

/// The size at `size`, then what `tail_gap` asks.
pub open spec fn tail_size(s: Seq<char>, size: Range, speed: Range, eta: Range) -> bool {
    &&& size_token(s, size.lo, size.hi) || placeholder(s, size.lo, size.hi)
    &&& tail_gap(s, size.hi, speed, eta)
}

/// What follows the percent sign: white space from `from`, the size, the speed
/// and the time left, with white space between them.
pub open spec fn tail(s: Seq<char>, from: int, size: Range, speed: Range, eta: Range) -> bool {
    &&& run(s, CharClass::Space, from, size.lo)
    &&& tail_size(s, size, speed, eta)
}

/// From the dashes to the percent sign: dashes, the two counters with a slash
/// between them, and the percentage, with white space between the tokens.
pub open spec fn head(s: Seq<char>, bar: Range, current: Range, total: Range, percent: Range) -> bool {
    &&& run(s, CharClass::Dash, bar.lo, bar.hi)
    &&& run(s, CharClass::Space, bar.hi, current.lo)
    &&& number(s, current.lo, current.hi)
    &&& current.hi < s.len()
    &&& s[current.hi] == '/'
    &&& total.lo == current.hi + 1
    &&& number(s, total.lo, total.hi)
    &&& run(s, CharClass::Space, total.hi, percent.lo)
    &&& percent_numeral(s, percent.lo, percent.hi)
    &&& percent.hi < s.len()
    &&& s[percent.hi] == '%'
}

/// The tokens of a progress line lie in `s` as `l` says, whatever stands in
/// front of the dashes.
pub open spec fn shaped(s: Seq<char>, l: Layout) -> bool {
    &&& head(s, l.bar, l.current, l.total, l.percent)
    &&& tail(s, l.percent.hi + 1, l.size, l.speed, l.eta)
}

/// `l` is a reading of `s` as a progress line.
pub open spec fn fits(s: Seq<char>, l: Layout) -> bool {
    &&& armed(s, l.bar.lo)
    &&& shaped(s, l)
}

/// `s` can be read as a progress line.
pub open spec fn is_progress_line(s: Seq<char>) -> bool {
    exists|l: Layout| fits(s, l)
}

/// `a` is not before `b` when the pairs are ordered by their first number and
/// then by their second.
pub open spec fn pair_ge(a: Range, b: Range) -> bool {
    a.lo > b.lo || (a.lo == b.lo && a.hi >= b.hi)
}

/// Order of two readings from the end of the speed on: the later end first,
/// then the time left.
pub open spec fn speed_ge(hi: int, eta: Range, other_hi: int, other_eta: Range) -> bool {
    hi > other_hi || (hi == other_hi && pair_ge(eta, other_eta))
}

/// Order of two readings from the start of the speed on.
pub open spec fn gap_ge(speed: Range, eta: Range, other_speed: Range, other_eta: Range) -> bool {
    speed.lo > other_speed.lo || (speed.lo == other_speed.lo && speed_ge(
        speed.hi,
        eta,
        other_speed.hi,
        other_eta,
    ))
}

/// Order of two readings from the end of the size on.
pub open spec fn size_ge(
    hi: int,
    speed: Range,
    eta: Range,
    other_hi: int,
    other_speed: Range,
    other_eta: Range,
) -> bool {
    hi > other_hi || (hi == other_hi && gap_ge(speed, eta, other_speed, other_eta))
}

/// `a` reads what follows the percent sign at least as greedily as `b`: at the
/// first of the six boundaries in which they differ (start and end of the
/// size, of the speed, of the time left), that of `a` is the larger.
pub open spec fn tail_ge(a: Layout, b: Layout) -> bool {
    a.size.lo > b.size.lo || (a.size.lo == b.size.lo && size_ge(
        a.size.hi,
        a.speed,
        a.eta,
        b.size.hi,
        b.speed,
        b.eta,
    ))
}

/// `a` is taken before `b`: its dashes start earlier, or they start in the same
/// place and `a` is at least as greedy behind the percent sign.
pub open spec fn preferred(a: Layout, b: Layout) -> bool {
    a.bar.lo < b.bar.lo || (a.bar.lo == b.bar.lo && tail_ge(a, b))
}

/// `l` is the reading of `s` that is taken: it fits, and no other reading
/// comes before it.
pub open spec fn selected(s: Seq<char>, l: Layout) -> bool {
    &&& fits(s, l)
    &&& forall|other: Layout| #[trigger] fits(s, other) ==> preferred(l, other)
}

/// Up to the percent sign the grammar leaves no choice: each boundary is where
/// the longest stretch of its class ends.
pub proof fn lemma_head_shape(s: Seq<char>, bar: Range, current: Range, total: Range, percent: Range)
    requires
        head(s, bar, current, total, percent),
    ensures
        bar.hi == run_stop(s, CharClass::Dash, bar.lo),
        current.lo == run_stop(s, CharClass::Space, bar.hi),
        current.hi == run_stop(s, CharClass::Digit, current.lo),
        total.hi == run_stop(s, CharClass::Digit, total.lo),
        percent.lo == run_stop(s, CharClass::Space, total.hi),
        ({
            let dot = run_stop(s, CharClass::Digit, percent.lo);
            &&& percent.lo < dot < s.len()
            &&& percent.hi == if s[dot] == '.' {
                run_stop(s, CharClass::Digit, dot + 1)
            } else {
                dot
            }
        }),
{
    assert(in_class(CharClass::Space, s[bar.hi]));
    lemma_maximal_is_stop(s, CharClass::Dash, bar.lo, bar.hi);
    assert(in_class(CharClass::Digit, s[current.lo]));
    lemma_maximal_is_stop(s, CharClass::Space, bar.hi, current.lo);
    lemma_maximal_is_stop(s, CharClass::Digit, current.lo, current.hi);
    assert(in_class(CharClass::Space, s[total.hi]));
    lemma_maximal_is_stop(s, CharClass::Digit, total.lo, total.hi);
    let dot = choose|dot: int| percent_numeral_with(s, percent.lo, percent.hi, dot);
    assert(in_class(CharClass::Digit, s[percent.lo]));
    lemma_maximal_is_stop(s, CharClass::Space, total.hi, percent.lo);
    lemma_maximal_is_stop(s, CharClass::Digit, percent.lo, dot);
    if dot != percent.hi {
        lemma_maximal_is_stop(s, CharClass::Digit, dot + 1, percent.hi);
    }
}

/// A line has at most one selected reading.
pub proof fn lemma_selected_unique(s: Seq<char>, a: Layout, b: Layout)
    requires
        selected(s, a),
        selected(s, b),
    ensures
        a == b,
{
    assert(preferred(a, b));
    assert(preferred(b, a));
    lemma_head_shape(s, a.bar, a.current, a.total, a.percent);
    lemma_head_shape(s, b.bar, b.current, b.total, b.percent);
}

/// `other` comes strictly before `l`: the key of `other` (the start of the
/// dashes, then the six boundaries behind the percent sign) is better at the
/// first place where the two keys differ.
spec fn strictly_before(other: Layout, l: Layout) -> bool {
    ||| other.bar.lo < l.bar.lo
    ||| other.bar.lo == l.bar.lo && other.size.lo > l.size.lo
    ||| other.bar.lo == l.bar.lo && other.size.lo == l.size.lo && other.size.hi > l.size.hi
    ||| other.bar.lo == l.bar.lo && other.size == l.size && other.speed.lo > l.speed.lo
    ||| other.bar.lo == l.bar.lo && other.size == l.size && other.speed.lo == l.speed.lo
        && other.speed.hi > l.speed.hi
    ||| other.bar.lo == l.bar.lo && other.size == l.size && other.speed == l.speed && other.eta.lo
        > l.eta.lo
    ||| other.bar.lo == l.bar.lo && other.size == l.size && other.speed == l.speed && other.eta.lo
        == l.eta.lo && other.eta.hi > l.eta.hi
}

/// Of two readings, one is preferred to the other or comes strictly before
/// it.
proof fn lemma_order_is_total(l: Layout, other: Layout)
    ensures
        preferred(l, other) || strictly_before(other, l),
{
}

/// Where a reading of a line is not preferred to `l`, a reading of the line
/// comes strictly before `l`, and its boundaries lie in the line.
proof fn lemma_step_up(s: Seq<char>, l: Layout) -> (other: Layout)
    requires
        exists|other: Layout| #[trigger] fits(s, other) && !preferred(l, other),
    ensures
        fits(s, other),
        strictly_before(other, l),
        0 <= other.bar.lo,
        other.size.lo <= s.len(),
        other.size.hi <= s.len(),
        other.speed.lo <= s.len(),
        other.speed.hi <= s.len(),
        other.eta.lo <= s.len(),
        other.eta.hi <= s.len(),
{
    let other = choose|other: Layout| #[trigger] fits(s, other) && !preferred(l, other);
    lemma_order_is_total(l, other);
    lemma_bounds(s, other);
    other
}

/// From a reading of a line, a reading of the line that is selected: while
/// another reading comes before the one at hand, that one is taken up.
proof fn lemma_climb(s: Seq<char>, l: Layout) -> (best: Layout)
    requires
        fits(s, l),
    ensures
        selected(s, best),
    decreases
        l.bar.lo,
        s.len() - l.size.lo,
        s.len() - l.size.hi,
        s.len() - l.speed.lo,
        s.len() - l.speed.hi,
        s.len() - l.eta.lo,
        s.len() - l.eta.hi,
{
    if selected(s, l) {
        l
    } else {
        let other = lemma_step_up(s, l);
        lemma_climb(s, other)
    }
}

/// The boundaries of a reading lie in the line, in order.
pub proof fn lemma_bounds(s: Seq<char>, l: Layout)
    requires
        fits(s, l),
    ensures
        0 <= l.bar.lo < l.percent.hi < l.size.lo < l.size.hi < l.speed.lo < l.speed.hi < l.eta.lo
            < l.eta.hi <= s.len(),
{
    let dot = choose|dot: int| percent_numeral_with(s, l.percent.lo, l.percent.hi, dot);
    if size_token(s, l.size.lo, l.size.hi) && !amount(s, l.size.lo, l.size.hi) {
        let x = choose|x: int| amount_pair_with(s, l.size.lo, l.size.hi, x);
    }
    if !blank_clock(s, l.eta.lo, l.eta.hi) {
        let (x, y) = choose|x: int, y: int| clock_with(s, l.eta.lo, l.eta.hi, x, y);
    }
}

/// Every progress line has a selected reading, and by `lemma_selected_unique`
/// exactly one.
pub proof fn lemma_selected_exists(s: Seq<char>)
    requires
        is_progress_line(s),
    ensures
        exists|l: Layout| selected(s, l),
{
    let l = choose|l: Layout| fits(s, l);
    let best = lemma_climb(s, l);
    assert(selected(s, best));
}

/// A progress line has at least 21 characters: the empty line is none, and
/// neither is a line that breaks off early.
pub proof fn lemma_progress_line_is_long(s: Seq<char>)
    requires
        is_progress_line(s),
    ensures
        s.len() >= 21,
{
    let l = choose|l: Layout| fits(s, l);
    let a = choose|a: int| #[trigger]
        marker_at(s, a) && a + 3 <= l.bar.lo <= s.len() && no_newline(s, a + 3, l.bar.lo);
    let dot = choose|dot: int| percent_numeral_with(s, l.percent.lo, l.percent.hi, dot);
    if size_token(s, l.size.lo, l.size.hi) && !amount(s, l.size.lo, l.size.hi) {
        let x = choose|x: int| amount_pair_with(s, l.size.lo, l.size.hi, x);
    }
    if !blank_clock(s, l.eta.lo, l.eta.hi) {
        let (x, y) = choose|x: int, y: int| clock_with(s, l.eta.lo, l.eta.hi, x, y);
    }
}

} // verus!
