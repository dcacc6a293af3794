//! Lines in canonical form: the tokens of the grammar with one blank between
//! them, as a writer of progress lines sets them. Such a line is read back
//! as it was written.

use vstd::prelude::*;
use crate::grammar::{
    amount, amount_pair_with, armed, blank_clock, clock_with, eta_token, fits, head,
    is_progress_line, lemma_head_shape, lemma_selected_unique, marker_at, number,
    percent_numeral, percent_numeral_with, placeholder, preferred, selected, size_token,
    speed_token, tail, tail_eta, tail_gap, tail_ge, tail_size, tail_speed, Layout, Range,
};
use crate::decimal::{digits_of, lemma_digits_round_trip};
use crate::progress::{line_outcome, outcome_of, text_of, ParseError, ProgressRecord};
use crate::text::{
    all_in, decimal_value, in_class, is_digit, is_space, lemma_maximal_unique,
    lemma_within_maximal, maximal, no_newline, run, trimmed, CharClass,
};
use crate::track::{kind_of, StreamType};

verus! {

/// The character `c` does not stand in `s` in front of `end`.
pub open spec fn free_of(s: Seq<char>, end: int, c: char) -> bool {
    forall|k: int| 0 <= k < end ==> #[trigger] s[k] != c
}

/// `s[r]` is a single dash.
pub open spec fn single_dash(s: Seq<char>, r: Range) -> bool {
    0 <= r.lo && r.hi == r.lo + 1 && r.hi <= s.len() && s[r.lo] == '-'
}

/// The reading `l` of `s` is in canonical form.
///
/// One blank stands between the dashes, the counters, the percentage, the
/// size, the speed and the time left. A size or a speed that is not there is
/// written as one dash. The dashes are all the dashes there are in front of
/// the counters; in front of them stands no percent sign, or no other dash;
/// and the time left is not followed by a digit.
pub open spec fn canonical(s: Seq<char>, l: Layout) -> bool {
    &&& fits(s, l)
    &&& l.current.lo == l.bar.hi + 1
    &&& l.percent.lo == l.total.hi + 1
    &&& l.size.lo == l.percent.hi + 2
    &&& l.speed.lo == l.size.hi + 1
    &&& l.eta.lo == l.speed.hi + 1
    &&& size_token(s, l.size.lo, l.size.hi) || single_dash(s, l.size)
    &&& speed_token(s, l.speed.lo, l.speed.hi) || single_dash(s, l.speed)
    &&& l.eta.hi == s.len() || !is_digit(s[l.eta.hi])
    &&& l.bar.lo > 0 ==> s[l.bar.lo - 1] != '-'
    &&& free_of(s, l.bar.lo, '%') || free_of(s, l.bar.lo, '-')
}

/// Two byte counts that start in one place end in one place.
proof fn lemma_amount_unique(s: Seq<char>, lo: int, a: int, b: int)
    requires
        amount(s, lo, a),
        amount(s, lo, b),
    ensures
        a == b,
{
    assert(!in_class(CharClass::NumDot, s[a - 2]));
    assert(!in_class(CharClass::NumDot, s[b - 2]));
    lemma_maximal_unique(s, CharClass::NumDot, lo, a - 2, b - 2);
}

/// Two pairs of byte counts that start in one place end in one place.
proof fn lemma_pair_unique(s: Seq<char>, lo: int, a: int, x: int, b: int, y: int)
    requires
        amount_pair_with(s, lo, a, x),
        amount_pair_with(s, lo, b, y),
    ensures
        a == b,
        x == y,
{
    lemma_amount_unique(s, lo, x, y);
    assert(!in_class(CharClass::NumDot, s[a - 2]));
    assert(!in_class(CharClass::NumDot, s[b - 2]));
    lemma_maximal_unique(s, CharClass::NumDot, x + 1, a - 2, b - 2);
}

/// No reading of a line starts in front of the dashes of a canonical one.
proof fn lemma_no_earlier_start(s: Seq<char>, l: Layout, other: Layout)
    requires
        canonical(s, l),
        fits(s, other),
    ensures
        other.bar.lo >= l.bar.lo,
{
    if other.bar.lo < l.bar.lo {
        let p = l.bar.lo;
        assert(s[p] == '-') by {
            assert(in_class(CharClass::Dash, s[p]));
        }
        // the other reading starts with a dash in front of `p`
        assert(s[other.bar.lo] == '-') by {
            assert(in_class(CharClass::Dash, s[other.bar.lo]));
        }
        assert(free_of(s, p, '%'));
        // the dashes of the other reading end in front of `p`
        if other.bar.hi >= p {
            assert(in_class(CharClass::Dash, s[p - 1]));
        }
        let dot = choose|dot: int|
            percent_numeral_with(s, other.percent.lo, other.percent.hi, dot);
        // `p` holds a dash, so it lies in none of the stretches up to the
        // percent sign of the other reading
        if p < other.current.lo {
            assert(in_class(CharClass::Space, s[p]));
        } else if p < other.current.hi {
            assert(in_class(CharClass::Digit, s[p]));
        } else if p == other.current.hi {
        } else if p < other.total.hi {
            assert(in_class(CharClass::Digit, s[p]));
        } else if p < other.percent.lo {
            assert(in_class(CharClass::Space, s[p]));
        } else if p < dot {
            assert(in_class(CharClass::Digit, s[p]));
        } else if p == dot && dot < other.percent.hi {
        } else if p < other.percent.hi {
            assert(in_class(CharClass::Digit, s[p]));
        } else if p == other.percent.hi {
        } else {
            assert(s[other.percent.hi] != '%');
        }
    }
}

/// A reading that shares the head of a canonical one is not greedier behind
/// the percent sign.
proof fn lemma_tail_not_greedier(s: Seq<char>, l: Layout, other: Layout)
    requires
        canonical(s, l),
        other.percent.hi == l.percent.hi,
        tail(s, other.percent.hi + 1, other.size, other.speed, other.eta),
    ensures
        tail_ge(l, other),
{
    let r0 = l.percent.hi + 1;
    let size_is_token = size_token(s, l.size.lo, l.size.hi);
    let speed_is_token = speed_token(s, l.speed.lo, l.speed.hi);
    // what stands at the start of each token of `l`
    assert(in_class(CharClass::Space, s[r0]));
    assert(in_class(CharClass::Space, s[l.size.hi]));
    assert(in_class(CharClass::Space, s[l.speed.hi]));
    if size_is_token {
        if amount(s, l.size.lo, l.size.hi) {
            assert(in_class(CharClass::NumDot, s[l.size.lo]));
        } else {
            let x = choose|x: int| amount_pair_with(s, l.size.lo, l.size.hi, x);
            assert(in_class(CharClass::NumDot, s[l.size.lo]));
        }
    }
    if speed_is_token {
        assert(in_class(CharClass::NumDot, s[l.speed.lo]));
    }
    let eta_is_clock = !blank_clock(s, l.eta.lo, l.eta.hi);
    if eta_is_clock {
        let (a, b) = choose|a: int, b: int| clock_with(s, l.eta.lo, l.eta.hi, a, b);
        assert(in_class(CharClass::Digit, s[l.eta.lo]));
    }
    assert(!is_space(s[l.size.lo]));
    assert(!is_space(s[l.speed.lo]));
    assert(!is_space(s[l.eta.lo]));
    // the size starts where that of `l` starts
    assert(maximal(s, CharClass::Space, r0, l.size.lo));
    lemma_within_maximal(s, CharClass::Space, r0, other.size.lo, l.size.lo);
    assert(other.size.lo == l.size.lo);
    // the size ends no later
    if size_is_token {
        if placeholder(s, other.size.lo, other.size.hi) {
            assert(in_class(CharClass::DashSpace, s[l.size.lo]));
        }
        if amount(s, l.size.lo, l.size.hi) {
            if amount(s, other.size.lo, other.size.hi) {
                lemma_amount_unique(s, l.size.lo, l.size.hi, other.size.hi);
            } else {
                let y = choose|y: int| amount_pair_with(s, other.size.lo, other.size.hi, y);
                lemma_amount_unique(s, l.size.lo, l.size.hi, y);
            }
        } else {
            let x = choose|x: int| amount_pair_with(s, l.size.lo, l.size.hi, x);
            if amount(s, other.size.lo, other.size.hi) {
                lemma_amount_unique(s, l.size.lo, x, other.size.hi);
            } else {
                let y = choose|y: int| amount_pair_with(s, other.size.lo, other.size.hi, y);
                lemma_pair_unique(s, l.size.lo, l.size.hi, x, other.size.hi, y);
            }
        }
    } else {
        if amount(s, other.size.lo, other.size.hi) {
            assert(in_class(CharClass::NumDot, s[l.size.lo]));
        }
        if exists|y: int| amount_pair_with(s, other.size.lo, other.size.hi, y) {
            assert(in_class(CharClass::NumDot, s[l.size.lo]));
        }
        if other.size.hi > l.size.hi {
            lemma_dash_is_short(s, l, l.size.lo, other.size.hi);
        }
    }
    assert(other.size.hi <= l.size.hi);
    if other.size.hi == l.size.hi {
        // the speed starts where that of `l` starts
        assert(maximal(s, CharClass::Space, l.size.hi, l.speed.lo));
        lemma_within_maximal(s, CharClass::Space, l.size.hi, other.speed.lo, l.speed.lo);
        assert(other.speed.lo == l.speed.lo);
        if speed_is_token {
            if placeholder(s, other.speed.lo, other.speed.hi) {
                assert(in_class(CharClass::DashSpace, s[l.speed.lo]));
            }
            lemma_amount_unique(s, l.speed.lo, l.speed.hi - 2, other.speed.hi - 2);
        } else {
            if speed_token(s, other.speed.lo, other.speed.hi) {
                assert(in_class(CharClass::NumDot, s[l.speed.lo]));
            }
            if other.speed.hi > l.speed.hi {
                assert(in_class(CharClass::Space, s[other.speed.hi]));
                lemma_dash_is_short(s, l, l.speed.lo, other.speed.hi);
            }
        }
        assert(other.speed.hi <= l.speed.hi);
        if other.speed.hi == l.speed.hi {
            assert(maximal(s, CharClass::Space, l.speed.hi, l.eta.lo));
            lemma_within_maximal(s, CharClass::Space, l.speed.hi, other.eta.lo, l.eta.lo);
            assert(other.eta.lo == l.eta.lo);
            if eta_is_clock {
                let (a, b) = choose|a: int, b: int| clock_with(s, l.eta.lo, l.eta.hi, a, b);
                assert(!blank_clock(s, other.eta.lo, other.eta.hi));
                let (c, d) = choose|c: int, d: int|
                    clock_with(s, other.eta.lo, other.eta.hi, c, d);
                assert(!in_class(CharClass::Digit, s[a]));
                assert(!in_class(CharClass::Digit, s[c]));
                lemma_maximal_unique(s, CharClass::Digit, l.eta.lo, a, c);
                assert(!in_class(CharClass::Digit, s[b]));
                assert(!in_class(CharClass::Digit, s[d]));
                lemma_maximal_unique(s, CharClass::Digit, a + 1, b, d);
                assert(maximal(s, CharClass::Digit, b + 1, l.eta.hi));
                lemma_within_maximal(s, CharClass::Digit, b + 1, other.eta.hi, l.eta.hi);
            } else {
                if !blank_clock(s, other.eta.lo, other.eta.hi) {
                    let (c, d) = choose|c: int, d: int|
                        clock_with(s, other.eta.lo, other.eta.hi, c, d);
                    assert(in_class(CharClass::Digit, s[l.eta.lo]));
                }
            }
        }
    }
}

/// Where a size or a speed is written as one dash at `dash`, a stretch of
/// dashes and white space that starts at `dash` and is the size or the speed
/// of a reading is that dash alone: behind a longer one no white space
/// follows where it would have to, or nothing can be read behind it.
proof fn lemma_dash_is_short(s: Seq<char>, l: Layout, dash: int, end: int)
    requires
        canonical(s, l),
        dash == l.size.lo && !size_token(s, l.size.lo, l.size.hi) || dash == l.speed.lo
            && !speed_token(s, l.speed.lo, l.speed.hi),
        placeholder(s, dash, end),
        dash == l.size.lo ==> exists|sp: Range, e: Range| tail_gap(s, end, sp, e),
        dash == l.speed.lo ==> exists|e: Range| tail_eta(s, end, e),
    ensures
        end == dash + 1,
{
    if end != dash + 1 {
        let speed_is_token = speed_token(s, l.speed.lo, l.speed.hi);
        assert(in_class(CharClass::Space, s[l.size.hi]));
        assert(in_class(CharClass::Space, s[l.speed.hi]));
        if speed_is_token {
            assert(in_class(CharClass::NumDot, s[l.speed.lo]));
        }
        let eta_is_clock = !blank_clock(s, l.eta.lo, l.eta.hi);
        if eta_is_clock {
            let (a, b) = choose|a: int, b: int| clock_with(s, l.eta.lo, l.eta.hi, a, b);
            assert(in_class(CharClass::Digit, s[l.eta.lo]));
        }
        // the stretch ends at or before the colon of `--:--:--`, or before a digit
        let stop = if eta_is_clock {
            l.eta.lo
        } else {
            l.eta.lo + 2
        };
        assert(end <= stop) by {
            if end > stop {
                assert(in_class(CharClass::DashSpace, s[stop]));
            }
        }
        if dash == l.size.lo && !size_token(s, l.size.lo, l.size.hi) {
            let (sp, e) = choose|sp: Range, e: Range| tail_gap(s, end, sp, e);
            assert(in_class(CharClass::Space, s[end]));
            if speed_is_token {
                // the stretch would have to take in the start of the speed
                assert(in_class(CharClass::DashSpace, s[l.speed.lo]));
            } else {
                // the only white space is the blank behind the dash of the speed
                assert(end == l.speed.hi);
                assert(maximal(s, CharClass::Space, end, l.eta.lo));
                lemma_within_maximal(s, CharClass::Space, end, sp.lo, l.eta.lo);
                assert(sp.lo == l.eta.lo);
                if eta_is_clock {
                    let (a, b) = choose|a: int, b: int| clock_with(s, l.eta.lo, l.eta.hi, a, b);
                    if placeholder(s, sp.lo, sp.hi) {
                        assert(in_class(CharClass::DashSpace, s[sp.lo]));
                    }
                    // a speed needs a unit where the colon stands
                    assert(!in_class(CharClass::NumDot, s[a]));
                    assert(maximal(s, CharClass::NumDot, l.eta.lo, a)) by {
                        assert forall|k: int| l.eta.lo <= k < a implies in_class(
                            CharClass::NumDot,
                            #[trigger] s[k],
                        ) by {
                            assert(in_class(CharClass::Digit, s[k]));
                        }
                    }
                    assert(!in_class(CharClass::NumDot, s[sp.hi - 4]));
                    lemma_maximal_unique(s, CharClass::NumDot, l.eta.lo, a, sp.hi - 4);
                } else {
                    if speed_token(s, sp.lo, sp.hi) {
                        assert(in_class(CharClass::NumDot, s[sp.lo]));
                    }
                    assert(sp.hi <= l.eta.lo + 2) by {
                        if sp.hi > l.eta.lo + 2 {
                            assert(in_class(CharClass::DashSpace, s[l.eta.lo + 2]));
                        }
                    }
                    assert(in_class(CharClass::Space, s[sp.hi]));
                }
            }
        } else {
            let e = choose|e: Range| tail_eta(s, end, e);
            assert(in_class(CharClass::Space, s[end]));
        }
    }
}

/// Round trip, on layouts: a reading in canonical form is the reading that
/// is selected.
pub proof fn lemma_canonical_is_selected(s: Seq<char>, l: Layout)
    requires
        canonical(s, l),
    ensures
        selected(s, l),
{
    assert forall|other: Layout| #[trigger] fits(s, other) implies preferred(l, other) by {
        lemma_no_earlier_start(s, l, other);
        if other.bar.lo == l.bar.lo {
            lemma_head_shape(s, l.bar, l.current, l.total, l.percent);
            lemma_head_shape(s, other.bar, other.current, other.total, other.percent);
            lemma_tail_not_greedier(s, l, other);
        }
    }
}

/// The characters of `t` stand in `s` from `lo` on.
pub open spec fn holds_at(s: Seq<char>, lo: int, t: Seq<char>) -> bool {
    0 <= lo && lo + t.len() <= s.len() && s.subrange(lo, lo + t.len()) == t
}

proof fn lemma_all_in_moves(s: Seq<char>, lo: int, t: Seq<char>, cls: CharClass, a: int, b: int)
    requires
        holds_at(s, lo, t),
        all_in(t, cls, a, b),
    ensures
        all_in(s, cls, lo + a, lo + b),
{
    assert forall|j: int| lo + a <= j < lo + b implies in_class(cls, #[trigger] s[j]) by {
        assert(s.subrange(lo, lo + t.len())[j - lo] == s[j]);
        assert(in_class(cls, t[j - lo]));
    }
}

proof fn lemma_char_moves(s: Seq<char>, lo: int, t: Seq<char>, k: int)
    requires
        holds_at(s, lo, t),
        0 <= k < t.len(),
    ensures
        s[lo + k] == t[k],
{
    assert(s.subrange(lo, lo + t.len())[k] == s[lo + k]);
}

proof fn lemma_percent_moves(s: Seq<char>, lo: int, t: Seq<char>)
    requires
        holds_at(s, lo, t),
        percent_numeral(t, 0, t.len() as int),
    ensures
        percent_numeral(s, lo, lo + t.len()),
{
    let n = t.len() as int;
    let dot = choose|dot: int| percent_numeral_with(t, 0, n, dot);
    lemma_all_in_moves(s, lo, t, CharClass::Digit, 0, dot);
    if dot != n {
        lemma_char_moves(s, lo, t, dot);
        lemma_all_in_moves(s, lo, t, CharClass::Digit, dot + 1, n);
    }
    assert(percent_numeral_with(s, lo, lo + n, lo + dot));
}

proof fn lemma_amount_moves(s: Seq<char>, lo: int, t: Seq<char>, a: int, b: int)
    requires
        holds_at(s, lo, t),
        0 <= a,
        amount(t, a, b),
    ensures
        amount(s, lo + a, lo + b),
{
    lemma_all_in_moves(s, lo, t, CharClass::NumDot, a, b - 2);
    lemma_char_moves(s, lo, t, b - 2);
    lemma_char_moves(s, lo, t, b - 1);
}

proof fn lemma_size_moves(s: Seq<char>, lo: int, t: Seq<char>)
    requires
        holds_at(s, lo, t),
        size_token(t, 0, t.len() as int),
    ensures
        size_token(s, lo, lo + t.len()),
{
    let n = t.len() as int;
    if amount(t, 0, n) {
        lemma_amount_moves(s, lo, t, 0, n);
    } else {
        let x = choose|x: int| amount_pair_with(t, 0, n, x);
        lemma_amount_moves(s, lo, t, 0, x);
        lemma_char_moves(s, lo, t, x);
        lemma_all_in_moves(s, lo, t, CharClass::NumDot, x + 1, n - 2);
        lemma_char_moves(s, lo, t, n - 2);
        lemma_char_moves(s, lo, t, n - 1);
        assert(amount_pair_with(s, lo, lo + n, lo + x));
    }
}

proof fn lemma_speed_moves(s: Seq<char>, lo: int, t: Seq<char>)
    requires
        holds_at(s, lo, t),
        speed_token(t, 0, t.len() as int),
    ensures
        speed_token(s, lo, lo + t.len()),
{
    let n = t.len() as int;
    lemma_amount_moves(s, lo, t, 0, n - 2);
    lemma_char_moves(s, lo, t, n - 2);
    lemma_char_moves(s, lo, t, n - 1);
}

proof fn lemma_eta_moves(s: Seq<char>, lo: int, t: Seq<char>)
    requires
        holds_at(s, lo, t),
        eta_token(t, 0, t.len() as int),
    ensures
        eta_token(s, lo, lo + t.len()),
        !is_space(s[lo]),
        !is_space(s[lo + t.len() - 1]),
{
    let n = t.len() as int;
    if blank_clock(t, 0, n) {
        lemma_char_moves(s, lo, t, 0);
        lemma_char_moves(s, lo, t, 1);
        lemma_char_moves(s, lo, t, 2);
        lemma_char_moves(s, lo, t, 3);
        lemma_char_moves(s, lo, t, 4);
        lemma_char_moves(s, lo, t, 5);
        lemma_char_moves(s, lo, t, 6);
        lemma_char_moves(s, lo, t, 7);
        assert(blank_clock(s, lo, lo + n));
    } else {
        let (a, b) = choose|a: int, b: int| clock_with(t, 0, n, a, b);
        lemma_all_in_moves(s, lo, t, CharClass::Digit, 0, a);
        lemma_char_moves(s, lo, t, a);
        lemma_all_in_moves(s, lo, t, CharClass::Digit, a + 1, b);
        lemma_char_moves(s, lo, t, b);
        lemma_all_in_moves(s, lo, t, CharClass::Digit, b + 1, n);
        assert(clock_with(s, lo, lo + n, lo + a, lo + b));
        assert(in_class(CharClass::Digit, s[lo]));
        assert(in_class(CharClass::Digit, s[lo + n - 1]));
    }
}

/// A text with no white space at either end is its own trimmed form.
pub proof fn lemma_trimmed_is_same(t: Seq<char>)
    requires
        t.len() > 0,
        !is_space(t[0]),
        !is_space(t.last()),
    ensures
        trimmed(t) == t,
{
    assert(t.subrange(0, t.len() as int) =~= t);
}

/// The line that a writer sets from a description, a stretch of dashes and
/// the six tokens.
#[verifier::opaque]
pub open spec fn written(
    prefix: Seq<char>,
    dashes: Seq<char>,
    current: Seq<char>,
    total: Seq<char>,
    percent: Seq<char>,
    size: Seq<char>,
    speed: Seq<char>,
    eta: Seq<char>,
) -> Seq<char> {
    prefix + dashes + seq![' '] + current + seq!['/'] + total + seq![' '] + percent + seq![
        '%',
        ' ',
    ] + size + seq![' '] + speed + seq![' '] + eta
}

/// Where the tokens of a written line lie.
pub open spec fn written_layout(
    prefix: Seq<char>,
    dashes: Seq<char>,
    current: Seq<char>,
    total: Seq<char>,
    percent: Seq<char>,
    size: Seq<char>,
    speed: Seq<char>,
    eta: Seq<char>,
) -> Layout {
    let bar = Range { lo: prefix.len() as int, hi: (prefix.len() + dashes.len()) as int };
    let cur = Range { lo: bar.hi + 1, hi: bar.hi + 1 + current.len() };
    let tot = Range { lo: cur.hi + 1, hi: cur.hi + 1 + total.len() };
    let pct = Range { lo: tot.hi + 1, hi: tot.hi + 1 + percent.len() };
    let siz = Range { lo: pct.hi + 2, hi: pct.hi + 2 + size.len() };
    let spd = Range { lo: siz.hi + 1, hi: siz.hi + 1 + speed.len() };
    let end = Range { lo: spd.hi + 1, hi: spd.hi + 1 + eta.len() };
    Layout { bar, current: cur, total: tot, percent: pct, size: siz, speed: spd, eta: end }
}

/// What is appended to a text stands at its end, and what stood in the text
/// stays where it stood.
proof fn lemma_append(x: Seq<char>, y: Seq<char>)
    ensures
        holds_at(x + y, x.len() as int, y),
        forall|lo: int, t: Seq<char>| #[trigger] holds_at(x, lo, t) ==> holds_at(x + y, lo, t),
{
    assert((x + y).subrange(x.len() as int, (x.len() + y.len()) as int) =~= y);
    assert forall|lo: int, t: Seq<char>| #[trigger] holds_at(x, lo, t) implies holds_at(
        x + y,
        lo,
        t,
    ) by {
        assert((x + y).subrange(lo, lo + t.len()) =~= x.subrange(lo, lo + t.len()));
    }
}

/// Each part of a written line stands where the layout says.
proof fn lemma_written_parts(
    prefix: Seq<char>,
    dashes: Seq<char>,
    current: Seq<char>,
    total: Seq<char>,
    percent: Seq<char>,
    size: Seq<char>,
    speed: Seq<char>,
    eta: Seq<char>,
)
    ensures
        ({
            let line = written(prefix, dashes, current, total, percent, size, speed, eta);
            let l = written_layout(prefix, dashes, current, total, percent, size, speed, eta);
            &&& line.len() == l.eta.hi
            &&& holds_at(line, 0, prefix)
            &&& holds_at(line, l.bar.lo, dashes)
            &&& holds_at(line, l.bar.hi, seq![' '])
            &&& holds_at(line, l.current.lo, current)
            &&& holds_at(line, l.current.hi, seq!['/'])
            &&& holds_at(line, l.total.lo, total)
            &&& holds_at(line, l.total.hi, seq![' '])
            &&& holds_at(line, l.percent.lo, percent)
            &&& holds_at(line, l.percent.hi, seq!['%', ' '])
            &&& holds_at(line, l.size.lo, size)
            &&& holds_at(line, l.size.hi, seq![' '])
            &&& holds_at(line, l.speed.lo, speed)
            &&& holds_at(line, l.speed.hi, seq![' '])
            &&& holds_at(line, l.eta.lo, eta)
        }),
{
    reveal(written);
    let p0 = prefix;
    assert(holds_at(p0, 0, prefix)) by {
        assert(p0.subrange(0, p0.len() as int) =~= p0);
    }
    lemma_append(p0, dashes);
    let p1 = p0 + dashes;
    lemma_append(p1, seq![' ']);
    let p2 = p1 + seq![' '];
    lemma_append(p2, current);
    let p3 = p2 + current;
    lemma_append(p3, seq!['/']);
    let p4 = p3 + seq!['/'];
    lemma_append(p4, total);
    let p5 = p4 + total;
    lemma_append(p5, seq![' ']);
    let p6 = p5 + seq![' '];
    lemma_append(p6, percent);
    let p7 = p6 + percent;
    lemma_append(p7, seq!['%', ' ']);
    let p8 = p7 + seq!['%', ' '];
    lemma_append(p8, size);
    let p9 = p8 + size;
    lemma_append(p9, seq![' ']);
    let p10 = p9 + seq![' '];
    lemma_append(p10, speed);
    let p11 = p10 + speed;
    lemma_append(p11, seq![' ']);
    let p12 = p11 + seq![' '];
    lemma_append(p12, eta);
}

/// `prefix` can stand in front of the dashes of a written line: it holds a
/// track marker with no line feed behind it, and it holds no dash, or it
/// holds no percent sign and does not end in a dash.
pub open spec fn describes(prefix: Seq<char>) -> bool {
    &&& armed(prefix, prefix.len() as int)
    &&& free_of(prefix, prefix.len() as int, '-') || (free_of(prefix, prefix.len() as int, '%')
        && prefix.last() != '-')
}

/// A description that stands at the start of a line arms the position
/// behind it.
proof fn lemma_front_laid(line: Seq<char>, prefix: Seq<char>)
    requires
        describes(prefix),
        holds_at(line, 0, prefix),
    ensures
        armed(line, prefix.len() as int),
        prefix.len() > 0,
        line[prefix.len() - 1] != '-',
        free_of(line, prefix.len() as int, '%') || free_of(line, prefix.len() as int, '-'),
{
    let n = prefix.len() as int;
    let a = choose|a: int| #[trigger]
        marker_at(prefix, a) && a + 3 <= n && no_newline(prefix, a + 3, n);
    lemma_char_moves(line, 0, prefix, a);
    lemma_char_moves(line, 0, prefix, a + 1);
    lemma_char_moves(line, 0, prefix, a + 2);
    assert forall|k: int| a + 3 <= k < n implies #[trigger] line[k] != '\n' by {
        lemma_char_moves(line, 0, prefix, k);
    }
    assert(marker_at(line, a) && a + 3 <= n <= line.len() && no_newline(line, a + 3, n));
    if free_of(prefix, n, '%') {
        assert forall|k: int| 0 <= k < n implies #[trigger] line[k] != '%' by {
            lemma_char_moves(line, 0, prefix, k);
        }
    }
    if free_of(prefix, n, '-') {
        assert forall|k: int| 0 <= k < n implies #[trigger] line[k] != '-' by {
            lemma_char_moves(line, 0, prefix, k);
        }
    }
    lemma_char_moves(line, 0, prefix, n - 1);
}

/// Dashes, two counters and a percentage that stand in a line with their
/// separators between them are the head of a reading.
proof fn lemma_head_laid(
    line: Seq<char>,
    l: Layout,
    dashes: Seq<char>,
    current: Seq<char>,
    total: Seq<char>,
    percent: Seq<char>,
)
    requires
        run(dashes, CharClass::Dash, 0, dashes.len() as int),
        number(current, 0, current.len() as int),
        number(total, 0, total.len() as int),
        percent_numeral(percent, 0, percent.len() as int),
        holds_at(line, l.bar.lo, dashes),
        l.bar.hi == l.bar.lo + dashes.len(),
        holds_at(line, l.bar.hi, seq![' ']),
        l.current.lo == l.bar.hi + 1,
        holds_at(line, l.current.lo, current),
        l.current.hi == l.current.lo + current.len(),
        holds_at(line, l.current.hi, seq!['/']),
        l.total.lo == l.current.hi + 1,
        holds_at(line, l.total.lo, total),
        l.total.hi == l.total.lo + total.len(),
        holds_at(line, l.total.hi, seq![' ']),
        l.percent.lo == l.total.hi + 1,
        holds_at(line, l.percent.lo, percent),
        l.percent.hi == l.percent.lo + percent.len(),
        holds_at(line, l.percent.hi, seq!['%', ' ']),
    ensures
        head(line, l.bar, l.current, l.total, l.percent),
        line[l.bar.lo] == '-',
        line[l.percent.hi + 1] == ' ',
{
    lemma_char_moves(line, l.bar.hi, seq![' '], 0);
    lemma_char_moves(line, l.current.hi, seq!['/'], 0);
    lemma_char_moves(line, l.total.hi, seq![' '], 0);
    lemma_char_moves(line, l.percent.hi, seq!['%', ' '], 0);
    lemma_char_moves(line, l.percent.hi, seq!['%', ' '], 1);
    lemma_all_in_moves(line, l.bar.lo, dashes, CharClass::Dash, 0, dashes.len() as int);
    lemma_all_in_moves(line, l.current.lo, current, CharClass::Digit, 0, current.len() as int);
    lemma_all_in_moves(line, l.total.lo, total, CharClass::Digit, 0, total.len() as int);
    lemma_percent_moves(line, l.percent.lo, percent);
    assert(run(line, CharClass::Space, l.bar.hi, l.current.lo));
    assert(run(line, CharClass::Space, l.total.hi, l.percent.lo));
    assert(in_class(CharClass::Dash, line[l.bar.lo]));
}

/// A size, a speed and a time left that stand at the end of a line, each
/// behind one blank, are the tail of a reading.
proof fn lemma_tail_laid(
    line: Seq<char>,
    from: int,
    l: Layout,
    size: Seq<char>,
    speed: Seq<char>,
    eta: Seq<char>,
)
    requires
        size_token(size, 0, size.len() as int) || size == seq!['-'],
        speed_token(speed, 0, speed.len() as int) || speed == seq!['-'],
        eta_token(eta, 0, eta.len() as int),
        0 <= from < line.len(),
        line[from] == ' ',
        l.size.lo == from + 1,
        holds_at(line, l.size.lo, size),
        l.size.hi == l.size.lo + size.len(),
        holds_at(line, l.size.hi, seq![' ']),
        l.speed.lo == l.size.hi + 1,
        holds_at(line, l.speed.lo, speed),
        l.speed.hi == l.speed.lo + speed.len(),
        holds_at(line, l.speed.hi, seq![' ']),
        l.eta.lo == l.speed.hi + 1,
        holds_at(line, l.eta.lo, eta),
        l.eta.hi == l.eta.lo + eta.len(),
    ensures
        tail(line, from, l.size, l.speed, l.eta),
        size_token(line, l.size.lo, l.size.hi) || single_dash(line, l.size),
        speed_token(line, l.speed.lo, l.speed.hi) || single_dash(line, l.speed),
{
    lemma_char_moves(line, l.size.hi, seq![' '], 0);
    lemma_char_moves(line, l.speed.hi, seq![' '], 0);
    if size_token(size, 0, size.len() as int) {
        lemma_size_moves(line, l.size.lo, size);
    } else {
        assert(size.len() == 1 && size[0] == '-');
        lemma_char_moves(line, l.size.lo, size, 0);
        assert(placeholder(line, l.size.lo, l.size.hi));
    }
    if speed_token(speed, 0, speed.len() as int) {
        lemma_speed_moves(line, l.speed.lo, speed);
    } else {
        assert(speed.len() == 1 && speed[0] == '-');
        lemma_char_moves(line, l.speed.lo, speed, 0);
        assert(placeholder(line, l.speed.lo, l.speed.hi));
    }
    lemma_eta_moves(line, l.eta.lo, eta);
    assert(run(line, CharClass::Space, from, l.size.lo));
    assert(run(line, CharClass::Space, l.size.hi, l.speed.lo));
    assert(run(line, CharClass::Space, l.speed.hi, l.eta.lo));
    assert(tail_eta(line, l.speed.hi, l.eta));
    assert(tail_speed(line, l.speed, l.eta));
    assert(tail_gap(line, l.size.hi, l.speed, l.eta));
    assert(tail_size(line, l.size, l.speed, l.eta));
}

/// A written line, read as it was written, is in canonical form.
pub proof fn lemma_written_is_canonical(
    prefix: Seq<char>,
    dashes: Seq<char>,
    current: Seq<char>,
    total: Seq<char>,
    percent: Seq<char>,
    size: Seq<char>,
    speed: Seq<char>,
    eta: Seq<char>,
)
    requires
        describes(prefix),
        run(dashes, CharClass::Dash, 0, dashes.len() as int),
        number(current, 0, current.len() as int),
        number(total, 0, total.len() as int),
        percent_numeral(percent, 0, percent.len() as int),
        size_token(size, 0, size.len() as int) || size == seq!['-'],
        speed_token(speed, 0, speed.len() as int) || speed == seq!['-'],
        eta_token(eta, 0, eta.len() as int),
    ensures
        canonical(
            written(prefix, dashes, current, total, percent, size, speed, eta),
            written_layout(prefix, dashes, current, total, percent, size, speed, eta),
        ),
{
    let line = written(prefix, dashes, current, total, percent, size, speed, eta);
    let l = written_layout(prefix, dashes, current, total, percent, size, speed, eta);
    lemma_written_parts(prefix, dashes, current, total, percent, size, speed, eta);
    lemma_front_laid(line, prefix);
    lemma_head_laid(line, l, dashes, current, total, percent);
    lemma_tail_laid(line, l.percent.hi + 1, l, size, speed, eta);
}

/// What a written line gives when it is read as it was written.
proof fn lemma_written_record(
    prefix: Seq<char>,
    dashes: Seq<char>,
    current: Seq<char>,
    total: Seq<char>,
    percent: Seq<char>,
    size: Seq<char>,
    speed: Seq<char>,
    eta: Seq<char>,
)
    requires
        describes(prefix),
        run(dashes, CharClass::Dash, 0, dashes.len() as int),
        number(current, 0, current.len() as int),
        number(total, 0, total.len() as int),
        percent_numeral(percent, 0, percent.len() as int),
        size_token(size, 0, size.len() as int) || size == seq!['-'],
        speed_token(speed, 0, speed.len() as int) || speed == seq!['-'],
        eta_token(eta, 0, eta.len() as int),
    ensures
        ({
            let line = written(prefix, dashes, current, total, percent, size, speed, eta);
            let l = written_layout(prefix, dashes, current, total, percent, size, speed, eta);
            &&& text_of(line, l.current) == current
            &&& text_of(line, l.total) == total
            &&& text_of(line, l.percent) == percent
            &&& trimmed(text_of(line, l.size)) == size
            &&& trimmed(text_of(line, l.speed)) == speed
            &&& trimmed(text_of(line, l.eta)) == eta
        }),
{
    let line = written(prefix, dashes, current, total, percent, size, speed, eta);
    let l = written_layout(prefix, dashes, current, total, percent, size, speed, eta);
    lemma_written_parts(prefix, dashes, current, total, percent, size, speed, eta);
    assert(trimmed(size) == size) by {
        if size_token(size, 0, size.len() as int) {
            if amount(size, 0, size.len() as int) {
                assert(in_class(CharClass::NumDot, size[0]));
            } else {
                let x = choose|x: int| amount_pair_with(size, 0, size.len() as int, x);
                assert(in_class(CharClass::NumDot, size[0]));
            }
        }
        lemma_trimmed_is_same(size);
    }
    assert(trimmed(speed) == speed) by {
        if speed_token(speed, 0, speed.len() as int) {
            assert(in_class(CharClass::NumDot, speed[0]));
        }
        lemma_trimmed_is_same(speed);
    }
    assert(trimmed(eta) == eta) by {
        lemma_eta_moves(line, l.eta.lo, eta);
        lemma_char_moves(line, l.eta.lo, eta, 0);
        lemma_char_moves(line, l.eta.lo, eta, eta.len() - 1);
        lemma_trimmed_is_same(eta);
    }
}

/// A written line is read as it was written: the reading that is selected is
/// the layout that it was written in.
pub proof fn lemma_written_is_selected(
    prefix: Seq<char>,
    dashes: Seq<char>,
    current: Seq<char>,
    total: Seq<char>,
    percent: Seq<char>,
    size: Seq<char>,
    speed: Seq<char>,
    eta: Seq<char>,
)
    requires
        describes(prefix),
        run(dashes, CharClass::Dash, 0, dashes.len() as int),
        number(current, 0, current.len() as int),
        number(total, 0, total.len() as int),
        percent_numeral(percent, 0, percent.len() as int),
        size_token(size, 0, size.len() as int) || size == seq!['-'],
        speed_token(speed, 0, speed.len() as int) || speed == seq!['-'],
        eta_token(eta, 0, eta.len() as int),
    ensures
        selected(
            written(prefix, dashes, current, total, percent, size, speed, eta),
            written_layout(prefix, dashes, current, total, percent, size, speed, eta),
        ),
{
    lemma_written_is_canonical(prefix, dashes, current, total, percent, size, speed, eta);
    lemma_canonical_is_selected(
        written(prefix, dashes, current, total, percent, size, speed, eta),
        written_layout(prefix, dashes, current, total, percent, size, speed, eta),
    );
}

/// Round trip: a line that is written from a description, dashes, two
/// counters, a percentage, a size, a speed and a time left, with a single
/// dash where there is no size or no speed, is a progress line, and it is
/// read as what it was written from: the two counters by their values
/// (each turned down when it does not fit an `i32`), the other four
/// tokens letter for letter.
pub proof fn lemma_round_trip(
    prefix: Seq<char>,
    dashes: Seq<char>,
    current: Seq<char>,
    total: Seq<char>,
    percent: Seq<char>,
    size: Seq<char>,
    speed: Seq<char>,
    eta: Seq<char>,
)
    requires
        describes(prefix),
        run(dashes, CharClass::Dash, 0, dashes.len() as int),
        number(current, 0, current.len() as int),
        number(total, 0, total.len() as int),
        percent_numeral(percent, 0, percent.len() as int),
        size_token(size, 0, size.len() as int) || size == seq!['-'],
        speed_token(speed, 0, speed.len() as int) || speed == seq!['-'],
        eta_token(eta, 0, eta.len() as int),
    ensures
        ({
            let line = written(prefix, dashes, current, total, percent, size, speed, eta);
            &&& is_progress_line(line)
            &&& line_outcome(line) == if decimal_value(current) > i32::MAX {
                Err::<(StreamType, ProgressRecord), _>(ParseError::InvalidCurrent)
            } else if decimal_value(total) > i32::MAX {
                Err(ParseError::InvalidTotal)
            } else {
                Ok(
                    (
                        kind_of(line).unwrap(),
                        ProgressRecord {
                            current: decimal_value(current),
                            total: decimal_value(total),
                            percentage: percent,
                            downloaded: size,
                            total_size: Seq::empty(),
                            speed: speed,
                            eta: eta,
                        },
                    ),
                )
            }
        }),
{
    let line = written(prefix, dashes, current, total, percent, size, speed, eta);
    let l = written_layout(prefix, dashes, current, total, percent, size, speed, eta);
    lemma_written_is_selected(prefix, dashes, current, total, percent, size, speed, eta);
    lemma_written_record(prefix, dashes, current, total, percent, size, speed, eta);
    let chosen = choose|m: Layout| selected(line, m);
    lemma_selected_unique(line, l, chosen);
    assert(fits(line, l));
    assert(line_outcome(line) == outcome_of(line, l));
}

/// Round trip, with the counters given as numbers: a line that is written
/// with the numerals of two counters that fit an `i32` is read as a record
/// with these two counters.
pub proof fn lemma_round_trip_counters(
    prefix: Seq<char>,
    dashes: Seq<char>,
    current: nat,
    total: nat,
    percent: Seq<char>,
    size: Seq<char>,
    speed: Seq<char>,
    eta: Seq<char>,
)
    requires
        describes(prefix),
        run(dashes, CharClass::Dash, 0, dashes.len() as int),
        current <= i32::MAX,
        total <= i32::MAX,
        percent_numeral(percent, 0, percent.len() as int),
        size_token(size, 0, size.len() as int) || size == seq!['-'],
        speed_token(speed, 0, speed.len() as int) || speed == seq!['-'],
        eta_token(eta, 0, eta.len() as int),
    ensures
        ({
            let line = written(
                prefix,
                dashes,
                digits_of(current),
                digits_of(total),
                percent,
                size,
                speed,
                eta,
            );
            line_outcome(line) == Ok::<_, ParseError>(
                (
                    kind_of(line).unwrap(),
                    ProgressRecord {
                        current: current as int,
                        total: total as int,
                        percentage: percent,
                        downloaded: size,
                        total_size: Seq::empty(),
                        speed: speed,
                        eta: eta,
                    },
                ),
            )
        }),
{
    lemma_digits_round_trip(current);
    lemma_digits_round_trip(total);
    lemma_round_trip(
        prefix,
        dashes,
        digits_of(current),
        digits_of(total),
        percent,
        size,
        speed,
        eta,
    );
}

} // verus!
