//! What a record looks like that was read from a progress line.

use vstd::prelude::*;
use crate::canonical::lemma_trimmed_is_same;
use crate::grammar::{
    amount, amount_pair_with, blank_clock, clock_with, eta_token, fits, lemma_bounds,
    lemma_selected_exists, percent_numeral, percent_numeral_with, placeholder, selected,
    size_token, speed_token, Layout,
};
use crate::progress::{line_outcome, record_of, text_of, ProgressRecord};
use crate::text::{
    all_in, decimal_value, drop_space, in_class, is_space, lemma_decimal_prefix, skip_space,
    trimmed, CharClass,
};

verus! {

/// `t` is dashes and white space, or nothing.
pub open spec fn is_blank_token(t: Seq<char>) -> bool {
    all_in(t, CharClass::DashSpace, 0, t.len() as int)
}

/// `r` has the shape of a record that was read from a progress line.
///
/// The counters are not negative. The percentage is a numeral. The size is a
/// byte count, alone or of a total, or it is dashes and white space with no
/// white space at its ends; so is the speed, with a rate in place of the byte
/// count. The time left is three numbers between colons, or `--:--:--`. No
/// total size is given.
pub open spec fn is_reading(r: ProgressRecord) -> bool {
    &&& 0 <= r.current <= i32::MAX
    &&& 0 <= r.total <= i32::MAX
    &&& percent_numeral(r.percentage, 0, r.percentage.len() as int)
    &&& size_token(r.downloaded, 0, r.downloaded.len() as int) || is_blank_token(r.downloaded)
    &&& trimmed(r.downloaded) == r.downloaded
    &&& r.total_size.len() == 0
    &&& speed_token(r.speed, 0, r.speed.len() as int) || is_blank_token(r.speed)
    &&& trimmed(r.speed) == r.speed
    &&& eta_token(r.eta, 0, r.eta.len() as int)
}

proof fn lemma_all_in_sliced(s: Seq<char>, lo: int, hi: int, cls: CharClass, a: int, b: int)
    requires
        0 <= lo <= a <= b <= hi <= s.len(),
        all_in(s, cls, a, b),
    ensures
        all_in(s.subrange(lo, hi), cls, a - lo, b - lo),
{
    let t = s.subrange(lo, hi);
    assert forall|k: int| a - lo <= k < b - lo implies in_class(cls, #[trigger] t[k]) by {
        assert(t[k] == s[lo + k]);
        assert(in_class(cls, s[lo + k]));
    }
}

proof fn lemma_percent_sliced(s: Seq<char>, lo: int, hi: int)
    requires
        percent_numeral(s, lo, hi),
    ensures
        percent_numeral(s.subrange(lo, hi), 0, hi - lo),
{
    let t = s.subrange(lo, hi);
    let dot = choose|dot: int| percent_numeral_with(s, lo, hi, dot);
    lemma_all_in_sliced(s, lo, hi, CharClass::Digit, lo, dot);
    if dot != hi {
        assert(t[dot - lo] == s[dot]);
        lemma_all_in_sliced(s, lo, hi, CharClass::Digit, dot + 1, hi);
    }
    assert(percent_numeral_with(t, 0, hi - lo, dot - lo));
}

proof fn lemma_amount_sliced(s: Seq<char>, lo: int, hi: int, a: int, b: int)
    requires
        0 <= lo <= a,
        b <= hi <= s.len(),
        amount(s, a, b),
    ensures
        amount(s.subrange(lo, hi), a - lo, b - lo),
{
    let t = s.subrange(lo, hi);
    lemma_all_in_sliced(s, lo, hi, CharClass::NumDot, a, b - 2);
    assert(t[b - 2 - lo] == s[b - 2]);
    assert(t[b - 1 - lo] == s[b - 1]);
}

proof fn lemma_size_sliced(s: Seq<char>, lo: int, hi: int)
    requires
        0 <= lo,
        hi <= s.len(),
        size_token(s, lo, hi),
    ensures
        size_token(s.subrange(lo, hi), 0, hi - lo),
        !is_space(s[lo]),
        !is_space(s[hi - 1]),
{
    let t = s.subrange(lo, hi);
    if amount(s, lo, hi) {
        lemma_amount_sliced(s, lo, hi, lo, hi);
        assert(in_class(CharClass::NumDot, s[lo]));
    } else {
        let x = choose|x: int| amount_pair_with(s, lo, hi, x);
        lemma_amount_sliced(s, lo, hi, lo, x);
        assert(in_class(CharClass::NumDot, s[lo]));
        assert(t[x - lo] == s[x]);
        lemma_all_in_sliced(s, lo, hi, CharClass::NumDot, x + 1, hi - 2);
        assert(t[hi - 2 - lo] == s[hi - 2]);
        assert(t[hi - 1 - lo] == s[hi - 1]);
        assert(amount_pair_with(t, 0, hi - lo, x - lo));
    }
}

proof fn lemma_speed_sliced(s: Seq<char>, lo: int, hi: int)
    requires
        0 <= lo,
        hi <= s.len(),
        speed_token(s, lo, hi),
    ensures
        speed_token(s.subrange(lo, hi), 0, hi - lo),
        !is_space(s[lo]),
        !is_space(s[hi - 1]),
{
    let t = s.subrange(lo, hi);
    lemma_amount_sliced(s, lo, hi, lo, hi - 2);
    assert(in_class(CharClass::NumDot, s[lo]));
    assert(t[hi - 2 - lo] == s[hi - 2]);
    assert(t[hi - 1 - lo] == s[hi - 1]);
}

proof fn lemma_eta_sliced(s: Seq<char>, lo: int, hi: int)
    requires
        eta_token(s, lo, hi),
    ensures
        eta_token(s.subrange(lo, hi), 0, hi - lo),
        !is_space(s[lo]),
        !is_space(s[hi - 1]),
{
    let t = s.subrange(lo, hi);
    if blank_clock(s, lo, hi) {
        assert(t[0] == s[lo] && t[1] == s[lo + 1] && t[2] == s[lo + 2] && t[3] == s[lo + 3]);
        assert(t[4] == s[lo + 4] && t[5] == s[lo + 5] && t[6] == s[lo + 6] && t[7] == s[lo + 7]);
        assert(blank_clock(t, 0, hi - lo));
    } else {
        let (a, b) = choose|a: int, b: int| clock_with(s, lo, hi, a, b);
        lemma_all_in_sliced(s, lo, hi, CharClass::Digit, lo, a);
        assert(t[a - lo] == s[a]);
        lemma_all_in_sliced(s, lo, hi, CharClass::Digit, a + 1, b);
        assert(t[b - lo] == s[b]);
        lemma_all_in_sliced(s, lo, hi, CharClass::Digit, b + 1, hi);
        assert(clock_with(t, 0, hi - lo, a - lo, b - lo));
        assert(in_class(CharClass::Digit, s[lo]));
        assert(in_class(CharClass::Digit, s[hi - 1]));
    }
}

proof fn lemma_skip_space_stops(t: Seq<char>, lo: int, hi: int)
    requires
        0 <= lo <= hi <= t.len(),
    ensures
        lo <= skip_space(t, lo, hi) <= hi,
        skip_space(t, lo, hi) < hi ==> !is_space(t[skip_space(t, lo, hi)]),
    decreases hi - lo,
{
    if lo < hi && is_space(t[lo]) {
        lemma_skip_space_stops(t, lo + 1, hi);
    }
}

proof fn lemma_drop_space_stops(t: Seq<char>, lo: int, hi: int)
    requires
        0 <= lo <= hi <= t.len(),
    ensures
        lo <= drop_space(t, lo, hi) <= hi,
        lo < drop_space(t, lo, hi) ==> !is_space(t[drop_space(t, lo, hi) - 1]),
    decreases hi - lo,
{
    if lo < hi && is_space(t[hi - 1]) {
        lemma_drop_space_stops(t, lo, hi - 1);
    }
}

/// Trimming a text twice is trimming it once.
pub proof fn lemma_trimmed_twice(t: Seq<char>)
    ensures
        trimmed(trimmed(t)) == trimmed(t),
{
    let n = t.len() as int;
    let lo = skip_space(t, 0, n);
    lemma_skip_space_stops(t, 0, n);
    let hi = drop_space(t, lo, n);
    lemma_drop_space_stops(t, lo, n);
    let u = t.subrange(lo, hi);
    if lo < hi {
        assert(u[0] == t[lo]);
        assert(u.last() == t[hi - 1]);
        lemma_trimmed_is_same(u);
    } else {
        assert(u.len() == 0);
        assert(u.subrange(0, 0) =~= u);
    }
}

/// Dashes and white space, trimmed, are dashes and white space.
proof fn lemma_trimmed_blank(t: Seq<char>)
    requires
        is_blank_token(t),
    ensures
        is_blank_token(trimmed(t)),
{
    let n = t.len() as int;
    let lo = skip_space(t, 0, n);
    lemma_skip_space_stops(t, 0, n);
    let hi = drop_space(t, lo, n);
    lemma_drop_space_stops(t, lo, n);
    lemma_all_in_sliced(t, lo, hi, CharClass::DashSpace, lo, hi);
}

/// A size that was read, trimmed, is a size or dashes and white space, and
/// trimming it again changes nothing.
proof fn lemma_size_shape(s: Seq<char>, lo: int, hi: int)
    requires
        0 <= lo,
        hi <= s.len(),
        size_token(s, lo, hi) || placeholder(s, lo, hi),
    ensures
        ({
            let t = trimmed(s.subrange(lo, hi));
            &&& size_token(t, 0, t.len() as int) || is_blank_token(t)
            &&& trimmed(t) == t
        }),
{
    let size = s.subrange(lo, hi);
    if size_token(s, lo, hi) {
        lemma_size_sliced(s, lo, hi);
        assert(size[0] == s[lo]);
        assert(size.last() == s[hi - 1]);
        lemma_trimmed_is_same(size);
    } else {
        lemma_all_in_sliced(s, lo, hi, CharClass::DashSpace, lo, hi);
        lemma_trimmed_blank(size);
    }
    lemma_trimmed_twice(size);
}

/// A speed that was read, trimmed, is a speed or dashes and white space, and
/// trimming it again changes nothing.
proof fn lemma_speed_shape(s: Seq<char>, lo: int, hi: int)
    requires
        0 <= lo,
        hi <= s.len(),
        speed_token(s, lo, hi) || placeholder(s, lo, hi),
    ensures
        ({
            let t = trimmed(s.subrange(lo, hi));
            &&& speed_token(t, 0, t.len() as int) || is_blank_token(t)
            &&& trimmed(t) == t
        }),
{
    let speed = s.subrange(lo, hi);
    if speed_token(s, lo, hi) {
        lemma_speed_sliced(s, lo, hi);
        assert(speed[0] == s[lo]);
        assert(speed.last() == s[hi - 1]);
        lemma_trimmed_is_same(speed);
    } else {
        lemma_all_in_sliced(s, lo, hi, CharClass::DashSpace, lo, hi);
        lemma_trimmed_blank(speed);
    }
    lemma_trimmed_twice(speed);
}

/// A time left that was read is a time left on its own, with nothing to
/// trim.
proof fn lemma_eta_shape(s: Seq<char>, lo: int, hi: int)
    requires
        eta_token(s, lo, hi),
    ensures
        ({
            let t = trimmed(s.subrange(lo, hi));
            eta_token(t, 0, t.len() as int)
        }),
{
    let eta = s.subrange(lo, hi);
    lemma_eta_sliced(s, lo, hi);
    assert(eta[0] == s[lo]);
    assert(eta.last() == s[hi - 1]);
    lemma_trimmed_is_same(eta);
}

/// A counter that was read is not negative.
proof fn lemma_counter_shape(s: Seq<char>, lo: int, hi: int)
    requires
        all_in(s, CharClass::Digit, lo, hi),
    ensures
        0 <= decimal_value(s.subrange(lo, hi)),
{
    lemma_decimal_prefix(s, lo, lo, hi);
}

/// The record of a reading whose counters fit an `i32` has the shape of a
/// record that was read from a progress line.
pub proof fn lemma_reading_shape(s: Seq<char>, l: Layout)
    requires
        fits(s, l),
        decimal_value(text_of(s, l.current)) <= i32::MAX,
        decimal_value(text_of(s, l.total)) <= i32::MAX,
    ensures
        is_reading(record_of(s, l)),
{
    lemma_bounds(s, l);
    lemma_counter_shape(s, l.current.lo, l.current.hi);
    lemma_counter_shape(s, l.total.lo, l.total.hi);
    lemma_percent_sliced(s, l.percent.lo, l.percent.hi);
    lemma_size_shape(s, l.size.lo, l.size.hi);
    lemma_speed_shape(s, l.speed.lo, l.speed.hi);
    lemma_eta_shape(s, l.eta.lo, l.eta.hi);
}

/// The record that a line gives has the shape of a record that was read from
/// a progress line.
pub proof fn lemma_outcome_shape(s: Seq<char>)
    requires
        line_outcome(s) is Ok,
    ensures
        is_reading(line_outcome(s)->Ok_0.1),
{
    lemma_selected_exists(s);
    let l = choose|l: Layout| selected(s, l);
    lemma_reading_shape(s, l);
}

} // verus!
