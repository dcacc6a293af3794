//! The matcher: finds, in the characters of a line, the reading of the line
//! that the grammar selects.

use vstd::prelude::*;
use crate::grammar::{
    amount, amount_pair_with, armed, blank_clock, clock_with, eta_token, fits, gap_ge, head,
    is_progress_line, lemma_head_shape, marker_at, pair_ge, per_second_at,
    percent_numeral_with, placeholder, selected, shaped, size_ge, size_token, speed_ge,
    speed_token, tail, tail_eta, tail_gap, tail_ge, tail_size, tail_speed, unit_at, Layout, Range,
};
use crate::feasible::{can_eta, can_gap, can_size, can_speed, look, survey, Feasible};
use crate::text::{
    all_in, class_has, in_class, is_space, lemma_maximal_unique, lemma_within_maximal, letter_is,
    no_newline, run_end, run_stop, CharClass,
};

verus! {

/// A half-open range of character positions in a line.
#[derive(Clone, Copy, Debug)]
pub struct Span {
    pub lo: usize,
    pub hi: usize,
}

impl View for Span {
    type V = Range;

    open spec fn view(&self) -> Range {
        Range { lo: self.lo as int, hi: self.hi as int }
    }
}

/// Where the tokens of a progress line were found.
#[derive(Clone, Copy, Debug)]
pub struct Spans {
    pub bar: Span,
    pub current: Span,
    pub total: Span,
    pub percent: Span,
    pub size: Span,
    pub speed: Span,
    pub eta: Span,
}

impl View for Spans {
    type V = Layout;

    open spec fn view(&self) -> Layout {
        Layout {
            bar: self.bar@,
            current: self.current@,
            total: self.total@,
            percent: self.percent@,
            size: self.size@,
            speed: self.speed@,
            eta: self.eta@,
        }
    }
}

fn marker_here(s: &Vec<char>, i: usize) -> (r: bool)
    requires
        i <= s.len(),
    ensures
        r == marker_at(s@, i as int),
{
    if s.len() - i < 3 {
        return false;
    }
    let a = s[i];
    let b = s[i + 1];
    let c = s[i + 2];
    (letter_is(a, 'v') && letter_is(b, 'i') && letter_is(c, 'd')) || (letter_is(a, 'a')
        && letter_is(b, 'u') && letter_is(c, 'd')) || (letter_is(a, 's') && letter_is(b, 'u')
        && letter_is(c, 'b'))
}

fn unit_here(s: &Vec<char>, i: usize) -> (r: bool)
    requires
        i <= s.len(),
    ensures
        r == unit_at(s@, i as int),
{
    s.len() - i >= 2 && (letter_is(s[i], 'k') || letter_is(s[i], 'm')) && letter_is(s[i + 1], 'b')
}

pub(crate) fn per_second_here(s: &Vec<char>, i: usize) -> (r: bool)
    requires
        i <= s.len(),
    ensures
        r == per_second_at(s@, i as int),
{
    s.len() - i >= 2 && letter_is(s[i], 'p') && letter_is(s[i + 1], 's')
}

/// The end of the byte count that starts at `lo`, if one does.
pub(crate) fn amount_end(s: &Vec<char>, lo: usize) -> (r: Option<usize>)
    requires
        lo <= s.len(),
    ensures
        match r {
            Some(hi) => {
                &&& lo < hi <= s.len()
                &&& amount(s@, lo as int, hi as int)
                &&& forall|h: int| amount(s@, lo as int, h) ==> h == hi
            },
            None => forall|h: int| !amount(s@, lo as int, h),
        },
{
    let m = run_end(s, CharClass::NumDot, lo);
    assert forall|h: int| amount(s@, lo as int, h) implies h == m + 2 by {
        assert(!in_class(CharClass::NumDot, s@[h - 2]));
        lemma_maximal_unique(s@, CharClass::NumDot, lo as int, m as int, h - 2);
    }
    if m == lo || !unit_here(s, m) {
        return None;
    }
    Some(m + 2)
}

/// The end of the pair of byte counts that starts at `lo`, if one does.
pub(crate) fn amount_pair_end(s: &Vec<char>, lo: usize) -> (r: Option<usize>)
    requires
        lo <= s.len(),
    ensures
        match r {
            Some(hi) => {
                &&& lo < hi <= s.len()
                &&& exists|slash: int| amount_pair_with(s@, lo as int, hi as int, slash)
                &&& forall|h: int, slash: int|
                    amount_pair_with(s@, lo as int, h, slash) ==> h == hi
            },
            None => forall|h: int, slash: int| !amount_pair_with(s@, lo as int, h, slash),
        },
{
    let first = amount_end(s, lo);
    match first {
        None => None,
        Some(slash) => {
            if slash >= s.len() || s[slash] != '/' {
                return None;
            }
            let m = run_end(s, CharClass::NumDot, slash + 1);
            assert forall|h: int, x: int| amount_pair_with(s@, lo as int, h, x) implies h == m
                + 2 by {
                assert(x == slash);
                assert(!in_class(CharClass::NumDot, s@[h - 2]));
                lemma_maximal_unique(s@, CharClass::NumDot, slash + 1, m as int, h - 2);
            }
            if m == slash + 1 || !unit_here(s, m) {
                return None;
            }
            assert(amount_pair_with(s@, lo as int, m + 2, slash as int));
            Some(m + 2)
        },
    }
}

/// The end of the longest time left that starts at `lo`, if one does.
pub(crate) fn eta_end(s: &Vec<char>, lo: usize) -> (r: Option<usize>)
    requires
        lo <= s.len(),
    ensures
        match r {
            Some(hi) => {
                &&& lo < hi <= s.len()
                &&& eta_token(s@, lo as int, hi as int)
                &&& forall|h: int| eta_token(s@, lo as int, h) ==> h <= hi
            },
            None => forall|h: int| !eta_token(s@, lo as int, h),
        },
{
    let n = s.len();
    if lo < n && s[lo] == '-' {
        assert forall|h: int, a: int, b: int| !clock_with(s@, lo as int, h, a, b) by {
            if clock_with(s@, lo as int, h, a, b) {
                assert(in_class(CharClass::Digit, s@[lo as int]));
            }
        }
        if n - lo >= 8 && s[lo + 1] == '-' && s[lo + 2] == ':' && s[lo + 3] == '-' && s[lo + 4]
            == '-' && s[lo + 5] == ':' && s[lo + 6] == '-' && s[lo + 7] == '-' {
            return Some(lo + 8);
        }
        return None;
    }
    assert(forall|h: int| !blank_clock(s@, lo as int, h));
    let a = run_end(s, CharClass::Digit, lo);
    if a == lo || a >= n || s[a] != ':' {
        assert forall|h: int, x: int, y: int| !clock_with(s@, lo as int, h, x, y) by {
            if clock_with(s@, lo as int, h, x, y) {
                assert(!in_class(CharClass::Digit, s@[x]));
                lemma_maximal_unique(s@, CharClass::Digit, lo as int, a as int, x);
            }
        }
        return None;
    }
    let b = run_end(s, CharClass::Digit, a + 1);
    if b == a + 1 || b >= n || s[b] != ':' {
        assert forall|h: int, x: int, y: int| !clock_with(s@, lo as int, h, x, y) by {
            if clock_with(s@, lo as int, h, x, y) {
                assert(!in_class(CharClass::Digit, s@[x]));
                lemma_maximal_unique(s@, CharClass::Digit, lo as int, a as int, x);
                assert(!in_class(CharClass::Digit, s@[y]));
                lemma_maximal_unique(s@, CharClass::Digit, a + 1, b as int, y);
            }
        }
        return None;
    }
    let c = run_end(s, CharClass::Digit, b + 1);
    assert forall|h: int, x: int, y: int| clock_with(s@, lo as int, h, x, y) implies h <= c && c
        > b + 1 by {
        assert(!in_class(CharClass::Digit, s@[x]));
        lemma_maximal_unique(s@, CharClass::Digit, lo as int, a as int, x);
        assert(!in_class(CharClass::Digit, s@[y]));
        lemma_maximal_unique(s@, CharClass::Digit, a + 1, b as int, y);
        lemma_within_maximal(s@, CharClass::Digit, b + 1, h, c as int);
    }
    if c == b + 1 {
        return None;
    }
    assert(clock_with(s@, lo as int, c as int, a as int, b as int));
    Some(c)
}

/// The time left behind the white space that starts at `from`.
fn find_eta(s: &Vec<char>, from: usize) -> (r: Option<Span>)
    requires
        from <= s.len(),
    ensures
        match r {
            Some(eta) => {
                &&& from < eta.lo < eta.hi <= s.len()
                &&& tail_eta(s@, from as int, eta@)
                &&& forall|e: Range| #[trigger] tail_eta(s@, from as int, e) ==> pair_ge(eta@, e)
            },
            None => forall|e: Range| !tail_eta(s@, from as int, e),
        },
{
    let lo = run_end(s, CharClass::Space, from);
    assert forall|e: Range| #[trigger] tail_eta(s@, from as int, e) implies e.lo == lo by {
        if blank_clock(s@, e.lo, e.hi) {
            assert(!in_class(CharClass::Space, s@[e.lo]));
        } else {
            let (a, b) = choose|a: int, b: int| clock_with(s@, e.lo, e.hi, a, b);
            assert(in_class(CharClass::Digit, s@[e.lo]));
            assert(!in_class(CharClass::Space, s@[e.lo]));
        }
        lemma_maximal_unique(s@, CharClass::Space, from as int, lo as int, e.lo);
    }
    if lo == from {
        return None;
    }
    match eta_end(s, lo) {
        Some(hi) => Some(Span { lo, hi }),
        None => None,
    }
}

/// The speed that starts at `lo` and what follows it: the end of the speed and
/// the time left.
fn find_speed_end(s: &Vec<char>, t: &Feasible, lo: usize) -> (r: Option<(usize, Span)>)
    requires
        lo <= s.len(),
        t.right(s@),
    ensures
        match r {
            Some((hi, eta)) => {
                &&& lo < hi < eta.lo < eta.hi <= s.len()
                &&& tail_speed(s@, Range { lo: lo as int, hi: hi as int }, eta@)
                &&& forall|sp: Range, e: Range|
                    sp.lo == lo && #[trigger] tail_speed(s@, sp, e) ==> speed_ge(
                        hi as int,
                        eta@,
                        sp.hi,
                        e,
                    )
            },
            None => forall|sp: Range, e: Range| sp.lo == lo ==> !#[trigger] tail_speed(s@, sp, e),
        },
{
    if lo >= s.len() {
        return None;
    }
    if class_has(CharClass::NumDot, s[lo]) {
        assert forall|sp: Range| sp.lo == lo implies !placeholder(s@, sp.lo, sp.hi) by {
            if placeholder(s@, sp.lo, sp.hi) {
                assert(in_class(CharClass::DashSpace, s@[lo as int]));
            }
        }
        let count = amount_end(s, lo);
        match count {
            None => None,
            Some(mid) => {
                if !per_second_here(s, mid) {
                    return None;
                }
                let hi = mid + 2;
                match find_eta(s, hi) {
                    Some(eta) => Some((hi, eta)),
                    None => None,
                }
            },
        }
    } else if class_has(CharClass::DashSpace, s[lo]) {
        assert forall|sp: Range| sp.lo == lo implies !speed_token(s@, sp.lo, sp.hi) by {
            if speed_token(s@, sp.lo, sp.hi) {
                assert(in_class(CharClass::NumDot, s@[lo as int]));
            }
        }
        let end = run_end(s, CharClass::DashSpace, lo);
        assert forall|sp: Range, e: Range| sp.lo == lo && #[trigger] tail_speed(s@, sp, e) implies sp.hi
            <= end by {
            lemma_within_maximal(s@, CharClass::DashSpace, lo as int, sp.hi, end as int);
        }
        let mut hi = end;
        while hi > lo
            invariant
                lo <= hi <= end <= s.len(),
                all_in(s@, CharClass::DashSpace, lo as int, end as int),
                t.right(s@),
                forall|sp: Range| sp.lo == lo ==> !speed_token(s@, sp.lo, sp.hi),
                forall|sp: Range, e: Range|
                    sp.lo == lo && #[trigger] tail_speed(s@, sp, e) ==> sp.hi <= hi,
            decreases hi,
        {
            if look(&t.eta, hi) {
                match find_eta(s, hi) {
                    Some(eta) => {
                        assert(placeholder(s@, lo as int, hi as int));
                        return Some((hi, eta));
                    },
                    None => {},
                }
            }
            assert(!can_eta(s@, hi as int));
            hi = hi - 1;
        }
        assert forall|sp: Range, e: Range| sp.lo == lo implies !#[trigger] tail_speed(
            s@,
            sp,
            e,
        ) by {}
        None
    } else {
        assert forall|sp: Range, e: Range| sp.lo == lo implies !#[trigger] tail_speed(
            s@,
            sp,
            e,
        ) by {
            if speed_token(s@, sp.lo, sp.hi) {
                assert(in_class(CharClass::NumDot, s@[lo as int]));
            }
            if placeholder(s@, sp.lo, sp.hi) {
                assert(in_class(CharClass::DashSpace, s@[lo as int]));
            }
        }
        None
    }
}

/// The speed and the time left behind the white space that starts at `from`.
fn find_speed(s: &Vec<char>, t: &Feasible, from: usize) -> (r: Option<(Span, Span)>)
    requires
        from <= s.len(),
        t.right(s@),
    ensures
        match r {
            Some((speed, eta)) => {
                &&& from < speed.lo < speed.hi < eta.lo < eta.hi <= s.len()
                &&& tail_gap(s@, from as int, speed@, eta@)
                &&& forall|sp: Range, e: Range| #[trigger]
                    tail_gap(s@, from as int, sp, e) ==> gap_ge(speed@, eta@, sp, e)
            },
            None => forall|sp: Range, e: Range| !tail_gap(s@, from as int, sp, e),
        },
{
    let end = run_end(s, CharClass::Space, from);
    assert forall|sp: Range, e: Range| #[trigger]
        tail_gap(s@, from as int, sp, e) implies sp.lo <= end by {
        lemma_within_maximal(s@, CharClass::Space, from as int, sp.lo, end as int);
    }
    let mut lo = end;
    while lo > from
        invariant
            from <= lo <= end <= s.len(),
            all_in(s@, CharClass::Space, from as int, end as int),
            t.right(s@),
            forall|sp: Range, e: Range| #[trigger] tail_gap(s@, from as int, sp, e) ==> sp.lo <= lo,
        decreases lo,
    {
        assert(is_space(s@[lo - 1])) by {
            assert(in_class(CharClass::Space, s@[lo - 1]));
        }
        if look(&t.speed, lo) {
            match find_speed_end(s, t, lo) {
                Some((hi, eta)) => {
                    return Some((Span { lo, hi }, eta));
                },
                None => {},
            }
        }
        assert(!can_speed(s@, lo as int));
        lo = lo - 1;
    }
    None
}

/// The size that starts at `lo` and what follows it: the end of the size, the
/// speed and the time left.
fn find_size_end(s: &Vec<char>, t: &Feasible, lo: usize) -> (r: Option<(usize, Span, Span)>)
    requires
        lo <= s.len(),
        t.right(s@),
    ensures
        match r {
            Some((hi, speed, eta)) => {
                &&& lo < hi < speed.lo < speed.hi < eta.lo < eta.hi <= s.len()
                &&& tail_size(s@, Range { lo: lo as int, hi: hi as int }, speed@, eta@)
                &&& forall|sz: Range, sp: Range, e: Range|
                    sz.lo == lo && #[trigger] tail_size(s@, sz, sp, e) ==> size_ge(
                        hi as int,
                        speed@,
                        eta@,
                        sz.hi,
                        sp,
                        e,
                    )
            },
            None => forall|sz: Range, sp: Range, e: Range|
                sz.lo == lo ==> !#[trigger] tail_size(s@, sz, sp, e),
        },
{
    if lo >= s.len() {
        return None;
    }
    if class_has(CharClass::NumDot, s[lo]) {
        assert forall|sz: Range| sz.lo == lo implies !placeholder(s@, sz.lo, sz.hi) by {
            if placeholder(s@, sz.lo, sz.hi) {
                assert(in_class(CharClass::DashSpace, s@[lo as int]));
            }
        }
        let pair = amount_pair_end(s, lo);
        match pair {
            Some(hi) => {
                match find_speed(s, t, hi) {
                    Some((speed, eta)) => {
                        assert forall|sz: Range, sp: Range, e: Range|
                            sz.lo == lo && #[trigger] tail_size(s@, sz, sp, e) implies sz.hi
                            <= hi by {
                            if amount(s@, sz.lo, sz.hi) {
                                let x = choose|x: int|
                                    amount_pair_with(s@, lo as int, hi as int, x);
                                assert(sz.hi == x);
                            }
                        }
                        return Some((hi, speed, eta));
                    },
                    None => {},
                }
            },
            None => {},
        }
        let single = amount_end(s, lo);
        match single {
            Some(hi) => {
                match find_speed(s, t, hi) {
                    Some((speed, eta)) => Some((hi, speed, eta)),
                    None => None,
                }
            },
            None => None,
        }
    } else if class_has(CharClass::DashSpace, s[lo]) {
        assert forall|sz: Range| sz.lo == lo implies !size_token(s@, sz.lo, sz.hi) by {
            if amount(s@, sz.lo, sz.hi) {
                assert(in_class(CharClass::NumDot, s@[lo as int]));
            }
            if exists|x: int| amount_pair_with(s@, sz.lo, sz.hi, x) {
                assert(in_class(CharClass::NumDot, s@[lo as int]));
            }
        }
        let end = run_end(s, CharClass::DashSpace, lo);
        assert forall|sz: Range, sp: Range, e: Range|
            sz.lo == lo && #[trigger] tail_size(s@, sz, sp, e) implies sz.hi <= end by {
            lemma_within_maximal(s@, CharClass::DashSpace, lo as int, sz.hi, end as int);
        }
        let mut hi = end;
        while hi > lo
            invariant
                lo <= hi <= end <= s.len(),
                all_in(s@, CharClass::DashSpace, lo as int, end as int),
                t.right(s@),
                forall|sz: Range| sz.lo == lo ==> !size_token(s@, sz.lo, sz.hi),
                forall|sz: Range, sp: Range, e: Range|
                    sz.lo == lo && #[trigger] tail_size(s@, sz, sp, e) ==> sz.hi <= hi,
            decreases hi,
        {
            if look(&t.gap, hi) {
                match find_speed(s, t, hi) {
                    Some((speed, eta)) => {
                        assert(placeholder(s@, lo as int, hi as int));
                        return Some((hi, speed, eta));
                    },
                    None => {},
                }
            }
            assert(!can_gap(s@, hi as int));
            hi = hi - 1;
        }
        assert forall|sz: Range, sp: Range, e: Range| sz.lo == lo implies !#[trigger] tail_size(
            s@,
            sz,
            sp,
            e,
        ) by {}
        None
    } else {
        assert forall|sz: Range, sp: Range, e: Range| sz.lo == lo implies !#[trigger] tail_size(
            s@,
            sz,
            sp,
            e,
        ) by {
            if amount(s@, sz.lo, sz.hi) {
                assert(in_class(CharClass::NumDot, s@[lo as int]));
            }
            if exists|x: int| amount_pair_with(s@, sz.lo, sz.hi, x) {
                assert(in_class(CharClass::NumDot, s@[lo as int]));
            }
            if placeholder(s@, sz.lo, sz.hi) {
                assert(in_class(CharClass::DashSpace, s@[lo as int]));
            }
        }
        None
    }
}

/// The size, the speed and the time left behind the white space that starts
/// at `from`.
fn find_tail(s: &Vec<char>, t: &Feasible, from: usize) -> (r: Option<(Span, Span, Span)>)
    requires
        from <= s.len(),
        t.right(s@),
    ensures
        match r {
            Some((size, speed, eta)) => {
                &&& from < size.lo < size.hi < speed.lo < speed.hi < eta.lo < eta.hi <= s.len()
                &&& tail(s@, from as int, size@, speed@, eta@)
                &&& forall|sz: Range, sp: Range, e: Range| #[trigger]
                    tail(s@, from as int, sz, sp, e) ==> size.lo > sz.lo || (size.lo == sz.lo
                        && size_ge(size.hi as int, speed@, eta@, sz.hi, sp, e))
            },
            None => forall|sz: Range, sp: Range, e: Range| !tail(s@, from as int, sz, sp, e),
        },
{
    let end = run_end(s, CharClass::Space, from);
    assert forall|sz: Range, sp: Range, e: Range| #[trigger]
        tail(s@, from as int, sz, sp, e) implies sz.lo <= end by {
        lemma_within_maximal(s@, CharClass::Space, from as int, sz.lo, end as int);
    }
    let mut lo = end;
    while lo > from
        invariant
            from <= lo <= end <= s.len(),
            all_in(s@, CharClass::Space, from as int, end as int),
            t.right(s@),
            forall|sz: Range, sp: Range, e: Range| #[trigger]
                tail(s@, from as int, sz, sp, e) ==> sz.lo <= lo,
        decreases lo,
    {
        assert(is_space(s@[lo - 1])) by {
            assert(in_class(CharClass::Space, s@[lo - 1]));
        }
        if look(&t.size, lo) {
            match find_size_end(s, t, lo) {
                Some((hi, speed, eta)) => {
                    return Some((Span { lo, hi }, speed, eta));
                },
                None => {},
            }
        }
        assert(!can_size(s@, lo as int));
        lo = lo - 1;
    }
    None
}

/// The dashes that start at `p`, the two counters and the percentage.
fn find_head(s: &Vec<char>, p: usize) -> (r: Option<(Span, Span, Span, Span)>)
    requires
        p <= s.len(),
    ensures
        match r {
            Some((bar, current, total, percent)) => {
                &&& bar.lo == p
                &&& percent.hi < s.len()
                &&& head(s@, bar@, current@, total@, percent@)
                &&& forall|b: Range, c: Range, t: Range, pc: Range|
                    b.lo == p && #[trigger] head(s@, b, c, t, pc) ==> b == bar@ && c == current@
                        && t == total@ && pc == percent@
            },
            None => forall|b: Range, c: Range, t: Range, pc: Range|
                b.lo == p ==> !#[trigger] head(s@, b, c, t, pc),
        },
{
    let n = s.len();
    assert forall|b: Range, c: Range, t: Range, pc: Range| #[trigger]
        head(s@, b, c, t, pc) implies {
        let dot = run_stop(s@, CharClass::Digit, pc.lo);
        &&& b.hi == run_stop(s@, CharClass::Dash, b.lo)
        &&& c.lo == run_stop(s@, CharClass::Space, b.hi)
        &&& c.hi == run_stop(s@, CharClass::Digit, c.lo)
        &&& t.hi == run_stop(s@, CharClass::Digit, t.lo)
        &&& pc.lo == run_stop(s@, CharClass::Space, t.hi)
        &&& pc.lo < dot < s@.len()
        &&& pc.hi == if s@[dot] == '.' {
            run_stop(s@, CharClass::Digit, dot + 1)
        } else {
            dot
        }
    } by {
        lemma_head_shape(s@, b, c, t, pc);
    }
    let bar_hi = run_end(s, CharClass::Dash, p);
    if bar_hi == p {
        return None;
    }
    let cur_lo = run_end(s, CharClass::Space, bar_hi);
    if cur_lo == bar_hi {
        return None;
    }
    let cur_hi = run_end(s, CharClass::Digit, cur_lo);
    if cur_hi == cur_lo || cur_hi >= n || s[cur_hi] != '/' {
        return None;
    }
    let tot_lo = cur_hi + 1;
    let tot_hi = run_end(s, CharClass::Digit, tot_lo);
    if tot_hi == tot_lo {
        return None;
    }
    let pc_lo = run_end(s, CharClass::Space, tot_hi);
    if pc_lo == tot_hi {
        return None;
    }
    let dot = run_end(s, CharClass::Digit, pc_lo);
    if dot == pc_lo || dot >= n {
        return None;
    }
    let pc_hi = if s[dot] == '.' {
        run_end(s, CharClass::Digit, dot + 1)
    } else {
        dot
    };
    if pc_hi >= n || s[pc_hi] != '%' {
        return None;
    }
    assert(percent_numeral_with(s@, pc_lo as int, pc_hi as int, dot as int));
    Some(
        (
            Span { lo: p, hi: bar_hi },
            Span { lo: cur_lo, hi: cur_hi },
            Span { lo: tot_lo, hi: tot_hi },
            Span { lo: pc_lo, hi: pc_hi },
        ),
    )
}

/// The reading of the line whose dashes start at `p`, if there is one: of
/// those, the greediest.
fn match_at(s: &Vec<char>, t: &Feasible, p: usize) -> (r: Option<Spans>)
    requires
        p <= s.len(),
        t.right(s@),
    ensures
        match r {
            Some(m) => {
                &&& m.bar.lo == p
                &&& m.eta.hi <= s.len()
                &&& shaped(s@, m@)
                &&& forall|l: Layout| l.bar.lo == p && #[trigger] shaped(s@, l) ==> tail_ge(m@, l)
            },
            None => forall|l: Layout| l.bar.lo == p ==> !#[trigger] shaped(s@, l),
        },
{
    match find_head(s, p) {
        None => None,
        Some((bar, current, total, percent)) => {
            match find_tail(s, t, percent.hi + 1) {
                None => None,
                Some((size, speed, eta)) => Some(
                    Spans { bar, current, total, percent, size, speed, eta },
                ),
            }
        },
    }
}

/// Whether a marker stands before `p + 1` on the same line follows from
/// whether one stands before `p`.
proof fn lemma_armed_step(s: Seq<char>, p: int)
    requires
        0 <= p < s.len(),
    ensures
        armed(s, p + 1) == (marker_at(s, p - 2) || (armed(s, p) && s[p] != '\n')),
{
    if armed(s, p + 1) {
        let a = choose|a: int| #[trigger]
            marker_at(s, a) && a + 3 <= p + 1 <= s.len() && no_newline(s, a + 3, p + 1);
        if a + 3 <= p {
            assert(marker_at(s, a) && a + 3 <= p <= s.len() && no_newline(s, a + 3, p));
        }
    }
    if marker_at(s, p - 2) {
        assert(no_newline(s, p + 1, p + 1));
    }
    if armed(s, p) && s[p] != '\n' {
        let a = choose|a: int| #[trigger]
            marker_at(s, a) && a + 3 <= p <= s.len() && no_newline(s, a + 3, p);
        assert(marker_at(s, a) && a + 3 <= p + 1 <= s.len() && no_newline(s, a + 3, p + 1));
    }
}

/// A marker that stands before the start of a stretch of dashes, on the same
/// line, stands before each position of the stretch.
proof fn lemma_armed_over_dashes(s: Seq<char>, p: int, q: int)
    requires
        armed(s, p),
        p <= q,
        all_in(s, CharClass::Dash, p, q),
    ensures
        armed(s, q),
{
    let a = choose|a: int| #[trigger]
        marker_at(s, a) && a + 3 <= p <= s.len() && no_newline(s, a + 3, p);
    assert forall|k: int| a + 3 <= k < q implies #[trigger] s[k] != '\n' by {
        if k >= p {
            assert(in_class(CharClass::Dash, s[k]));
        }
    }
    assert(marker_at(s, a) && a + 3 <= q <= s.len() && no_newline(s, a + 3, q));
}

/// A reading whose dashes start inside a stretch of dashes is a reading from
/// the start of the stretch as well.
proof fn lemma_dashes_from_start(s: Seq<char>, l: Layout, p: int, end: int)
    requires
        shaped(s, l),
        all_in(s, CharClass::Dash, p, end),
        p <= l.bar.lo < end,
    ensures
        shaped(s, Layout { bar: Range { lo: p, hi: l.bar.hi }, ..l }),
{
    assert forall|k: int| p <= k < l.bar.hi implies in_class(CharClass::Dash, #[trigger] s[k]) by {
        if k < l.bar.lo {
            assert(in_class(CharClass::Dash, s[k]));
        }
    }
}

/// The reading of a line that the grammar selects, if the line has one.
pub fn find_layout(s: &Vec<char>) -> (r: Option<Spans>)
    ensures
        match r {
            Some(m) => m.eta.hi <= s.len() && selected(s@, m@),
            None => !is_progress_line(s@),
        },
{
    let n = s.len();
    let t = survey(s);
    let mut p: usize = 0;
    let mut marked = false;
    while p < n
        invariant
            p <= n == s.len(),
            t.right(s@),
            marked == armed(s@, p as int),
            forall|l: Layout| #[trigger] fits(s@, l) ==> l.bar.lo >= p,
        decreases n - p,
    {
        if marked && s[p] == '-' {
            match match_at(s, &t, p) {
                Some(m) => {
                    return Some(m);
                },
                None => {},
            }
            // what cannot be read from the first dash of a stretch cannot be
            // read from a later one
            let end = run_end(s, CharClass::Dash, p);
            proof {
                lemma_armed_over_dashes(s@, p as int, end as int);
                assert forall|l: Layout| #[trigger] fits(s@, l) implies l.bar.lo >= end by {
                    if p <= l.bar.lo < end {
                        lemma_dashes_from_start(s@, l, p as int, end as int);
                    }
                }
            }
            p = end;
        } else {
            proof {
                lemma_armed_step(s@, p as int);
                assert forall|l: Layout| #[trigger] fits(s@, l) implies l.bar.lo != p by {
                    if l.bar.lo == p {
                        assert(in_class(CharClass::Dash, s@[p as int]));
                    }
                }
            }
            marked = (p >= 2 && marker_here(s, p - 2)) || (marked && s[p] != '\n');
            p = p + 1;
        }
    }
    None
}

} // verus!
