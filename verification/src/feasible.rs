//! What can still be read from a position on.
//!
//! Behind the percent sign the grammar leaves a choice, and a matcher that
//! tried every choice in turn would take long on a line with a long stretch of
//! blanks. The tables here say, for every position of a line, whether the
//! rest of a reading can start there; with them the matcher never enters a
//! dead end. They are filled from the end of the line to its start, each
//! entry from the entries behind it.

use vstd::prelude::*;
use crate::grammar::{
    amount, amount_pair_with, eta_token, placeholder, size_token, speed_token, tail_eta, tail_gap,
    tail_size, tail_speed, Range,
};
use crate::matcher::{amount_end, amount_pair_end, eta_end, per_second_here};
use crate::text::{class_has, in_class, is_space, CharClass};

verus! {

/// White space and a time left can be read from `from` on.
pub open spec fn can_eta(s: Seq<char>, from: int) -> bool {
    exists|e: Range| tail_eta(s, from, e)
}

/// A speed that is not there, and what follows it, can be read from `lo` on.
pub open spec fn can_dash_speed(s: Seq<char>, lo: int) -> bool {
    exists|hi: int, e: Range| placeholder(s, lo, hi) && #[trigger] tail_eta(s, hi, e)
}

/// A speed, and what follows it, can be read from `lo` on.
pub open spec fn can_speed(s: Seq<char>, lo: int) -> bool {
    exists|sp: Range, e: Range| sp.lo == lo && #[trigger] tail_speed(s, sp, e)
}

/// White space, a speed and what follows it can be read from `from` on.
pub open spec fn can_gap(s: Seq<char>, from: int) -> bool {
    exists|sp: Range, e: Range| tail_gap(s, from, sp, e)
}

/// A size that is not there, and what follows it, can be read from `lo` on.
pub open spec fn can_dash_size(s: Seq<char>, lo: int) -> bool {
    exists|hi: int, sp: Range, e: Range| placeholder(s, lo, hi) && #[trigger] tail_gap(s, hi, sp, e)
}

/// A size, and what follows it, can be read from `lo` on.
pub open spec fn can_size(s: Seq<char>, lo: int) -> bool {
    exists|sz: Range, sp: Range, e: Range| sz.lo == lo && #[trigger] tail_size(s, sz, sp, e)
}

/// A time left stands at `lo`.
pub open spec fn eta_at(s: Seq<char>, lo: int) -> bool {
    exists|h: int| eta_token(s, lo, h)
}

/// A speed stands at `lo`, and what follows it can be read behind it.
pub open spec fn speed_then_eta(s: Seq<char>, lo: int) -> bool {
    exists|h: int| speed_token(s, lo, h) && can_eta(s, h)
}

/// A size stands at `lo`, and what follows it can be read behind it.
pub open spec fn size_then_gap(s: Seq<char>, lo: int) -> bool {
    exists|h: int| size_token(s, lo, h) && can_gap(s, h)
}

pub proof fn lemma_nothing_at_end(s: Seq<char>, i: int)
    requires
        i >= s.len(),
    ensures
        !can_eta(s, i),
        !can_dash_speed(s, i),
        !can_speed(s, i),
        !can_gap(s, i),
        !can_dash_size(s, i),
        !can_size(s, i),
{
    assert forall|sp: Range, e: Range| sp.lo == i implies !#[trigger] tail_speed(s, sp, e) by {}
    assert forall|sz: Range, sp: Range, e: Range| sz.lo == i implies !#[trigger] tail_size(
        s,
        sz,
        sp,
        e,
    ) by {
        if exists|x: int| amount_pair_with(s, sz.lo, sz.hi, x) {
            let x = choose|x: int| amount_pair_with(s, sz.lo, sz.hi, x);
        }
    }
}

pub proof fn lemma_can_eta(s: Seq<char>, i: int)
    requires
        0 <= i < s.len(),
    ensures
        can_eta(s, i) == (is_space(s[i]) && (can_eta(s, i + 1) || eta_at(s, i + 1))),
{
    let j = i + 1;
    if can_eta(s, i) {
        let e = choose|e: Range| tail_eta(s, i, e);
        assert(in_class(CharClass::Space, s[i]));
        if e.lo == j {
            assert(eta_token(s, j, e.hi));
        } else {
            assert(tail_eta(s, j, e));
        }
    }
    if is_space(s[i]) && can_eta(s, j) {
        let e = choose|e: Range| tail_eta(s, j, e);
        assert(tail_eta(s, i, e));
    }
    if is_space(s[i]) && eta_at(s, j) {
        let h = choose|h: int| eta_token(s, j, h);
        assert(tail_eta(s, i, Range { lo: j, hi: h }));
    }
}

pub proof fn lemma_can_dash_speed(s: Seq<char>, i: int)
    requires
        0 <= i < s.len(),
    ensures
        can_dash_speed(s, i) == (in_class(CharClass::DashSpace, s[i]) && (can_eta(s, i + 1)
            || can_dash_speed(s, i + 1))),
{
    let j = i + 1;
    if can_dash_speed(s, i) {
        let (hi, e) = choose|hi: int, e: Range|
            placeholder(s, i, hi) && #[trigger] tail_eta(s, hi, e);
        assert(in_class(CharClass::DashSpace, s[i]));
        if hi != j {
            assert(placeholder(s, j, hi) && tail_eta(s, hi, e));
        }
    }
    if in_class(CharClass::DashSpace, s[i]) && can_eta(s, j) {
        let e = choose|e: Range| tail_eta(s, j, e);
        assert(placeholder(s, i, j) && tail_eta(s, j, e));
    }
    if in_class(CharClass::DashSpace, s[i]) && can_dash_speed(s, j) {
        let (hi, e) = choose|hi: int, e: Range|
            placeholder(s, j, hi) && #[trigger] tail_eta(s, hi, e);
        assert(placeholder(s, i, hi) && tail_eta(s, hi, e));
    }
}

pub proof fn lemma_can_speed(s: Seq<char>, i: int)
    ensures
        can_speed(s, i) == (can_dash_speed(s, i) || speed_then_eta(s, i)),
{
    if can_speed(s, i) {
        let (sp, e) = choose|sp: Range, e: Range| sp.lo == i && #[trigger] tail_speed(s, sp, e);
        if speed_token(s, sp.lo, sp.hi) {
            assert(speed_token(s, i, sp.hi) && can_eta(s, sp.hi));
        } else {
            assert(placeholder(s, i, sp.hi) && tail_eta(s, sp.hi, e));
        }
    }
    if can_dash_speed(s, i) {
        let (hi, e) = choose|hi: int, e: Range|
            placeholder(s, i, hi) && #[trigger] tail_eta(s, hi, e);
        assert(tail_speed(s, Range { lo: i, hi }, e));
    }
    if speed_then_eta(s, i) {
        let h = choose|h: int| speed_token(s, i, h) && can_eta(s, h);
        let e = choose|e: Range| tail_eta(s, h, e);
        assert(tail_speed(s, Range { lo: i, hi: h }, e));
    }
}

pub proof fn lemma_can_gap(s: Seq<char>, i: int)
    requires
        0 <= i < s.len(),
    ensures
        can_gap(s, i) == (is_space(s[i]) && (can_gap(s, i + 1) || can_speed(s, i + 1))),
{
    let j = i + 1;
    if can_gap(s, i) {
        let (sp, e) = choose|sp: Range, e: Range| tail_gap(s, i, sp, e);
        assert(in_class(CharClass::Space, s[i]));
        if sp.lo == j {
            assert(sp.lo == j && tail_speed(s, sp, e));
        } else {
            assert(tail_gap(s, j, sp, e));
        }
    }
    if is_space(s[i]) && can_gap(s, j) {
        let (sp, e) = choose|sp: Range, e: Range| tail_gap(s, j, sp, e);
        assert(tail_gap(s, i, sp, e));
    }
    if is_space(s[i]) && can_speed(s, j) {
        let (sp, e) = choose|sp: Range, e: Range|
            sp.lo == j && #[trigger] tail_speed(s, sp, e);
        assert(tail_gap(s, i, sp, e));
    }
}

pub proof fn lemma_can_dash_size(s: Seq<char>, i: int)
    requires
        0 <= i < s.len(),
    ensures
        can_dash_size(s, i) == (in_class(CharClass::DashSpace, s[i]) && (can_gap(s, i + 1)
            || can_dash_size(s, i + 1))),
{
    let j = i + 1;
    if can_dash_size(s, i) {
        let (hi, sp, e) = choose|hi: int, sp: Range, e: Range|
            placeholder(s, i, hi) && #[trigger] tail_gap(s, hi, sp, e);
        assert(in_class(CharClass::DashSpace, s[i]));
        if hi != j {
            assert(placeholder(s, j, hi) && tail_gap(s, hi, sp, e));
        }
    }
    if in_class(CharClass::DashSpace, s[i]) && can_gap(s, j) {
        let (sp, e) = choose|sp: Range, e: Range| tail_gap(s, j, sp, e);
        assert(placeholder(s, i, j) && tail_gap(s, j, sp, e));
    }
    if in_class(CharClass::DashSpace, s[i]) && can_dash_size(s, j) {
        let (hi, sp, e) = choose|hi: int, sp: Range, e: Range|
            placeholder(s, j, hi) && #[trigger] tail_gap(s, hi, sp, e);
        assert(placeholder(s, i, hi) && tail_gap(s, hi, sp, e));
    }
}

pub proof fn lemma_can_size(s: Seq<char>, i: int)
    ensures
        can_size(s, i) == (can_dash_size(s, i) || size_then_gap(s, i)),
{
    if can_size(s, i) {
        let (sz, sp, e) = choose|sz: Range, sp: Range, e: Range|
            sz.lo == i && #[trigger] tail_size(s, sz, sp, e);
        if size_token(s, sz.lo, sz.hi) {
            assert(size_token(s, i, sz.hi) && can_gap(s, sz.hi));
        } else {
            assert(placeholder(s, i, sz.hi) && tail_gap(s, sz.hi, sp, e));
        }
    }
    if can_dash_size(s, i) {
        let (hi, sp, e) = choose|hi: int, sp: Range, e: Range|
            placeholder(s, i, hi) && #[trigger] tail_gap(s, hi, sp, e);
        assert(tail_size(s, Range { lo: i, hi }, sp, e));
    }
    if size_then_gap(s, i) {
        let h = choose|h: int| size_token(s, i, h) && can_gap(s, h);
        let (sp, e) = choose|sp: Range, e: Range| tail_gap(s, h, sp, e);
        assert(tail_size(s, Range { lo: i, hi: h }, sp, e));
    }
}

/// The entry of a table at `i`; behind the end of the table, `false`.
pub open spec fn entry(table: Seq<bool>, i: int) -> bool {
    0 <= i < table.len() && table[i]
}

/// For each position of a line, what can be read from there on.
pub struct Feasible {
    pub eta: Vec<bool>,
    pub dash_speed: Vec<bool>,
    pub speed: Vec<bool>,
    pub gap: Vec<bool>,
    pub dash_size: Vec<bool>,
    pub size: Vec<bool>,
}

impl Feasible {
    /// The entries from `from` on say what holds of `s`. Those for a speed
    /// and for a size are kept behind white space only, where a speed or a
    /// size can start.
    pub open spec fn right_from(&self, s: Seq<char>, from: int) -> bool {
        &&& self.eta.len() == s.len()
        &&& self.dash_speed.len() == s.len()
        &&& self.speed.len() == s.len()
        &&& self.gap.len() == s.len()
        &&& self.dash_size.len() == s.len()
        &&& self.size.len() == s.len()
        &&& forall|i: int| from <= i ==> #[trigger] entry(self.eta@, i) == can_eta(s, i)
        &&& forall|i: int|
            from <= i ==> #[trigger] entry(self.dash_speed@, i) == can_dash_speed(s, i)
        &&& forall|i: int| from <= i ==> #[trigger] entry(self.gap@, i) == can_gap(s, i)
        &&& forall|i: int|
            from <= i ==> #[trigger] entry(self.dash_size@, i) == can_dash_size(s, i)
        &&& forall|i: int|
            from <= i && 0 < i <= s.len() && is_space(s[i - 1]) ==> #[trigger] entry(
                self.speed@,
                i,
            ) == can_speed(s, i)
        &&& forall|i: int|
            from <= i && 0 < i <= s.len() && is_space(s[i - 1]) ==> #[trigger] entry(
                self.size@,
                i,
            ) == can_size(s, i)
    }

    /// The tables say what holds of `s`.
    pub open spec fn right(&self, s: Seq<char>) -> bool {
        self.right_from(s, 0)
    }
}

/// The entry of a table at `i`.
pub(crate) fn look(table: &Vec<bool>, i: usize) -> (r: bool)
    ensures
        r == entry(table@, i as int),
{
    i < table.len() && table[i]
}

fn blank_table(n: usize) -> (r: Vec<bool>)
    ensures
        r.len() == n,
        forall|i: int| 0 <= i < n ==> !r[i],
{
    let mut r: Vec<bool> = Vec::new();
    while r.len() < n
        invariant
            r.len() <= n,
            forall|i: int| 0 <= i < r.len() ==> !r[i],
        decreases n - r.len(),
    {
        r.push(false);
    }
    r
}

/// Whether a speed stands at `i` with what follows it readable behind it.
fn speed_fits(s: &Vec<char>, eta: &Vec<bool>, i: usize) -> (r: bool)
    requires
        i < s.len(),
        eta.len() == s.len(),
        forall|k: int| i < k ==> #[trigger] entry(eta@, k) == can_eta(s@, k),
    ensures
        r == speed_then_eta(s@, i as int),
{
    match amount_end(s, i) {
        None => false,
        Some(mid) => {
            assert forall|h: int| speed_token(s@, i as int, h) implies h == mid + 2 by {}
            per_second_here(s, mid) && look(eta, mid + 2)
        },
    }
}

/// Whether a size stands at `i` with what follows it readable behind it.
fn size_fits(s: &Vec<char>, gap: &Vec<bool>, i: usize) -> (r: bool)
    requires
        i < s.len(),
        gap.len() == s.len(),
        forall|k: int| i < k ==> #[trigger] entry(gap@, k) == can_gap(s@, k),
    ensures
        r == size_then_gap(s@, i as int),
{
    let single = match amount_end(s, i) {
        None => false,
        Some(hi) => look(gap, hi),
    };
    let pair = match amount_pair_end(s, i) {
        None => false,
        Some(hi) => {
            proof {
                let x = choose|x: int| amount_pair_with(s@, i as int, hi as int, x);
                assert(size_token(s@, i as int, hi as int));
            }
            look(gap, hi)
        },
    };
    proof {
        if size_then_gap(s@, i as int) {
            let h = choose|h: int| size_token(s@, i as int, h) && can_gap(s@, h);
            if !amount(s@, i as int, h) {
                let x = choose|x: int| amount_pair_with(s@, i as int, h, x);
            }
        }
    }
    single || pair
}

/// What can be read from `i` on, given the entries behind `i`: in the order of
/// the tables.
fn entries_at(s: &Vec<char>, t: &Feasible, i: usize) -> (r: (bool, bool, bool, bool, bool, bool))
    requires
        i < s.len(),
        t.right_from(s@, i + 1),
    ensures
        r.0 == can_eta(s@, i as int),
        r.1 == can_dash_speed(s@, i as int),
        i > 0 && is_space(s@[i - 1]) ==> r.2 == can_speed(s@, i as int),
        r.3 == can_gap(s@, i as int),
        r.4 == can_dash_size(s@, i as int),
        i > 0 && is_space(s@[i - 1]) ==> r.5 == can_size(s@, i as int),
{
    let c = s[i];
    let blank = class_has(CharClass::Space, c);
    let dash_or_blank = class_has(CharClass::DashSpace, c);
    let after_blank = i > 0 && class_has(CharClass::Space, s[i - 1]);
    let next_eta = look(&t.eta, i + 1);
    let next_dash_speed = look(&t.dash_speed, i + 1);
    let next_speed = look(&t.speed, i + 1);
    let next_gap = look(&t.gap, i + 1);
    let next_dash_size = look(&t.dash_size, i + 1);
    proof {
        lemma_can_eta(s@, i as int);
        lemma_can_dash_speed(s@, i as int);
        lemma_can_speed(s@, i as int);
        lemma_can_gap(s@, i as int);
        lemma_can_dash_size(s@, i as int);
        lemma_can_size(s@, i as int);
        if i + 1 >= s.len() {
            lemma_nothing_at_end(s@, i + 1);
        }
    }
    let eta = blank && (next_eta || eta_end(s, i + 1).is_some());
    let dash_speed = dash_or_blank && (next_eta || next_dash_speed);
    let gap = blank && (next_gap || next_speed);
    let dash_size = dash_or_blank && (next_gap || next_dash_size);
    let speed = dash_speed || (after_blank && speed_fits(s, &t.eta, i));
    let size = dash_size || (after_blank && size_fits(s, &t.gap, i));
    (eta, dash_speed, speed, gap, dash_size, size)
}

/// Puts `value` at `i`; the other entries stay.
fn put(table: &mut Vec<bool>, i: usize, value: bool)
    requires
        i < old(table).len(),
    ensures
        final(table).len() == old(table).len(),
        entry(final(table)@, i as int) == value,
        forall|k: int| k != i ==> #[trigger] entry(final(table)@, k) == entry(old(table)@, k),
{
    table.set(i, value);
}

/// Fills the tables for a line.
pub(crate) fn survey(s: &Vec<char>) -> (t: Feasible)
    ensures
        t.right(s@),
{
    let n = s.len();
    let mut t = Feasible {
        eta: blank_table(n),
        dash_speed: blank_table(n),
        speed: blank_table(n),
        gap: blank_table(n),
        dash_size: blank_table(n),
        size: blank_table(n),
    };
    let mut i: usize = n;
    assert(t.right_from(s@, n as int)) by {
        assert forall|k: int| n <= k implies !can_eta(s@, k) && !can_dash_speed(s@, k) && !can_gap(
            s@,
            k,
        ) && !can_dash_size(s@, k) && !can_speed(s@, k) && !can_size(s@, k) by {
            lemma_nothing_at_end(s@, k);
        }
    }
    while i > 0
        invariant
            i <= n == s.len(),
            t.right_from(s@, i as int),
        decreases i,
    {
        i = i - 1;
        let (eta, dash_speed, speed, gap, dash_size, size) = entries_at(s, &t, i);
        put(&mut t.eta, i, eta);
        put(&mut t.dash_speed, i, dash_speed);
        put(&mut t.speed, i, speed);
        put(&mut t.gap, i, gap);
        put(&mut t.dash_size, i, dash_size);
        put(&mut t.size, i, size);
    }
    t
}

} // verus!
