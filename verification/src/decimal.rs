//! Whole numbers in decimal notation: writing them and reading them.

use vstd::prelude::*;
use vstd::string::StringExecFns;
use crate::text::{
    all_in, chars_of, decimal_value, digit_value, is_digit, lemma_decimal_prefix, run_end,
    CharClass,
};

verus! {

/// The digit that writes `d`, for `d` from 0 to 9.
pub open spec fn digit_char(d: int) -> char {
    if d == 0 {
        '0'
    } else if d == 1 {
        '1'
    } else if d == 2 {
        '2'
    } else if d == 3 {
        '3'
    } else if d == 4 {
        '4'
    } else if d == 5 {
        '5'
    } else if d == 6 {
        '6'
    } else if d == 7 {
        '7'
    } else if d == 8 {
        '8'
    } else {
        '9'
    }
}

/// The decimal numeral of `n`, without leading zeros.
pub open spec fn digits_of(n: nat) -> Seq<char>
    decreases n,
{
    if n < 10 {
        seq![digit_char(n as int)]
    } else {
        digits_of(n / 10) + seq![digit_char((n % 10) as int)]
    }
}

/// The decimal numeral of `i`, with a minus sign in front of a negative one.
pub open spec fn int_text(i: int) -> Seq<char> {
    if i < 0 {
        seq!['-'] + digits_of((-i) as nat)
    } else {
        digits_of(i as nat)
    }
}

/// `t` is one or more digits.
pub open spec fn is_numeral(t: Seq<char>) -> bool {
    t.len() > 0 && forall|k: int| 0 <= k < t.len() ==> is_digit(#[trigger] t[k])
}

/// The numeral of a number is read back as the number.
pub proof fn lemma_digits_round_trip(n: nat)
    ensures
        is_numeral(digits_of(n)),
        decimal_value(digits_of(n)) == n,
    decreases n,
{
    if n < 10 {
        let t = digits_of(n);
        assert(t.drop_last() =~= Seq::<char>::empty());
        assert(decimal_value(t.drop_last()) == 0);
        assert(digit_value(t.last()) == n);
    } else {
        lemma_digits_round_trip(n / 10);
        let t = digits_of(n);
        assert(t.drop_last() =~= digits_of(n / 10));
        assert(digit_value(t.last()) == n % 10);
    }
}

/// The number that `t` writes: an optional sign, then one or more digits;
/// `None` when `t` is not of this form.
pub open spec fn signed_value(t: Seq<char>) -> Option<int> {
    let signed = t.len() > 0 && (t[0] == '-' || t[0] == '+');
    let digits = if signed {
        t.drop_first()
    } else {
        t
    };
    if !is_numeral(digits) {
        None
    } else if t[0] == '-' {
        Some(-decimal_value(digits))
    } else {
        Some(decimal_value(digits))
    }
}

/// The number that `t` writes, when it is a number of 32 bits.
pub open spec fn i32_value(t: Seq<char>) -> Option<int> {
    match signed_value(t) {
        Some(v) => if i32::MIN <= v <= i32::MAX {
            Some(v)
        } else {
            None
        },
        None => None,
    }
}

fn digit_text(d: u64) -> (r: &'static str)
    requires
        d < 10,
    ensures
        r@ == seq![digit_char(d as int)],
{
    proof {
        reveal_strlit("0");
        reveal_strlit("1");
        reveal_strlit("2");
        reveal_strlit("3");
        reveal_strlit("4");
        reveal_strlit("5");
        reveal_strlit("6");
        reveal_strlit("7");
        reveal_strlit("8");
        reveal_strlit("9");
    }
    let r = if d == 0 {
        "0"
    } else if d == 1 {
        "1"
    } else if d == 2 {
        "2"
    } else if d == 3 {
        "3"
    } else if d == 4 {
        "4"
    } else if d == 5 {
        "5"
    } else if d == 6 {
        "6"
    } else if d == 7 {
        "7"
    } else if d == 8 {
        "8"
    } else {
        "9"
    };
    assert(r@ =~= seq![digit_char(d as int)]);
    r
}

/// Appends the decimal numeral of `n` to `out`.
pub fn append_digits(out: &mut String, n: u64)
    ensures
        final(out)@ == old(out)@ + digits_of(n as nat),
    decreases n,
{
    if n >= 10 {
        append_digits(out, n / 10);
    }
    let ghost before = out@;
    out.append(digit_text(n % 10));
    proof {
        if n >= 10 {
            assert(out@ =~= old(out)@ + (digits_of((n / 10) as nat) + seq![
                digit_char((n % 10) as int),
            ]));
        }
    }
}

/// Appends the decimal numeral of `i` to `out`.
pub fn append_int(out: &mut String, i: i64)
    ensures
        final(out)@ == old(out)@ + int_text(i as int),
{
    if i < 0 {
        proof {
            reveal_strlit("-");
        }
        out.append("-");
        let magnitude: u64 = (-(i + 1)) as u64 + 1;
        append_digits(out, magnitude);
        assert(out@ =~= old(out)@ + (seq!['-'] + digits_of((-i) as nat)));
    } else {
        append_digits(out, i as u64);
    }
}

/// Reads the numeral `s[lo, hi)`; `None` when it is larger than `limit`.
fn parse_magnitude(s: &Vec<char>, lo: usize, hi: usize, limit: i64) -> (r: Option<i64>)
    requires
        all_in(s@, CharClass::Digit, lo as int, hi as int),
        0 <= limit <= 0x1_0000_0000,
    ensures
        match r {
            Some(v) => v == decimal_value(s@.subrange(lo as int, hi as int)) && 0 <= v <= limit,
            None => decimal_value(s@.subrange(lo as int, hi as int)) > limit,
        },
{
    let mut acc: i64 = 0;
    let mut k: usize = lo;
    assert(s@.subrange(lo as int, lo as int).len() == 0);
    while k < hi
        invariant
            lo <= k <= hi <= s.len(),
            all_in(s@, CharClass::Digit, lo as int, hi as int),
            0 <= acc <= limit <= 0x1_0000_0000,
            acc == decimal_value(s@.subrange(lo as int, k as int)),
        decreases hi - k,
    {
        let c = s[k];
        assert(is_digit(s@[k as int]));
        let d: i64 = (c as u32 - '0' as u32) as i64;
        proof {
            assert(s@.subrange(lo as int, k + 1).drop_last() =~= s@.subrange(lo as int, k as int));
            assert(s@.subrange(lo as int, k + 1).last() == c);
            assert(decimal_value(s@.subrange(lo as int, k + 1)) == acc * 10 + d);
            lemma_decimal_prefix(s@, lo as int, k + 1, hi as int);
        }
        let next = acc * 10 + d;
        if next > limit {
            return None;
        }
        acc = next;
        k = k + 1;
    }
    Some(acc)
}

/// Reads `text` as an `i32`: an optional sign and one or more digits.
pub fn read_i32(text: &str) -> (r: Option<i32>)
    ensures
        match r {
            Some(v) => i32_value(text@) == Some(v as int),
            None => i32_value(text@) is None,
        },
{
    let s = chars_of(text);
    assert(s@.subrange(0, s.len() as int) =~= s@);
    parse_i32(&s, 0, s.len())
}

/// Reads `s[lo, hi)` as an `i32`: an optional sign and one or more digits.
pub(crate) fn parse_i32(s: &Vec<char>, lo: usize, hi: usize) -> (r: Option<i32>)
    requires
        lo <= hi <= s.len(),
    ensures
        match r {
            Some(v) => i32_value(s@.subrange(lo as int, hi as int)) == Some(v as int),
            None => i32_value(s@.subrange(lo as int, hi as int)) is None,
        },
{
    let ghost t = s@.subrange(lo as int, hi as int);
    if lo == hi {
        return None;
    }
    let first = s[lo];
    assert(t[0] == first);
    let signed = first == '-' || first == '+';
    let start = if signed {
        lo + 1
    } else {
        lo
    };
    let ghost digits = if signed {
        t.drop_first()
    } else {
        t
    };
    assert(digits =~= s@.subrange(start as int, hi as int));
    let stop = run_end(s, CharClass::Digit, start);
    if start == hi || stop < hi {
        proof {
            if start < hi {
                assert(digits[stop - start] == s@[stop as int]);
            }
        }
        return None;
    }
    assert(is_numeral(digits)) by {
        assert forall|k: int| 0 <= k < digits.len() implies is_digit(#[trigger] digits[k]) by {
            assert(digits[k] == s@[start + k]);
        }
    }
    if first == '-' {
        match parse_magnitude(s, start, hi, 0x8000_0000) {
            Some(v) => Some((-v) as i32),
            None => None,
        }
    } else {
        match parse_magnitude(s, start, hi, 0x7fff_ffff) {
            Some(v) => Some(v as i32),
            None => None,
        }
    }
}

} // verus!
