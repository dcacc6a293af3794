//! The three tracks of a download and the classifier that tells, from a line
//! of console output, which of them the line speaks of.

use vstd::prelude::*;
use crate::grammar::{fits, is_progress_line, marker_at, Layout};
use crate::text::{chars_of, is_letter, letter_is, no_newline};

verus! {

/// One of the three tracks that are downloaded side by side.
#[derive(Clone, Copy, Debug, PartialEq, Eq, Structural)]
pub enum StreamType {
    Video,
    Audio,
    Subtitle,
}

/// The three letters `a`, `b`, `c` stand somewhere in `s`, each in either case.
pub open spec fn has_word(s: Seq<char>, a: char, b: char, c: char) -> bool {
    exists|i: int|
        0 <= i && i + 3 <= s.len() && is_letter(#[trigger] s[i], a) && is_letter(s[i + 1], b)
            && is_letter(s[i + 2], c)
}

/// The track that a line speaks of: the first of `vid`, `aud`, `sub`, in this
/// order, that occurs in it in any mix of cases; `None` when none occurs.
pub open spec fn kind_of(s: Seq<char>) -> Option<StreamType> {
    if has_word(s, 'v', 'i', 'd') {
        Some(StreamType::Video)
    } else if has_word(s, 'a', 'u', 'd') {
        Some(StreamType::Audio)
    } else if has_word(s, 's', 'u', 'b') {
        Some(StreamType::Subtitle)
    } else {
        None
    }
}

fn find_word(s: &Vec<char>, a: char, b: char, c: char) -> (r: bool)
    ensures
        r == has_word(s@, a, b, c),
{
    let n = s.len();
    if n < 3 {
        return false;
    }
    let mut i: usize = 0;
    while i < n - 2
        invariant
            3 <= n == s.len(),
            i <= n - 2,
            forall|j: int|
                0 <= j < i ==> !(is_letter(#[trigger] s@[j], a) && is_letter(s@[j + 1], b)
                    && is_letter(s@[j + 2], c)),
        decreases n - i,
    {
        if letter_is(s[i], a) && letter_is(s[i + 1], b) && letter_is(s[i + 2], c) {
            return true;
        }
        i = i + 1;
    }
    false
}

/// The classifier on the characters of a line.
pub fn classify_chars(s: &Vec<char>) -> (r: Option<StreamType>)
    ensures
        r == kind_of(s@),
{
    if find_word(s, 'v', 'i', 'd') {
        Some(StreamType::Video)
    } else if find_word(s, 'a', 'u', 'd') {
        Some(StreamType::Audio)
    } else if find_word(s, 's', 'u', 'b') {
        Some(StreamType::Subtitle)
    } else {
        None
    }
}

/// Tells which track a line of console output speaks of, if any.
pub fn classify(line: &str) -> (r: Option<StreamType>)
    ensures
        r == kind_of(line@),
{
    let s = chars_of(line);
    classify_chars(&s)
}

/// A line in which a marker stands has a track.
pub proof fn lemma_marker_has_kind(s: Seq<char>, i: int)
    requires
        marker_at(s, i),
    ensures
        kind_of(s) is Some,
{
    let _ = s[i];
}

/// Every progress line has a track: the classifier never turns down a line
/// that the grammar accepts.
pub proof fn lemma_progress_line_has_kind(s: Seq<char>)
    requires
        is_progress_line(s),
    ensures
        kind_of(s) is Some,
{
    let l = choose|l: Layout| fits(s, l);
    let a = choose|a: int| #[trigger]
        marker_at(s, a) && a + 3 <= l.bar.lo <= s.len() && no_newline(s, a + 3, l.bar.lo);
    lemma_marker_has_kind(s, a);
}

} // verus!
