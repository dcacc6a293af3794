//! Progress records, the snapshot that collects one record per track, and the
//! parser that reads a record from a line of console output.

use vstd::prelude::*;
use vstd::string::{StrSliceExecFns, StringExecFns};
use crate::grammar::{
    fits, is_progress_line, lemma_bounds, lemma_selected_unique, selected, Layout, Range,
};
use crate::matcher::{find_layout, Span, Spans};
use crate::shape::{is_reading, lemma_reading_shape};
use crate::text::{chars_of, decimal_value, parse_decimal, trim_range, trimmed};
use crate::track::{classify_chars, kind_of, lemma_progress_line_has_kind, StreamType};

verus! {

/// What a progress record holds, as plain values.
pub struct ProgressRecord {
    pub current: int,
    pub total: int,
    pub percentage: Seq<char>,
    pub downloaded: Seq<char>,
    pub total_size: Seq<char>,
    pub speed: Seq<char>,
    pub eta: Seq<char>,
}

/// The progress of one track, as one line of console output reports it.
#[derive(Debug)]
pub struct ProgressInfo {
    /// Segments done.
    pub current: i32,
    /// Segments in all.
    pub total: i32,
    /// The percentage as the line writes it: a decimal numeral, digits with
    /// at most one full stop behind the first of them.
    pub percentage: String,
    /// Bytes fetched so far, as the line writes them, or a placeholder.
    pub downloaded: String,
    /// Never filled from a progress line; kept for another source.
    pub total_size: String,
    /// The rate, as the line writes it, or a placeholder.
    pub speed: String,
    /// The time left, `HH:MM:SS` or `--:--:--`.
    pub eta: String,
}

impl View for ProgressInfo {
    type V = ProgressRecord;

    open spec fn view(&self) -> ProgressRecord {
        ProgressRecord {
            current: self.current as int,
            total: self.total as int,
            percentage: self.percentage@,
            downloaded: self.downloaded@,
            total_size: self.total_size@,
            speed: self.speed@,
            eta: self.eta@,
        }
    }
}

impl ProgressRecord {
    /// The record of a track of which nothing has been reported yet.
    pub open spec fn empty() -> ProgressRecord {
        ProgressRecord {
            current: 0,
            total: 0,
            percentage: seq!['0'],
            downloaded: Seq::empty(),
            total_size: Seq::empty(),
            speed: Seq::empty(),
            eta: Seq::empty(),
        }
    }
}

impl Clone for ProgressInfo {
    fn clone(&self) -> (r: Self)
        ensures
            r == *self,
    {
        ProgressInfo {
            current: self.current,
            total: self.total,
            percentage: self.percentage.clone(),
            downloaded: self.downloaded.clone(),
            total_size: self.total_size.clone(),
            speed: self.speed.clone(),
            eta: self.eta.clone(),
        }
    }
}

impl Default for ProgressInfo {
    fn default() -> (r: Self)
        ensures
            r@ == ProgressRecord::empty(),
    {
        proof {
            reveal_strlit("0");
        }
        let r = ProgressInfo {
            current: 0,
            total: 0,
            percentage: "0".to_owned(),
            downloaded: String::new(),
            total_size: String::new(),
            speed: String::new(),
            eta: String::new(),
        };
        assert(r.percentage@ =~= seq!['0']);
        r
    }
}

/// Why a line gave no progress record.
#[derive(Clone, Copy, Debug, PartialEq, Eq, Structural)]
pub enum ParseError {
    /// The line is no progress line.
    NoMatch,
    /// The count of segments done does not fit an `i32`.
    InvalidCurrent,
    /// The count of all segments does not fit an `i32`.
    InvalidTotal,
}

impl ParseError {
    /// What the error says of `line`, in words.
    pub open spec fn text(self, line: Seq<char>) -> Seq<char> {
        match self {
            ParseError::NoMatch => "Failed to match progress pattern in line: "@ + line,
            ParseError::InvalidCurrent =>
                "Failed to parse current: number too large to fit in target type"@,
            ParseError::InvalidTotal =>
                "Failed to parse total: number too large to fit in target type"@,
        }
    }

    /// What the error says of the line that it came from, in words.
    pub fn message(&self, line: &str) -> (r: String)
        ensures
            r@ == self.text(line@),
    {
        match self {
            ParseError::NoMatch => {
                let mut r = "Failed to match progress pattern in line: ".to_owned();
                r.append(line);
                r
            },
            ParseError::InvalidCurrent => {
                "Failed to parse current: number too large to fit in target type".to_owned()
            },
            ParseError::InvalidTotal => {
                "Failed to parse total: number too large to fit in target type".to_owned()
            },
        }
    }
}

/// The characters of `s` in the range `r`.
pub open spec fn text_of(s: Seq<char>, r: Range) -> Seq<char> {
    s.subrange(r.lo, r.hi)
}

/// The record that a line gives when it is read as `l` says.
pub open spec fn record_of(s: Seq<char>, l: Layout) -> ProgressRecord {
    ProgressRecord {
        current: decimal_value(text_of(s, l.current)),
        total: decimal_value(text_of(s, l.total)),
        percentage: text_of(s, l.percent),
        downloaded: trimmed(text_of(s, l.size)),
        total_size: Seq::empty(),
        speed: trimmed(text_of(s, l.speed)),
        eta: trimmed(text_of(s, l.eta)),
    }
}

/// What a line of console output gives when it is read as `l` says: the
/// track and the record, or the counter that is too large.
pub open spec fn outcome_of(s: Seq<char>, l: Layout) -> Result<
    (StreamType, ProgressRecord),
    ParseError,
> {
    if decimal_value(text_of(s, l.current)) > i32::MAX {
        Err(ParseError::InvalidCurrent)
    } else if decimal_value(text_of(s, l.total)) > i32::MAX {
        Err(ParseError::InvalidTotal)
    } else {
        Ok((kind_of(s).unwrap(), record_of(s, l)))
    }
}

/// What a line of console output gives: `NoMatch` when it is no progress line,
/// else what its selected reading gives.
pub open spec fn line_outcome(s: Seq<char>) -> Result<(StreamType, ProgressRecord), ParseError> {
    if is_progress_line(s) {
        outcome_of(s, choose|l: Layout| selected(s, l))
    } else {
        Err(ParseError::NoMatch)
    }
}

/// The trimmed text of `line` in the range `span`, as a string of its own.
fn trimmed_text(line: &str, s: &Vec<char>, span: Span) -> (r: String)
    requires
        s@ == line@,
        span.lo <= span.hi <= s.len(),
    ensures
        r@ == trimmed(text_of(line@, span@)),
{
    let (lo, hi) = trim_range(s, span.lo, span.hi);
    line.substring_char(lo, hi).to_owned()
}

/// The record that the reading `m` of `line` gives, or the counter that is too
/// large.
fn read_record(line: &str, s: &Vec<char>, m: Spans) -> (r: Result<ProgressInfo, ParseError>)
    requires
        s@ == line@,
        fits(line@, m@),
        m.eta.hi <= s.len(),
    ensures
        match r {
            Ok(info) => {
                &&& decimal_value(text_of(line@, m@.current)) <= i32::MAX
                &&& decimal_value(text_of(line@, m@.total)) <= i32::MAX
                &&& info@ == record_of(line@, m@)
            },
            Err(e) => outcome_of(line@, m@) == Err::<(StreamType, ProgressRecord), _>(e),
        },
{
    proof {
        lemma_bounds(line@, m@);
    }
    let current = match parse_decimal(s, m.current.lo, m.current.hi) {
        None => {
            return Err(ParseError::InvalidCurrent);
        },
        Some(v) => v,
    };
    let total = match parse_decimal(s, m.total.lo, m.total.hi) {
        None => {
            return Err(ParseError::InvalidTotal);
        },
        Some(v) => v,
    };
    let percentage = line.substring_char(m.percent.lo, m.percent.hi).to_owned();
    let downloaded = trimmed_text(line, s, m.size);
    let speed = trimmed_text(line, s, m.speed);
    let eta = trimmed_text(line, s, m.eta);
    Ok(ProgressInfo { current, total, percentage, downloaded, total_size: String::new(), speed, eta })
}

/// Reads the progress record of a line of console output, and the track that
/// the line speaks of.
pub fn parse_progress_line(line: &str) -> (r: Result<(StreamType, ProgressInfo), ParseError>)
    ensures
        match r {
            Ok((kind, info)) => line_outcome(line@) == Ok::<_, ParseError>((kind, info@)),
            Err(e) => line_outcome(line@) == Err::<(StreamType, ProgressRecord), _>(e),
        },
        is_progress_line(line@) ==> kind_of(line@) is Some,
        !is_progress_line(line@) ==> r == Err::<(StreamType, ProgressInfo), _>(ParseError::NoMatch),
        r matches Ok((_, info)) ==> is_reading(info@),
{
    let s = chars_of(line);
    proof {
        if is_progress_line(line@) {
            lemma_progress_line_has_kind(line@);
        }
    }
    // a line without a track marker is no progress line
    let kind = match classify_chars(&s) {
        None => {
            return Err(ParseError::NoMatch);
        },
        Some(kind) => kind,
    };
    let m = match find_layout(&s) {
        None => {
            return Err(ParseError::NoMatch);
        },
        Some(m) => m,
    };
    proof {
        lemma_selected_unique(line@, m@, choose|l: Layout| selected(line@, l));
    }
    match read_record(line, &s, m) {
        Ok(info) => {
            proof {
                lemma_reading_shape(line@, m@);
            }
            Ok((kind, info))
        },
        Err(e) => Err(e),
    }
}

} // verus!
