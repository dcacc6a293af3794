//! Progress telemetry for a supervised media-segment downloader.
//!
//! The downloader fetches the video, audio and subtitle track of a stream
//! side by side and reports on each with lines of console output. This
//! library turns these lines into records, keeps the latest record of each
//! track, and decides what a program that runs the downloader tells its user
//! interface, up to the one report of how the run ended. It also builds the
//! argument lists that the downloader is started with and reads the list of
//! streams that it prints.
//!
//! The library does no input or output and starts no process: a program
//! around it reads the pipes of the downloader and hands over what it read.
//!
//! - [`track`]: the three tracks and the classifier of lines.
//! - [`grammar`]: the grammar of a progress line.
//! - [`matcher`]: the matcher for the grammar.
//! - [`canonical`]: lines as a writer sets them, and that they are read back.
//! - [`progress`]: progress records and the parser of progress lines.
//! - [`shape`]: what a record looks like that was read from a line.
//! - [`aggregate`]: the snapshot of the three tracks.
//! - [`supervisor`]: events, telemetry and the supervisor of a run.
//! - [`binaries`]: the names of the programs that a download needs.
//! - [`args`]: the argument lists of the downloader.
//! - [`streams`]: the list of streams that the downloader prints.
//! - [`text`], [`split`], [`decimal`]: characters, pieces and numerals.

pub mod aggregate;
pub mod args;
pub mod binaries;
pub mod canonical;
pub mod decimal;
mod feasible;
pub mod grammar;
pub mod matcher;
pub mod progress;
pub mod shape;
pub mod split;
pub mod streams;
pub mod supervisor;
pub mod text;
pub mod track;
