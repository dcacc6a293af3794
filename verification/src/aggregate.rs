//! The progress snapshot: one record for each of the three tracks.
//!
//! The snapshot is a plain value. A program that feeds it from several
//! threads keeps it behind one lock, takes the lock for each update, and
//! hands out copies made while the lock is held.

use vstd::prelude::*;
use crate::progress::{ProgressInfo, ProgressRecord};
use crate::track::StreamType;

verus! {

/// What a snapshot holds, as plain values.
pub struct ProgressSnapshot {
    pub video: ProgressRecord,
    pub audio: ProgressRecord,
    pub subtitle: ProgressRecord,
}

impl ProgressSnapshot {
    /// The snapshot before any update.
    pub open spec fn empty() -> ProgressSnapshot {
        ProgressSnapshot {
            video: ProgressRecord::empty(),
            audio: ProgressRecord::empty(),
            subtitle: ProgressRecord::empty(),
        }
    }

    /// The record of one track.
    pub open spec fn slot(self, kind: StreamType) -> ProgressRecord {
        match kind {
            StreamType::Video => self.video,
            StreamType::Audio => self.audio,
            StreamType::Subtitle => self.subtitle,
        }
    }

    /// The snapshot with the record of one track replaced.
    pub open spec fn with(self, kind: StreamType, record: ProgressRecord) -> ProgressSnapshot {
        match kind {
            StreamType::Video => ProgressSnapshot { video: record, ..self },
            StreamType::Audio => ProgressSnapshot { audio: record, ..self },
            StreamType::Subtitle => ProgressSnapshot { subtitle: record, ..self },
        }
    }
}

/// The progress of a download: the latest record of each track.
#[derive(Debug)]
pub struct DownloadProgress {
    pub video_progress: ProgressInfo,
    pub audio_progress: ProgressInfo,
    pub subtitle_progress: ProgressInfo,
}

impl View for DownloadProgress {
    type V = ProgressSnapshot;

    open spec fn view(&self) -> ProgressSnapshot {
        ProgressSnapshot {
            video: self.video_progress@,
            audio: self.audio_progress@,
            subtitle: self.subtitle_progress@,
        }
    }
}

impl Clone for DownloadProgress {
    fn clone(&self) -> (r: Self)
        ensures
            r == *self,
    {
        DownloadProgress {
            video_progress: self.video_progress.clone(),
            audio_progress: self.audio_progress.clone(),
            subtitle_progress: self.subtitle_progress.clone(),
        }
    }
}

impl Default for DownloadProgress {
    fn default() -> (r: Self)
        ensures
            r@ == ProgressSnapshot::empty(),
    {
        DownloadProgress {
            video_progress: ProgressInfo::default(),
            audio_progress: ProgressInfo::default(),
            subtitle_progress: ProgressInfo::default(),
        }
    }
}

impl DownloadProgress {
    /// Puts `record` in the place of the record of `kind`; the records of the
    /// other two tracks stay as they are.
    pub fn apply(&mut self, kind: StreamType, record: ProgressInfo)
        ensures
            final(self)@ == old(self)@.with(kind, record@),
    {
        match kind {
            StreamType::Video => {
                self.video_progress = record;
            },
            StreamType::Audio => {
                self.audio_progress = record;
            },
            StreamType::Subtitle => {
                self.subtitle_progress = record;
            },
        }
    }

    /// A copy of the whole snapshot as it stands.
    pub fn current(&self) -> (r: DownloadProgress)
        ensures
            r == *self,
    {
        self.clone()
    }

    /// The record of one track.
    pub fn slot(&self, kind: StreamType) -> (r: &ProgressInfo)
        ensures
            r@ == self@.slot(kind),
    {
        match kind {
            StreamType::Video => &self.video_progress,
            StreamType::Audio => &self.audio_progress,
            StreamType::Subtitle => &self.subtitle_progress,
        }
    }
}

/// An update is read back from the track it was made to, and from no other.
pub proof fn lemma_apply_slot(
    snapshot: ProgressSnapshot,
    kind: StreamType,
    record: ProgressRecord,
    other: StreamType,
)
    ensures
        snapshot.with(kind, record).slot(kind) == record,
        other != kind ==> snapshot.with(kind, record).slot(other) == snapshot.slot(other),
{
}

/// Updates of two different tracks give the same snapshot in either order,
/// and each is read back from its own track.
pub proof fn lemma_apply_independent(
    snapshot: ProgressSnapshot,
    first: StreamType,
    first_record: ProgressRecord,
    second: StreamType,
    second_record: ProgressRecord,
)
    requires
        first != second,
    ensures
        snapshot.with(first, first_record).with(second, second_record) == snapshot.with(
            second,
            second_record,
        ).with(first, first_record),
        snapshot.with(first, first_record).with(second, second_record).slot(first)
            == first_record,
        snapshot.with(first, first_record).with(second, second_record).slot(second)
            == second_record,
{
}

} // verus!
