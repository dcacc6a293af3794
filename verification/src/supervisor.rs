//! The decisions of the process supervisor.
//!
//! A program that runs the downloader reads its two pipes and waits for it to
//! end; each line that it reads, and the end of the process, is an event. The
//! supervisor takes the events one at a time and says, for each, what is to be
//! told to the telemetry sink. It keeps the progress snapshot, and it closes
//! when the process has ended: whatever comes after that is dropped, so that
//! the report of the end is the last thing the sink hears.

use vstd::prelude::*;
use crate::aggregate::{DownloadProgress, ProgressSnapshot};
use crate::progress::{line_outcome, parse_progress_line, ProgressRecord};
use crate::shape::{is_reading, lemma_outcome_shape};
use crate::track::StreamType;

verus! {

/// How a supervised run ended, as plain values.
pub enum Outcome {
    Succeeded(int),
    FailedWithCode(int),
    FailedWithoutCode(Seq<char>),
}

/// Why a run failed.
#[derive(Debug)]
pub enum Failure {
    /// The process ended with this exit code, which is not zero.
    Code(i32),
    /// The process ended without an exit code; the text says how.
    Signal(String),
}

/// How a supervised run ended.
#[derive(Debug)]
pub enum ProcessOutcome {
    /// The process ended with the exit code of success.
    Succeeded(i32),
    Failed(Failure),
}

impl View for ProcessOutcome {
    type V = Outcome;

    open spec fn view(&self) -> Outcome {
        match self {
            ProcessOutcome::Succeeded(code) => Outcome::Succeeded(*code as int),
            ProcessOutcome::Failed(Failure::Code(code)) => Outcome::FailedWithCode(*code as int),
            ProcessOutcome::Failed(Failure::Signal(text)) => Outcome::FailedWithoutCode(text@),
        }
    }
}

/// The outcome that an exit status stands for: success for the exit code
/// zero, failure for any other code, and failure with the description where
/// the process left no code.
pub open spec fn outcome_of_exit(code: Option<int>, description: Seq<char>) -> Outcome {
    match code {
        Some(c) => if c == 0 {
            Outcome::Succeeded(0)
        } else {
            Outcome::FailedWithCode(c)
        },
        None => Outcome::FailedWithoutCode(description),
    }
}

/// Something that happened to the supervised process, as plain values.
pub enum Event {
    Stdout(Seq<char>),
    Stderr(Seq<char>),
    Exited(Option<int>, Seq<char>),
}

/// Something that happened to the supervised process.
#[derive(Debug)]
pub enum ChildEvent {
    /// A line read from the standard output of the process.
    Stdout(String),
    /// A line read from its standard error.
    Stderr(String),
    /// The process has ended, with this exit code if it left one, and this
    /// description of its exit status.
    Exited(Option<i32>, String),
}

impl View for ChildEvent {
    type V = Event;

    open spec fn view(&self) -> Event {
        match self {
            ChildEvent::Stdout(line) => Event::Stdout(line@),
            ChildEvent::Stderr(line) => Event::Stderr(line@),
            ChildEvent::Exited(code, description) => Event::Exited(
                match code {
                    Some(c) => Some(*c as int),
                    None => None,
                },
                description@,
            ),
        }
    }
}

/// What is told to the telemetry sink, as plain values.
pub enum Telemetry {
    ProgressUpdated(ProgressSnapshot),
    Diagnostic(Seq<char>),
    RunCompleted(Outcome),
}

/// What is told to the telemetry sink.
#[derive(Debug)]
pub enum TelemetryEvent {
    /// The snapshot after an update.
    ProgressUpdated(DownloadProgress),
    /// A line of the standard error of the process, as it was read.
    Diagnostic(String),
    /// The run is over.
    RunCompleted(ProcessOutcome),
}

impl View for TelemetryEvent {
    type V = Telemetry;

    open spec fn view(&self) -> Telemetry {
        match self {
            TelemetryEvent::ProgressUpdated(progress) => Telemetry::ProgressUpdated(progress@),
            TelemetryEvent::Diagnostic(line) => Telemetry::Diagnostic(line@),
            TelemetryEvent::RunCompleted(outcome) => Telemetry::RunCompleted(outcome@),
        }
    }
}

/// The view of what a step tells the sink, if it tells anything.
pub open spec fn told(r: Option<TelemetryEvent>) -> Option<Telemetry> {
    match r {
        Some(t) => Some(t@),
        None => None,
    }
}

/// The state of a supervisor, as plain values.
pub struct SupervisorState {
    pub snapshot: ProgressSnapshot,
    /// The end of the process has been reported.
    pub closed: bool,
}

impl SupervisorState {
    /// The state in which a run starts.
    pub open spec fn start() -> SupervisorState {
        SupervisorState { snapshot: ProgressSnapshot::empty(), closed: false }
    }

    /// The state after an event.
    ///
    /// A line of the standard output that reads as a progress line updates
    /// the record of its track; the end of the process closes the
    /// supervisor; nothing else changes the state, and nothing changes it
    /// once it is closed.
    pub open spec fn after(self, event: Event) -> SupervisorState {
        if self.closed {
            self
        } else {
            match event {
                Event::Stdout(line) => match line_outcome(line) {
                    Ok((kind, record)) => SupervisorState {
                        snapshot: self.snapshot.with(kind, record),
                        ..self
                    },
                    Err(_) => self,
                },
                Event::Stderr(_) => self,
                Event::Exited(_, _) => SupervisorState { closed: true, ..self },
            }
        }
    }

    /// What an event makes the supervisor tell the sink.
    ///
    /// A line of the standard output that reads as a progress line: the
    /// updated snapshot. Any other line of the standard output: nothing. A
    /// line of the standard error: the line. The end of the process: the
    /// outcome. Once the supervisor is closed: nothing.
    pub open spec fn says(self, event: Event) -> Option<Telemetry> {
        if self.closed {
            None
        } else {
            match event {
                Event::Stdout(line) => match line_outcome(line) {
                    Ok((kind, record)) => Some(
                        Telemetry::ProgressUpdated(self.snapshot.with(kind, record)),
                    ),
                    Err(_) => None,
                },
                Event::Stderr(line) => Some(Telemetry::Diagnostic(line)),
                Event::Exited(code, description) => Some(
                    Telemetry::RunCompleted(outcome_of_exit(code, description)),
                ),
            }
        }
    }
}

/// All that a supervisor in state `state` tells the sink while it takes
/// `events` one after the other.
pub open spec fn transcript(state: SupervisorState, events: Seq<Event>) -> Seq<Telemetry>
    decreases events.len(),
{
    if events.len() == 0 {
        Seq::empty()
    } else {
        let rest = transcript(state.after(events[0]), events.drop_first());
        match state.says(events[0]) {
            Some(t) => seq![t] + rest,
            None => rest,
        }
    }
}

/// The outcome that an exit status stands for.
pub fn outcome_of(code: Option<i32>, description: String) -> (r: ProcessOutcome)
    ensures
        r@ == outcome_of_exit(
            match code {
                Some(c) => Some(c as int),
                None => None,
            },
            description@,
        ),
{
    match code {
        Some(c) => {
            if c == 0 {
                ProcessOutcome::Succeeded(0)
            } else {
                ProcessOutcome::Failed(Failure::Code(c))
            }
        },
        None => ProcessOutcome::Failed(Failure::Signal(description)),
    }
}

/// The supervisor of one run of the downloader.
#[derive(Debug)]
pub struct Supervisor {
    progress: DownloadProgress,
    closed: bool,
}

impl View for Supervisor {
    type V = SupervisorState;

    closed spec fn view(&self) -> SupervisorState {
        SupervisorState { snapshot: self.progress@, closed: self.closed }
    }
}

impl Supervisor {
    /// A supervisor for a run that is about to start.
    pub fn new() -> (r: Supervisor)
        ensures
            r@ == SupervisorState::start(),
    {
        Supervisor { progress: DownloadProgress::default(), closed: false }
    }

    /// Whether the end of the process has been reported.
    pub fn is_closed(&self) -> (r: bool)
        ensures
            r == self@.closed,
    {
        self.closed
    }

    /// A copy of the snapshot as it stands.
    pub fn current(&self) -> (r: DownloadProgress)
        ensures
            r@ == self@.snapshot,
    {
        self.progress.current()
    }

    /// Takes one event and returns what is to be told to the sink.
    pub fn handle(&mut self, event: ChildEvent) -> (r: Option<TelemetryEvent>)
        ensures
            final(self)@ == old(self)@.after(event@),
            told(r) == old(self)@.says(event@),
    {
        if self.closed {
            return None;
        }
        match event {
            ChildEvent::Stdout(line) => {
                match parse_progress_line(line.as_str()) {
                    Ok((kind, record)) => {
                        self.progress.apply(kind, record);
                        Some(TelemetryEvent::ProgressUpdated(self.progress.current()))
                    },
                    Err(_) => None,
                }
            },
            ChildEvent::Stderr(line) => Some(TelemetryEvent::Diagnostic(line)),
            ChildEvent::Exited(code, description) => {
                self.closed = true;
                Some(TelemetryEvent::RunCompleted(outcome_of(code, description)))
            },
        }
    }
}

/// The events of a vector, as plain values.
pub open spec fn events_of(events: Seq<ChildEvent>) -> Seq<Event> {
    Seq::new(events.len(), |i: int| events[i]@)
}

/// The telemetry of a vector, as plain values.
pub open spec fn telemetry_of(told: Seq<TelemetryEvent>) -> Seq<Telemetry> {
    Seq::new(told.len(), |i: int| told[i]@)
}

/// Runs a fresh supervisor over a recorded run and returns all that it tells
/// the sink, in order.
pub fn replay(events: Vec<ChildEvent>) -> (r: Vec<TelemetryEvent>)
    ensures
        telemetry_of(r@) == transcript(SupervisorState::start(), events_of(events@)),
{
    let ghost all = events_of(events@);
    let ghost recorded = events@;
    let mut supervisor = Supervisor::new();
    let mut out: Vec<TelemetryEvent> = Vec::new();
    assert(all.skip(0) =~= all);
    assert(telemetry_of(out@) =~= Seq::empty());
    for event in it: events
        invariant
            it.seq() == recorded,
            all == events_of(recorded),
            transcript(SupervisorState::start(), all) == telemetry_of(out@) + transcript(
                supervisor@,
                all.skip(it.index()),
            ),
    {
        let ghost before = supervisor@;
        let ghost i = it.index();
        let ghost seen = telemetry_of(out@);
        assert(all.skip(i)[0] == event@);
        assert(all.skip(i).drop_first() =~= all.skip(i + 1));
        match supervisor.handle(event) {
            Some(t) => {
                out.push(t);
                assert(telemetry_of(out@) =~= seen + seq![t@]);
                assert(seen + (seq![t@] + transcript(supervisor@, all.skip(i + 1))) =~= (seen
                    + seq![t@]) + transcript(supervisor@, all.skip(i + 1)));
            },
            None => {},
        }
    }
    assert(all.skip(all.len() as int) =~= Seq::empty());
    assert(telemetry_of(out@) + Seq::<Telemetry>::empty() =~= telemetry_of(out@));
    out
}

/// A closed supervisor tells the sink nothing more.
pub proof fn lemma_closed_is_silent(state: SupervisorState, events: Seq<Event>)
    requires
        state.closed,
    ensures
        transcript(state, events) == Seq::<Telemetry>::empty(),
    decreases events.len(),
{
    if events.len() > 0 {
        lemma_closed_is_silent(state, events.drop_first());
    }
}

/// While the process has not ended, the sink hears of no end.
pub proof fn lemma_no_exit_no_completion(state: SupervisorState, events: Seq<Event>)
    requires
        forall|i: int| 0 <= i < events.len() ==> !(#[trigger] events[i] is Exited),
    ensures
        forall|j: int|
            0 <= j < transcript(state, events).len() ==> !(#[trigger] transcript(
                state,
                events,
            )[j] is RunCompleted),
    decreases events.len(),
{
    if events.len() > 0 {
        let rest = events.drop_first();
        assert forall|i: int| 0 <= i < rest.len() implies !(#[trigger] rest[i] is Exited) by {
            assert(rest[i] == events[i + 1]);
        }
        lemma_no_exit_no_completion(state.after(events[0]), rest);
        assert(!(events[0] is Exited));
    }
}

/// Single terminal event: of a run in which the process ends, the sink hears
/// exactly one end, as the last thing it hears, and the outcome it hears is
/// that of the first report of the end.
pub proof fn lemma_single_terminal_event(state: SupervisorState, events: Seq<Event>, at: int)
    requires
        !state.closed,
        0 <= at < events.len(),
        events[at] is Exited,
        forall|i: int| 0 <= i < at ==> !(#[trigger] events[i] is Exited),
    ensures
        ({
            let told = transcript(state, events);
            &&& told.len() > 0
            &&& told.last() == Telemetry::RunCompleted(
                outcome_of_exit(events[at]->Exited_0, events[at]->Exited_1),
            )
            &&& forall|j: int| 0 <= j < told.len() - 1 ==> !(#[trigger] told[j] is RunCompleted)
        }),
    decreases events.len(),
{
    let rest = events.drop_first();
    if at == 0 {
        lemma_closed_is_silent(state.after(events[0]), rest);
        assert(transcript(state, events) =~= seq![
            Telemetry::RunCompleted(outcome_of_exit(events[0]->Exited_0, events[0]->Exited_1)),
        ]);
    } else {
        assert(!(events[0] is Exited));
        assert(rest[at - 1] == events[at]);
        assert forall|i: int| 0 <= i < at - 1 implies !(#[trigger] rest[i] is Exited) by {
            assert(rest[i] == events[i + 1]);
        }
        lemma_single_terminal_event(state.after(events[0]), rest, at - 1);
    }
}

/// Each record of the snapshot is whole: it is the record of a track of
/// which nothing has been reported, or a record as the parser reads them.
pub open spec fn whole(snapshot: ProgressSnapshot) -> bool {
    forall|kind: StreamType|
        #![trigger snapshot.slot(kind)]
        snapshot.slot(kind) == ProgressRecord::empty() || is_reading(snapshot.slot(kind))
}

/// Whatever the events, the supervisor keeps a snapshot of whole records: it
/// starts with one, and no event leaves it with a record that is half of one
/// line and half of another.
pub proof fn lemma_snapshot_stays_whole(state: SupervisorState, event: Event)
    requires
        whole(state.snapshot),
    ensures
        whole(SupervisorState::start().snapshot),
        whole(state.after(event).snapshot),
{
    let next = state.after(event).snapshot;
    assert forall|kind: StreamType|
        #![trigger next.slot(kind)]
        next.slot(kind) == ProgressRecord::empty() || is_reading(next.slot(kind)) by {
        assert(state.snapshot.slot(kind) == ProgressRecord::empty() || is_reading(
            state.snapshot.slot(kind),
        ));
        if !state.closed {
            if let Event::Stdout(line) = event {
                if let Ok((updated, record)) = line_outcome(line) {
                    lemma_outcome_shape(line);
                }
            }
        }
    }
    let first = SupervisorState::start().snapshot;
    assert forall|kind: StreamType|
        #![trigger first.slot(kind)]
        first.slot(kind) == ProgressRecord::empty() || is_reading(first.slot(kind)) by {}
}

} // verus!
