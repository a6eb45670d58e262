//! One encoder run: its life cycle and the progress records it prints.

use crate::text::{parse_u64, same_text, split_at_first, text_to_u64};
use vstd::prelude::*;

verus! {

/// What one line of the encoder's output reports.
#[derive(Debug, PartialEq, Eq)]
pub enum ProgressEvent {
    /// The encoding speed, as the encoder words it.
    Speed(String),
    /// The position reached in the output, in microseconds.
    Position(u64),
    /// A record that is not followed, or a line that is no record.
    Other,
}

/// A progress event with its text as a plain sequence.
pub enum ProgressModel {
    Speed(Seq<char>),
    Position(u64),
    Other,
}

impl View for ProgressEvent {
    type V = ProgressModel;

    open spec fn view(&self) -> ProgressModel {
        match self {
            ProgressEvent::Speed(text) => ProgressModel::Speed(text@),
            ProgressEvent::Position(at) => ProgressModel::Position(*at),
            ProgressEvent::Other => ProgressModel::Other,
        }
    }
}

/// The position that a value text gives: its number, zero where it is none.
pub open spec fn position_of(value: Seq<char>) -> u64 {
    match text_to_u64(value) {
        Some(at) => at,
        None => 0,
    }
}

/// What a record with the given key and value reports.
pub open spec fn record_event(key: Seq<char>, value: Seq<char>) -> ProgressModel {
    if key == "speed"@ {
        ProgressModel::Speed(value)
    } else if key == "out_time_ms"@ {
        ProgressModel::Position(position_of(value))
    } else {
        ProgressModel::Other
    }
}

/// What a line reports: a line with an equals sign is a record whose key
/// ends at the first such sign; any other line reports nothing.
pub open spec fn line_event(line: Seq<char>) -> ProgressModel {
    match line.index_of_first('=') {
        Some(i) => record_event(line.subrange(0, i), line.subrange(i + 1, line.len() as int)),
        None => ProgressModel::Other,
    }
}

/// Reads a record that is already split into key and value.
pub fn read_record(key: &str, value: String) -> (event: ProgressEvent)
    ensures
        event@ == record_event(key@, value@),
{
    if same_text(key, "speed") {
        ProgressEvent::Speed(value)
    } else if same_text(key, "out_time_ms") {
        match parse_u64(value.as_str()) {
            Some(at) => ProgressEvent::Position(at),
            None => ProgressEvent::Position(0),
        }
    } else {
        ProgressEvent::Other
    }
}

/// Reads one line of the encoder's output.
pub fn parse_progress_line(line: &str) -> (event: ProgressEvent)
    ensures
        event@ == line_event(line@),
{
    proof {
        line@.index_of_first_ensures('=');
    }
    match split_at_first(line, '=') {
        Some((key, value)) => read_record(key.as_str(), value),
        None => ProgressEvent::Other,
    }
}

/// The length of the progress scale for a running time: its microseconds.
pub fn progress_span(duration_secs: u64) -> (span: u64)
    requires
        duration_secs * 1_000_000 <= u64::MAX,
    ensures
        span == duration_secs * 1_000_000,
{
    duration_secs * 1000 * 1000
}

/// Where one encoder run stands.
#[derive(Copy, Clone, Debug, PartialEq, Eq, Structural)]
pub enum EncodeState {
    NotStarted,
    Running,
    Succeeded,
    /// The run failed; holds the exit code where the encoder gave one.
    Failed(Option<i32>),
}

/// What happened to the encoder process.
#[derive(Copy, Clone, Debug, PartialEq, Eq, Structural)]
pub enum EncodeEvent {
    /// The process was launched.
    Launched,
    /// The process ended; holds its exit code where it has one.
    Exited(Option<i32>),
    /// Launching the process or talking to it failed.
    IoFailed,
}

/// What the caller does next for an encoder run.
#[derive(Copy, Clone, Debug, PartialEq, Eq, Structural)]
pub enum EncodeAction {
    /// Launch the encoder; with `feed_input`, also start the writer that
    /// feeds the file's bytes to it while its output is read.
    Launch { feed_input: bool },
    /// Read the output to its end, join the writer and wait for the exit.
    Follow,
    /// Nothing is left to do.
    Rest,
}

/// The state after an event: a launch starts the run, exit code zero ends
/// it well, any other exit and any failure of the plumbing end it badly,
/// and an ended run stays as it is.
pub open spec fn next_encode_state(state: EncodeState, event: EncodeEvent) -> EncodeState {
    match (state, event) {
        (EncodeState::NotStarted, EncodeEvent::Launched) => EncodeState::Running,
        (EncodeState::NotStarted, EncodeEvent::IoFailed) => EncodeState::Failed(None),
        (EncodeState::Running, EncodeEvent::Exited(Some(code))) => if code == 0 {
            EncodeState::Succeeded
        } else {
            EncodeState::Failed(Some(code))
        },
        (EncodeState::Running, EncodeEvent::Exited(None)) => EncodeState::Failed(None),
        (EncodeState::Running, EncodeEvent::IoFailed) => EncodeState::Failed(None),
        _ => state,
    }
}

/// What to do in a state.
pub open spec fn encode_action_in(state: EncodeState, inline: bool) -> EncodeAction {
    match state {
        EncodeState::NotStarted => EncodeAction::Launch { feed_input: inline },
        EncodeState::Running => EncodeAction::Follow,
        _ => EncodeAction::Rest,
    }
}

impl EncodeState {
    /// The run has ended, well or badly.
    pub open spec fn is_final(self) -> bool {
        self is Succeeded || self is Failed
    }

    /// Tells whether the run has ended.
    pub fn has_ended(self) -> (ended: bool)
        ensures
            ended == self.is_final(),
    {
        match self {
            EncodeState::Succeeded => true,
            EncodeState::Failed(_) => true,
            _ => false,
        }
    }

    /// Takes an event into account.
    pub fn advance(self, event: EncodeEvent) -> (next: EncodeState)
        ensures
            next == next_encode_state(self, event),
    {
        match self {
            EncodeState::NotStarted => match event {
                EncodeEvent::Launched => EncodeState::Running,
                EncodeEvent::IoFailed => EncodeState::Failed(None),
                EncodeEvent::Exited(_) => self,
            },
            EncodeState::Running => match event {
                EncodeEvent::Exited(Some(code)) => if code == 0 {
                    EncodeState::Succeeded
                } else {
                    EncodeState::Failed(Some(code))
                },
                EncodeEvent::Exited(None) => EncodeState::Failed(None),
                EncodeEvent::IoFailed => EncodeState::Failed(None),
                EncodeEvent::Launched => self,
            },
            _ => self,
        }
    }

    /// What the caller does next; `inline` says that the file's bytes are
    /// held in memory for the encoder's standard input.
    pub fn action(self, inline: bool) -> (action: EncodeAction)
        ensures
            action == encode_action_in(self, inline),
    {
        match self {
            EncodeState::NotStarted => EncodeAction::Launch { feed_input: inline },
            EncodeState::Running => EncodeAction::Follow,
            _ => EncodeAction::Rest,
        }
    }
}

/// An ended run stays ended whatever happens, and a run succeeds only by
/// exit code zero from the running state.
pub proof fn lemma_encode_outcome(state: EncodeState, event: EncodeEvent)
    ensures
        state.is_final() ==> next_encode_state(state, event) == state,
        !(state is Succeeded) && next_encode_state(state, event) is Succeeded ==> state is Running
            && event == EncodeEvent::Exited(Some(0i32)),
{
}

} // verus!
