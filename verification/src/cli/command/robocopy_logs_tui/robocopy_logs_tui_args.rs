//! The command that follows a robocopy log.

use crate::cli::to_args::strings_are;
use vstd::prelude::*;

verus! {

/// The arguments of the command that follows a robocopy log.
#[derive(PartialEq, Debug)]
pub struct RobocopyLogsTuiArgs {
    /// Path to the robocopy logs text file.
    pub robocopy_log_file_path: String,
    /// Avoids printing content before the current time.
    pub skip_to_present: bool,
}

/// What following a log comes to: which file is read from its start, and
/// whether what it already holds is passed over in silence.
#[derive(PartialEq, Eq, Debug)]
pub struct TailRequest {
    pub path: String,
    pub skip_to_present: bool,
}

/// Where the following of a log stands.
#[derive(Clone, Copy, PartialEq, Eq, Debug)]
pub enum TailState {
    /// Nothing was read yet; the first chunk is waited for.
    WaitingForFirstChunk,
    /// What the file already holds is taken in without waiting.
    CatchingUp,
    /// Each new chunk is waited for and its records are shown.
    Following,
}

/// What the watcher of the file reports.
#[derive(Clone, Copy, PartialEq, Eq, Debug)]
pub enum TailEvent {
    /// A chunk of the file has come.
    Chunk,
    /// No chunk is there right now.
    NothingWaiting,
}

/// What is done with the parser on an event.
#[derive(Clone, Copy, PartialEq, Eq, Debug)]
pub enum TailAction {
    /// The chunk is accepted; the parser is not asked for records yet.
    Accept,
    /// The chunk is accepted and the records it completes are shown.
    AcceptAndShow,
    /// The parser is asked for all records it has; none is shown.
    DrainUnshown,
    /// Nothing.
    Nothing,
}

/// What following a log does on `event` in the state `state`, and the
/// state it is in afterwards. With `skip_to_present`, the first chunk and
/// the chunks that are there already are accepted, and when none is left
/// their records are passed over. Else, and from then on, each chunk is
/// accepted and the records it completes are shown, so that the parser is
/// drained after every chunk whose records count.
pub open spec fn tail_step(skip_to_present: bool, state: TailState, event: TailEvent) -> (
    TailState,
    TailAction,
) {
    match (state, event) {
        (TailState::WaitingForFirstChunk, TailEvent::Chunk) => if skip_to_present {
            (TailState::CatchingUp, TailAction::Accept)
        } else {
            (TailState::Following, TailAction::AcceptAndShow)
        },
        (TailState::CatchingUp, TailEvent::Chunk) => (TailState::CatchingUp, TailAction::Accept),
        (TailState::CatchingUp, TailEvent::NothingWaiting) => (
            TailState::Following,
            TailAction::DrainUnshown,
        ),
        (TailState::Following, TailEvent::Chunk) => (
            TailState::Following,
            TailAction::AcceptAndShow,
        ),
        (_, TailEvent::NothingWaiting) => (state, TailAction::Nothing),
    }
}

impl TailState {
    /// Whether the watcher is asked without waiting: only while catching
    /// up.
    pub fn polls(&self) -> (r: bool)
        ensures
            r == (*self is CatchingUp),
    {
        match self {
            TailState::CatchingUp => true,
            _ => false,
        }
    }
}

impl TailRequest {
    /// The state in which following begins.
    pub fn start(&self) -> (r: TailState)
        ensures
            r is WaitingForFirstChunk,
    {
        TailState::WaitingForFirstChunk
    }

    /// What is done on `event` in the state `state`, and the state
    /// afterwards.
    pub fn on_event(&self, state: TailState, event: TailEvent) -> (r: (TailState, TailAction))
        ensures
            r == tail_step(self.skip_to_present, state, event),
    {
        match (state, event) {
            (TailState::WaitingForFirstChunk, TailEvent::Chunk) => if self.skip_to_present {
                (TailState::CatchingUp, TailAction::Accept)
            } else {
                (TailState::Following, TailAction::AcceptAndShow)
            },
            (TailState::CatchingUp, TailEvent::Chunk) => (TailState::CatchingUp, TailAction::Accept),
            (TailState::CatchingUp, TailEvent::NothingWaiting) => (
                TailState::Following,
                TailAction::DrainUnshown,
            ),
            (TailState::Following, TailEvent::Chunk) => (
                TailState::Following,
                TailAction::AcceptAndShow,
            ),
            (_, TailEvent::NothingWaiting) => (state, TailAction::Nothing),
        }
    }
}

impl Default for RobocopyLogsTuiArgs {
    /// The empty path, and nothing is skipped.
    fn default() -> (r: RobocopyLogsTuiArgs)
        ensures
            r.robocopy_log_file_path@ == Seq::<char>::empty(),
            !r.skip_to_present,
    {
        RobocopyLogsTuiArgs { robocopy_log_file_path: String::new(), skip_to_present: false }
    }
}

impl RobocopyLogsTuiArgs {
    /// The request that these arguments make. The file is always read from
    /// its start, so that the parser sees the header; `skip_to_present` only
    /// says whether the records found on the way are shown.
    pub fn invoke(self) -> (r: TailRequest)
        ensures
            r.path@ == self.robocopy_log_file_path@,
            r.skip_to_present == self.skip_to_present,
    {
        TailRequest { path: self.robocopy_log_file_path, skip_to_present: self.skip_to_present }
    }

    /// The arguments that give back these values: the path.
    pub fn to_args(&self) -> (r: Vec<String>)
        ensures
            strings_are(r@, seq![self.robocopy_log_file_path@]),
    {
        let mut args: Vec<String> = Vec::new();
        args.push(self.robocopy_log_file_path.clone());
        args
    }
}

} // verus!
