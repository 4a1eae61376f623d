//! Handles and the events that the sending side reports.

use vstd::prelude::*;

verus! {

/// Identifies an enqueued command.
#[derive(Clone, Copy, Debug, PartialEq, Eq, Hash, Structural)]
pub struct CommandHandle(pub u64);

/// What the sending side reports to its user.
#[derive(Clone, Copy, Debug, PartialEq, Eq, Structural)]
pub enum ClientSendEvent {
    /// The server accepts the body of a streamed `APPEND`: chunks may follow.
    AppendReady { handle: CommandHandle },
    /// A chunk of the body was sent; `written` counts all body bytes so far.
    AppendChunkSent { handle: CommandHandle, written: u64 },
    /// The whole `APPEND` command was sent.
    AppendSent { handle: CommandHandle },
}

/// The outcome of telling a sending state that its output was written.
#[allow(inconsistent_fields)]
#[derive(Debug)]
pub enum FinishSendingResult<S> {
    /// The command is not done: the state goes on, possibly with an event.
    Uncompleted { state: S, event: Option<ClientSendEvent> },
    /// The command was sent completely.
    Completed { event: ClientSendEvent },
}

impl<S: View> View for FinishSendingResult<S> {
    type V = FinishSendingResult<S::V>;

    open spec fn view(&self) -> FinishSendingResult<S::V> {
        match self {
            FinishSendingResult::Uncompleted { state, event } => FinishSendingResult::Uncompleted {
                state: state@,
                event: *event,
            },
            FinishSendingResult::Completed { event } => FinishSendingResult::Completed {
                event: *event,
            },
        }
    }
}

} // verus!
