//! The commands that the facade sends to the persistence loop.

use vstd::prelude::*;

verus! {

/// A command for the persistence loop. Where a caller waits for the command
/// to be carried out, `done` is the ticket by which the loop's owner wakes it.
#[derive(Debug)]
#[allow(inconsistent_fields)]
pub enum Command {
    /// Write what is pending, make it durable and end the loop.
    Stop,
    /// Write a snapshot of the store to the file `filename`.
    Dump { filename: String, done: u64 },
    /// Compact the log.
    Compress { done: Option<u64> },
}

/// A command as contracts see it.
#[allow(inconsistent_fields)]
pub enum CommandView {
    Stop,
    Dump { filename: Seq<char>, done: u64 },
    Compress { done: Option<u64> },
}

impl View for Command {
    type V = CommandView;

    open spec fn view(&self) -> CommandView {
        match self {
            Command::Stop => CommandView::Stop,
            Command::Dump { filename, done } => CommandView::Dump { filename: filename@, done: *done },
            Command::Compress { done } => CommandView::Compress { done: *done },
        }
    }
}

/// What ended a wait on the command channel.
#[derive(Debug)]
pub enum Wake {
    /// A command arrived.
    Received(Command),
    /// Every sender is gone.
    Closed,
    /// The idle time passed without a command.
    TimedOut,
}

} // verus!
