//! What the event loop decides from what reading its sources gives: whether
//! to read a source again, and when to stop, to reload or to terminate.

use vstd::prelude::*;
use crate::protocol::Command;

verus! {

/// Why the event loop stopped.
#[derive(Clone, Copy, Debug, PartialEq, Eq, Structural)]
pub enum EventLoopResult {
    Reload,
    Term,
}

/// What reading an event of a source gave: go on reading it, a new source
/// to register, nothing more to read for now, or a request to reload or
/// to terminate.
#[derive(Clone, Copy, Debug, PartialEq, Eq, Structural)]
pub enum Processing {
    Continue,
    Register,
    Done,
    Reload,
    Term,
}

/// The requests to reload and to terminate seen during one poll.
pub struct LoopFlags {
    pub reload: bool,
    pub term: bool,
}

impl LoopFlags {
    /// No request yet.
    pub fn new() -> (r: LoopFlags)
        ensures
            !r.reload,
            !r.term,
    {
        LoopFlags { reload: false, term: false }
    }

    /// Takes what reading a source gave; the source is read again unless
    /// it has nothing more for now.
    pub fn take(&mut self, processing: Processing) -> (again: bool)
        ensures
            again == !(processing is Done),
            final(self).reload == (old(self).reload || processing is Reload),
            final(self).term == (old(self).term || processing is Term),
    {
        match processing {
            Processing::Done => false,
            Processing::Reload => {
                self.reload = true;
                true
            },
            Processing::Term => {
                self.term = true;
                true
            },
            _ => true,
        }
    }

    /// How the loop ends after the poll: terminating wins over reloading;
    /// with neither, it polls again.
    pub fn result(&self) -> (r: Option<EventLoopResult>)
        ensures
            r == (if self.term {
                Some(EventLoopResult::Term)
            } else if self.reload {
                Some(EventLoopResult::Reload)
            } else {
                None
            }),
    {
        if self.term {
            Some(EventLoopResult::Term)
        } else if self.reload {
            Some(EventLoopResult::Reload)
        } else {
            None
        }
    }
}

/// What a command read from a client asks of the loop itself: reloading
/// and quitting stop it; the others are the daemon's to answer.
pub fn command_processing(command: &Command) -> (r: Option<Processing>)
    ensures
        r == match command {
            Command::Reload => Some(Processing::Reload),
            Command::Quit => Some(Processing::Term),
            _ => None::<Processing>,
        },
{
    match command {
        Command::Reload => Some(Processing::Reload),
        Command::Quit => Some(Processing::Term),
        _ => None,
    }
}

} // verus!
