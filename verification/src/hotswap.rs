//! The code hot-swap channel: the watcher side hands new program text to the
//! real-time thread.  The channel keeps at most the latest pending update
//! (latest wins), never blocks the sender, and reports when the sender side
//! is gone — a fatal condition for the stream, since no further updates can
//! ever arrive.
//!
//! This is the channel's state machine; the cross-thread cell holding it is
//! plumbing around the library.

use vstd::prelude::*;

verus! {

/// What one poll of the channel tells the real-time thread.
pub enum PollOutcome {
    /// Nothing new: keep the current program.
    NoUpdate,
    /// New program text arrived; apply it before producing any block.
    Apply(String),
    /// The sender side is gone: the stream must abort.
    SenderGone,
}

impl PollOutcome {
    /// The program text this outcome carries, if any.
    pub open spec fn spec_update(self) -> Option<String> {
        match self {
            PollOutcome::Apply(code) => Some(code),
            _ => None,
        }
    }
}

/// The hot-swap channel state: the latest not-yet-applied program text, and
/// whether the sending side still exists.
pub struct CodeChannel {
    /// The most recent update not yet seen by the real-time thread.
    pub pending: Option<String>,
    /// Whether the sending (watcher/control) side still exists.
    pub sender_alive: bool,
}

impl CodeChannel {
    /// The channel after a send: the new text replaces whatever was pending.
    pub open spec fn spec_send(self, code: String) -> CodeChannel {
        CodeChannel { pending: Some(code), sender_alive: self.sender_alive }
    }

    /// The channel after a poll: nothing left pending.
    pub open spec fn spec_polled(self) -> CodeChannel {
        CodeChannel { pending: None, sender_alive: self.sender_alive }
    }

    /// What a poll returns: the pending update if there is one, otherwise
    /// whether the sender is still there.
    pub open spec fn spec_poll_outcome(self) -> PollOutcome {
        if self.pending is Some {
            PollOutcome::Apply(self.pending->0)
        } else if self.sender_alive {
            PollOutcome::NoUpdate
        } else {
            PollOutcome::SenderGone
        }
    }

    /// A fresh channel: nothing pending, sender present.
    pub fn new() -> (c: CodeChannel)
        ensures
            c.pending is None,
            c.sender_alive,
    {
        CodeChannel { pending: None, sender_alive: true }
    }

    /// Deliver new program text.  Latest wins: an update that was still
    /// pending is replaced, never queued behind.  Never blocks.
    pub fn send(&mut self, code: String)
        requires
            old(self).sender_alive,
        ensures
            *final(self) == old(self).spec_send(code),
    {
        self.pending = Some(code);
    }

    /// The sending side goes away.
    pub fn disconnect(&mut self)
        ensures
            final(self).pending == old(self).pending,
            !final(self).sender_alive,
    {
        self.sender_alive = false;
    }

    /// The real-time thread's one non-blocking poll per callback.  Pending
    /// text is taken (and will not be seen twice); with nothing pending the
    /// outcome says whether the sender is still there.
    pub fn poll(&mut self) -> (o: PollOutcome)
        ensures
            o == old(self).spec_poll_outcome(),
            *final(self) == old(self).spec_polled(),
    {
        match self.pending.take() {
            Some(code) => PollOutcome::Apply(code),
            None => {
                if self.sender_alive {
                    PollOutcome::NoUpdate
                } else {
                    PollOutcome::SenderGone
                }
            },
        }
    }
}

/// Law: when two updates are sent between two consecutive polls, the poll
/// observes the second (latest) one; the overwritten first update is never
/// applied.
pub proof fn lemma_latest_update_wins(c: CodeChannel, first: String, second: String)
    ensures
        c.spec_send(first).spec_send(second).spec_poll_outcome() == PollOutcome::Apply(second),
        !(c.spec_send(first).spec_send(second).spec_polled().spec_poll_outcome() is Apply),
{
}

} // verus!
