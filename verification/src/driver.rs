//! The real-time audio stream driver: what one host callback does.
//!
//! Each callback, in order: poll the hot-swap channel once; abort if the
//! sender is gone; apply any pending program text; if paused, fill the whole
//! request with silence and touch nothing else; otherwise reassemble the
//! engine's blocks into the requested buffer and mirror every delivered
//! sample into the monitoring rings.
//!
//! `plan_callback` makes those decisions; `handle_request` moves the
//! samples.  The engine call itself (producing a block) happens between the
//! two, outside this library.

use vstd::prelude::*;
use vstd::utf8::{decode_utf8, valid_utf8};
use crate::hotswap::PollOutcome;
use crate::monitor::MonitorRing;
use crate::reassembly::{flatten_left, flatten_right, interleaved_slice, Reassembler, StereoBlock};
use crate::recent_lines::line_to_string;

verus! {

/// What the engine reported alongside one produced block.  A diagnostic is
/// advisory: the block is consumed and production goes on either way.
pub enum EngineDiagnostic {
    /// The report's flag byte was clear: nothing to say.
    Quiet,
    /// The report carried this text.
    Message(String),
    /// The report was flagged but its bytes were not valid text.
    Undecodable,
}

/// Read an engine production's diagnostic report: the first byte is a flag,
/// the rest is the message.  A clear flag (or an empty report) means quiet;
/// a set flag carries the decoded text, or `Undecodable` when the bytes are
/// not valid text.
pub fn engine_diagnostic(raw: &[u8]) -> (d: EngineDiagnostic)
    ensures
        (raw@.len() == 0 || raw@[0] == 0) ==> d == EngineDiagnostic::Quiet,
        raw@.len() > 0 && raw@[0] != 0 && valid_utf8(raw@.drop_first()) ==> (d matches EngineDiagnostic::Message(text) && text@ == decode_utf8(raw@.drop_first())),
        raw@.len() > 0 && raw@[0] != 0 && !valid_utf8(raw@.drop_first()) ==> d == EngineDiagnostic::Undecodable,
{
    if raw.len() == 0 || raw[0] == 0 {
        return EngineDiagnostic::Quiet;
    }
    let mut msg: Vec<u8> = Vec::new();
    let mut i: usize = 1;
    while i < raw.len()
        invariant
            1 <= i <= raw@.len(),
            msg@ == raw@.subrange(1, i as int),
        decreases raw@.len() - i,
    {
        msg.push(raw[i]);
        proof {
            assert(msg@ =~= raw@.subrange(1, i + 1));
        }
        i = i + 1;
    }
    proof {
        assert(msg@ =~= raw@.drop_first());
    }
    match line_to_string(&msg) {
        Ok(text) => EngineDiagnostic::Message(text),
        Err(_) => EngineDiagnostic::Undecodable,
    }
}

/// What the callback must do for one host request.
pub enum CallbackPlan {
    /// The hot-swap sender is gone: abort the stream.
    Abort,
    /// Apply the update, if one arrived, then fill the request with silence;
    /// the carry buffer, the engine and the monitor stay untouched.
    Silence { apply: Option<String> },
    /// Apply the update, if one arrived, then pull exactly `blocks_needed`
    /// engine blocks and reassemble them into the request.
    Produce { apply: Option<String>, blocks_needed: usize },
}

/// The state the real-time thread owns across callbacks: the block
/// reassembly buffer and the two monitoring rings.
pub struct StreamDriver {
    pub reasm: Reassembler,
    pub mon_left: MonitorRing,
    pub mon_right: MonitorRing,
}

impl StreamDriver {
    /// The driver invariant: the reassembler and both rings are well formed,
    /// and each ring has recorded exactly the samples delivered to the host
    /// so far on its channel.
    pub open spec fn wf(self) -> bool {
        &&& self.reasm.wf()
        &&& self.mon_left.wf()
        &&& self.mon_right.wf()
        &&& self.mon_left.history@ == self.reasm.pulled_left@.take(self.reasm.served@ as int)
        &&& self.mon_right.history@ == self.reasm.pulled_right@.take(self.reasm.served@ as int)
    }

    /// A fresh driver: empty carry, empty monitors.
    pub fn new(block_len: usize, monitor_capacity: usize) -> (d: StreamDriver)
        requires
            0 < block_len,
            0 < monitor_capacity,
        ensures
            d.wf(),
            d.reasm.block_len == block_len,
            d.reasm.served@ == 0,
            d.mon_left.capacity() == monitor_capacity,
            d.mon_right.capacity() == monitor_capacity,
    {
        let d = StreamDriver {
            reasm: Reassembler::new(block_len),
            mon_left: MonitorRing::new(monitor_capacity),
            mon_right: MonitorRing::new(monitor_capacity),
        };
        proof {
            assert(d.reasm.pulled_left@.take(0) =~= Seq::<u32>::empty());
            assert(d.reasm.pulled_right@.take(0) =~= Seq::<u32>::empty());
        }
        d
    }

    /// Decide what this callback does, from the poll outcome and the pause
    /// flag: a lost sender aborts; a pending update is applied first in
    /// every other case, even while paused; a paused stream produces pure
    /// silence without consuming anything from the engine.
    pub fn plan_callback(&self, poll: PollOutcome, paused: bool, frames: usize) -> (p:
        CallbackPlan)
        requires
            self.wf(),
            frames <= usize::MAX - self.reasm.block_len,
        ensures
            poll is SenderGone ==> p == CallbackPlan::Abort,
            !(poll is SenderGone) && paused ==> p == (CallbackPlan::Silence {
                apply: poll.spec_update(),
            }),
            !(poll is SenderGone) && !paused ==> p == (CallbackPlan::Produce {
                apply: poll.spec_update(),
                blocks_needed: self.reasm.spec_blocks_needed(frames as int) as usize,
            }),
    {
        let apply = match poll {
            PollOutcome::SenderGone => {
                return CallbackPlan::Abort;
            },
            PollOutcome::Apply(code) => Some(code),
            PollOutcome::NoUpdate => None,
        };
        if paused {
            CallbackPlan::Silence { apply }
        } else {
            CallbackPlan::Produce { apply, blocks_needed: self.reasm.blocks_needed(frames) }
        }
    }

    /// Move the samples for one host request.  Paused: the output is all
    /// silence and the driver state is exactly what it was, so resuming
    /// continues where production left off, nothing skipped and nothing
    /// repeated.  Running: the output is the next `frames` frames of the
    /// engine stream, interleaved, and every delivered sample is mirrored
    /// into its channel's monitoring ring.
    pub fn handle_request(&mut self, paused: bool, frames: usize, blocks: &Vec<StereoBlock>) -> (out:
        Vec<u32>)
        requires
            old(self).wf(),
            frames <= usize::MAX / 2,
            frames <= usize::MAX - old(self).reasm.block_len,
            blocks@.len() == if paused {
                0int
            } else {
                old(self).reasm.spec_blocks_needed(frames as int)
            },
            forall|k: int|
                0 <= k < blocks@.len() ==> blocks@[k].wf(old(self).reasm.block_len as int),
        ensures
            final(self).wf(),
            out@.len() == 2 * frames,
            paused ==> *final(self) == *old(self),
            paused ==> forall|i: int| 0 <= i < out@.len() ==> out@[i] == 0,
            !paused ==> final(self).reasm.block_len == old(self).reasm.block_len
                && final(self).reasm.pulled_left@ == old(self).reasm.pulled_left@ + flatten_left(
                blocks@,
            ) && final(self).reasm.pulled_right@ == old(self).reasm.pulled_right@ + flatten_right(
                blocks@,
            ) && final(self).reasm.served@ == old(self).reasm.served@ + frames
                && interleaved_slice(
                out@,
                final(self).reasm.pulled_left@,
                final(self).reasm.pulled_right@,
                old(self).reasm.served@ as int,
                frames as int,
            ) && final(self).mon_left.capacity() == old(self).mon_left.capacity()
                && final(self).mon_right.capacity() == old(self).mon_right.capacity(),
    {
        if paused {
            return crate::silence(2 * frames);
        }
        let ghost orig = *self;
        let out = self.reasm.fill_request(frames, blocks);
        let ghost served0 = orig.reasm.served@ as int;
        proof {
            assert(self.reasm.pulled_left@.take(served0) =~= orig.reasm.pulled_left@.take(served0));
            assert(self.reasm.pulled_right@.take(served0) =~= orig.reasm.pulled_right@.take(
                served0,
            ));
        }

        // Mirror every delivered sample into the monitoring rings.
        let mut f: usize = 0;
        while f < frames
            invariant
                self.reasm.wf(),
                self.reasm.block_len == orig.reasm.block_len,
                self.reasm.pulled_left@ == orig.reasm.pulled_left@ + flatten_left(blocks@),
                self.reasm.pulled_right@ == orig.reasm.pulled_right@ + flatten_right(blocks@),
                self.mon_left.wf(),
                self.mon_right.wf(),
                self.mon_left.capacity() == orig.mon_left.capacity(),
                self.mon_right.capacity() == orig.mon_right.capacity(),
                f <= frames,
                frames <= usize::MAX / 2,
                served0 == orig.reasm.served@,
                out@.len() == 2 * frames,
                self.reasm.served@ == served0 + frames,
                served0 + frames <= self.reasm.pulled_left@.len(),
                self.reasm.pulled_right@.len() == self.reasm.pulled_left@.len(),
                interleaved_slice(
                    out@,
                    self.reasm.pulled_left@,
                    self.reasm.pulled_right@,
                    served0,
                    frames as int,
                ),
                self.mon_left.history@ == self.reasm.pulled_left@.take(served0 + f),
                self.mon_right.history@ == self.reasm.pulled_right@.take(served0 + f),
            decreases frames - f,
        {
            let l = out[2 * f];
            let r = out[2 * f + 1];
            proof {
                assert(out@[2 * f] == self.reasm.pulled_left@[served0 + f]);
                assert(out@[2 * f + 1] == self.reasm.pulled_right@[served0 + f]);
                assert(self.reasm.pulled_left@.take(served0 + f + 1) =~= self.reasm.pulled_left@
                    .take(served0 + f).push(self.reasm.pulled_left@[served0 + f]));
                assert(self.reasm.pulled_right@.take(served0 + f + 1) =~= self.reasm.pulled_right@
                    .take(served0 + f).push(self.reasm.pulled_right@[served0 + f]));
            }
            self.mon_left.write(l);
            self.mon_right.write(r);
            f = f + 1;
        }
        out
    }
}

} // verus!
