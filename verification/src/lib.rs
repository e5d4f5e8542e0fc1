//! Real-time audio streaming and reassembly layer for a live-coding music
//! tool: a block-based synthesis engine produces fixed-size blocks, the audio
//! host asks for arbitrarily sized buffers, and this library reconciles the
//! two without dropping or duplicating a sample.  It also provides the
//! hot-swap channel that carries new program text to the audio thread, the
//! monitoring ring buffer and load meter feeding the UI, the pause/resume
//! control state machine, and the recent-log-lines buffer shown in the
//! console panel.
//!
//! Samples are carried as opaque 32-bit words (the audio backend's sample
//! payload); the reassembly logic copies them without interpreting them, and
//! silence is the zero word.

use vstd::prelude::*;

pub mod control;
pub mod driver;
pub mod findwav;
pub mod hotswap;
pub mod monitor;
pub mod rb;
pub mod reassembly;
pub mod recent_lines;
pub mod samples;
pub mod watcher;

verus! {

/// Number of frames in one engine-produced block.
pub const BLOCK_SIZE: usize = 128;

/// Capacity of the monitoring ring buffer, in samples per channel.
pub const RB_SIZE: usize = 200;

/// A buffer of `len` silent samples (silence is the zero word).
pub fn silence(len: usize) -> (v: Vec<u32>)
    ensures
        v@.len() == len,
        forall|i: int| 0 <= i < len ==> v@[i] == 0,
{
    let mut v: Vec<u32> = Vec::new();
    let mut i: usize = 0;
    while i < len
        invariant
            i <= len,
            v@.len() == i,
            forall|j: int| 0 <= j < i ==> v@[j] == 0,
        decreases len - i,
    {
        v.push(0);
        i = i + 1;
    }
    v
}

} // verus!
