//! Monitoring: a fixed-capacity ring of the most recently produced samples
//! per channel, written by the real-time thread and rendered by the control
//! thread, plus the load meter that reports how much of the real-time
//! deadline each callback consumed.
//!
//! The ring keeps only the last `capacity` samples; a reader walks backward
//! from the write index and sees them newest first.

use vstd::prelude::*;

verus! {

/// A fixed-capacity circular record of every sample recently written to the
/// host output for one channel.
pub struct MonitorRing {
    /// The circular storage; its length is the fixed capacity.
    pub buf: Vec<u32>,
    /// Next slot to write, always less than the capacity.
    pub index: usize,
    /// Model: every sample ever written, oldest first.
    pub history: Ghost<Seq<u32>>,
    /// Model: how many times the write index has wrapped around.
    pub rounds: Ghost<nat>,
}

impl MonitorRing {
    /// The capacity of the ring.
    pub open spec fn capacity(self) -> int {
        self.buf@.len() as int
    }

    /// The ring invariant: the write index advances modulo the capacity
    /// (`rounds` counts the wraps), slots below the index hold the current
    /// lap of the history, slots at or above it hold the previous lap, and
    /// slots never written hold silence.
    pub open spec fn wf(self) -> bool {
        &&& 0 < self.buf@.len()
        &&& self.index < self.buf@.len()
        &&& self.history@.len() == self.rounds@ * self.buf@.len() + self.index
        &&& forall|j: int|
            #![trigger self.buf@[j]]
            0 <= j < self.index ==> self.buf@[j] == self.history@[self.rounds@ * self.buf@.len()
                + j]
        &&& forall|j: int|
            #![trigger self.buf@[j]]
            self.index <= j < self.buf@.len() ==> self.buf@[j] == if self.rounds@ > 0 {
                self.history@[(self.rounds@ - 1) * self.buf@.len() + j]
            } else {
                0
            }
    }

    /// An empty ring of the given capacity.
    pub fn new(capacity: usize) -> (r: MonitorRing)
        requires
            0 < capacity,
        ensures
            r.wf(),
            r.capacity() == capacity,
            r.history@ == Seq::<u32>::empty(),
    {
        MonitorRing {
            buf: crate::silence(capacity),
            index: 0,
            history: Ghost(Seq::empty()),
            rounds: Ghost(0),
        }
    }

    /// Record one sample: it lands on the current write slot and the write
    /// index advances, wrapping at the capacity.
    pub fn write(&mut self, v: u32)
        requires
            old(self).wf(),
        ensures
            final(self).wf(),
            final(self).capacity() == old(self).capacity(),
            final(self).history@ == old(self).history@.push(v),
    {
        let ghost pre = *self;
        let cap = self.buf.len();
        self.buf.set(self.index, v);
        self.history = Ghost(self.history@.push(v));
        if self.index + 1 == cap {
            self.index = 0;
            self.rounds = Ghost(self.rounds@ + 1);
            proof {
                assert(self.rounds@ * cap == pre.rounds@ * cap + cap) by (nonlinear_arith)
                    requires self.rounds@ == pre.rounds@ + 1;
                assert forall|j: int|
                    #![trigger self.buf@[j]]
                    self.index <= j < self.buf@.len() implies self.buf@[j] == if self.rounds@
                    > 0 {
                    self.history@[(self.rounds@ - 1) * self.buf@.len() + j]
                } else {
                    0
                } by {
                    assert((self.rounds@ - 1) * self.buf@.len() == pre.rounds@ * pre.buf@.len());
                    if j < pre.index {
                        assert(pre.buf@[j] == pre.history@[pre.rounds@ * pre.buf@.len() + j]);
                    }
                }
            }
        } else {
            self.index = self.index + 1;
            proof {
                assert forall|j: int|
                    #![trigger self.buf@[j]]
                    0 <= j < self.index implies self.buf@[j] == self.history@[self.rounds@
                    * self.buf@.len() + j] by {
                    if j < pre.index {
                        assert(pre.buf@[j] == pre.history@[pre.rounds@ * pre.buf@.len() + j]);
                    }
                }
                assert forall|j: int|
                    #![trigger self.buf@[j]]
                    self.index <= j < self.buf@.len() implies self.buf@[j] == if self.rounds@
                    > 0 {
                    self.history@[(self.rounds@ - 1) * self.buf@.len() + j]
                } else {
                    0
                } by {
                    assert(pre.buf@[j] == if pre.rounds@ > 0 {
                        pre.history@[(pre.rounds@ - 1) * pre.buf@.len() + j]
                    } else {
                        0
                    });
                    if pre.rounds@ > 0 {
                        assert((pre.rounds@ - 1) * pre.buf@.len() + j < pre.history@.len()) by (
                        nonlinear_arith)
                            requires
                                pre.rounds@ > 0,
                                0 < pre.buf@.len(),
                                j < pre.buf@.len(),
                                pre.history@.len() == pre.rounds@ * pre.buf@.len() + pre.index,
                                0 <= pre.index,
                        ;
                    }
                }
            }
        }
    }

    /// The most recent `capacity` samples, newest first: entry `i` is the
    /// sample written `i` steps ago; entries beyond what was ever written
    /// are silence.
    pub fn read_recent(&self) -> (r: Vec<u32>)
        requires
            self.wf(),
        ensures
            r@.len() == self.capacity(),
            forall|i: int|
                #![trigger r@[i]]
                0 <= i < self.capacity() ==> r@[i] == if i < self.history@.len() {
                    self.history@[self.history@.len() - 1 - i]
                } else {
                    0u32
                },
    {
        let cap = self.buf.len();
        let mut r: Vec<u32> = Vec::new();
        let mut idx: usize = self.index;
        let mut i: usize = 0;
        while i < cap
            invariant
                self.wf(),
                cap == self.buf@.len(),
                i <= cap,
                r@.len() == i,
                i <= self.index ==> idx == self.index - i,
                i > self.index ==> idx == cap + self.index - i,
                forall|g: int|
                    #![trigger r@[g]]
                    0 <= g < i ==> r@[g] == if g < self.history@.len() {
                        self.history@[self.history@.len() - 1 - g]
                    } else {
                        0u32
                    },
            decreases cap - i,
        {
            idx = if idx == 0 {
                cap - 1
            } else {
                idx - 1
            };
            r.push(self.buf[idx]);
            proof {
                let len = self.history@.len() as int;
                let rounds = self.rounds@ as int;
                if i < self.index {
                    assert(idx == self.index - i - 1);
                    assert(self.buf@[idx as int] == self.history@[rounds * cap + idx]);
                    assert(rounds * cap + idx == len - 1 - i);
                } else {
                    assert(idx == cap + self.index - i - 1);
                    assert(self.index <= idx < cap);
                    if rounds > 0 {
                        assert(self.buf@[idx as int] == self.history@[(rounds - 1) * cap + idx]);
                        assert((rounds - 1) * cap + idx == len - 1 - i) by (nonlinear_arith)
                            requires
                                idx == cap + self.index - i - 1,
                                len == rounds * cap + self.index,
                        ;
                        assert(i < len) by (nonlinear_arith)
                            requires
                                len == rounds * cap + self.index,
                                rounds > 0,
                                i < cap,
                                0 <= self.index,
                        ;
                    } else {
                        assert(rounds == 0);
                        assert(rounds * cap == 0) by (nonlinear_arith)
                            requires
                                rounds == 0,
                        ;
                        assert(self.buf@[idx as int] == 0);
                        assert(len == self.index);
                        assert(i >= len);
                    }
                }
            }
            i = i + 1;
        }
        r
    }

    /// The fixed capacity of the ring.
    pub fn len(&self) -> (n: usize)
        ensures
            n == self.capacity(),
    {
        self.buf.len()
    }
}

/// The load meter value, in thousandths of the real-time budget: processing
/// took `elapsed_ns` nanoseconds, while a request of `frames` frames at
/// `sample_rate` frames per second grants `frames * 1_000_000_000 /
/// sample_rate` nanoseconds.  The exact quotient, not clamped.
pub fn load_ratio_milli(elapsed_ns: u64, frames: u64, sample_rate: u64) -> (r: u64)
    requires
        0 < frames,
        0 < sample_rate <= 10_000_000,
        elapsed_ns <= 1_000_000_000_000_000,
    ensures
        r == elapsed_ns * sample_rate * 1000 / (frames * 1_000_000_000),
{
    proof {
        assert(elapsed_ns * sample_rate <= 10_000_000_000_000_000_000_000) by (nonlinear_arith)
            requires
                0 <= elapsed_ns <= 1_000_000_000_000_000,
                0 <= sample_rate <= 10_000_000,
        ;
    }
    let num: u128 = elapsed_ns as u128 * sample_rate as u128 * 1000;
    let den: u128 = frames as u128 * 1_000_000_000;
    let q: u128 = num / den;
    proof {
        assert(num / den <= num / 1_000_000_000) by (nonlinear_arith)
            requires
                den >= 1_000_000_000,
                num >= 0,
        ;
    }
    q as u64
}

/// The load meter value as consumed by the render gauge: clamped to the
/// unit interval (one thousand thousandths).
pub fn clamped_ratio_milli(r: u64) -> (c: u64)
    ensures
        c == if r > 1000 {
            1000u64
        } else {
            r
        },
{
    if r > 1000 {
        1000
    } else {
        r
    }
}

} // verus!
