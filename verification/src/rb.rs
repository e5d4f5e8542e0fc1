//! A single-producer single-consumer ring queue over sample words, the
//! historical cross-thread sample ring.  `push` writes at the write index
//! and advances it; `pop` takes from the read index; equal indices mean
//! empty.  One slot always stays free: with `size` slots the queue holds at
//! most `size - 1` samples, since a write index that catches up with the
//! read index would make a full queue indistinguishable from an empty one.

use vstd::prelude::*;
use vstd::arithmetic::div_mod::{lemma_mod_self_0, lemma_small_mod};

verus! {

pub struct RingBuffer {
    pub buffer: Vec<u32>,
    pub read_index: usize,
    pub write_index: usize,
    pub size: usize,
}

impl RingBuffer {
    /// The queued samples, oldest first.
    pub open spec fn view(self) -> Seq<u32> {
        if self.read_index <= self.write_index {
            self.buffer@.subrange(self.read_index as int, self.write_index as int)
        } else {
            self.buffer@.subrange(self.read_index as int, self.size as int) + self.buffer@.subrange(
                0,
                self.write_index as int,
            )
        }
    }

    /// Indices stay inside the storage, whose length is the fixed size.
    pub open spec fn wf(self) -> bool {
        &&& 0 < self.size
        &&& self.buffer@.len() == self.size
        &&& self.read_index < self.size
        &&& self.write_index < self.size
    }

    /// An empty ring with `size` slots (holding up to `size - 1` samples).
    pub fn new(size: usize) -> (r: RingBuffer)
        requires
            0 < size,
        ensures
            r.wf(),
            r.size == size,
            r.view() == Seq::<u32>::empty(),
    {
        let r = RingBuffer { buffer: crate::silence(size), read_index: 0, write_index: 0, size };
        proof {
            assert(r.view() =~= Seq::<u32>::empty());
        }
        r
    }

    /// Append one sample at the write index.  When the queue already holds
    /// `size - 1` samples the advancing write index catches the read index,
    /// and the queue shows as empty: the overwriting producer loses the
    /// whole backlog at once.
    pub fn push(&mut self, value: u32)
        requires
            old(self).wf(),
        ensures
            final(self).wf(),
            final(self).size == old(self).size,
            final(self).read_index == old(self).read_index,
            old(self).view().len() + 1 < old(self).size ==> final(self).view() == old(
                self,
            ).view().push(value),
            old(self).view().len() + 1 == old(self).size ==> final(self).view()
                == Seq::<u32>::empty(),
    {
        self.buffer.set(self.write_index, value);
        self.write_index = (self.write_index + 1) % self.size;
        proof {
            if old(self).write_index + 1 == old(self).size {
                lemma_mod_self_0(old(self).size as int);
                assert(self.write_index == 0);
            } else {
                lemma_small_mod((old(self).write_index + 1) as nat, old(self).size as nat);
                assert(self.write_index == old(self).write_index + 1);
            }
            if old(self).view().len() + 1 < old(self).size {
                assert(self.view() =~= old(self).view().push(value));
            }
            if old(self).view().len() + 1 == old(self).size {
                assert(self.view() =~= Seq::<u32>::empty());
            }
        }
    }

    /// Take the oldest sample, or `None` when the queue is empty.
    pub fn pop(&mut self) -> (value: Option<u32>)
        requires
            old(self).wf(),
        ensures
            final(self).wf(),
            final(self).size == old(self).size,
            old(self).view().len() == 0 ==> value is None && *final(self) == *old(self),
            old(self).view().len() > 0 ==> value == Some(old(self).view()[0]) && final(self).view()
                == old(self).view().drop_first(),
    {
        if self.read_index == self.write_index {
            return None;
        }
        let value = self.buffer[self.read_index];
        self.read_index = (self.read_index + 1) % self.size;
        proof {
            if old(self).read_index + 1 == old(self).size {
                lemma_mod_self_0(old(self).size as int);
                assert(self.read_index == 0);
            } else {
                lemma_small_mod((old(self).read_index + 1) as nat, old(self).size as nat);
                assert(self.read_index == old(self).read_index + 1);
            }
            assert(self.view() =~= old(self).view().drop_first());
        }
        Some(value)
    }
}

} // verus!
