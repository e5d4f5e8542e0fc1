//! Block reassembly: the engine produces audio in fixed-size stereo blocks,
//! the host asks for arbitrarily sized buffers.  The `Reassembler` slices the
//! block stream to whatever the host requests, carrying the unconsumed tail
//! of the last block over to the next request, so that the delivered stream
//! is gapless and duplicate-free no matter how requests are chunked.
//!
//! The mathematical model: `pulled_left`/`pulled_right` are the flattened
//! streams of every engine block consumed so far, and `served` counts the
//! frames already handed to the host.  Every output is a slice of the pulled
//! stream starting at `served`.

use vstd::prelude::*;
use vstd::arithmetic::div_mod::{lemma_basic_div, lemma_div_plus_one, lemma_div_pos_is_pos};

verus! {

/// One engine production: a fixed-length buffer per channel.
pub struct StereoBlock {
    pub left: Vec<u32>,
    pub right: Vec<u32>,
}

impl StereoBlock {
    /// Both channels hold exactly one block worth of samples.
    pub open spec fn wf(self, block_len: int) -> bool {
        self.left@.len() == block_len && self.right@.len() == block_len
    }
}

/// The pulled engine stream of the left channels of a block sequence.
pub open spec fn flatten_left(blocks: Seq<StereoBlock>) -> Seq<u32>
    decreases blocks.len(),
{
    if blocks.len() == 0 {
        Seq::empty()
    } else {
        flatten_left(blocks.drop_last()) + blocks.last().left@
    }
}

/// The pulled engine stream of the right channels of a block sequence.
pub open spec fn flatten_right(blocks: Seq<StereoBlock>) -> Seq<u32>
    decreases blocks.len(),
{
    if blocks.len() == 0 {
        Seq::empty()
    } else {
        flatten_right(blocks.drop_last()) + blocks.last().right@
    }
}

proof fn lemma_flatten_take_step(blocks: Seq<StereoBlock>, i: int)
    requires
        0 <= i < blocks.len(),
    ensures
        flatten_left(blocks.take(i + 1)) == flatten_left(blocks.take(i)) + blocks[i].left@,
        flatten_right(blocks.take(i + 1)) == flatten_right(blocks.take(i)) + blocks[i].right@,
{
    assert(blocks.take(i + 1).drop_last() =~= blocks.take(i));
    assert(blocks.take(i + 1).last() == blocks[i]);
}

/// `out` interleaves, frame by frame, the slices `[start, start + frames)`
/// of the two channel streams: left at even positions, right at odd ones.
pub open spec fn interleaved_slice(
    out: Seq<u32>,
    left: Seq<u32>,
    right: Seq<u32>,
    start: int,
    frames: int,
) -> bool {
    forall|f: int|
        #![trigger out[2 * f]]
        0 <= f < frames ==> out[2 * f] == left[start + f] && out[2 * f + 1] == right[start + f]
}

/// The samples of one channel of an interleaved stereo buffer: channel 0 is
/// the even positions, channel 1 the odd ones.
pub open spec fn channel_samples(out: Seq<u32>, chan: int) -> Seq<u32> {
    Seq::new(out.len() / 2, |f: int| out[2 * f + chan])
}

/// The concatenation of a sequence of output buffers, in request order.
pub open spec fn concat_all(outs: Seq<Seq<u32>>) -> Seq<u32>
    decreases outs.len(),
{
    if outs.len() == 0 {
        Seq::empty()
    } else {
        concat_all(outs.drop_last()) + outs.last()
    }
}

/// The total number of samples over a sequence of output buffers.
pub open spec fn total_len(outs: Seq<Seq<u32>>) -> int
    decreases outs.len(),
{
    if outs.len() == 0 {
        0
    } else {
        total_len(outs.drop_last()) + outs.last().len()
    }
}

/// Law (one request): an output that interleaves the slices
/// `[start, start + frames)` of the two channel streams — what
/// `fill_request` ensures — deinterleaves, per channel, to exactly those
/// slices of the streams.
pub proof fn lemma_request_output_is_stream_slice(
    out: Seq<u32>,
    left: Seq<u32>,
    right: Seq<u32>,
    start: int,
    frames: int,
)
    requires
        0 <= start,
        0 <= frames,
        start + frames <= left.len(),
        start + frames <= right.len(),
        out.len() == 2 * frames,
        interleaved_slice(out, left, right, start, frames),
    ensures
        channel_samples(out, 0) == left.subrange(start, start + frames),
        channel_samples(out, 1) == right.subrange(start, start + frames),
{
    assert forall|f: int| 0 <= f < frames implies channel_samples(out, 0)[f] == left[start + f]
        && channel_samples(out, 1)[f] == right[start + f] by {
        assert(out[2 * f] == left[start + f]);
        assert(channel_samples(out, 0)[f] == out[2 * f + 0]);
        assert(2 * f + 0 == 2 * f);
        assert(channel_samples(out, 1)[f] == out[2 * f + 1]);
    }
    assert(channel_samples(out, 0) =~= left.subrange(start, start + frames));
    assert(channel_samples(out, 1) =~= right.subrange(start, start + frames));
}

/// Law (two consecutive requests): the outputs of two back-to-back
/// requests — each, as `fill_request` ensures, the interleaved next slice
/// of the channel streams, the second starting where the first stopped —
/// deinterleave and concatenate, per channel, to the one slice a single
/// combined request would have produced.
pub proof fn lemma_consecutive_requests_concat(
    out1: Seq<u32>,
    out2: Seq<u32>,
    left: Seq<u32>,
    right: Seq<u32>,
    start: int,
    frames1: int,
    frames2: int,
)
    requires
        0 <= start,
        0 <= frames1,
        0 <= frames2,
        start + frames1 + frames2 <= left.len(),
        start + frames1 + frames2 <= right.len(),
        out1.len() == 2 * frames1,
        out2.len() == 2 * frames2,
        interleaved_slice(out1, left, right, start, frames1),
        interleaved_slice(out2, left, right, start + frames1, frames2),
    ensures
        channel_samples(out1, 0) + channel_samples(out2, 0) == left.subrange(
            start,
            start + frames1 + frames2,
        ),
        channel_samples(out1, 1) + channel_samples(out2, 1) == right.subrange(
            start,
            start + frames1 + frames2,
        ),
{
    lemma_request_output_is_stream_slice(out1, left, right, start, frames1);
    lemma_request_output_is_stream_slice(out2, left, right, start + frames1, frames2);
    assert(left.subrange(start, start + frames1) + left.subrange(
        start + frames1,
        start + frames1 + frames2,
    ) =~= left.subrange(start, start + frames1 + frames2));
    assert(right.subrange(start, start + frames1) + right.subrange(
        start + frames1,
        start + frames1 + frames2,
    ) =~= right.subrange(start, start + frames1 + frames2));
}

proof fn lemma_total_len_nonneg(outs: Seq<Seq<u32>>)
    ensures
        0 <= total_len(outs),
    decreases outs.len(),
{
    if outs.len() > 0 {
        lemma_total_len_nonneg(outs.drop_last());
    }
}

/// Law (any chunking): for any sequence of host requests of arbitrary sizes,
/// if each output is the next consecutive slice of the reference stream —
/// request `i` starts where request `i - 1` stopped, which is what
/// `fill_request` ensures through `served` — then the outputs concatenated
/// in request order are exactly the first `total_len(outs)` samples of the
/// reference stream, no matter how the requests were chunked.
pub proof fn lemma_chunking_irrelevant(reference: Seq<u32>, outs: Seq<Seq<u32>>)
    requires
        total_len(outs) <= reference.len(),
        forall|i: int|
            #![trigger outs[i]]
            0 <= i < outs.len() ==> outs[i] == reference.subrange(
                total_len(outs.take(i)),
                total_len(outs.take(i)) + outs[i].len(),
            ),
    ensures
        concat_all(outs) == reference.take(total_len(outs)),
    decreases outs.len(),
{
    if outs.len() == 0 {
        assert(concat_all(outs) =~= reference.take(0));
    } else {
        let head = outs.drop_last();
        let n = outs.len() - 1;
        assert(outs.take(n) =~= head);
        assert(outs.last() == outs[n]);
        lemma_total_len_nonneg(head);
        assert forall|i: int| #![trigger head[i]] 0 <= i < head.len() implies head[i]
            == reference.subrange(
            total_len(head.take(i)),
            total_len(head.take(i)) + head[i].len(),
        ) by {
            assert(head.take(i) =~= outs.take(i));
            assert(outs[i] == reference.subrange(
                total_len(outs.take(i)),
                total_len(outs.take(i)) + outs[i].len(),
            ));
        }
        assert(0 <= outs.last().len());
        lemma_chunking_irrelevant(reference, head);
        assert(outs.last() == reference.subrange(
            total_len(head),
            total_len(head) + outs.last().len(),
        ));
        assert(concat_all(outs) =~= reference.take(total_len(outs)));
    }
}

/// How many whole blocks cover `frames` frames: the ceiling of
/// `frames / block_len`.
pub open spec fn blocks_covering(frames: int, block_len: int) -> int {
    (frames + block_len - 1) / block_len
}

proof fn lemma_blocks_covering_one(frames: int, block_len: int)
    requires
        0 < frames <= block_len,
    ensures
        blocks_covering(frames, block_len) == 1,
{
    lemma_div_plus_one(frames - 1, block_len);
    lemma_basic_div(frames - 1, block_len);
}

proof fn lemma_blocks_covering_pos(frames: int, block_len: int)
    requires
        0 < frames,
        0 < block_len,
    ensures
        1 <= blocks_covering(frames, block_len),
{
    lemma_div_plus_one(frames - 1, block_len);
    lemma_div_pos_is_pos(frames - 1, block_len);
}

proof fn lemma_blocks_covering_step(frames: int, block_len: int)
    requires
        block_len < frames,
        0 < block_len,
    ensures
        blocks_covering(frames, block_len) == 1 + blocks_covering(frames - block_len, block_len),
{
    lemma_div_plus_one(frames - 1, block_len);
    lemma_div_plus_one(frames - block_len - 1, block_len);
}

/// Bridges the engine's fixed block size and the host's request sizes.
/// Owned exclusively by the real-time audio thread.
pub struct Reassembler {
    /// Fixed engine block length, in frames.
    pub block_len: usize,
    /// The one partially consumed block, left channel (length `block_len`).
    pub carry_left: Vec<u32>,
    /// The one partially consumed block, right channel.
    pub carry_right: Vec<u32>,
    /// First not-yet-delivered position in the carry buffer;
    /// `cursor == block_len` means the carry buffer is empty.
    pub cursor: usize,
    /// Model: left-channel samples of every engine block consumed so far.
    pub pulled_left: Ghost<Seq<u32>>,
    /// Model: right-channel samples of every engine block consumed so far.
    pub pulled_right: Ghost<Seq<u32>>,
    /// Model: frames already delivered to the host.
    pub served: Ghost<nat>,
}

impl Reassembler {
    /// The carry buffer invariant: the cursor stays within the block, and
    /// the undelivered tail of the carry buffer is exactly the pulled-but-
    /// not-yet-served slice of the engine stream.
    pub open spec fn wf(self) -> bool {
        &&& 0 < self.block_len
        &&& self.carry_left@.len() == self.block_len
        &&& self.carry_right@.len() == self.block_len
        &&& self.cursor <= self.block_len
        &&& self.pulled_left@.len() == self.served@ + (self.block_len - self.cursor)
        &&& self.pulled_right@.len() == self.pulled_left@.len()
        &&& forall|j: int|
            #![trigger self.carry_left@[j]]
            self.cursor <= j < self.block_len ==> self.carry_left@[j]
                == self.pulled_left@[self.served@ + (j - self.cursor)]
        &&& forall|j: int|
            #![trigger self.carry_right@[j]]
            self.cursor <= j < self.block_len ==> self.carry_right@[j]
                == self.pulled_right@[self.served@ + (j - self.cursor)]
    }

    /// Frames still held in the carry buffer.
    pub open spec fn spec_carry_remaining(self) -> int {
        self.block_len - self.cursor
    }

    /// Engine blocks that must be pulled to serve a request of `frames`
    /// frames from this state.
    pub open spec fn spec_blocks_needed(self, frames: int) -> int {
        if frames <= self.spec_carry_remaining() {
            0
        } else {
            blocks_covering(frames - self.spec_carry_remaining(), self.block_len as int)
        }
    }

    /// A fresh reassembler: nothing pulled, nothing served, empty carry.
    pub fn new(block_len: usize) -> (r: Reassembler)
        requires
            0 < block_len,
        ensures
            r.wf(),
            r.block_len == block_len,
            r.served@ == 0,
            r.pulled_left@ == Seq::<u32>::empty(),
            r.pulled_right@ == Seq::<u32>::empty(),
            r.spec_carry_remaining() == 0,
    {
        Reassembler {
            block_len,
            carry_left: crate::silence(block_len),
            carry_right: crate::silence(block_len),
            cursor: block_len,
            pulled_left: Ghost(Seq::empty()),
            pulled_right: Ghost(Seq::empty()),
            served: Ghost(0),
        }
    }

    /// Frames still held in the carry buffer.
    pub fn carry_remaining(&self) -> (n: usize)
        requires
            self.wf(),
        ensures
            n == self.spec_carry_remaining(),
    {
        self.block_len - self.cursor
    }

    /// How many engine blocks a request of `frames` frames will consume.
    pub fn blocks_needed(&self, frames: usize) -> (n: usize)
        requires
            self.wf(),
            frames <= usize::MAX - self.block_len,
        ensures
            n == self.spec_blocks_needed(frames as int),
    {
        let avail = self.block_len - self.cursor;
        if frames <= avail {
            0
        } else {
            (frames - avail + self.block_len - 1) / self.block_len
        }
    }

    /// Serve one host request of `frames` frames, consuming exactly the given
    /// engine blocks.  The returned buffer interleaves the two channels frame
    /// by frame, and is exactly the slice `[served, served + frames)` of the
    /// pulled engine stream: no sample is dropped, duplicated or reordered,
    /// whatever the request size.
    pub fn fill_request(&mut self, frames: usize, blocks: &Vec<StereoBlock>) -> (out: Vec<u32>)
        requires
            old(self).wf(),
            frames <= usize::MAX / 2,
            frames <= usize::MAX - old(self).block_len,
            blocks@.len() == old(self).spec_blocks_needed(frames as int),
            forall|k: int| 0 <= k < blocks@.len() ==> blocks@[k].wf(old(self).block_len as int),
        ensures
            final(self).wf(),
            final(self).block_len == old(self).block_len,
            final(self).pulled_left@ == old(self).pulled_left@ + flatten_left(blocks@),
            final(self).pulled_right@ == old(self).pulled_right@ + flatten_right(blocks@),
            final(self).served@ == old(self).served@ + frames,
            out@.len() == 2 * frames,
            interleaved_slice(
                out@,
                final(self).pulled_left@,
                final(self).pulled_right@,
                old(self).served@ as int,
                frames as int,
            ),
    {
        let ghost orig = *self;
        let mut out: Vec<u32> = Vec::new();

        // Serve from the carry buffer first.
        let avail = self.block_len - self.cursor;
        let take = if frames < avail {
            frames
        } else {
            avail
        };
        copy_interleaved(&mut out, &self.carry_left, &self.carry_right, self.cursor, take);
        self.cursor = self.cursor + take;
        self.served = Ghost((self.served@ + take) as nat);
        let mut written: usize = take;

        proof {
            assert forall|f: int|
                #![trigger out@[2 * f]]
                0 <= f < written implies out@[2 * f] == self.pulled_left@[orig.served@ + f]
                && out@[2 * f + 1] == self.pulled_right@[orig.served@ + f] by {
                assert(out@[0 + 2 * f] == orig.carry_left@[orig.cursor + f]);
                assert(out@[0 + 2 * f + 1] == orig.carry_right@[orig.cursor + f]);
            }
            assert(blocks@.take(0) =~= Seq::<StereoBlock>::empty());
        }

        // Pull whole blocks for the rest of the request.
        let nblocks = blocks.len();
        let mut bi: usize = 0;
        while written < frames
            invariant
                self.wf(),
                self.block_len == orig.block_len,
                frames <= usize::MAX / 2,
                written <= frames,
                nblocks == blocks@.len(),
                bi <= nblocks,
                blocks@.len() == orig.spec_blocks_needed(frames as int),
                forall|k: int| 0 <= k < blocks@.len() ==> blocks@[k].wf(orig.block_len as int),
                out@.len() == 2 * written,
                self.served@ == orig.served@ + written,
                self.pulled_left@ == orig.pulled_left@ + flatten_left(blocks@.take(bi as int)),
                self.pulled_right@ == orig.pulled_right@ + flatten_right(blocks@.take(bi as int)),
                forall|f: int|
                    #![trigger out@[2 * f]]
                    0 <= f < written ==> out@[2 * f] == self.pulled_left@[orig.served@ + f]
                        && out@[2 * f + 1] == self.pulled_right@[orig.served@ + f],
                written < frames ==> self.cursor == self.block_len && nblocks - bi
                    == blocks_covering(frames - written, self.block_len as int),
                written == frames ==> bi == nblocks,
            decreases frames - written,
        {
            proof {
                lemma_blocks_covering_pos(frames - written, self.block_len as int);
                if frames - written <= self.block_len {
                    lemma_blocks_covering_one(frames - written, self.block_len as int);
                } else {
                    lemma_blocks_covering_step(frames - written, self.block_len as int);
                }
            }
            let block = &blocks[bi];
            let ghost pre = *self;
            let ghost pre_out = out@;
            let ghost pre_written = written as int;
            self.pulled_left = Ghost(self.pulled_left@ + block.left@);
            self.pulled_right = Ghost(self.pulled_right@ + block.right@);
            let remaining = frames - written;
            if remaining >= self.block_len {
                copy_interleaved(&mut out, &block.left, &block.right, 0, self.block_len);
                written = written + self.block_len;
                self.served = Ghost((self.served@ + self.block_len) as nat);
            } else {
                copy_interleaved(&mut out, &block.left, &block.right, 0, remaining);
                overwrite(&mut self.carry_left, &block.left);
                overwrite(&mut self.carry_right, &block.right);
                self.cursor = remaining;
                written = frames;
                self.served = Ghost((self.served@ + remaining) as nat);
            }
            bi = bi + 1;
            proof {
                let b = blocks@[bi - 1];
                lemma_flatten_take_step(blocks@, bi - 1);
                assert(self.pulled_left@ =~= orig.pulled_left@ + flatten_left(
                    blocks@.take(bi as int),
                ));
                assert(self.pulled_right@ =~= orig.pulled_right@ + flatten_right(
                    blocks@.take(bi as int),
                ));
                assert(pre.pulled_left@.len() == orig.served@ + pre_written);
                assert forall|f: int|
                    #![trigger out@[2 * f]]
                    0 <= f < written implies out@[2 * f] == self.pulled_left@[orig.served@ + f]
                    && out@[2 * f + 1] == self.pulled_right@[orig.served@ + f] by {
                    if f < pre_written {
                        assert(out@[2 * f] == pre_out[2 * f]);
                        assert(out@[2 * f + 1] == pre_out[2 * f + 1]);
                        assert(orig.served@ + f < pre.pulled_left@.len());
                    } else {
                        let g = f - pre_written;
                        assert(out@[2 * pre_written + 2 * g] == b.left@[0 + g]);
                        assert(out@[2 * pre_written + 2 * g + 1] == b.right@[0 + g]);
                        assert(self.pulled_left@[pre.pulled_left@.len() + g] == b.left@[g]);
                        assert(self.pulled_right@[pre.pulled_right@.len() + g] == b.right@[g]);
                        assert(2 * f == 2 * pre_written + 2 * g);
                    }
                }
                assert forall|j: int|
                    #![trigger self.carry_left@[j], self.carry_right@[j]]
                    self.cursor <= j < self.block_len implies self.carry_left@[j]
                    == self.pulled_left@[self.served@ + (j - self.cursor)] && self.carry_right@[j]
                    == self.pulled_right@[self.served@ + (j - self.cursor)] by {
                    assert(self.pulled_left@[pre.pulled_left@.len() + j] == b.left@[j]);
                    assert(self.pulled_right@[pre.pulled_right@.len() + j] == b.right@[j]);
                }
            }
        }
        proof {
            assert(blocks@.take(blocks@.len() as int) =~= blocks@);
            assert forall|f: int|
                #![trigger out@[2 * f]]
                0 <= f < frames implies out@[2 * f] == self.pulled_left@[orig.served@ + f]
                && out@[2 * f + 1] == self.pulled_right@[orig.served@ + f] by {
                assert(0 <= f < written);
            }
            assert(interleaved_slice(
                out@,
                self.pulled_left@,
                self.pulled_right@,
                orig.served@ as int,
                frames as int,
            ));
        }
        out
    }
}

/// Append `count` frames, starting at `from`, of the two channel buffers to
/// `out`, interleaved left-then-right.
fn copy_interleaved(out: &mut Vec<u32>, left: &Vec<u32>, right: &Vec<u32>, from: usize, count: usize)
    requires
        left@.len() == right@.len(),
        from + count <= left@.len(),
        old(out)@.len() + 2 * count <= usize::MAX,
    ensures
        final(out)@.len() == old(out)@.len() + 2 * count,
        forall|j: int| 0 <= j < old(out)@.len() ==> final(out)@[j] == old(out)@[j],
        forall|f: int|
            #![trigger final(out)@[old(out)@.len() + 2 * f]]
            0 <= f < count ==> final(out)@[old(out)@.len() + 2 * f] == left@[from + f]
                && final(out)@[old(out)@.len() + 2 * f + 1] == right@[from + f],
{
    let llen = left.len();
    let base = out.len();
    let mut f: usize = 0;
    while f < count
        invariant
            left@.len() == right@.len(),
            llen == left@.len(),
            from + count <= llen,
            base + 2 * count <= usize::MAX,
            f <= count,
            out@.len() == base + 2 * f,
            forall|j: int| 0 <= j < base ==> out@[j] == old(out)@[j],
            forall|g: int|
                #![trigger out@[base + 2 * g]]
                0 <= g < f ==> out@[base + 2 * g] == left@[from + g]
                    && out@[base + 2 * g + 1] == right@[from + g],
        decreases count - f,
    {
        out.push(left[from + f]);
        out.push(right[from + f]);
        proof {
            assert(out@[base + 2 * f] == left@[from + f]);
            assert(out@[base + 2 * f + 1] == right@[from + f]);
        }
        f = f + 1;
    }
}

/// Replace the contents of `dst` with a copy of `src` of the same length.
fn overwrite(dst: &mut Vec<u32>, src: &Vec<u32>)
    requires
        old(dst)@.len() == src@.len(),
    ensures
        final(dst)@ == src@,
{
    let mut j: usize = 0;
    while j < src.len()
        invariant
            dst@.len() == src@.len(),
            j <= src@.len(),
            forall|k: int| 0 <= k < j ==> dst@[k] == src@[k],
        decreases src@.len() - j,
    {
        dst.set(j, src[j]);
        j = j + 1;
    }
    proof {
        assert(dst@ =~= src@);
    }
}

} // verus!
