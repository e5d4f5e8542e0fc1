//! The console panel's backing store: a bounded buffer keeping the most
//! recent complete log lines.  Bytes are fed in arbitrary chunks; a newline
//! completes the open line, which then enters a bounded ring of lines where
//! the oldest line leaves once the capacity is reached.  Only complete lines
//! are ever shown.
//!
//! The ring of lines is ringbuf's heap ring buffer, held behind trusted
//! wrappers; everything around it is verified against their contracts.

use vstd::prelude::*;
use vstd::utf8::{decode_utf8, valid_utf8};
use ringbuf::traits::{Consumer, RingBuffer};

verus! {

/// The newline byte that completes a line.
pub const LINE_SEPARATOR: u8 = 10;

/// A bounded ring of complete lines, oldest first.  The storage is
/// `ringbuf::HeapRb<String>`; Verus sees it only through `line_ring_lines`
/// and `line_ring_capacity` and the wrappers below.
#[verifier::external_body]
pub struct LineRing {
    inner: ringbuf::HeapRb<String>,
}

/// The lines the ring holds, oldest first.
pub uninterp spec fn line_ring_lines(r: LineRing) -> Seq<Seq<char>>;

/// The fixed capacity the ring was created with.
pub uninterp spec fn line_ring_capacity(r: LineRing) -> nat;

/// Relies on `ringbuf::HeapRb::new`: an empty ring buffer with the given
/// capacity (it panics on capacity zero, kept out by the precondition).
#[verifier::external_body]
fn line_ring_new(capacity: usize) -> (r: LineRing)
    requires
        1 <= capacity,
    ensures
        line_ring_lines(r) == Seq::<Seq<char>>::empty(),
        line_ring_capacity(r) == capacity,
{
    LineRing { inner: ringbuf::HeapRb::new(capacity) }
}

/// Relies on `RingBuffer::push_overwrite`: the new item enters at the back;
/// when the buffer is full the least recent item is removed first.
#[verifier::external_body]
fn line_ring_push(r: &mut LineRing, line: String)
    ensures
        line_ring_capacity(*final(r)) == line_ring_capacity(*old(r)),
        line_ring_lines(*final(r)) == if line_ring_lines(*old(r)).len() < line_ring_capacity(
            *old(r),
        ) {
            line_ring_lines(*old(r)).push(line@)
        } else {
            line_ring_lines(*old(r)).drop_first().push(line@)
        },
        line_ring_lines(*final(r)).len() <= line_ring_capacity(*final(r)),
{
    r.inner.push_overwrite(line);
}

/// Relies on `Consumer::iter`: the items front to back, i.e. oldest first,
/// left in place.
#[verifier::external_body]
fn line_ring_to_vec(r: &LineRing) -> (v: Vec<String>)
    ensures
        v.deep_view() == line_ring_lines(*r),
{
    r.inner.iter().cloned().collect()
}

/// Relies on `core::str::from_utf8`: it succeeds exactly on valid UTF-8 and
/// decodes it.
#[verifier::external_body]
pub(crate) fn line_to_string(bytes: &Vec<u8>) -> (r: Result<String, WriteError>)
    ensures
        r is Ok <==> valid_utf8(bytes@),
        r matches Ok(s) ==> s@ == decode_utf8(bytes@),
{
    match core::str::from_utf8(bytes.as_slice()) {
        Ok(s) => Ok(s.to_owned()),
        Err(_) => Err(WriteError::InvalidLine),
    }
}

/// Writing fails only when a completed line is not valid text.
#[derive(Clone, Copy, Debug, PartialEq, Eq, Structural)]
pub enum WriteError {
    InvalidLine,
}

/// The lines completed by feeding `bytes` after `current`, in completion
/// order: every newline byte completes one line.
pub open spec fn fed_lines(current: Seq<u8>, bytes: Seq<u8>) -> Seq<Seq<u8>>
    decreases bytes.len(),
{
    if bytes.len() == 0 {
        Seq::empty()
    } else if bytes[0] == LINE_SEPARATOR {
        seq![current] + fed_lines(Seq::empty(), bytes.drop_first())
    } else {
        fed_lines(current.push(bytes[0]), bytes.drop_first())
    }
}

/// The still-open line after feeding `bytes` after `current`: whatever
/// follows the last newline.
pub open spec fn fed_current(current: Seq<u8>, bytes: Seq<u8>) -> Seq<u8>
    decreases bytes.len(),
{
    if bytes.len() == 0 {
        current
    } else if bytes[0] == LINE_SEPARATOR {
        fed_current(Seq::empty(), bytes.drop_first())
    } else {
        fed_current(current.push(bytes[0]), bytes.drop_first())
    }
}

/// One line entering a bounded ring: the oldest line leaves when the ring
/// is at capacity.
pub open spec fn ring_push_one(lines: Seq<Seq<char>>, cap: nat, line: Seq<char>) -> Seq<Seq<char>> {
    if lines.len() < cap {
        lines.push(line)
    } else {
        lines.drop_first().push(line)
    }
}

/// A batch of lines entering a bounded ring, in order.
pub open spec fn ring_push_all(lines: Seq<Seq<char>>, cap: nat, add: Seq<Seq<char>>) -> Seq<
    Seq<char>,
>
    decreases add.len(),
{
    if add.len() == 0 {
        lines
    } else {
        ring_push_all(ring_push_one(lines, cap, add[0]), cap, add.drop_first())
    }
}

proof fn lemma_fed_snoc(current: Seq<u8>, bytes: Seq<u8>, x: u8)
    ensures
        fed_lines(current, bytes.push(x)) == if x == LINE_SEPARATOR {
            fed_lines(current, bytes).push(fed_current(current, bytes))
        } else {
            fed_lines(current, bytes)
        },
        fed_current(current, bytes.push(x)) == if x == LINE_SEPARATOR {
            Seq::<u8>::empty()
        } else {
            fed_current(current, bytes).push(x)
        },
    decreases bytes.len(),
{
    let ext = bytes.push(x);
    if bytes.len() == 0 {
        assert(ext[0] == x);
        assert(ext.drop_first() =~= Seq::<u8>::empty());
        if x == LINE_SEPARATOR {
            assert(fed_lines(Seq::<u8>::empty(), ext.drop_first()) == Seq::<Seq<u8>>::empty());
            assert(fed_current(Seq::<u8>::empty(), ext.drop_first()) == Seq::<u8>::empty());
            assert(fed_lines(current, ext) == seq![current] + Seq::<Seq<u8>>::empty());
            assert(seq![current] + Seq::<Seq<u8>>::empty() =~= Seq::<Seq<u8>>::empty().push(
                current,
            ));
            assert(fed_lines(current, bytes) == Seq::<Seq<u8>>::empty());
            assert(fed_current(current, bytes) == current);
        } else {
            assert(fed_lines(current.push(x), ext.drop_first()) == Seq::<Seq<u8>>::empty());
            assert(fed_current(current.push(x), ext.drop_first()) == current.push(x));
        }
    } else {
        assert(ext[0] == bytes[0]);
        assert(ext.drop_first() =~= bytes.drop_first().push(x));
        if bytes[0] == LINE_SEPARATOR {
            lemma_fed_snoc(Seq::empty(), bytes.drop_first(), x);
            assert(fed_lines(current, ext) == seq![current] + fed_lines(
                Seq::empty(),
                bytes.drop_first().push(x),
            ));
            assert(fed_current(current, ext) == fed_current(
                Seq::empty(),
                bytes.drop_first().push(x),
            ));
            if x == LINE_SEPARATOR {
                assert(seq![current] + fed_lines(Seq::empty(), bytes.drop_first()).push(
                    fed_current(Seq::empty(), bytes.drop_first()),
                ) =~= (seq![current] + fed_lines(Seq::empty(), bytes.drop_first())).push(
                    fed_current(Seq::empty(), bytes.drop_first()),
                ));
            }
        } else {
            lemma_fed_snoc(current.push(bytes[0]), bytes.drop_first(), x);
            assert(fed_lines(current, ext) == fed_lines(
                current.push(bytes[0]),
                bytes.drop_first().push(x),
            ));
            assert(fed_current(current, ext) == fed_current(
                current.push(bytes[0]),
                bytes.drop_first().push(x),
            ));
        }
    }
}

proof fn lemma_push_all_snoc(lines: Seq<Seq<char>>, cap: nat, add: Seq<Seq<char>>, x: Seq<char>)
    ensures
        ring_push_all(lines, cap, add.push(x)) == ring_push_one(
            ring_push_all(lines, cap, add),
            cap,
            x,
        ),
    decreases add.len(),
{
    let ext = add.push(x);
    if add.len() == 0 {
        assert(ext[0] == x);
        assert(ext.drop_first() =~= Seq::<Seq<char>>::empty());
        assert(ring_push_all(ring_push_one(lines, cap, x), cap, ext.drop_first())
            == ring_push_one(lines, cap, x));
        assert(ring_push_all(lines, cap, add) == lines);
    } else {
        assert(ext[0] == add[0]);
        assert(ext.drop_first() =~= add.drop_first().push(x));
        lemma_push_all_snoc(ring_push_one(lines, cap, add[0]), cap, add.drop_first(), x);
        assert(ring_push_all(lines, cap, ext) == ring_push_all(
            ring_push_one(lines, cap, add[0]),
            cap,
            add.drop_first().push(x),
        ));
    }
}

/// Lines completed by a prefix of the input are completed, unchanged, by the
/// whole input.
proof fn lemma_fed_prefix(current: Seq<u8>, bytes: Seq<u8>, i: int)
    requires
        0 <= i <= bytes.len(),
    ensures
        fed_lines(current, bytes.take(i)).len() <= fed_lines(current, bytes).len(),
        forall|k: int|
            #![trigger fed_lines(current, bytes.take(i))[k]]
            0 <= k < fed_lines(current, bytes.take(i)).len() ==> fed_lines(current, bytes)[k]
                == fed_lines(current, bytes.take(i))[k],
    decreases bytes.len() - i,
{
    if i == bytes.len() {
        assert(bytes.take(i) =~= bytes);
    } else {
        lemma_fed_snoc(current, bytes.take(i), bytes[i]);
        assert(bytes.take(i + 1) =~= bytes.take(i).push(bytes[i]));
        lemma_fed_prefix(current, bytes, i + 1);
        assert forall|k: int|
            #![trigger fed_lines(current, bytes.take(i))[k]]
            0 <= k < fed_lines(current, bytes.take(i)).len() implies fed_lines(current, bytes)[k]
            == fed_lines(current, bytes.take(i))[k] by {
            assert(fed_lines(current, bytes.take(i + 1))[k]
                == fed_lines(current, bytes.take(i))[k]);
            assert(fed_lines(current, bytes)[k] == fed_lines(current, bytes.take(i + 1))[k]);
        }
    }
}

/// Keeps the most recent complete lines written to it: the console buffer
/// behind the UI's log panel.
pub struct RecentLinesBuffer {
    /// The complete lines kept, most recent `capacity` of them.
    pub lines: LineRing,
    /// The bytes of the line currently being written, not yet ended.
    pub current_line: Vec<u8>,
}

impl RecentLinesBuffer {
    /// The ring never holds more lines than its capacity, which is positive.
    pub open spec fn wf(self) -> bool {
        &&& 1 <= line_ring_capacity(self.lines)
        &&& line_ring_lines(self.lines).len() <= line_ring_capacity(self.lines)
    }

    /// A buffer keeping at most `capacity` lines.
    pub fn new(capacity: usize) -> (b: RecentLinesBuffer)
        requires
            1 <= capacity,
        ensures
            b.wf(),
            line_ring_capacity(b.lines) == capacity,
            line_ring_lines(b.lines) == Seq::<Seq<char>>::empty(),
            b.current_line@ == Seq::<u8>::empty(),
    {
        let b = RecentLinesBuffer { lines: line_ring_new(capacity), current_line: Vec::new() };
        proof {
            assert(b.current_line@ =~= Seq::<u8>::empty());
        }
        b
    }

    /// The complete lines currently kept, oldest first.
    pub fn read(&self) -> (r: Vec<String>)
        ensures
            r.deep_view() == line_ring_lines(self.lines),
    {
        line_ring_to_vec(&self.lines)
    }

    /// Feed a chunk of bytes.  Every newline completes the open line, which
    /// enters the ring of kept lines (the oldest line leaving when the ring
    /// is full); the rest stays as the new open line.  Succeeds, consuming
    /// the whole chunk, exactly when every completed line is valid text;
    /// an invalid completed line stops the write right there, with the
    /// lines completed before it kept.
    #[verifier::loop_isolation(false)]
    pub fn write(&mut self, buf: &[u8]) -> (r: Result<usize, WriteError>)
        requires
            old(self).wf(),
        ensures
            final(self).wf(),
            line_ring_capacity(final(self).lines) == line_ring_capacity(old(self).lines),
            r is Ok <==> forall|k: int|
                0 <= k < fed_lines(old(self).current_line@, buf@).len() ==> valid_utf8(
                    #[trigger] fed_lines(old(self).current_line@, buf@)[k],
                ),
            r matches Ok(n) ==> n == buf@.len() && final(self).current_line@ == fed_current(
                old(self).current_line@,
                buf@,
            ) && line_ring_lines(final(self).lines) == ring_push_all(
                line_ring_lines(old(self).lines),
                line_ring_capacity(old(self).lines),
                fed_lines(old(self).current_line@, buf@).map_values(|l: Seq<u8>| decode_utf8(l)),
            ),
            r is Err ==> exists|k: int|
                {
                    &&& 0 <= k < fed_lines(old(self).current_line@, buf@).len()
                    &&& !valid_utf8(#[trigger] fed_lines(old(self).current_line@, buf@)[k])
                    &&& forall|j: int|
                        0 <= j < k ==> valid_utf8(
                            #[trigger] fed_lines(old(self).current_line@, buf@)[j],
                        )
                    &&& final(self).current_line@ == fed_lines(old(self).current_line@, buf@)[k]
                    &&& line_ring_lines(final(self).lines) == ring_push_all(
                        line_ring_lines(old(self).lines),
                        line_ring_capacity(old(self).lines),
                        fed_lines(old(self).current_line@, buf@).take(k).map_values(
                            |l: Seq<u8>| decode_utf8(l),
                        ),
                    )
                },
    {
        let ghost cur0 = old(self).current_line@;
        let ghost ring0 = line_ring_lines(old(self).lines);
        let ghost cap = line_ring_capacity(old(self).lines);
        let n = buf.len();
        proof {
            assert(buf@.take(0) =~= Seq::<u8>::empty());
            assert(fed_lines(cur0, Seq::<u8>::empty()) == Seq::<Seq<u8>>::empty());
            assert(fed_current(cur0, Seq::<u8>::empty()) == cur0);
            assert(fed_lines(cur0, Seq::<u8>::empty()).map_values(|l: Seq<u8>| decode_utf8(l))
                =~= Seq::<Seq<char>>::empty());
            assert(ring_push_all(ring0, cap, Seq::<Seq<char>>::empty()) == ring0);
        }
        let mut i: usize = 0;
        while i < n
            invariant
                self.wf(),
                line_ring_capacity(self.lines) == cap,
                n == buf@.len(),
                i <= n,
                self.current_line@ == fed_current(cur0, buf@.take(i as int)),
                line_ring_lines(self.lines) == ring_push_all(
                    ring0,
                    cap,
                    fed_lines(cur0, buf@.take(i as int)).map_values(|l: Seq<u8>| decode_utf8(l)),
                ),
                forall|k: int|
                    0 <= k < fed_lines(cur0, buf@.take(i as int)).len() ==> valid_utf8(
                        #[trigger] fed_lines(cur0, buf@.take(i as int))[k],
                    ),
            decreases n - i,
        {
            let b = buf[i];
            proof {
                lemma_fed_snoc(cur0, buf@.take(i as int), buf@[i as int]);
                assert(buf@.take(i as int + 1) =~= buf@.take(i as int).push(buf@[i as int]));
            }
            if b == LINE_SEPARATOR {
                let ghost fed_i = fed_lines(cur0, buf@.take(i as int));
                let ghost mapped = fed_i.map_values(|l: Seq<u8>| decode_utf8(l));
                match line_to_string(&self.current_line) {
                    Ok(s) => {
                        line_ring_push(&mut self.lines, s);
                        self.current_line = Vec::new();
                        proof {
                            lemma_push_all_snoc(ring0, cap, mapped, s@);
                            assert(fed_lines(cur0, buf@.take(i as int + 1)).map_values(
                                |l: Seq<u8>| decode_utf8(l),
                            ) =~= mapped.push(s@));
                            assert(self.current_line@ =~= Seq::<u8>::empty());
                            assert forall|k: int|
                                0 <= k < fed_lines(cur0, buf@.take(i as int + 1)).len() implies
                                valid_utf8(
                                    #[trigger] fed_lines(cur0, buf@.take(i as int + 1))[k],
                                ) by {
                                if k < fed_i.len() {
                                    assert(fed_lines(cur0, buf@.take(i as int + 1))[k] == fed_i[k]);
                                }
                            }
                        }
                    },
                    Err(e) => {
                        proof {
                            let fed_all = fed_lines(cur0, buf@);
                            let k = fed_i.len() as int;
                            lemma_fed_prefix(cur0, buf@, i as int);
                            lemma_fed_prefix(cur0, buf@, i as int + 1);
                            assert(fed_lines(cur0, buf@.take(i as int + 1))[k]
                                == self.current_line@);
                            assert(fed_all[k] == self.current_line@);
                            assert forall|j: int| 0 <= j < k implies valid_utf8(
                                #[trigger] fed_all[j],
                            ) by {
                                assert(fed_all[j] == fed_i[j]);
                            }
                            assert(fed_all.take(k) =~= fed_i);
                            assert(!valid_utf8(fed_all[k]));
                        }
                        return Err(e);
                    },
                }
            } else {
                self.current_line.push(b);
            }
            i = i + 1;
        }
        proof {
            assert(buf@.take(n as int) =~= buf@);
        }
        Ok(n)
    }

    /// Nothing is buffered outside the open line, so there is nothing to do.
    pub fn flush(&mut self) -> (r: Result<(), WriteError>)
        ensures
            r is Ok,
            *final(self) == *old(self),
    {
        Ok(())
    }
}

} // verus!
