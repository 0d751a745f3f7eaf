//! The lock-free ring buffer that hands captured samples from the capture
//! callback to the playback callback, which run on different threads, and
//! the playback side's reading of one block from it.
//!
//! A sample travels through the buffer as the bits of its value, a `u32`.
//! What the buffer holds at a moment depends on both threads, so no
//! contract names it. Each end instead keeps its own record: the writing end
//! the samples it has appended, the reading end the samples it has taken.
use ringbuf::{HeapConsumer, HeapProducer, HeapRb};
use vstd::prelude::*;

verus! {

/// A heap-allocated `ringbuf` ring buffer of samples, before it is split
/// into its two ends.
#[verifier::external_body]
pub struct SampleRing {
    rb: HeapRb<u32>,
}

/// The writing end of a ring buffer, owned by the capture callback.
#[verifier::external_body]
pub struct SampleWriter {
    prod: HeapProducer<u32>,
}

/// The reading end of a ring buffer, owned by the playback callback.
#[verifier::external_body]
pub struct SampleReader {
    cons: HeapConsumer<u32>,
}

/// The number of samples the ring buffer can hold, fixed when it is made.
pub uninterp spec fn ring_capacity(ring: SampleRing) -> nat;

/// The capacity of the ring buffer that this writing end writes into.
pub uninterp spec fn writer_capacity(writer: SampleWriter) -> nat;

/// Every sample that this writing end has appended to its ring buffer since
/// the buffer was made, in order.
pub uninterp spec fn written_samples(writer: SampleWriter) -> Seq<u32>;

/// Every sample that this reading end has taken from its ring buffer since
/// the buffer was made, in order.
pub uninterp spec fn read_samples(reader: SampleReader) -> Seq<u32>;

impl SampleRing {
    /// Calls `HeapRb::new`, which makes an empty buffer of `capacity`
    /// places and panics on a zero capacity.
    #[verifier::external_body]
    fn new(capacity: usize) -> (r: Self)
        requires
            capacity > 0,
        ensures
            ring_capacity(r) == capacity,
    {
        SampleRing { rb: HeapRb::new(capacity) }
    }

    /// Calls `SharedRb::split`, which hands out the producer and the
    /// consumer of the buffer. Neither has written or read anything yet.
    #[verifier::external_body]
    fn split(self) -> (ends: (SampleWriter, SampleReader))
        ensures
            writer_capacity(ends.0) == ring_capacity(self),
            written_samples(ends.0) == Seq::<u32>::empty(),
            read_samples(ends.1) == Seq::<u32>::empty(),
    {
        let (prod, cons) = self.rb.split();
        (SampleWriter { prod }, SampleReader { cons })
    }
}

impl SampleWriter {
    /// Calls `Producer::push_slice`, which appends the leading samples of
    /// `data`, as many as the buffer has vacant places for, and returns how
    /// many it appended. The vacant places are the capacity less what this
    /// end appended and the reading end has not yet taken: never more than
    /// the capacity, and never fewer than the capacity less all that this
    /// end ever appended, since only this end appends to the buffer.
    #[verifier::external_body]
    fn push_slice(&mut self, data: &[u32]) -> (n: usize)
        ensures
            n <= data@.len(),
            n <= writer_capacity(*old(self)),
            written_samples(*old(self)).len() + data@.len() <= writer_capacity(*old(self))
                ==> n == data@.len(),
            written_samples(*final(self)) == written_samples(*old(self)) + data@.take(n as int),
            writer_capacity(*final(self)) == writer_capacity(*old(self)),
    {
        self.prod.push_slice(data)
    }
}

impl SampleReader {
    /// Calls `Consumer::pop_slice`, which moves the oldest buffered samples
    /// into the front of `out`, as many as there are and as fit, returns
    /// how many it moved, and leaves the rest of `out` alone. Which samples
    /// were buffered depends on the writing end, so only this end's record
    /// of what it took is stated.
    #[verifier::external_body]
    fn pop_slice(&mut self, out: &mut [u32]) -> (n: usize)
        ensures
            n <= old(out)@.len(),
            final(out)@.len() == old(out)@.len(),
            final(out)@.skip(n as int) == old(out)@.skip(n as int),
            read_samples(*final(self)) == read_samples(*old(self)) + final(out)@.take(n as int),
    {
        self.cons.pop_slice(out)
    }
}

/// A ring buffer of `capacity` samples, split into the writing end for the
/// capture callback and the reading end for the playback callback. Nothing
/// has been written to it or read from it yet.
pub fn sample_ring(capacity: usize) -> (ends: (SampleWriter, SampleReader))
    requires
        capacity > 0,
    ensures
        writer_capacity(ends.0) == capacity,
        written_samples(ends.0) == Seq::<u32>::empty(),
        read_samples(ends.1) == Seq::<u32>::empty(),
{
    SampleRing::new(capacity).split()
}

/// Offers the captured block `data` to the playback side: the leading
/// samples that fit are buffered, in order, the rest of the block is
/// dropped. Returns how many samples were buffered: never more than the
/// block or the capacity, and the whole block wherever it fits beside
/// everything written before.
pub fn capture_block(writer: &mut SampleWriter, data: &[u32]) -> (n: usize)
    ensures
        n <= data@.len(),
        n <= writer_capacity(*old(writer)),
        written_samples(*old(writer)).len() + data@.len() <= writer_capacity(*old(writer))
            ==> n == data@.len(),
        written_samples(*final(writer)) == written_samples(*old(writer)) + data@.take(n as int),
        writer_capacity(*final(writer)) == writer_capacity(*old(writer)),
{
    writer.push_slice(data)
}

/// Puts `silence` in every slot of `out` from position `filled` on, and
/// leaves the slots before it as they are.
pub fn silence_tail<T: Copy>(out: &mut [T], filled: usize, silence: T)
    requires
        filled <= old(out)@.len(),
    ensures
        final(out)@ == old(out)@.take(filled as int) + Seq::new(
            (old(out)@.len() - filled) as nat,
            |i: int| silence,
        ),
{
    let len: usize = out.len();
    let mut i: usize = filled;
    while i < len
        invariant
            filled <= i <= len,
            len == out@.len(),
            len == old(out)@.len(),
            out@.take(filled as int) == old(out)@.take(filled as int),
            forall|k: int| filled <= k < i ==> #[trigger] out@[k] == silence,
        decreases len - i,
    {
        let ghost before = out@;
        out[i] = silence;
        assert(out@.take(filled as int) =~= before.take(filled as int));
        i = i + 1;
    }
    assert(out@ =~= old(out)@.take(filled as int) + Seq::new(
        (old(out)@.len() - filled) as nat,
        |i: int| silence,
    ));
}

/// Fills the playback block `out`: its front with the oldest buffered
/// samples, as many as there are and as fit, and every slot after them with
/// `silence`. Returns how many buffered samples it took; they are the ones
/// the reader's record gains.
pub fn playback_block(reader: &mut SampleReader, out: &mut [u32], silence: u32) -> (n: usize)
    ensures
        n <= old(out)@.len(),
        final(out)@.len() == old(out)@.len(),
        read_samples(*final(reader)) == read_samples(*old(reader)) + final(out)@.take(n as int),
        forall|i: int| n <= i < final(out)@.len() ==> #[trigger] final(out)@[i] == silence,
{
    let n: usize = reader.pop_slice(out);
    let ghost taken = out@.take(n as int);
    silence_tail(out, n, silence);
    assert(out@.take(n as int) =~= taken);
    n
}

} // verus!
