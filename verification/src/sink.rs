//! Byte sinks: an abstract destination for an ordered stream of bytes, and a
//! growable in-memory buffer implementing it.

use vstd::prelude::*;

verus! {

/// The one failure the pipeline can surface: the sink a transcoder forwards
/// to rejected a write or a flush. In-memory sinks never produce it.
#[derive(Clone, Copy, Debug, PartialEq, Eq)]
pub struct SinkWriteFailure;

/// A destination that accepts ordered bytes and can be explicitly flushed.
///
/// `contents()` models the bytes the sink holds, in order. A sink whose
/// `reliable()` is true accepts every write in full, never fails, and keeps
/// its contents across a flush; of other sinks only the accepted count is
/// promised, since they may buffer, truncate or fail as they please.
pub trait ByteSink {
    /// The bytes the sink has accepted so far, in order.
    spec fn contents(&self) -> Seq<u8>;

    /// Whether the sink accepts every write in full and never fails.
    spec fn reliable(&self) -> bool;

    /// Offer `buf` to the sink; the count returned on success says how many
    /// bytes the sink accepted.
    fn write(&mut self, buf: &[u8]) -> (r: Result<usize, SinkWriteFailure>)
        ensures
            r is Ok ==> r->Ok_0 <= buf@.len(),
            old(self).reliable() ==> r is Ok && r->Ok_0 == buf@.len()
                && final(self).contents() == old(self).contents() + buf@
                && final(self).reliable(),
    ;

    /// Ask the sink to make everything written so far durably available.
    fn flush(&mut self) -> (r: Result<(), SinkWriteFailure>)
        ensures
            old(self).reliable() ==> r is Ok && final(self).contents() == old(self).contents()
                && final(self).reliable(),
    ;
}

/// A growable in-memory byte buffer: the reliable sink the challenge
/// evaluator decodes into.
pub struct BufferSink {
    pub buf: Vec<u8>,
}

impl BufferSink {
    /// An empty buffer.
    pub fn new() -> (s: BufferSink)
        ensures
            s.contents() == Seq::<u8>::empty(),
            s.reliable(),
    {
        BufferSink { buf: Vec::new() }
    }

    /// Hand the accumulated bytes back to the caller.
    pub fn into_vec(self) -> (v: Vec<u8>)
        ensures
            v@ == self.contents(),
    {
        self.buf
    }
}

impl ByteSink for BufferSink {
    open spec fn contents(&self) -> Seq<u8> {
        self.buf@
    }

    open spec fn reliable(&self) -> bool {
        true
    }

    fn write(&mut self, buf: &[u8]) -> (r: Result<usize, SinkWriteFailure>) {
        let mut i: usize = 0;
        while i < buf.len()
            invariant
                i <= buf@.len(),
                self.buf@ == old(self).buf@ + buf@.take(i as int),
            decreases buf@.len() - i,
        {
            let b: u8 = buf[i];
            self.buf.push(b);
            assert(self.buf@ =~= old(self).buf@ + buf@.take(i as int + 1));
            i += 1;
        }
        assert(self.buf@ =~= old(self).buf@ + buf@);
        Ok(buf.len())
    }

    fn flush(&mut self) -> (r: Result<(), SinkWriteFailure>) {
        Ok(())
    }
}

} // verus!
