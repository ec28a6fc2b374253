//! Byte source and sink capabilities.
//!
//! The streaming reader and writer are generic over these two traits rather
//! than over a concrete transport: a source yields one byte at a time until
//! it runs dry, a sink accepts byte sequences and may fail.  [`MemSource`]
//! and [`VecSink`] are the crate's own in-memory implementations.

use vstd::prelude::*;

use crate::scan::append_slice;

verus! {

/// A pull-based byte source.  Implementations decide when bytes arrive, when
/// the stream ends and when it fails; the crate's readers are verified for
/// every such behaviour.
pub trait ByteSource {
    /// Upper bound on the number of bytes this source can still yield; the
    /// crate's readers use it as a termination measure when draining a
    /// source.
    spec fn remaining(&self) -> nat;

    /// Yield the next byte, `Ok(None)` at the end of the stream, or an I/O
    /// failure.
    fn next_byte(&mut self) -> (r: Result<Option<u8>, std::io::Error>)
        ensures
            (r matches Ok(Some(_))) ==> final(self).remaining() < old(self).remaining(),
    ;
}

/// A push-based byte sink.  `sunk` is the sequence of all bytes the sink has
/// accepted; after a failure nothing is promised about it (a partial write
/// is not rolled back).
pub trait ByteSink {
    /// All bytes this sink has accepted so far.
    spec fn sunk(&self) -> Seq<u8>;

    /// Accept a sequence of bytes, or fail.
    fn put_bytes(&mut self, data: &[u8]) -> (r: Result<(), std::io::Error>)
        ensures
            (r is Ok) ==> final(self).sunk() == old(self).sunk() + data@,
    ;

    /// Flush whatever the sink buffers; accepted bytes are kept.
    fn flush_sink(&mut self) -> (r: Result<(), std::io::Error>)
        ensures
            (r is Ok) ==> final(self).sunk() == old(self).sunk(),
    ;
}

/// An in-memory byte source that yields the bytes of a vector in order and
/// then reports end of stream.
pub struct MemSource {
    data: Vec<u8>,
    pos: usize,
}

impl MemSource {
    /// Source that will yield exactly the bytes of `data`, in order.
    pub fn new(data: Vec<u8>) -> (r: Self)
        ensures
            r.remaining() == data@.len(),
    {
        MemSource { data, pos: 0 }
    }
}

impl ByteSource for MemSource {
    closed spec fn remaining(&self) -> nat {
        if self.pos <= self.data@.len() {
            (self.data@.len() - self.pos) as nat
        } else {
            0
        }
    }

    fn next_byte(&mut self) -> (r: Result<Option<u8>, std::io::Error>) {
        if self.pos < self.data.len() {
            let b = self.data[self.pos];
            self.pos = self.pos + 1;
            Ok(Some(b))
        } else {
            Ok(None)
        }
    }
}

/// An in-memory sink that appends every byte it accepts to a vector and
/// never fails.
pub struct VecSink {
    /// The bytes accepted so far.
    pub data: Vec<u8>,
}

impl VecSink {
    /// An empty sink.
    pub fn new() -> (r: Self)
        ensures
            r.sunk() == Seq::<u8>::empty(),
    {
        VecSink { data: Vec::new() }
    }
}

impl ByteSink for VecSink {
    open spec fn sunk(&self) -> Seq<u8> {
        self.data@
    }

    fn put_bytes(&mut self, data: &[u8]) -> (r: Result<(), std::io::Error>) {
        append_slice(&mut self.data, data);
        Ok(())
    }

    fn flush_sink(&mut self) -> (r: Result<(), std::io::Error>) {
        Ok(())
    }
}

} // verus!
