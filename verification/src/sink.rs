//! Output sinks for the streaming encode path.
//!
//! A sink has a single capability: accept a byte sequence for writing,
//! reporting success or failure per write. Its `sunk` view is the sequence
//! of bytes it has accepted so far, and its `accepts` predicate says which
//! writes it takes from its current state: a write succeeds if and only if
//! the sink accepts it.

use vstd::prelude::*;

verus! {

/// An output sink that accepts byte sequences, all or nothing per call.
pub trait Sink {
    /// The bytes the sink has accepted so far.
    spec fn sunk(&self) -> Seq<u8>;

    /// Whether the sink, from its current state, accepts a run of writes
    /// totalling `bytes`.
    spec fn accepts(&self, bytes: Seq<u8>) -> bool;

    /// Accepts all of `buf`, or rejects the write and accepts none of it.
    /// Succeeds exactly when the sink accepts `buf`; a successful write
    /// shifts what the sink accepts next by the bytes just taken.
    fn write_all(&mut self, buf: &[u8]) -> (r: Result<(), ()>)
        ensures
            r is Ok <==> old(self).accepts(buf@),
            r is Ok ==> final(self).sunk() == old(self).sunk() + buf@,
            r is Ok ==> forall|more: Seq<u8>|
                #[trigger] final(self).accepts(more) <==> old(self).accepts(buf@ + more),
            r is Err ==> final(self).sunk() == old(self).sunk(),
    ;
}

/// A growable sink: every write succeeds and appends to the vector.
impl Sink for Vec<u8> {
    open spec fn sunk(&self) -> Seq<u8> {
        self@
    }

    open spec fn accepts(&self, bytes: Seq<u8>) -> bool {
        true
    }

    fn write_all(&mut self, buf: &[u8]) -> (r: Result<(), ()>) {
        self.extend_from_slice(buf);
        Ok(())
    }
}

/// A sink over a buffer of fixed capacity: a write that would overflow the
/// remaining room is rejected whole.
pub struct BoundedSink {
    buf: Vec<u8>,
    capacity: usize,
}

impl BoundedSink {
    /// How many bytes the sink can accept in all.
    pub closed spec fn spec_capacity(self) -> nat {
        self.capacity as nat
    }

    /// An empty sink that accepts up to `capacity` bytes.
    pub fn new(capacity: usize) -> (r: BoundedSink)
        ensures
            r.sunk() == Seq::<u8>::empty(),
            r.spec_capacity() == capacity,
    {
        BoundedSink { buf: Vec::new(), capacity }
    }

    /// The bytes accepted so far.
    pub fn bytes(&self) -> (r: &Vec<u8>)
        ensures
            r@ == self.sunk(),
    {
        &self.buf
    }
}

impl Sink for BoundedSink {
    closed spec fn sunk(&self) -> Seq<u8> {
        self.buf@
    }

    open spec fn accepts(&self, bytes: Seq<u8>) -> bool {
        self.sunk().len() + bytes.len() <= self.spec_capacity()
    }

    fn write_all(&mut self, buf: &[u8]) -> (r: Result<(), ()>)
        ensures
            final(self).spec_capacity() == old(self).spec_capacity(),
    {
        if buf.len() <= self.capacity && self.buf.len() <= self.capacity - buf.len() {
            self.buf.extend_from_slice(buf);
            Ok(())
        } else {
            Err(())
        }
    }
}

} // verus!
