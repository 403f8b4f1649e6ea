//! Transport capabilities the session is generic over: a blocking byte source
//! and a byte sink, plus in-memory implementations for testing and replay.
//!
//! On the target hardware the source and sink are the serial port's read and
//! write primitives; their polling detail is outside this library.  A source
//! is specified by the sequence of bytes it will deliver, a sink by the
//! sequence of bytes it has accepted.

use vstd::prelude::*;

verus! {

/// A byte source: delivers the bytes of `incoming`, in order, one at a time.
pub trait ByteSource {
    /// The bytes this source will still deliver, in order.
    spec fn incoming(&self) -> Seq<u8>;

    /// Take the next byte; `None` means the source has nothing more to
    /// deliver.
    fn recv_byte(&mut self) -> (r: Option<u8>)
        ensures
            match r {
                Some(b) => old(self).incoming().len() > 0 && b == old(self).incoming()[0]
                    && final(self).incoming() == old(self).incoming().skip(1),
                None => old(self).incoming().len() == 0
                    && final(self).incoming() == old(self).incoming(),
            },
    ;
}

/// A byte sink: accepts bytes to transmit, in order.
pub trait ByteSink {
    /// The bytes this sink has accepted so far, in order.
    spec fn sent(&self) -> Seq<u8>;

    /// Hand one byte to the transport.
    fn send_byte(&mut self, b: u8)
        ensures
            final(self).sent() == old(self).sent().push(b),
    ;
}

/// An in-memory byte source over a fixed vector of bytes.
pub struct VecSource {
    /// All bytes of the recorded stream.
    pub data: Vec<u8>,
    /// How many of them have been delivered already.
    pub pos: usize,
}

impl VecSource {
    /// A source that will deliver exactly the given bytes.
    pub fn new(data: Vec<u8>) -> (r: Self)
        ensures
            r.incoming() == data@,
    {
        let r = VecSource { data, pos: 0 };
        proof {
            assert(r.data@.skip(0) =~= r.data@);
        }
        r
    }
}

impl ByteSource for VecSource {
    open spec fn incoming(&self) -> Seq<u8> {
        if self.pos <= self.data@.len() {
            self.data@.skip(self.pos as int)
        } else {
            Seq::empty()
        }
    }

    fn recv_byte(&mut self) -> (r: Option<u8>) {
        if self.pos < self.data.len() {
            let b = self.data[self.pos];
            self.pos = self.pos + 1;
            proof {
                assert(self.data@.skip(self.pos - 1).skip(1) =~= self.data@.skip(self.pos as int));
            }
            Some(b)
        } else {
            None
        }
    }
}

/// An in-memory byte sink that records everything it accepts.
pub struct VecSink {
    /// The bytes accepted so far.
    pub data: Vec<u8>,
}

impl VecSink {
    /// An empty sink.
    pub fn new() -> (r: Self)
        ensures
            r.sent() == Seq::<u8>::empty(),
    {
        VecSink { data: Vec::new() }
    }

    /// Borrow the bytes accepted so far.
    pub fn bytes(&self) -> (r: &Vec<u8>)
        ensures
            r@ == self.sent(),
    {
        &self.data
    }
}

impl ByteSink for VecSink {
    open spec fn sent(&self) -> Seq<u8> {
        self.data@
    }

    fn send_byte(&mut self, b: u8) {
        self.data.push(b);
    }
}

} // verus!
