//! The destination buffer: a capacity-bounded byte region that decoded
//! payload bytes are written into at a strictly forward-moving offset.
//!
//! Every write is validated against the remaining capacity before it commits,
//! so a subpacket that would run past the end is reported as an overrun
//! instead of silently truncated.

use vstd::prelude::*;

verus! {

/// A caller-supplied byte region with a fixed capacity and a forward-only
/// write cursor.
pub struct DestBuffer {
    data: Vec<u8>,
    cap: usize,
}

impl View for DestBuffer {
    type V = Seq<u8>;

    /// The bytes written so far, in order.
    closed spec fn view(&self) -> Seq<u8> {
        self.data@
    }
}

impl DestBuffer {
    /// The fixed capacity in bytes.
    pub closed spec fn spec_capacity(&self) -> nat {
        self.cap as nat
    }

    /// Well-formedness: never more bytes than the capacity allows.
    pub open spec fn wf(&self) -> bool {
        self@.len() <= self.spec_capacity()
    }

    /// An empty buffer with room for `capacity` bytes.
    pub fn new(capacity: usize) -> (r: Self)
        ensures
            r.wf(),
            r@ == Seq::<u8>::empty(),
            r.spec_capacity() == capacity,
    {
        DestBuffer { data: Vec::new(), cap: capacity }
    }

    /// The fixed capacity in bytes.
    pub fn capacity(&self) -> (r: usize)
        ensures
            r == self.spec_capacity(),
    {
        self.cap
    }

    /// How many bytes have been written so far.
    pub fn len(&self) -> (r: usize)
        ensures
            r == self@.len(),
    {
        self.data.len()
    }

    /// How much room is left.
    pub fn remaining(&self) -> (r: usize)
        requires
            self.wf(),
        ensures
            r == self.spec_capacity() - self@.len(),
    {
        self.cap - self.data.len()
    }

    /// Append one byte at the cursor; the caller has checked there is room.
    pub fn push_byte(&mut self, b: u8)
        requires
            old(self).wf(),
            old(self)@.len() < old(self).spec_capacity(),
        ensures
            final(self).wf(),
            final(self)@ == old(self)@.push(b),
            final(self).spec_capacity() == old(self).spec_capacity(),
    {
        self.data.push(b);
    }

    /// Borrow the bytes written so far.
    pub fn as_bytes(&self) -> (r: &Vec<u8>)
        ensures
            r@ == self@,
    {
        &self.data
    }
}

} // verus!
