//! A value model of a 32-bit hardware register: an address and a snapshot of
//! the register's value, with verified bit-field arithmetic.
//!
//! The volatile load and store that move a snapshot to and from the device,
//! and the polling loop built on them, belong to the platform code outside
//! this library; everything that only computes on the snapshot lives here.

use vstd::prelude::*;

verus! {

/// The mask selecting `len` low bits.
pub open spec fn spec_mask(len: u32) -> u32
    recommends
        len <= 32,
{
    ((1u64 << len) - 1) as u32
}

/// A register value with `x` stored in the field of `len` bits at `shift`.
pub open spec fn spec_set_field(v: u32, shift: u32, len: u32, x: u32) -> u32 {
    (v & !(spec_mask(len) << shift)) | (x << shift)
}

/// The field of `len` bits at `shift` of a register value.
pub open spec fn spec_get_field(v: u32, shift: u32, len: u32) -> u32 {
    (v >> shift) & spec_mask(len)
}

/// Writing a field and reading it back yields the value written.
pub proof fn lemma_set_then_get_field(v: u32, shift: u32, len: u32, x: u32)
    by (bit_vector)
    requires
        0 < len,
        shift + len <= 32,
        x <= spec_mask(len),
    ensures
        spec_get_field(spec_set_field(v, shift, len, x), shift, len) == x,
{
}

/// Writing a field leaves every bit outside the field unchanged.
pub proof fn lemma_set_field_frames_rest(v: u32, shift: u32, len: u32, x: u32, i: u32)
    by (bit_vector)
    requires
        0 < len,
        shift + len <= 32,
        x <= spec_mask(len),
        i < 32,
        i < shift || shift + len <= i,
    ensures
        (spec_set_field(v, shift, len, x) >> i) & 1 == (v >> i) & 1,
{
}

/// A register address together with a value read from it or to be written to
/// it.
#[derive(Clone, Copy, PartialEq, Eq, Debug)]
#[must_use]
pub struct Reg32 {
    /// The register's bus address.
    pub addr: u64,
    /// The value snapshot being composed.
    pub v: u32,
}

impl Reg32 {
    /// An all-zero value for the register at `addr`.
    pub fn zero(addr: u64) -> (r: Self)
        ensures
            r.addr == addr,
            r.v == 0,
    {
        Reg32 { addr, v: 0 }
    }

    /// A snapshot of the register at `addr` holding the value `v`, as a
    /// volatile load would produce it.
    pub fn with_value(addr: u64, v: u32) -> (r: Self)
        ensures
            r.addr == addr,
            r.v == v,
    {
        Reg32 { addr, v }
    }

    /// The value snapshot.
    pub fn value(&self) -> (r: u32)
        ensures
            r == self.v,
    {
        self.v
    }

    /// Replace the field of `LEN` bits at `SHIFT` with `v`.
    pub fn set_field<const SHIFT: usize, const LEN: usize>(self, v: u32) -> (r: Self)
        requires
            0 < LEN,
            SHIFT + LEN <= 32,
            v <= spec_mask(LEN as u32),
        ensures
            r.addr == self.addr,
            r.v == spec_set_field(self.v, SHIFT as u32, LEN as u32, v),
    {
        let sh: u32 = SHIFT as u32;
        let ln: u32 = LEN as u32;
        proof {
            assert(1 <= (1u64 << ln) && (1u64 << ln) - 1 <= 0xffff_ffff && sh < 32) by (bit_vector)
                requires
                    0 < ln && sh + ln <= 32,
            ;
        }
        let mask: u32 = ((1u64 << ln) - 1) as u32;
        Reg32 { addr: self.addr, v: (self.v & !(mask << sh)) | (v << sh) }
    }

    /// The value with `v` AND-ed in.
    pub fn and(self, v: u32) -> (r: Self)
        ensures
            r.addr == self.addr,
            r.v == self.v & v,
    {
        Reg32 { addr: self.addr, v: self.v & v }
    }

    /// The value with `v` OR-ed in.
    pub fn or(self, v: u32) -> (r: Self)
        ensures
            r.addr == self.addr,
            r.v == self.v | v,
    {
        Reg32 { addr: self.addr, v: self.v | v }
    }

    /// Whether the bit at `SHIFT` is set.
    pub fn is_bit_set<const SHIFT: usize>(&self) -> (r: bool)
        requires
            SHIFT < 32,
        ensures
            r == ((self.v >> (SHIFT as u32)) & 1 == 1),
    {
        let sh: u32 = SHIFT as u32;
        proof {
            let w = self.v;
            assert((w & (1u32 << sh) != 0) == ((w >> sh) & 1 == 1)) by (bit_vector)
                requires
                    sh < 32,
            ;
        }
        (self.v & (1u32 << sh)) != 0
    }

    /// Extract the field of `LEN` bits at `SHIFT`.
    pub fn field<const SHIFT: usize, const LEN: usize>(&self) -> (r: u32)
        requires
            0 < LEN,
            SHIFT + LEN <= 32,
        ensures
            r == spec_get_field(self.v, SHIFT as u32, LEN as u32),
    {
        let sh: u32 = SHIFT as u32;
        let ln: u32 = LEN as u32;
        proof {
            assert(1 <= (1u64 << ln) && (1u64 << ln) - 1 <= 0xffff_ffff && sh < 32) by (bit_vector)
                requires
                    0 < ln && sh + ln <= 32,
            ;
        }
        let mask: u32 = ((1u64 << ln) - 1) as u32;
        (self.v >> sh) & mask
    }
}

} // verus!
