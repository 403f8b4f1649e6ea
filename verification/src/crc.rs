//! CCITT-style 16-bit cyclic redundancy check (polynomial 0x1021), as used by
//! XMODEM/ZMODEM.
//!
//! The accumulator folds one byte at a time into a 16-bit state; `finish`
//! flushes the register by feeding two zero bytes.  The validation rule used
//! throughout the protocol: accumulate a data region and its two trailing CRC
//! bytes, in order; the transmission is valid iff the finalized value is zero.

use vstd::prelude::*;

verus! {

/// One row of the classic 256-entry CRC-CCITT table, in closed form:
/// the value obtained by shifting `i` through the polynomial 0x1021 eight
/// times, which for this polynomial reduces to three shifted copies of
/// `i ^ (i >> 4)`.
pub open spec fn spec_crc_table(i: u16) -> u16 {
    let t = (i ^ (i >> 4)) & 0xff;
    (t << 12) ^ (t << 5) ^ t
}

/// Fold one byte into the 16-bit accumulator state.
pub open spec fn spec_crc_step(c: u16, b: u8) -> u16 {
    spec_crc_table(c >> 8) ^ (c << 8) ^ (b as u16)
}

/// Fold a whole byte sequence into the accumulator, first byte first.
pub open spec fn spec_crc_seq(c: u16, s: Seq<u8>) -> u16
    decreases s.len(),
{
    if s.len() == 0 {
        c
    } else {
        spec_crc_seq(spec_crc_step(c, s[0]), s.skip(1))
    }
}

/// Flush the register by feeding two zero bytes.
pub open spec fn spec_crc_finish(c: u16) -> u16 {
    spec_crc_step(spec_crc_step(c, 0), 0)
}

/// The finalized CRC of a byte sequence, starting from the zero state.
pub open spec fn spec_crc_of(s: Seq<u8>) -> u16 {
    spec_crc_finish(spec_crc_seq(0, s))
}

/// Mutable 16-bit CRC accumulator state, initialized to zero per frame.
pub struct Crc16(pub u16);

impl Default for Crc16 {
    /// A fresh accumulator starts from the zero state.
    fn default() -> (r: Self)
        ensures
            r.0 == 0,
    {
        Crc16(0)
    }
}

impl Crc16 {
    /// Fold one byte into the state.
    pub fn update(&mut self, b: u8)
        ensures
            final(self).0 == spec_crc_step(old(self).0, b),
    {
        let i: u16 = self.0 >> 8;
        let t: u16 = (i ^ (i >> 4)) & 0xff;
        let row: u16 = (t << 12) ^ (t << 5) ^ t;
        self.0 = row ^ (self.0 << 8) ^ (b as u16);
    }

    /// Feed two zero bytes to flush the register and return the final value.
    pub fn finish(&mut self) -> (r: u16)
        ensures
            r == spec_crc_finish(old(self).0),
            final(self).0 == spec_crc_finish(old(self).0),
    {
        self.update(0);
        self.update(0);
        self.0
    }
}

/// Accumulating is associative over concatenation: running the accumulator
/// over `s + t` equals running it over `s`, then over `t`.
pub proof fn lemma_crc_seq_append(c: u16, s: Seq<u8>, t: Seq<u8>)
    ensures
        spec_crc_seq(c, s + t) == spec_crc_seq(spec_crc_seq(c, s), t),
    decreases s.len(),
{
    if s.len() == 0 {
        assert(s + t =~= t);
    } else {
        assert((s + t)[0] == s[0]);
        assert((s + t).skip(1) =~= s.skip(1) + t);
        lemma_crc_seq_append(spec_crc_step(c, s[0]), s.skip(1), t);
    }
}

/// Folding one more byte onto the end of a sequence is one more step.
pub proof fn lemma_crc_seq_push(c: u16, s: Seq<u8>, b: u8)
    ensures
        spec_crc_seq(c, s.push(b)) == spec_crc_step(spec_crc_seq(c, s), b),
{
    assert(s.push(b) =~= s + seq![b]);
    lemma_crc_seq_append(c, s, seq![b]);
    assert(spec_crc_seq(spec_crc_seq(c, s), seq![b]) == spec_crc_step(spec_crc_seq(c, s), b)) by {
        reveal_with_fuel(spec_crc_seq, 3);
        assert(seq![b].skip(1) =~= Seq::<u8>::empty());
    }
}

/// Folding a two-byte sequence is two steps.
pub proof fn lemma_crc_seq_two(c: u16, b1: u8, b2: u8)
    ensures
        spec_crc_seq(c, seq![b1, b2]) == spec_crc_step(spec_crc_step(c, b1), b2),
{
    reveal_with_fuel(spec_crc_seq, 4);
    assert(seq![b1, b2].skip(1) =~= seq![b2]);
    assert(seq![b2].skip(1) =~= Seq::<u8>::empty());
}

/// Core feedback identity of the CRC register: from any state `c`, feeding the
/// two big-endian bytes of `spec_crc_finish(c)` and finalizing yields zero.
pub proof fn lemma_crc_feedback(c: u16)
    by (bit_vector)
    ensures
        spec_crc_finish(
            spec_crc_step(
                spec_crc_step(c, (spec_crc_finish(c) >> 8) as u8),
                spec_crc_finish(c) as u8,
            ),
        ) == 0,
{
}

/// Stepping the accumulator is injective in the state: distinct states stay
/// distinct after absorbing the same byte.
pub proof fn lemma_crc_step_state_injective(c1: u16, c2: u16, b: u8)
    by (bit_vector)
    requires
        c1 != c2,
    ensures
        spec_crc_step(c1, b) != spec_crc_step(c2, b),
{
}

/// Stepping the accumulator is injective in the byte: from one state, distinct
/// bytes lead to distinct states.
pub proof fn lemma_crc_step_byte_injective(c: u16, b1: u8, b2: u8)
    by (bit_vector)
    requires
        b1 != b2,
    ensures
        spec_crc_step(c, b1) != spec_crc_step(c, b2),
{
}

/// Distinct states stay distinct after absorbing any common byte sequence.
pub proof fn lemma_crc_seq_state_injective(c1: u16, c2: u16, s: Seq<u8>)
    requires
        c1 != c2,
    ensures
        spec_crc_seq(c1, s) != spec_crc_seq(c2, s),
    decreases s.len(),
{
    if s.len() > 0 {
        lemma_crc_step_state_injective(c1, c2, s[0]);
        lemma_crc_seq_state_injective(spec_crc_step(c1, s[0]), spec_crc_step(c2, s[0]), s.skip(1));
    }
}

/// Finalizing keeps distinct states distinct.
pub proof fn lemma_crc_finish_injective(c1: u16, c2: u16)
    requires
        c1 != c2,
    ensures
        spec_crc_finish(c1) != spec_crc_finish(c2),
{
    lemma_crc_step_state_injective(c1, c2, 0);
    lemma_crc_step_state_injective(spec_crc_step(c1, 0), spec_crc_step(c2, 0), 0);
}

/// CRC round trip: accumulating any byte sequence and then the two big-endian
/// bytes of its own finalization always finalizes to zero.
pub proof fn lemma_crc_round_trip(s: Seq<u8>)
    ensures
        ({
            let f = spec_crc_of(s);
            spec_crc_of(s + seq![(f >> 8) as u8, f as u8]) == 0
        }),
{
    let c = spec_crc_seq(0, s);
    let f = spec_crc_finish(c);
    let tail = seq![(f >> 8) as u8, f as u8];
    lemma_crc_seq_append(0, s, tail);
    lemma_crc_seq_two(c, (f >> 8) as u8, f as u8);
    lemma_crc_feedback(c);
}

/// Corruption detection: if two equally long byte sequences differ in exactly
/// one byte, their finalized CRC values differ; in particular, if the intact
/// sequence (data plus its trailing CRC bytes) finalizes to zero, the
/// corrupted one does not.
pub proof fn lemma_crc_detects_corruption(s1: Seq<u8>, s2: Seq<u8>, k: int)
    requires
        s1.len() == s2.len(),
        0 <= k < s1.len(),
        s1[k] != s2[k],
        forall|i: int| 0 <= i < s1.len() && i != k ==> s1[i] == s2[i],
    ensures
        spec_crc_of(s1) != spec_crc_of(s2),
{
    let pre1 = s1.take(k);
    let pre2 = s2.take(k);
    assert(pre1 =~= pre2);
    let mid1 = s1.skip(k);
    let mid2 = s2.skip(k);
    assert(s1 =~= pre1 + mid1);
    assert(s2 =~= pre2 + mid2);
    lemma_crc_seq_append(0, pre1, mid1);
    lemma_crc_seq_append(0, pre2, mid2);
    let c = spec_crc_seq(0, pre1);
    assert(mid1[0] == s1[k]);
    assert(mid2[0] == s2[k]);
    lemma_crc_step_byte_injective(c, s1[k], s2[k]);
    assert(mid1.skip(1) =~= mid2.skip(1)) by {
        assert forall|i: int| 0 <= i < mid1.skip(1).len() implies mid1.skip(1)[i] == mid2.skip(1)[i] by {
            assert(mid1.skip(1)[i] == s1[k + 1 + i]);
            assert(mid2.skip(1)[i] == s2[k + 1 + i]);
        }
    }
    lemma_crc_seq_state_injective(
        spec_crc_step(c, s1[k]),
        spec_crc_step(c, s2[k]),
        mid1.skip(1),
    );
    lemma_crc_finish_injective(spec_crc_seq(0, s1), spec_crc_seq(0, s2));
}

} // verus!
