//! Page bitmaps, stored as `bitvec` bit-vectors.
//!
//! A page bitmap records one bit per 4 KiB page of the state-vector
//! region; bit `p` set means "page `p` is wanted". The `bitvec` crate
//! packs the bits into machine words, which keeps per-gate schedules
//! small. The bit-vector sits in an opaque wrapper; [`bits_of`] names
//! its abstract contents, and each method is a trusted wrapper around
//! the one `bitvec` operation the engine performs on bitmaps.

use vstd::prelude::*;
use bitvec::order::Lsb0;
use bitvec::vec::BitVec;

verus! {

/// A bitmap over the pages of the state-vector region.
#[verifier::external_body]
pub struct PageBits {
    bits: BitVec<usize, Lsb0>,
}

/// The sequence of bits a page bitmap holds, in index order.
pub uninterp spec fn bits_of(b: PageBits) -> Seq<bool>;

impl PageBits {
    /// Relies on bitvec's `BitVec::repeat`: builds a bit-vector of `len`
    /// copies of the given bit.
    #[verifier::external_body]
    pub fn filled(value: bool, len: usize) -> (r: PageBits)
        ensures
            bits_of(r) == Seq::new(len as nat, |i: int| value),
    {
        PageBits { bits: BitVec::repeat(value, len) }
    }

    /// Relies on bitvec's `BitVec::len`: the number of bits held.
    #[verifier::external_body]
    pub fn len(&self) -> (r: usize)
        ensures
            r as nat == bits_of(*self).len(),
    {
        self.bits.len()
    }

    /// Relies on bitvec's `BitSlice::set`: writes one bit in place; panics
    /// outside `0 .. len`, which the precondition rules out.
    #[verifier::external_body]
    pub fn set(&mut self, index: usize, value: bool)
        requires
            (index as nat) < bits_of(*old(self)).len(),
        ensures
            bits_of(*final(self)) == bits_of(*old(self)).update(index as int, value),
    {
        self.bits.set(index, value);
    }

    /// Relies on bitvec's `BitSlice::fill`: sets every bit to the given value.
    #[verifier::external_body]
    pub fn fill(&mut self, value: bool)
        ensures
            bits_of(*final(self)) == Seq::new(bits_of(*old(self)).len(), |i: int| value),
    {
        self.bits.fill(value);
    }

    /// Relies on bitvec's `Index<usize>` for bit-slices: reads one bit;
    /// panics outside `0 .. len`, which the precondition rules out.
    #[verifier::external_body]
    pub fn get(&self, index: usize) -> (r: bool)
        requires
            (index as nat) < bits_of(*self).len(),
        ensures
            r == bits_of(*self)[index as int],
    {
        self.bits[index]
    }

    /// Relies on bitvec's `Clone` for `BitVec`: the copy holds the same bits.
    #[verifier::external_body]
    pub fn clone_bits(&self) -> (r: PageBits)
        ensures
            bits_of(r) == bits_of(*self),
    {
        PageBits { bits: self.bits.clone() }
    }
}

} // verus!
