//! Per-node state is kept in packed bit-vectors from the `bitvec`
//! crate.  Verus cannot read that type, so this module holds it in an
//! opaque wrapper and gives each operation the engine uses a contract
//! over `bits_of`, the mathematical sequence of bits a vector holds.

use vstd::prelude::*;

verus! {

/// A packed vector of bits, backed by `bitvec`'s vector in its
/// default layout.
#[verifier::external_body]
pub struct Bits {
    inner: bitvec::vec::BitVec<usize, bitvec::order::Lsb0>,
}

/// The sequence of bits a vector holds, in index order.
pub uninterp spec fn bits_of(v: Bits) -> Seq<bool>;

impl Bits {
    /// Relies on BitVec::repeat: a vector of `len` copies of `bit`.
    #[verifier::external_body]
    pub fn repeat(bit: bool, len: usize) -> (r: Bits)
        ensures
            bits_of(r) == Seq::new(len as nat, |i: int| bit),
    {
        Bits { inner: bitvec::vec::BitVec::repeat(bit, len) }
    }

    /// Relies on BitVec::len: the number of bits held.
    #[verifier::external_body]
    pub fn len(&self) -> (r: usize)
        ensures
            r == bits_of(*self).len(),
    {
        self.inner.len()
    }

    /// Relies on BitSlice's Index impl: the bit at `index`.
    #[verifier::external_body]
    pub fn get(&self, index: usize) -> (r: bool)
        requires
            index < bits_of(*self).len(),
        ensures
            r == bits_of(*self)[index as int],
    {
        self.inner[index]
    }

    /// Relies on BitSlice::set: writes one bit in place.
    #[verifier::external_body]
    pub fn set(&mut self, index: usize, bit: bool)
        requires
            index < bits_of(*old(self)).len(),
        ensures
            bits_of(*final(self)) == bits_of(*old(self)).update(index as int, bit),
    {
        self.inner.set(index, bit)
    }

    /// Relies on BitVec::push: appends one bit.
    #[verifier::external_body]
    pub fn push(&mut self, bit: bool)
        requires
            bits_of(*old(self)).len() < 65536,
        ensures
            bits_of(*final(self)) == bits_of(*old(self)).push(bit),
    {
        self.inner.push(bit)
    }

    /// Relies on BitVec's Clone impl: an equal, independent vector.
    #[verifier::external_body]
    pub fn clone_bits(&self) -> (r: Bits)
        ensures
            bits_of(r) == bits_of(*self),
    {
        Bits { inner: self.inner.clone() }
    }

    /// Relies on BitSlice::any over a prefix: whether any of the
    /// first `upto` bits is set.
    #[verifier::external_body]
    pub fn any_upto(&self, upto: usize) -> (r: bool)
        requires
            upto <= bits_of(*self).len(),
        ensures
            r == (exists|i: int| 0 <= i < upto && bits_of(*self)[i]),
    {
        self.inner[..upto].any()
    }
}

} // verus!
