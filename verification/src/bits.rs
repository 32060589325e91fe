//! The bit-vectors that mark which submissions a ballot touched.
//!
//! The storage is `bitvec`'s `BitVec`, held in a private field of `Bits`
//! (Verus does not accept a declaration of `BitVec` with its `BitStore` and
//! `BitOrder` bounds). Verus sees the contents through `bits_of`, and every
//! operation the library uses goes through one of the functions below, whose
//! contracts are taken on trust.
use vstd::prelude::*;
use bitvec::vec::BitVec;

verus! {

/// A `BitVec` with the crate's default storage and bit order.
#[verifier::external_body]
pub struct Bits {
    inner: BitVec,
}

/// The bits held by a bit-vector, lowest index first.
pub uninterp spec fn bits_of(v: Bits) -> Seq<bool>;

/// The largest length that `BitVec::repeat` accepts without panicking
/// (`BitSpan::REGION_MAX_BITS`, all bits of a `usize` but the top three).
pub open spec fn max_bits() -> nat {
    (usize::MAX as nat) / 8
}

/// `BitVec::repeat(false, len)`: a bit-vector of `len` cleared bits. The crate
/// panics on a length above `max_bits()`, which `requires` leaves out.
#[verifier::external_body]
pub(crate) fn zeroed(len: usize) -> (r: Bits)
    requires
        len <= max_bits(),
    ensures
        bits_of(r) == Seq::new(len as nat, |i: int| false),
{
    Bits { inner: BitVec::repeat(false, len) }
}

/// `BitSlice::set(index, value)`, reached through the vector: writes one bit.
/// The crate panics on an index out of bounds, which `requires` leaves out.
#[verifier::external_body]
pub(crate) fn set_bit(v: &mut Bits, index: usize, value: bool)
    requires
        index < bits_of(*old(v)).len(),
    ensures
        bits_of(*final(v)) == bits_of(*old(v)).update(index as int, value),
{
    v.inner.set(index, value);
}

/// `Index<usize>` of `BitSlice`, reached through the vector: reads one bit.
/// The crate panics on an index out of bounds, which `requires` leaves out.
#[verifier::external_body]
pub(crate) fn get_bit(v: &Bits, index: usize) -> (b: bool)
    requires
        index < bits_of(*v).len(),
    ensures
        b == bits_of(*v)[index as int],
{
    v.inner[index]
}

} // verus!
