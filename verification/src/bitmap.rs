//! The allocation bitmap of the frame pool, kept in a `bitvec` bit-vector.

use vstd::prelude::*;
use bitvec::order::Lsb0;
use bitvec::vec::BitVec;

verus! {

/// A growable sequence of bits. The bit-vector inside is opaque to the
/// verifier: all that is known of it comes from the functions below.
#[verifier::external_body]
pub struct Bitmap {
    bits: BitVec<usize, Lsb0>,
}

/// The bits that a bitmap holds, from index 0 up.
pub uninterp spec fn bits_of(bitmap: Bitmap) -> Seq<bool>;

/// The most bits that a bit-vector can hold: an eighth of the range of
/// `usize`, rounded down.
pub open spec fn max_bits() -> nat {
    (usize::MAX / 8) as nat
}

/// `BitVec::new`: a bit-vector without bits.
#[verifier::external_body]
pub(crate) fn bitmap_new() -> (bitmap: Bitmap)
    ensures
        bits_of(bitmap) == Seq::<bool>::empty(),
{
    Bitmap { bits: BitVec::new() }
}

/// `BitVec::len`: the number of bits held.
#[verifier::external_body]
pub(crate) fn bitmap_len(bitmap: &Bitmap) -> (len: usize)
    ensures
        len == bits_of(*bitmap).len(),
{
    bitmap.bits.len()
}

/// `BitSlice::get` with a `usize` index: the bit at `index`, or `None` when
/// `index` is not below the length.
#[verifier::external_body]
pub(crate) fn bitmap_get(bitmap: &Bitmap, index: usize) -> (bit: Option<bool>)
    ensures
        bit == if index < bits_of(*bitmap).len() {
            Some(bits_of(*bitmap)[index as int])
        } else {
            None
        },
{
    bitmap.bits.get(index).as_deref().copied()
}

/// `BitSlice::set`: the bit at `index` becomes `value` and every other bit
/// stays. The call panics when `index` is not below the length.
#[verifier::external_body]
pub(crate) fn bitmap_set(bitmap: &mut Bitmap, index: usize, value: bool)
    requires
        index < bits_of(*old(bitmap)).len(),
    ensures
        bits_of(*final(bitmap)) == bits_of(*old(bitmap)).update(index as int, value),
{
    bitmap.bits.set(index, value)
}

/// `BitVec::push`: `value` is appended behind the bits held. The call
/// panics when the new length would exceed the most a bit-vector can hold.
#[verifier::external_body]
pub(crate) fn bitmap_push(bitmap: &mut Bitmap, value: bool)
    requires
        bits_of(*old(bitmap)).len() < max_bits(),
    ensures
        bits_of(*final(bitmap)) == bits_of(*old(bitmap)).push(value),
{
    bitmap.bits.push(value)
}

/// `BitVec::reserve`: room is made for `additional` more bits; the bits
/// held stay as they were. The call panics when the length plus
/// `additional` exceeds the most a bit-vector can hold.
#[verifier::external_body]
pub(crate) fn bitmap_reserve(bitmap: &mut Bitmap, additional: usize)
    requires
        bits_of(*old(bitmap)).len() + additional <= max_bits(),
    ensures
        bits_of(*final(bitmap)) == bits_of(*old(bitmap)),
{
    bitmap.bits.reserve(additional)
}

/// `BitVec::clone`: a bit-vector of its own that holds the same bits.
#[verifier::external_body]
pub(crate) fn bitmap_clone(bitmap: &Bitmap) -> (copy: Bitmap)
    ensures
        bits_of(copy) == bits_of(*bitmap),
{
    Bitmap { bits: bitmap.bits.clone() }
}

} // verus!
