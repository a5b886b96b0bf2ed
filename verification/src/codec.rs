//! Little-endian encoding of unsigned integers.

use vstd::prelude::*;
use byteorder::{ByteOrder, LittleEndian};

verus! {

/// The number that `bytes` spell, least significant byte first.
pub open spec fn le_value(bytes: Seq<u8>) -> nat
    decreases bytes.len(),
{
    if bytes.len() == 0 {
        0
    } else {
        bytes[0] as nat + 256 * le_value(bytes.skip(1))
    }
}

/// The `width` lowest bytes of `value`, least significant byte first.
pub open spec fn le_bytes(value: nat, width: nat) -> Seq<u8>
    decreases width,
{
    if width == 0 {
        Seq::empty()
    } else {
        seq![(value % 256) as u8] + le_bytes(value / 256, (width - 1) as nat)
    }
}

/// The number of values that `width` bytes can spell.
pub open spec fn radix(width: nat) -> nat
    decreases width,
{
    if width == 0 {
        1
    } else {
        256 * radix((width - 1) as nat)
    }
}

pub proof fn lemma_le_bytes_len(value: nat, width: nat)
    ensures
        le_bytes(value, width).len() == width,
    decreases width,
{
    if width > 0 {
        lemma_le_bytes_len(value / 256, (width - 1) as nat);
    }
}

/// One byte is its own encoding.
pub proof fn lemma_le_bytes_one(value: u8)
    ensures
        le_bytes(value as nat, 1) == seq![value],
        le_value(seq![value]) == value,
{
    assert(le_bytes(value as nat / 256, 0) =~= Seq::<u8>::empty());
    assert(le_bytes(value as nat, 1) =~= seq![value]);
    assert(seq![value].skip(1) =~= Seq::<u8>::empty());
    assert(le_value(seq![value].skip(1)) == 0);
}

/// Decoding what was encoded gives the value back, as long as the value
/// fits the width.
pub proof fn lemma_le_roundtrip(value: nat, width: nat)
    requires
        value < radix(width),
    ensures
        le_value(le_bytes(value, width)) == value,
    decreases width,
{
    if width > 0 {
        let rest = le_bytes(value / 256, (width - 1) as nat);
        let all = le_bytes(value, width);
        lemma_le_roundtrip(value / 256, (width - 1) as nat);
        assert(all.skip(1) =~= rest);
    }
}

/// The widths of the typed accessors hold every value of their type.
pub proof fn lemma_radix_values()
    ensures
        radix(1) == 0x100,
        radix(2) == 0x1_0000,
        radix(4) == 0x1_0000_0000,
        radix(8) == 0x1_0000_0000_0000_0000,
        radix(16) == 0x1_0000_0000_0000_0000_0000_0000_0000_0000,
{
    assert(radix(1) == 0x100) by {
        assert(radix(0) == 1);
    }
    assert(radix(2) == 0x1_0000);
    assert(radix(3) == 0x100_0000);
    assert(radix(4) == 0x1_0000_0000);
    assert(radix(5) == 0x100_0000_0000);
    assert(radix(6) == 0x1_0000_0000_0000);
    assert(radix(7) == 0x100_0000_0000_0000);
    assert(radix(8) == 0x1_0000_0000_0000_0000);
    assert(radix(9) == 0x100_0000_0000_0000_0000);
    assert(radix(10) == 0x1_0000_0000_0000_0000_0000);
    assert(radix(11) == 0x100_0000_0000_0000_0000_0000);
    assert(radix(12) == 0x1_0000_0000_0000_0000_0000_0000);
    assert(radix(13) == 0x100_0000_0000_0000_0000_0000_0000);
    assert(radix(14) == 0x1_0000_0000_0000_0000_0000_0000_0000);
    assert(radix(15) == 0x100_0000_0000_0000_0000_0000_0000_0000);
    assert(radix(16) == 0x1_0000_0000_0000_0000_0000_0000_0000_0000);
}

/// `byteorder::LittleEndian::read_u16`: the result is the number that the
/// first two bytes of `buf` spell, least significant byte first. The call
/// panics on a shorter buffer.
#[verifier::external_body]
pub(crate) fn le_read_u16(buf: &[u8]) -> (r: u16)
    requires
        buf@.len() >= 2,
    ensures
        r == le_value(buf@.take(2)),
{
    LittleEndian::read_u16(buf)
}

/// `byteorder::LittleEndian::read_u32`: the result is the number that the
/// first four bytes of `buf` spell, least significant byte first. The call
/// panics on a shorter buffer.
#[verifier::external_body]
pub(crate) fn le_read_u32(buf: &[u8]) -> (r: u32)
    requires
        buf@.len() >= 4,
    ensures
        r == le_value(buf@.take(4)),
{
    LittleEndian::read_u32(buf)
}

/// `byteorder::LittleEndian::read_u64`: the result is the number that the
/// first eight bytes of `buf` spell, least significant byte first. The call
/// panics on a shorter buffer.
#[verifier::external_body]
pub(crate) fn le_read_u64(buf: &[u8]) -> (r: u64)
    requires
        buf@.len() >= 8,
    ensures
        r == le_value(buf@.take(8)),
{
    LittleEndian::read_u64(buf)
}

/// `byteorder::LittleEndian::read_u128`: the result is the number that the
/// first sixteen bytes of `buf` spell, least significant byte first. The
/// call panics on a shorter buffer.
#[verifier::external_body]
pub(crate) fn le_read_u128(buf: &[u8]) -> (r: u128)
    requires
        buf@.len() >= 16,
    ensures
        r == le_value(buf@.take(16)),
{
    LittleEndian::read_u128(buf)
}

/// `byteorder::LittleEndian::write_u16`: the first two bytes of `buf`
/// become the bytes of `n`, least significant first, and the rest of `buf`
/// stays as it was. The call panics on a shorter buffer.
#[verifier::external_body]
pub(crate) fn le_write_u16(buf: &mut [u8], n: u16)
    requires
        old(buf)@.len() >= 2,
    ensures
        final(buf)@ == le_bytes(n as nat, 2) + old(buf)@.skip(2),
{
    LittleEndian::write_u16(buf, n)
}

/// `byteorder::LittleEndian::write_u32`: the first four bytes of `buf`
/// become the bytes of `n`, least significant first, and the rest of `buf`
/// stays as it was. The call panics on a shorter buffer.
#[verifier::external_body]
pub(crate) fn le_write_u32(buf: &mut [u8], n: u32)
    requires
        old(buf)@.len() >= 4,
    ensures
        final(buf)@ == le_bytes(n as nat, 4) + old(buf)@.skip(4),
{
    LittleEndian::write_u32(buf, n)
}

/// `byteorder::LittleEndian::write_u64`: the first eight bytes of `buf`
/// become the bytes of `n`, least significant first, and the rest of `buf`
/// stays as it was. The call panics on a shorter buffer.
#[verifier::external_body]
pub(crate) fn le_write_u64(buf: &mut [u8], n: u64)
    requires
        old(buf)@.len() >= 8,
    ensures
        final(buf)@ == le_bytes(n as nat, 8) + old(buf)@.skip(8),
{
    LittleEndian::write_u64(buf, n)
}

/// `byteorder::LittleEndian::write_u128`: the first sixteen bytes of `buf`
/// become the bytes of `n`, least significant first, and the rest of `buf`
/// stays as it was. The call panics on a shorter buffer.
#[verifier::external_body]
pub(crate) fn le_write_u128(buf: &mut [u8], n: u128)
    requires
        old(buf)@.len() >= 16,
    ensures
        final(buf)@ == le_bytes(n as nat, 16) + old(buf)@.skip(16),
{
    LittleEndian::write_u128(buf, n)
}

} // verus!
