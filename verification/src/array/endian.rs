//! Fixed-width unsigned integers as bytes, in both byte orders.

use vstd::prelude::*;
use byteorder::{BigEndian, ByteOrder, LittleEndian};

verus! {

/// The number that the bytes spell with the least significant byte first.
pub open spec fn le_value(bytes: Seq<u8>) -> nat
    decreases bytes.len(),
{
    if bytes.len() == 0 {
        0
    } else {
        bytes[0] as nat + 256 * le_value(bytes.skip(1))
    }
}

/// The number that the bytes spell with the most significant byte first.
pub open spec fn be_value(bytes: Seq<u8>) -> nat
    decreases bytes.len(),
{
    if bytes.len() == 0 {
        0
    } else {
        be_value(bytes.drop_last()) * 256 + bytes.last() as nat
    }
}

/// `byteorder::LittleEndian::read_u16`: the number that the first two bytes
/// of `buf` spell, least significant byte first. It panics on a shorter
/// buffer.
#[verifier::external_body]
pub(crate) fn le_read_u16(buf: &[u8]) -> (n: u16)
    requires
        buf@.len() >= 2,
    ensures
        n == le_value(buf@.subrange(0, 2)),
{
    LittleEndian::read_u16(buf)
}

/// `byteorder::LittleEndian::read_u32`: the number that the first four
/// bytes of `buf` spell, least significant byte first. It panics on a
/// shorter buffer.
#[verifier::external_body]
pub(crate) fn le_read_u32(buf: &[u8]) -> (n: u32)
    requires
        buf@.len() >= 4,
    ensures
        n == le_value(buf@.subrange(0, 4)),
{
    LittleEndian::read_u32(buf)
}

/// `byteorder::LittleEndian::read_u64`: the number that the first eight
/// bytes of `buf` spell, least significant byte first. It panics on a
/// shorter buffer.
#[verifier::external_body]
pub(crate) fn le_read_u64(buf: &[u8]) -> (n: u64)
    requires
        buf@.len() >= 8,
    ensures
        n == le_value(buf@.subrange(0, 8)),
{
    LittleEndian::read_u64(buf)
}

/// `byteorder::BigEndian::read_u16`: the number that the first two bytes of
/// `buf` spell, most significant byte first. It panics on a shorter buffer.
#[verifier::external_body]
pub(crate) fn be_read_u16(buf: &[u8]) -> (n: u16)
    requires
        buf@.len() >= 2,
    ensures
        n == be_value(buf@.subrange(0, 2)),
{
    BigEndian::read_u16(buf)
}

/// `byteorder::BigEndian::read_u32`: the number that the first four bytes
/// of `buf` spell, most significant byte first. It panics on a shorter
/// buffer.
#[verifier::external_body]
pub(crate) fn be_read_u32(buf: &[u8]) -> (n: u32)
    requires
        buf@.len() >= 4,
    ensures
        n == be_value(buf@.subrange(0, 4)),
{
    BigEndian::read_u32(buf)
}

/// `byteorder::BigEndian::read_u64`: the number that the first eight bytes
/// of `buf` spell, most significant byte first. It panics on a shorter
/// buffer.
#[verifier::external_body]
pub(crate) fn be_read_u64(buf: &[u8]) -> (n: u64)
    requires
        buf@.len() >= 8,
    ensures
        n == be_value(buf@.subrange(0, 8)),
{
    BigEndian::read_u64(buf)
}

/// `byteorder::LittleEndian::write_u16`: the first two bytes of `buf` are
/// made to spell `n`, least significant byte first; the rest of `buf` stays.
/// It panics on a shorter buffer.
#[verifier::external_body]
pub(crate) fn le_write_u16(buf: &mut [u8], n: u16)
    requires
        old(buf)@.len() >= 2,
    ensures
        final(buf)@.len() == old(buf)@.len(),
        le_value(final(buf)@.subrange(0, 2)) == n,
        final(buf)@.skip(2) == old(buf)@.skip(2),
{
    LittleEndian::write_u16(buf, n)
}

/// `byteorder::LittleEndian::write_u32`: the first four bytes of `buf` are
/// made to spell `n`, least significant byte first; the rest of `buf` stays.
/// It panics on a shorter buffer.
#[verifier::external_body]
pub(crate) fn le_write_u32(buf: &mut [u8], n: u32)
    requires
        old(buf)@.len() >= 4,
    ensures
        final(buf)@.len() == old(buf)@.len(),
        le_value(final(buf)@.subrange(0, 4)) == n,
        final(buf)@.skip(4) == old(buf)@.skip(4),
{
    LittleEndian::write_u32(buf, n)
}

/// `byteorder::LittleEndian::write_u64`: the first eight bytes of `buf` are
/// made to spell `n`, least significant byte first; the rest of `buf` stays.
/// It panics on a shorter buffer.
#[verifier::external_body]
pub(crate) fn le_write_u64(buf: &mut [u8], n: u64)
    requires
        old(buf)@.len() >= 8,
    ensures
        final(buf)@.len() == old(buf)@.len(),
        le_value(final(buf)@.subrange(0, 8)) == n,
        final(buf)@.skip(8) == old(buf)@.skip(8),
{
    LittleEndian::write_u64(buf, n)
}

/// `byteorder::BigEndian::write_u16`: the first two bytes of `buf` are made
/// to spell `n`, most significant byte first; the rest of `buf` stays. It
/// panics on a shorter buffer.
#[verifier::external_body]
pub(crate) fn be_write_u16(buf: &mut [u8], n: u16)
    requires
        old(buf)@.len() >= 2,
    ensures
        final(buf)@.len() == old(buf)@.len(),
        be_value(final(buf)@.subrange(0, 2)) == n,
        final(buf)@.skip(2) == old(buf)@.skip(2),
{
    BigEndian::write_u16(buf, n)
}

/// `byteorder::BigEndian::write_u32`: the first four bytes of `buf` are
/// made to spell `n`, most significant byte first; the rest of `buf` stays.
/// It panics on a shorter buffer.
#[verifier::external_body]
pub(crate) fn be_write_u32(buf: &mut [u8], n: u32)
    requires
        old(buf)@.len() >= 4,
    ensures
        final(buf)@.len() == old(buf)@.len(),
        be_value(final(buf)@.subrange(0, 4)) == n,
        final(buf)@.skip(4) == old(buf)@.skip(4),
{
    BigEndian::write_u32(buf, n)
}

/// `byteorder::BigEndian::write_u64`: the first eight bytes of `buf` are
/// made to spell `n`, most significant byte first; the rest of `buf` stays.
/// It panics on a shorter buffer.
#[verifier::external_body]
pub(crate) fn be_write_u64(buf: &mut [u8], n: u64)
    requires
        old(buf)@.len() >= 8,
    ensures
        final(buf)@.len() == old(buf)@.len(),
        be_value(final(buf)@.subrange(0, 8)) == n,
        final(buf)@.skip(8) == old(buf)@.skip(8),
{
    BigEndian::write_u64(buf, n)
}

} // verus!
