//! Big-endian integer fields of the DLT wire format.
use byteorder::{BigEndian, ByteOrder};
use vstd::prelude::*;

verus! {

/// The value of the two bytes `hi`, `lo` read most significant first.
pub open spec fn be_u16_value(hi: u8, lo: u8) -> u16 {
    (hi * 256 + lo) as u16
}

/// The value of four bytes read most significant first.
pub open spec fn be_u32_value(b0: u8, b1: u8, b2: u8, b3: u8) -> u32 {
    (b0 * 0x100_0000 + b1 * 0x1_0000 + b2 * 0x100 + b3) as u32
}

/// The two bytes of `v`, most significant first.
pub open spec fn be_u16_bytes(v: u16) -> Seq<u8> {
    seq![(v / 256) as u8, (v % 256) as u8]
}

/// The four bytes of `v`, most significant first.
pub open spec fn be_u32_bytes(v: u32) -> Seq<u8> {
    seq![
        (v / 0x100_0000) as u8,
        ((v / 0x1_0000) % 256) as u8,
        ((v / 0x100) % 256) as u8,
        (v % 256) as u8,
    ]
}

/// The value of the two bytes of `b` that start at `i`.
pub open spec fn be_u16_at(b: Seq<u8>, i: int) -> u16 {
    be_u16_value(b[i], b[i + 1])
}

/// The value of the four bytes of `b` that start at `i`.
pub open spec fn be_u32_at(b: Seq<u8>, i: int) -> u32 {
    be_u32_value(b[i], b[i + 1], b[i + 2], b[i + 3])
}

/// Reading back the bytes of a 16-bit value gives the value.
pub proof fn lemma_be_u16_round_trip(v: u16)
    ensures
        be_u16_at(be_u16_bytes(v), 0) == v,
{
}

/// Reading back the bytes of a 32-bit value gives the value.
pub proof fn lemma_be_u32_round_trip(v: u32)
    ensures
        be_u32_at(be_u32_bytes(v), 0) == v,
{
}

/// Relies on byteorder's `BigEndian::read_u16`: the first two bytes of
/// `buf`, most significant first. It panics on fewer than two bytes.
#[verifier::external_body]
pub(crate) fn read_be_u16(buf: &[u8]) -> (r: u16)
    requires
        buf@.len() >= 2,
    ensures
        r == be_u16_at(buf@, 0),
{
    BigEndian::read_u16(buf)
}

/// Relies on byteorder's `BigEndian::read_u32`: the first four bytes of
/// `buf`, most significant first. It panics on fewer than four bytes.
#[verifier::external_body]
pub(crate) fn read_be_u32(buf: &[u8]) -> (r: u32)
    requires
        buf@.len() >= 4,
    ensures
        r == be_u32_at(buf@, 0),
{
    BigEndian::read_u32(buf)
}

/// Relies on byteorder's `BigEndian::write_u16`: it stores `v` most
/// significant byte first in the first two bytes of the buffer.
#[verifier::external_body]
pub(crate) fn write_be_u16(v: u16) -> (r: [u8; 2])
    ensures
        r@ == be_u16_bytes(v),
{
    let mut buf = [0u8; 2];
    BigEndian::write_u16(&mut buf, v);
    buf
}

/// Relies on byteorder's `BigEndian::write_u32`: it stores `v` most
/// significant byte first in the first four bytes of the buffer.
#[verifier::external_body]
pub(crate) fn write_be_u32(v: u32) -> (r: [u8; 4])
    ensures
        r@ == be_u32_bytes(v),
{
    let mut buf = [0u8; 4];
    BigEndian::write_u32(&mut buf, v);
    buf
}

} // verus!
