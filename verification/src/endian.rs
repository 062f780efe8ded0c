//! Little-endian integers on the wire.

use byteorder::ByteOrder;
use vstd::prelude::*;

use crate::stream::{read_exact, read_outcome, remaining, write_outcome, IoError, Read, Write};

verus! {

/// The unsigned 32-bit value whose little-endian form is the first four bytes
/// of `b`.
pub open spec fn u32_le(b: Seq<u8>) -> u32 {
    (b[0] + 256 * b[1] + 65536 * b[2] + 16777216 * b[3]) as u32
}

/// The four bytes of `n`, least significant first.
pub open spec fn u32_le_bytes(n: u32) -> Seq<u8> {
    seq![
        (n % 256) as u8,
        (n / 256 % 256) as u8,
        (n / 65536 % 256) as u8,
        (n / 16777216) as u8,
    ]
}

/// The signed 32-bit value whose two's complement, little-endian form is the
/// first four bytes of `b`.
pub open spec fn i32_le(b: Seq<u8>) -> i32 {
    if u32_le(b) < 0x8000_0000 {
        u32_le(b) as i32
    } else {
        (u32_le(b) - 0x1_0000_0000) as i32
    }
}

/// Decoding the bytes of a value gives the value back.
pub proof fn u32_le_of_bytes(n: u32)
    ensures
        u32_le_bytes(n).len() == 4,
        u32_le(u32_le_bytes(n)) == n,
{
    assert(n == (n % 256) + 256 * ((n / 256) % 256) + 65536 * ((n / 65536) % 256) + 16777216 * (n
        / 16777216) && n / 16777216 < 256) by (bit_vector);
}

/// Encoding the value of four bytes gives the bytes back.
pub proof fn u32_le_bytes_of(b: Seq<u8>)
    requires
        b.len() == 4,
    ensures
        u32_le_bytes(u32_le(b)) == b,
{
    let b0 = b[0] as u32;
    let b1 = b[1] as u32;
    let b2 = b[2] as u32;
    let b3 = b[3] as u32;
    let n = u32_le(b);
    assert(n == b0 + 256 * b1 + 65536 * b2 + 16777216 * b3);
    assert(b0 < 256 && b1 < 256 && b2 < 256 && b3 < 256 && n == b0 + 256 * b1 + 65536 * b2
        + 16777216 * b3 ==> n % 256 == b0 && n / 256 % 256 == b1 && n / 65536 % 256 == b2 && n
        / 16777216 == b3) by (bit_vector);
    assert(u32_le_bytes(n) =~= b);
}

/// `byteorder::LittleEndian::read_u32`: the value of the first four bytes of
/// `buf`, least significant first. It panics on a shorter buffer.
#[verifier::external_body]
fn le_read_u32(buf: &[u8]) -> (n: u32)
    requires
        buf@.len() >= 4,
    ensures
        n == u32_le(buf@),
{
    byteorder::LittleEndian::read_u32(buf)
}

/// `byteorder::LittleEndian::read_i32`: the first four bytes of `buf` read as
/// by `read_u32` and taken as two's complement. It panics on a shorter buffer.
#[verifier::external_body]
fn le_read_i32(buf: &[u8]) -> (n: i32)
    requires
        buf@.len() >= 4,
    ensures
        n == i32_le(buf@),
{
    byteorder::LittleEndian::read_i32(buf)
}

/// `byteorder::LittleEndian::write_u32`, on a buffer of four bytes: it holds
/// the bytes of `n`, least significant first.
#[verifier::external_body]
fn le_write_u32(n: u32) -> (b: [u8; 4])
    ensures
        b@ == u32_le_bytes(n),
{
    let mut b = [0u8; 4];
    byteorder::LittleEndian::write_u32(&mut b, n);
    b
}

/// The unsigned little-endian integer in the four bytes of `bytes` from `at`.
pub fn u32_of(bytes: &Vec<u8>, at: usize) -> (n: u32)
    requires
        at + 4 <= bytes@.len(),
    ensures
        n == u32_le(bytes@.subrange(at as int, at + 4)),
{
    let len = bytes.len();
    le_read_u32(vstd::slice::slice_subrange(bytes.as_slice(), at, at + 4))
}

/// The four bytes of `n`, least significant first.
pub fn u32_bytes(n: u32) -> (b: [u8; 4])
    ensures
        b@ == u32_le_bytes(n),
{
    le_write_u32(n)
}

/// Reads four bytes as an unsigned little-endian integer.
pub fn read_u32<R: Read>(reader: &mut R) -> (r: Result<u32, IoError>)
    ensures
        read_outcome(*old(reader), *final(reader), 4, r is Ok),
        r matches Ok(n) ==> n == u32_le(remaining(*old(reader))),
        r matches Err(e) ==> e == IoError::UnexpectedEof,
{
    match read_exact(reader, 4) {
        Ok(bytes) => Ok(le_read_u32(bytes.as_slice())),
        Err(e) => Err(e),
    }
}

/// Reads four bytes as a signed little-endian integer.
pub fn read_i32<R: Read>(reader: &mut R) -> (r: Result<i32, IoError>)
    ensures
        read_outcome(*old(reader), *final(reader), 4, r is Ok),
        r matches Ok(n) ==> n == i32_le(remaining(*old(reader))),
        r matches Err(e) ==> e == IoError::UnexpectedEof,
{
    match read_exact(reader, 4) {
        Ok(bytes) => Ok(le_read_i32(bytes.as_slice())),
        Err(e) => Err(e),
    }
}

/// Reads one byte.
pub fn read_u8<R: Read>(reader: &mut R) -> (r: Result<u8, IoError>)
    ensures
        read_outcome(*old(reader), *final(reader), 1, r is Ok),
        r matches Ok(n) ==> n == remaining(*old(reader))[0],
        r matches Err(e) ==> e == IoError::UnexpectedEof,
{
    match read_exact(reader, 1) {
        Ok(bytes) => Ok(bytes[0]),
        Err(e) => Err(e),
    }
}

/// Writes `n` as four bytes, least significant first.
pub fn write_u32<W: Write>(writer: &mut W, n: u32) -> (r: Result<(), IoError>)
    ensures
        write_outcome(*old(writer), *final(writer), u32_le_bytes(n), r is Ok),
        r matches Err(e) ==> e == IoError::Other,
{
    let b = le_write_u32(n);
    writer.write_all(b.as_slice())
}

} // verus!
