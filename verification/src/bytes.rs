//! Little-endian integers in byte sequences.
//!
//! The usbfs structures and the USB descriptors are byte strings whose
//! multi-byte integers stand with their lowest byte first, and whose signed
//! integers are in two's complement.
use vstd::prelude::*;

verus! {

/// The 16-bit integer whose two bytes start at `at`.
pub open spec fn le16(bytes: Seq<u8>, at: int) -> u16 {
    (bytes[at] + 0x100 * bytes[at + 1]) as u16
}

/// The 32-bit integer whose four bytes start at `at`.
pub open spec fn le32(bytes: Seq<u8>, at: int) -> u32 {
    (bytes[at] + 0x100 * bytes[at + 1] + 0x1_0000 * bytes[at + 2] + 0x100_0000
        * bytes[at + 3]) as u32
}

/// The 64-bit integer whose eight bytes start at `at`.
pub open spec fn le64(bytes: Seq<u8>, at: int) -> u64 {
    (le32(bytes, at) + 0x1_0000_0000 * le32(bytes, at + 4)) as u64
}

/// The signed integer whose two's complement is `value`.
pub open spec fn signed(value: u32) -> i32 {
    if value < 0x8000_0000 {
        value as i32
    } else {
        (value - 0x1_0000_0000) as i32
    }
}

/// The two's complement of `value`.
pub open spec fn unsigned(value: i32) -> u32 {
    if value >= 0 {
        value as u32
    } else {
        (value + 0x1_0000_0000) as u32
    }
}

/// The two bytes of `value`, lowest first.
pub open spec fn bytes16(value: u16) -> Seq<u8> {
    seq![(value % 0x100) as u8, (value / 0x100) as u8]
}

/// The four bytes of `value`, lowest first.
pub open spec fn bytes32(value: u32) -> Seq<u8> {
    seq![
        (value % 0x100) as u8,
        (value / 0x100 % 0x100) as u8,
        (value / 0x1_0000 % 0x100) as u8,
        (value / 0x100_0000) as u8,
    ]
}

/// The eight bytes of `value`, lowest first.
pub open spec fn bytes64(value: u64) -> Seq<u8> {
    bytes32((value % 0x1_0000_0000) as u32) + bytes32((value / 0x1_0000_0000) as u32)
}

/// Reading the two bytes of an integer gives the integer back.
pub proof fn law_le16_of_bytes16(value: u16)
    ensures
        bytes16(value).len() == 2,
        le16(bytes16(value), 0) == value,
{
}

/// Reading the four bytes of an integer gives the integer back.
pub proof fn law_le32_of_bytes32(value: u32)
    ensures
        bytes32(value).len() == 4,
        le32(bytes32(value), 0) == value,
{
}

/// Reading the eight bytes of an integer gives the integer back.
pub proof fn law_le64_of_bytes64(value: u64)
    ensures
        bytes64(value).len() == 8,
        le64(bytes64(value), 0) == value,
{
    let low = (value % 0x1_0000_0000) as u32;
    let high = (value / 0x1_0000_0000) as u32;
    law_le32_of_bytes32(low);
    law_le32_of_bytes32(high);
    assert(le32(bytes64(value), 0) == low);
    assert(le32(bytes64(value), 4) == high);
}

/// Two's complement loses nothing, in either direction.
pub proof fn law_signed_unsigned(value: i32, pattern: u32)
    ensures
        signed(unsigned(value)) == value,
        unsigned(signed(pattern)) == pattern,
{
}

/// Reads a 16-bit integer.
pub(crate) fn read_u16(bytes: &[u8], at: usize) -> (r: u16)
    requires
        at + 2 <= bytes@.len(),
    ensures
        r == le16(bytes@, at as int),
{
    bytes[at] as u16 + 0x100 * (bytes[at + 1] as u16)
}

/// Reads a 32-bit integer.
pub(crate) fn read_u32(bytes: &[u8], at: usize) -> (r: u32)
    requires
        at + 4 <= bytes@.len(),
    ensures
        r == le32(bytes@, at as int),
{
    bytes[at] as u32 + 0x100 * (bytes[at + 1] as u32) + 0x1_0000 * (bytes[at + 2] as u32)
        + 0x100_0000 * (bytes[at + 3] as u32)
}

/// Reads a 64-bit integer.
pub(crate) fn read_u64(bytes: &[u8], at: usize) -> (r: u64)
    requires
        at + 8 <= bytes@.len(),
    ensures
        r == le64(bytes@, at as int),
{
    let len: usize = bytes.len();
    assert(at + 8 <= len);
    read_u32(bytes, at) as u64 + 0x1_0000_0000 * (read_u32(bytes, at + 4) as u64)
}

/// Reads a signed 32-bit integer.
pub(crate) fn read_i32(bytes: &[u8], at: usize) -> (r: i32)
    requires
        at + 4 <= bytes@.len(),
    ensures
        r == signed(le32(bytes@, at as int)),
{
    wrap_i32(read_u32(bytes, at))
}

/// Reinterprets 32 bits as a signed integer.
pub(crate) fn wrap_i32(value: u32) -> (r: i32)
    ensures
        r == signed(value),
{
    if value < 0x8000_0000 {
        value as i32
    } else {
        (value as i64 - 0x1_0000_0000) as i32
    }
}

/// Appends the bytes of a 32-bit integer.
pub(crate) fn push_u32(out: &mut Vec<u8>, value: u32)
    ensures
        final(out)@ == old(out)@ + bytes32(value),
{
    out.push((value % 0x100) as u8);
    out.push((value / 0x100 % 0x100) as u8);
    out.push((value / 0x1_0000 % 0x100) as u8);
    out.push((value / 0x100_0000) as u8);
}

/// Appends the bytes of a 64-bit integer.
pub(crate) fn push_u64(out: &mut Vec<u8>, value: u64)
    ensures
        final(out)@ == old(out)@ + bytes64(value),
{
    push_u32(out, (value % 0x1_0000_0000) as u32);
    push_u32(out, (value / 0x1_0000_0000) as u32);
}

/// Appends the bytes of a signed 32-bit integer.
pub(crate) fn push_i32(out: &mut Vec<u8>, value: i32)
    ensures
        final(out)@ == old(out)@ + bytes32(unsigned(value)),
{
    if value >= 0 {
        push_u32(out, value as u32);
    } else {
        push_u32(out, (value as i64 + 0x1_0000_0000) as u32);
    }
}

} // verus!
