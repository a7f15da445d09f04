//! Numbers in the bytes of a table.

use vstd::prelude::*;
use vstd::slice::slice_to_vec;

verus! {

/// Two bytes, most significant first.
pub open spec fn be16(hi: u8, lo: u8) -> u16 {
    (hi * 256 + lo) as u16
}

/// The low 13 bits of two bytes: a packet identifier.
pub open spec fn low13(hi: u8, lo: u8) -> u16 {
    ((hi % 32) * 256 + lo) as u16
}

/// The low 12 bits of two bytes: a length.
pub open spec fn low12(hi: u8, lo: u8) -> nat {
    ((hi % 16) * 256 + lo) as nat
}

/// Four bytes, most significant first.
pub open spec fn be32(a: u8, b: u8, c: u8, d: u8) -> u32 {
    (a * 0x100_0000 + b * 0x1_0000 + c * 0x100 + d) as u32
}

pub fn read_be16(hi: u8, lo: u8) -> (n: u16)
    ensures
        n == be16(hi, lo),
{
    hi as u16 * 256 + lo as u16
}

pub fn read_low13(hi: u8, lo: u8) -> (n: u16)
    ensures
        n == low13(hi, lo),
        n < 0x2000,
{
    (hi % 32) as u16 * 256 + lo as u16
}

pub fn read_low12(hi: u8, lo: u8) -> (n: usize)
    ensures
        n == low12(hi, lo),
        n < 4096,
{
    (hi % 16) as usize * 256 + lo as usize
}

pub fn read_be32(a: u8, b: u8, c: u8, d: u8) -> (n: u32)
    ensures
        n == be32(a, b, c, d),
{
    a as u32 * 0x100_0000 + b as u32 * 0x1_0000 + c as u32 * 0x100 + d as u32
}

/// Appends `data` to `out`.
pub fn append_bytes(out: &mut Vec<u8>, data: &[u8])
    ensures
        final(out)@ == old(out)@ + data@,
{
    let mut more = slice_to_vec(data);
    out.append(&mut more);
}

} // verus!
