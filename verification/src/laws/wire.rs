//! How values are written into the bytes of tables.

use crate::si_tables::crc32;
use vstd::prelude::*;

verus! {

/// A number of 16 bits, most significant byte first.
pub open spec fn two(n: u16) -> Seq<u8> {
    seq![(n / 256) as u8, (n % 256) as u8]
}

/// A number of 32 bits, most significant byte first.
pub open spec fn four(n: u32) -> Seq<u8> {
    seq![
        (n / 0x100_0000) as u8,
        (n / 0x1_0000 % 256) as u8,
        (n / 0x100 % 256) as u8,
        (n % 256) as u8,
    ]
}

/// Four bits and a length of twelve.
pub open spec fn sized(bits: int, len: int) -> Seq<u8> {
    seq![(bits * 16 + len / 256) as u8, (len % 256) as u8]
}

/// Three bits and a packet identifier of 13.
pub open spec fn marked(bits: int, pid: int) -> Seq<u8> {
    seq![(bits * 32 + pid / 256) as u8, (pid % 256) as u8]
}

/// Two decimal digits in one byte.
pub open spec fn two_digits(n: int) -> u8 {
    (n / 10 * 16 + n % 10) as u8
}

/// A descriptor.
pub open spec fn written(tag: u8, body: Seq<u8>) -> Seq<u8> {
    seq![tag, body.len() as u8] + body
}

/// Bytes with their number before them.
pub open spec fn counted(bytes: Seq<u8>) -> Seq<u8> {
    seq![bytes.len() as u8] + bytes
}

/// Whether `part` is a descriptor, whole and nothing more.
pub open spec fn is_whole(part: Seq<u8>) -> bool {
    part.len() >= 2 && part.len() == 2 + part[1]
}

pub open spec fn all_whole(parts: Seq<Seq<u8>>) -> bool {
    forall|i: int| 0 <= i < parts.len() ==> is_whole(#[trigger] parts[i])
}

/// What is before the CRC of a section with the numbers of a table that has
/// several.
pub open spec fn unsealed(
    table_id: u8,
    bits: int,
    ext: u16,
    version: u8,
    number: u8,
    last: u8,
    body: Seq<u8>,
) -> Seq<u8> {
    seq![table_id] + sized(bits, body.len() as int + 9) + two(ext) + seq![version, number, last] + body
}

/// A section with the numbers of a table that has several, and its CRC.
pub open spec fn section(
    table_id: u8,
    bits: int,
    ext: u16,
    version: u8,
    number: u8,
    last: u8,
    body: Seq<u8>,
) -> Seq<u8> {
    let data = unsealed(table_id, bits, ext, version, number, last, body);
    data + four(crc32(data))
}

} // verus!
