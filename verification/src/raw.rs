//! Big-endian primitive reads over raw table bytes, and the structural
//! error type shared by every decoder in the crate.

use vstd::prelude::*;

verus! {

/// Structural failure while decoding layout table bytes.
#[derive(Clone, Copy, Debug, PartialEq, Eq, Structural)]
pub enum ReadError {
    /// An offset or length points outside the available data.
    OutOfBounds,
    /// A header field holds a value the format does not allow.
    MalformedData,
}

/// The big-endian 16-bit value stored at byte position `i`.
pub open spec fn u16_at(d: Seq<u8>, i: int) -> u16 {
    (d[i] * 256 + d[i + 1]) as u16
}

/// The big-endian 32-bit value stored at byte position `i`.
pub open spec fn u32_at(d: Seq<u8>, i: int) -> u32 {
    (d[i] * 0x1000000 + d[i + 1] * 0x10000 + d[i + 2] * 256 + d[i + 3]) as u32
}

/// Reads the big-endian 16-bit value at `pos`.
pub fn read_u16(data: &[u8], pos: usize) -> (r: u16)
    requires
        pos + 2 <= data@.len(),
    ensures
        r == u16_at(data@, pos as int),
{
    (data[pos] as u16) * 256 + (data[pos + 1] as u16)
}

/// Reads the big-endian 32-bit value at `pos`.
pub fn read_u32(data: &[u8], pos: usize) -> (r: u32)
    requires
        pos + 4 <= data@.len(),
    ensures
        r == u32_at(data@, pos as int),
{
    (data[pos] as u32) * 0x1000000 + (data[pos + 1] as u32) * 0x10000 + (data[pos + 2] as u32)
        * 256 + (data[pos + 3] as u32)
}

} // verus!
