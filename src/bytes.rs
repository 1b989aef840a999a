//! Little-endian integers read from byte slices.

use vstd::prelude::*;
use byteorder::{ByteOrder, LittleEndian};

verus! {

/// The 16-bit little-endian value at `at`.
pub open spec fn le16(s: Seq<u8>, at: int) -> int {
    s[at] + 256 * s[at + 1]
}

/// The 24-bit little-endian value at `at`.
pub open spec fn le24(s: Seq<u8>, at: int) -> int {
    s[at] + 256 * s[at + 1] + 65536 * s[at + 2]
}

/// The 32-bit little-endian value at `at`.
pub open spec fn le32(s: Seq<u8>, at: int) -> int {
    s[at] + 256 * s[at + 1] + 65536 * s[at + 2] + 16777216 * s[at + 3]
}

/// Relies on byteorder's `LittleEndian::read_u16`: the first two bytes,
/// least significant first.
#[verifier::external_body]
pub(crate) fn read_u16(buf: &[u8]) -> (r: u16)
    requires
        buf@.len() >= 2,
    ensures
        r as int == le16(buf@, 0),
{
    LittleEndian::read_u16(buf)
}

/// Relies on byteorder's `LittleEndian::read_u24`: the first three bytes,
/// least significant first.
#[verifier::external_body]
pub(crate) fn read_u24(buf: &[u8]) -> (r: u32)
    requires
        buf@.len() >= 3,
    ensures
        r as int == le24(buf@, 0),
{
    LittleEndian::read_u24(buf)
}

/// Relies on byteorder's `LittleEndian::read_u32`: the first four bytes,
/// least significant first.
#[verifier::external_body]
pub(crate) fn read_u32(buf: &[u8]) -> (r: u32)
    requires
        buf@.len() >= 4,
    ensures
        r as int == le32(buf@, 0),
{
    LittleEndian::read_u32(buf)
}

/// The 16-bit little-endian words of `bytes`, two bytes each; a last odd
/// byte is left out.
pub fn le_words(bytes: &[u8]) -> (r: Vec<u16>)
    ensures
        r@.len() == bytes@.len() / 2,
        forall|i: int| 0 <= i < r@.len() ==> #[trigger] r@[i] == le16(bytes@, 2 * i),
{
    let len = bytes.len();
    let n = len / 2;
    let mut out: Vec<u16> = Vec::new();
    let mut i: usize = 0;
    while i < n
        invariant
            n == bytes@.len() / 2,
            len == bytes@.len(),
            i <= n,
            out@.len() == i,
            forall|j: int| 0 <= j < i ==> #[trigger] out@[j] == le16(bytes@, 2 * j),
        decreases n - i,
    {
        let w = read_u16(&bytes[2 * i..2 * i + 2]);
        out.push(w);
        i = i + 1;
    }
    out
}

} // verus!
