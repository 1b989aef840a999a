//! The faults that stop decoding: the image does not have the layout that
//! the decoder assumes.

use vstd::prelude::*;

verus! {

#[derive(Clone, Copy, Debug, PartialEq, Eq, Structural)]
pub enum DecodeError {
    /// A frame part needs tile `wanted`, but only `available` tiles exist.
    MissingTile { part: usize, wanted: usize, available: usize },
    /// A read of `len` bytes at `offset` runs past the end of the image.
    OutOfBounds { offset: usize, len: usize },
    /// A frame sequence runs to the end of the image without an opcode.
    NoTerminator,
    /// A transition list runs to the end of the image without its end mark.
    NoSentinel,
    /// A table gives a value outside the range the layout allows.
    BadTableIndex { value: u8 },
    /// A banked address that lies before the start of the image.
    BadAddress { addr: u32 },
    /// A pose has no frames and does not hand over to another.
    EmptyPose { state: usize },
    /// A graphics transfer is longer than half a row of tiles, or not a
    /// whole number of tiles.
    BadPartSize { len: usize },
}

} // verus!
