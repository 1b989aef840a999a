//! Decoding of 4-bit-per-pixel planar graphics into tiles.
//!
//! Every 32 bytes hold one 8x8 tile as four bit-planes: bytes 0..16 carry
//! planes 0 and 1, bytes 16..32 planes 2 and 3, two bytes per pixel row.

use vstd::prelude::*;

verus! {

/// The number of packed bytes in one tile.
pub const TILE_BYTES: usize = 32;

/// An 8x8 tile of palette indices, row by row, one index per byte.
#[derive(Clone, Copy, Debug, PartialEq, Eq)]
pub struct Tile(pub [u8; 64]);

impl View for Tile {
    type V = Seq<u8>;

    open spec fn view(&self) -> Seq<u8> {
        self.0@
    }
}

/// Bit `n` of `b`, counting from the least significant.
pub open spec fn bit(b: u8, n: u8) -> u8 {
    (b >> n) & 1
}

/// The palette index at row `r`, column `c` of the tile packed in `chunk`:
/// from most to least significant, the bits of planes 3, 2, 1 and 0 at
/// bit position `7 - c` of the row's bytes.
pub open spec fn packed_pixel(chunk: Seq<u8>, r: int, c: int) -> u8 {
    let n = (7 - c) as u8;
    (8 * bit(chunk[16 + 2 * r + 1], n) + 4 * bit(chunk[16 + 2 * r], n)
        + 2 * bit(chunk[2 * r + 1], n) + bit(chunk[2 * r], n)) as u8
}

/// The tile that the 32 bytes of `chunk` encode.
pub open spec fn decoded_tile(chunk: Seq<u8>) -> Seq<u8> {
    Seq::new(64, |i: int| packed_pixel(chunk, i / 8, i % 8))
}

/// The `i`-th 32-byte chunk of `bytes`.
pub open spec fn chunk_of(bytes: Seq<u8>, i: int) -> Seq<u8> {
    bytes.subrange(32 * i, 32 * i + 32)
}

proof fn lemma_bit_small(b: u8, n: u8)
    ensures
        bit(b, n) <= 1,
{
    assert((b >> n) & 1 <= 1) by (bit_vector);
}

/// Decodes the tile packed in `bytes[at..at + 32]`.
pub fn decode_tile(bytes: &[u8], at: usize) -> (r: Tile)
    requires
        at + 32 <= bytes@.len(),
    ensures
        r@ == decoded_tile(bytes@.subrange(at as int, at + 32)),
{
    let ghost chunk = bytes@.subrange(at as int, at + 32);
    let len = bytes.len();
    let mut px: [u8; 64] = [0u8; 64];
    let mut r: usize = 0;
    while r < 8
        invariant
            r <= 8,
            len == bytes@.len(),
            at + 32 <= bytes@.len(),
            chunk == bytes@.subrange(at as int, at + 32),
            px@.len() == 64,
            forall|i: int| 0 <= i < 8 * r ==> px@[i] == #[trigger] packed_pixel(chunk, i / 8, i % 8),
        decreases 8 - r,
    {
        let p0 = bytes[at + 2 * r];
        let p1 = bytes[at + 2 * r + 1];
        let p2 = bytes[at + 16 + 2 * r];
        let p3 = bytes[at + 16 + 2 * r + 1];
        let mut c: usize = 0;
        while c < 8
            invariant
                r < 8,
                c <= 8,
                at + 32 <= bytes@.len(),
                chunk == bytes@.subrange(at as int, at + 32),
                p0 == chunk[2 * r as int],
                p1 == chunk[2 * r + 1],
                p2 == chunk[16 + 2 * r],
                p3 == chunk[16 + 2 * r + 1],
                px@.len() == 64,
                forall|i: int| 0 <= i < 8 * r + c ==> px@[i] == #[trigger] packed_pixel(chunk, i / 8, i % 8),
            decreases 8 - c,
        {
            let n: u8 = (7 - c) as u8;
            proof {
                lemma_bit_small(p0, n);
                lemma_bit_small(p1, n);
                lemma_bit_small(p2, n);
                lemma_bit_small(p3, n);
            }
            let v: u8 = 8 * ((p3 >> n) & 1) + 4 * ((p2 >> n) & 1) + 2 * ((p1 >> n) & 1) + ((p0 >> n) & 1);
            let i: usize = 8 * r + c;
            px[i] = v;
            assert(i as int / 8 == r && i as int % 8 == c);
            c = c + 1;
        }
        r = r + 1;
    }
    let t = Tile(px);
    assert(t@ =~= decoded_tile(chunk));
    t
}

/// Decodes every tile of `bytes`, whose length is a whole number of tiles.
pub fn decode_tiles(bytes: &[u8]) -> (r: Vec<Tile>)
    requires
        bytes@.len() % 32 == 0,
    ensures
        r@.len() == bytes@.len() / 32,
        forall|i: int| 0 <= i < r@.len() ==> #[trigger] r@[i]@ == decoded_tile(chunk_of(bytes@, i)),
{
    let mut out: Vec<Tile> = Vec::new();
    let mut at: usize = 0;
    while at < bytes.len()
        invariant
            bytes@.len() % 32 == 0,
            at % 32 == 0,
            at <= bytes@.len(),
            out@.len() == at / 32,
            forall|i: int| 0 <= i < out@.len() ==> #[trigger] out@[i]@ == decoded_tile(chunk_of(bytes@, i)),
        decreases bytes@.len() - at,
    {
        let t = decode_tile(bytes, at);
        out.push(t);
        at = at + 32;
    }
    out
}

/// Decoding depends on the bytes alone: equal inputs give equal tiles, one
/// for every 32 bytes.
pub proof fn lemma_decoding_is_a_function(a: Seq<u8>, b: Seq<u8>, i: int)
    requires
        a == b,
        a.len() % 32 == 0,
        0 <= i < a.len() / 32,
    ensures
        decoded_tile(chunk_of(a, i)) == decoded_tile(chunk_of(b, i)),
        decoded_tile(chunk_of(a, i)).len() == 64,
        32 * (a.len() / 32) == a.len(),
{
}

/// The tiles of a packed byte slice, decoded one at a time.
pub struct Bitplanes<'a> {
    bytes: &'a [u8],
    pos: usize,
}

impl<'a> Bitplanes<'a> {
    /// The packed bytes not decoded yet.
    pub closed spec fn rest(&self) -> Seq<u8> {
        self.bytes@.subrange(self.pos as int, self.bytes@.len() as int)
    }

    pub closed spec fn wf(&self) -> bool {
        &&& self.pos <= self.bytes@.len()
        &&& (self.bytes@.len() - self.pos) % 32 == 0
    }

    /// Starts decoding `bytes`, whose length is a whole number of tiles.
    pub fn new(bytes: &'a [u8]) -> (r: Bitplanes<'a>)
        requires
            bytes@.len() % 32 == 0,
        ensures
            r.wf(),
            r.rest() == bytes@,
    {
        let r = Bitplanes { bytes, pos: 0 };
        assert(r.rest() =~= bytes@);
        r
    }

    /// The next tile, or `None` once every tile has been decoded.
    pub fn next(&mut self) -> (r: Option<Tile>)
        requires
            old(self).wf(),
        ensures
            final(self).wf(),
            old(self).rest().len() % 32 == 0,
            old(self).rest().len() == 0 ==> r is None && final(self).rest() == old(self).rest(),
            old(self).rest().len() > 0 ==> (r matches Some(t) && t@ == decoded_tile(old(self).rest().subrange(0, 32))),
            old(self).rest().len() > 0 ==> final(self).rest() == old(self).rest().subrange(32, old(self).rest().len() as int),
    {
        if self.pos >= self.bytes.len() {
            return None;
        }
        let t = decode_tile(self.bytes, self.pos);
        let ghost before = self.rest();
        assert(self.bytes@.subrange(self.pos as int, self.pos + 32) =~= before.subrange(0, 32));
        self.pos = self.pos + 32;
        assert(self.rest() =~= before.subrange(32, before.len() as int));
        Some(t)
    }

    /// How many tiles are left.
    pub fn remaining(&self) -> (r: usize)
        requires
            self.wf(),
        ensures
            r == self.rest().len() / 32,
    {
        (self.bytes.len() - self.pos) / 32
    }
}

impl Tile {
    /// A tile of transparent pixels.
    pub fn blank() -> (r: Tile)
        ensures
            r@ == Seq::new(64, |i: int| 0u8),
    {
        let t = Tile([0u8; 64]);
        assert(t@ =~= Seq::new(64, |i: int| 0u8));
        t
    }

    /// The pixels in runs of `n`, the last run holding what is left.
    pub fn chunks(&self, n: usize) -> (r: Vec<Vec<u8>>)
        requires
            n > 0,
        ensures
            r@.len() > 0,
            n * (r@.len() - 1) < 64 <= n * r@.len(),
            forall|i: int| 0 <= i < r@.len() ==> (#[trigger] r@[i])@ == self@.subrange(
                n * i, if n * i + n <= 64 { n * i + n } else { 64 }),
    {
        let mut out: Vec<Vec<u8>> = Vec::new();
        let mut start: usize = 0;
        assert(n * out@.len() == 0) by (nonlinear_arith)
            requires out@.len() == 0;
        while start < 64
            invariant
                n > 0,
                start <= 64,
                start < 64 ==> start == n * out@.len(),
                start == 64 ==> out@.len() > 0 && n * (out@.len() - 1) < 64 <= n * out@.len(),
                forall|i: int| 0 <= i < out@.len() ==> (#[trigger] out@[i])@ == self@.subrange(
                    n * i, if n * i + n <= 64 { n * i + n } else { 64 }),
            decreases 64 - start,
        {
            let end: usize = if n <= 64 - start { start + n } else { 64 };
            let mut run: Vec<u8> = Vec::new();
            let mut k = start;
            while k < end
                invariant
                    start <= k <= end,
                    end <= 64,
                    run@ == self@.subrange(start as int, k as int),
                decreases end - k,
            {
                run.push(self.0[k]);
                k = k + 1;
            }
            let ghost m = out@.len() as int;
            out.push(run);
            assert(n * (m + 1) == n * m + n) by (nonlinear_arith);
            start = end;
        }
        out
    }

    /// The palette index at position `i` (row `i / 8`, column `i % 8`).
    pub fn get(&self, i: usize) -> (r: u8)
        requires
            i < 64,
        ensures
            r == self@[i as int],
    {
        self.0[i]
    }
}

} // verus!
