//! A canvas of palette indices with an origin inside it, onto which tiles
//! are stamped at offsets from that origin.

use vstd::prelude::*;
use crate::bitplanes::Tile;

verus! {

/// The pixel at column `cx`, row `cy` of a row-major buffer of width `w`.
pub open spec fn px(buf: Seq<u8>, w: int, cx: int, cy: int) -> u8 {
    buf[cy * w + cx]
}

/// Whether (`cx`, `cy`) lies in the `size` x `size` square at (`ox`, `oy`).
pub open spec fn in_square(ox: int, oy: int, size: int, cx: int, cy: int) -> bool {
    ox <= cx < ox + size && oy <= cy < oy + size
}

/// The pixel of tile `t` shown at (`dx`, `dy`) when the tile is drawn
/// mirrored left to right (`fx`) and top to bottom (`fy`).
pub open spec fn tile_src(t: Seq<u8>, dx: int, dy: int, fx: bool, fy: bool) -> u8 {
    t[(if fy { 7 - dy } else { dy }) * 8 + (if fx { 7 - dx } else { dx })]
}

/// A pixel after stamping: a non-zero source pixel covers it, anything else
/// leaves it as it was.
pub open spec fn stamp(old_px: u8, covered: bool, src: u8) -> u8 {
    if covered && src != 0 { src } else { old_px }
}

/// The pixel at (`dx`, `dy`) of a 16x16 block of four tiles, top left,
/// top right, bottom left, bottom right, each drawn mirrored as asked.
pub open spec fn block_src(t0: Seq<u8>, t1: Seq<u8>, t2: Seq<u8>, t3: Seq<u8>, dx: int, dy: int, fx: bool, fy: bool) -> u8 {
    let t = if dy < 8 {
        if dx < 8 { t0 } else { t1 }
    } else {
        if dx < 8 { t2 } else { t3 }
    };
    tile_src(t, dx % 8, dy % 8, fx, fy)
}

pub proof fn lemma_index_bounds(w: int, h: int, cx: int, cy: int)
    requires
        0 <= cx < w,
        0 <= cy < h,
    ensures
        0 <= cy * w + cx < w * h,
{
    assert(cy * w + cx < w * h) by (nonlinear_arith)
        requires 0 <= cx < w, 0 <= cy < h;
    assert(0 <= cy * w) by (nonlinear_arith)
        requires 0 <= cx < w, 0 <= cy;
}

pub proof fn lemma_index_unique(w: int, cx: int, cy: int, qx: int, qy: int)
    requires
        0 <= cx < w,
        0 <= qx < w,
        0 <= cy,
        0 <= qy,
        cy * w + cx == qy * w + qx,
    ensures
        cx == qx,
        cy == qy,
{
    if cy < qy {
        assert(cy * w + cx < qy * w + qx) by (nonlinear_arith)
            requires 0 <= cx < w, 0 <= qx, cy < qy;
    } else if qy < cy {
        assert(qy * w + qx < cy * w + cx) by (nonlinear_arith)
            requires 0 <= qx < w, 0 <= cx, qy < cy;
    }
}

/// A canvas of `width` x `height` palette indices whose origin sits at
/// (`zero_x`, `zero_y`).
#[derive(Debug)]
pub struct CenteredCanvas {
    pub width: u16,
    pub height: u16,
    pub zero_x: u16,
    pub zero_y: u16,
    pub buffer: Vec<u8>,
}

impl CenteredCanvas {
    pub open spec fn wf(&self) -> bool {
        self.buffer@.len() == self.width as int * self.height as int
    }

    /// The pixel at column `cx`, row `cy`.
    pub open spec fn pixel(&self, cx: int, cy: int) -> u8 {
        px(self.buffer@, self.width as int, cx, cy)
    }

    /// Whether the two canvases have the same size and origin.
    pub open spec fn same_frame(&self, other: &CenteredCanvas) -> bool {
        &&& self.width == other.width
        &&& self.height == other.height
        &&& self.zero_x == other.zero_x
        &&& self.zero_y == other.zero_y
    }

    /// A transparent canvas of the given size, with its origin at `zero`.
    pub fn new(width: u16, height: u16, zero: (u16, u16)) -> (r: CenteredCanvas)
        ensures
            r.wf(),
            r.width == width,
            r.height == height,
            r.zero_x == zero.0,
            r.zero_y == zero.1,
            forall|i: int| 0 <= i < r.buffer@.len() ==> #[trigger] r.buffer@[i] == 0,
    {
        assert(width as int * height as int <= 0xFFFF * 0xFFFF) by (nonlinear_arith)
            requires width <= 0xFFFF, height <= 0xFFFF;
        let n: usize = width as usize * height as usize;
        let mut buffer: Vec<u8> = Vec::new();
        let mut i: usize = 0;
        while i < n
            invariant
                i <= n,
                buffer@.len() == i,
                forall|j: int| 0 <= j < i ==> #[trigger] buffer@[j] == 0,
            decreases n - i,
        {
            buffer.push(0);
            i = i + 1;
        }
        CenteredCanvas { width, height, zero_x: zero.0, zero_y: zero.1, buffer }
    }

    /// The canvas position of the point at offset (`x`, `y`) from the origin.
    pub open spec fn at_offset(&self, x: i16, y: i16) -> (int, int) {
        (self.zero_x + x, self.zero_y + y)
    }

    /// The canvas column and row of the point at offset (`x`, `y`) from the
    /// origin, which must lie on the canvas.
    pub fn offset(&self, x: i16, y: i16) -> (r: (usize, usize))
        requires
            0 <= self.zero_x + x,
            0 <= self.zero_y + y,
        ensures
            r.0 == self.zero_x + x,
            r.1 == self.zero_y + y,
    {
        let cx: usize = if x >= 0 {
            self.zero_x as usize + x as usize
        } else {
            self.zero_x as usize - (-(x as i32)) as usize
        };
        let cy: usize = if y >= 0 {
            self.zero_y as usize + y as usize
        } else {
            self.zero_y as usize - (-(y as i32)) as usize
        };
        (cx, cy)
    }

    /// Stamps `tile` with its top-left corner at column `ox`, row `oy`;
    /// transparent (zero) pixels leave the canvas as it was.
    pub fn paint_tile_at(&mut self, tile: &Tile, ox: usize, oy: usize, flip_x: bool, flip_y: bool)
        requires
            old(self).wf(),
            ox + 8 <= old(self).width,
            oy + 8 <= old(self).height,
        ensures
            final(self).wf(),
            final(self).same_frame(old(self)),
            forall|cx: int, cy: int| 0 <= cx < final(self).width && 0 <= cy < final(self).height ==>
                #[trigger] final(self).pixel(cx, cy) == stamp(old(self).pixel(cx, cy), in_square(ox as int, oy as int, 8, cx, cy),
                    tile_src(tile@, cx - ox, cy - oy, flip_x, flip_y)),
    {
        let w: usize = self.width as usize;
        let ghost h = self.height as int;
        let ghost start = self.buffer@;
        let mut dy: usize = 0;
        while dy < 8
            invariant
                dy <= 8,
                w == self.width,
                h == self.height,
                self.wf(),
                self.same_frame(old(self)),
                start == old(self).buffer@,
                ox + 8 <= w,
                oy + 8 <= h,
                tile@.len() == 64,
                forall|cx: int, cy: int| 0 <= cx < w && 0 <= cy < h ==>
                    #[trigger] px(self.buffer@, w as int, cx, cy) == stamp(px(start, w as int, cx, cy),
                        in_square(ox as int, oy as int, 8, cx, cy) && cy < oy + dy,
                        tile_src(tile@, cx - ox, cy - oy, flip_x, flip_y)),
            decreases 8 - dy,
        {
            let mut dx: usize = 0;
            while dx < 8
                invariant
                    dy < 8,
                    dx <= 8,
                    w == self.width,
                    h == self.height,
                    self.wf(),
                    self.same_frame(old(self)),
                    start == old(self).buffer@,
                    ox + 8 <= w,
                    oy + 8 <= h,
                    tile@.len() == 64,
                    forall|cx: int, cy: int| 0 <= cx < w && 0 <= cy < h ==>
                        #[trigger] px(self.buffer@, w as int, cx, cy) == stamp(px(start, w as int, cx, cy),
                            in_square(ox as int, oy as int, 8, cx, cy) && (cy < oy + dy || (cy == oy + dy && cx < ox + dx)),
                            tile_src(tile@, cx - ox, cy - oy, flip_x, flip_y)),
                decreases 8 - dx,
            {
                let sy: usize = if flip_y { 7 - dy } else { dy };
                let sx: usize = if flip_x { 7 - dx } else { dx };
                let v = tile.get(sy * 8 + sx);
                let qx: usize = ox + dx;
                let qy: usize = oy + dy;
                proof {
                    lemma_index_bounds(w as int, h, qx as int, qy as int);
                }
                if v != 0 {
                    let ghost before = self.buffer@;
                    let blen = self.buffer.len();
                    assert(qy * w + qx < blen);
                    let i: usize = qy * w + qx;
                    self.buffer.set(i, v);
                    assert forall|cx: int, cy: int| 0 <= cx < w && 0 <= cy < h implies
                        #[trigger] px(self.buffer@, w as int, cx, cy) == if cx == qx && cy == qy { v } else {
                            px(before, w as int, cx, cy)
                        } by {
                        lemma_index_bounds(w as int, h, cx, cy);
                        if cy * w + cx == qy * w + qx {
                            lemma_index_unique(w as int, cx, cy, qx as int, qy as int);
                        }
                    }
                }
                dx = dx + 1;
            }
            dy = dy + 1;
        }
    }

    /// Stamps `tile` at offset (`x`, `y`) from the origin.
    pub fn paint_tile(&mut self, tile: &Tile, x: i16, y: i16, flip_x: bool, flip_y: bool)
        requires
            old(self).wf(),
            0 <= old(self).zero_x + x,
            0 <= old(self).zero_y + y,
            old(self).zero_x + x + 8 <= old(self).width,
            old(self).zero_y + y + 8 <= old(self).height,
        ensures
            final(self).wf(),
            final(self).same_frame(old(self)),
            forall|cx: int, cy: int| 0 <= cx < final(self).width && 0 <= cy < final(self).height ==>
                #[trigger] final(self).pixel(cx, cy) == stamp(old(self).pixel(cx, cy),
                    in_square(old(self).zero_x + x, old(self).zero_y + y, 8, cx, cy),
                    tile_src(tile@, cx - (old(self).zero_x + x), cy - (old(self).zero_y + y), flip_x, flip_y)),
    {
        let (ox, oy) = self.offset(x, y);
        self.paint_tile_at(tile, ox, oy, flip_x, flip_y);
    }

    /// Stamps a 16x16 block of four tiles (top left, top right, bottom
    /// left, bottom right) at offset (`x`, `y`) from the origin, each tile
    /// mirrored as asked.
    pub fn paint_block(&mut self, tile0: &Tile, tile1: &Tile, tile2: &Tile, tile3: &Tile, x: i16, y: i16, flip_x: bool, flip_y: bool)
        requires
            old(self).wf(),
            0 <= old(self).zero_x + x,
            0 <= old(self).zero_y + y,
            old(self).zero_x + x + 16 <= old(self).width,
            old(self).zero_y + y + 16 <= old(self).height,
        ensures
            final(self).wf(),
            final(self).same_frame(old(self)),
            forall|cx: int, cy: int| 0 <= cx < final(self).width && 0 <= cy < final(self).height ==>
                #[trigger] final(self).pixel(cx, cy) == stamp(old(self).pixel(cx, cy),
                    in_square(old(self).zero_x + x, old(self).zero_y + y, 16, cx, cy),
                    block_src(tile0@, tile1@, tile2@, tile3@,
                        cx - (old(self).zero_x + x), cy - (old(self).zero_y + y), flip_x, flip_y)),
    {
        let (ox, oy) = self.offset(x, y);
        let ghost c0 = *self;
        self.paint_tile_at(tile0, ox, oy, flip_x, flip_y);
        let ghost c1 = *self;
        self.paint_tile_at(tile1, ox + 8, oy, flip_x, flip_y);
        let ghost c2 = *self;
        self.paint_tile_at(tile2, ox, oy + 8, flip_x, flip_y);
        let ghost c3 = *self;
        self.paint_tile_at(tile3, ox + 8, oy + 8, flip_x, flip_y);
        assert forall|cx: int, cy: int| 0 <= cx < self.width && 0 <= cy < self.height implies
            #[trigger] self.pixel(cx, cy) == stamp(c0.pixel(cx, cy), in_square(ox as int, oy as int, 16, cx, cy),
                block_src(tile0@, tile1@, tile2@, tile3@, cx - ox, cy - oy, flip_x, flip_y)) by {
            assert(c1.pixel(cx, cy) == stamp(c0.pixel(cx, cy), in_square(ox as int, oy as int, 8, cx, cy),
                tile_src(tile0@, cx - ox, cy - oy, flip_x, flip_y)));
            assert(c2.pixel(cx, cy) == stamp(c1.pixel(cx, cy), in_square(ox + 8, oy as int, 8, cx, cy),
                tile_src(tile1@, cx - (ox + 8), cy - oy, flip_x, flip_y)));
            assert(c3.pixel(cx, cy) == stamp(c2.pixel(cx, cy), in_square(ox as int, oy + 8, 8, cx, cy),
                tile_src(tile2@, cx - ox, cy - (oy + 8), flip_x, flip_y)));
        }
    }
}

proof fn lemma_rows(len: int, width: int)
    requires
        0 < width,
        len % width == 0,
        0 <= len,
    ensures
        len == width * (len / width),
        0 <= len / width,
{
    vstd::arithmetic::div_mod::lemma_fundamental_div_mod(len, width);
    vstd::arithmetic::div_mod::lemma_div_pos_is_pos(len, width);
}

/// A canvas `width` pixels wide with origin `zero` that takes over the
/// pixels of `buffer`, leaving it empty.
fn canvas_over(buffer: &mut Vec<u8>, width: u16, zero: (u16, u16)) -> (r: CenteredCanvas)
    requires
        width > 0,
        (old(buffer)@.len() as int) % (width as int) == 0,
        (old(buffer)@.len() as int) / (width as int) <= 0xFFFF,
    ensures
        r.wf(),
        r.width == width,
        r.height == (old(buffer)@.len() as int) / (width as int),
        r.zero_x == zero.0,
        r.zero_y == zero.1,
        r.buffer@ == old(buffer)@,
{
    proof {
        lemma_rows(buffer@.len() as int, width as int);
    }
    let height = (buffer.len() / width as usize) as u16;
    let mut canvas = CenteredCanvas { width, height, zero_x: zero.0, zero_y: zero.1, buffer: Vec::new() };
    core::mem::swap(&mut canvas.buffer, buffer);
    canvas
}

/// Stamps `tile` at offset `pos` from the origin `zero` of the canvas held
/// in `buffer`, `width` pixels wide; zero pixels are transparent.
pub fn paint_tile(buffer: &mut Vec<u8>, width: u16, zero: (u16, u16), tile: &Tile, pos: (i16, i16), flip_x: bool, flip_y: bool)
    requires
        width > 0,
        (old(buffer)@.len() as int) % (width as int) == 0,
        (old(buffer)@.len() as int) / (width as int) <= 0xFFFF,
        0 <= zero.0 + pos.0,
        0 <= zero.1 + pos.1,
        zero.0 + pos.0 + 8 <= width,
        zero.1 + pos.1 + 8 <= (old(buffer)@.len() as int) / (width as int),
    ensures
        final(buffer)@.len() == old(buffer)@.len(),
        forall|cx: int, cy: int| 0 <= cx < width && 0 <= cy < (old(buffer)@.len() as int) / (width as int) ==>
            #[trigger] px(final(buffer)@, width as int, cx, cy) == stamp(px(old(buffer)@, width as int, cx, cy),
                in_square(zero.0 + pos.0, zero.1 + pos.1, 8, cx, cy),
                tile_src(tile@, cx - (zero.0 + pos.0), cy - (zero.1 + pos.1), flip_x, flip_y)),
{
    let mut canvas = canvas_over(buffer, width, zero);
    let ghost start = canvas;
    canvas.paint_tile(tile, pos.0, pos.1, flip_x, flip_y);
    assert forall|cx: int, cy: int| 0 <= cx < width && 0 <= cy < canvas.height implies
        #[trigger] px(canvas.buffer@, width as int, cx, cy) == stamp(px(start.buffer@, width as int, cx, cy),
            in_square(zero.0 + pos.0, zero.1 + pos.1, 8, cx, cy),
            tile_src(tile@, cx - (zero.0 + pos.0), cy - (zero.1 + pos.1), flip_x, flip_y)) by {
        assert(canvas.pixel(cx, cy) == px(canvas.buffer@, width as int, cx, cy));
    }
    core::mem::swap(&mut canvas.buffer, buffer);
}

/// Stamps a 16x16 block of four tiles (top left, top right, bottom left,
/// bottom right) at offset `pos` from the origin `zero` of the canvas held
/// in `buffer`, `width` pixels wide.
pub fn paint_block(buffer: &mut Vec<u8>, width: u16, zero: (u16, u16), tiles: (&Tile, &Tile, &Tile, &Tile), pos: (i16, i16), flip_x: bool, flip_y: bool)
    requires
        width > 0,
        (old(buffer)@.len() as int) % (width as int) == 0,
        (old(buffer)@.len() as int) / (width as int) <= 0xFFFF,
        0 <= zero.0 + pos.0,
        0 <= zero.1 + pos.1,
        zero.0 + pos.0 + 16 <= width,
        zero.1 + pos.1 + 16 <= (old(buffer)@.len() as int) / (width as int),
    ensures
        final(buffer)@.len() == old(buffer)@.len(),
        forall|cx: int, cy: int| 0 <= cx < width && 0 <= cy < (old(buffer)@.len() as int) / (width as int) ==>
            #[trigger] px(final(buffer)@, width as int, cx, cy) == stamp(px(old(buffer)@, width as int, cx, cy),
                in_square(zero.0 + pos.0, zero.1 + pos.1, 16, cx, cy),
                block_src(tiles.0@, tiles.1@, tiles.2@, tiles.3@, cx - (zero.0 + pos.0), cy - (zero.1 + pos.1), flip_x, flip_y)),
{
    let mut canvas = canvas_over(buffer, width, zero);
    let ghost start = canvas;
    canvas.paint_block(tiles.0, tiles.1, tiles.2, tiles.3, pos.0, pos.1, flip_x, flip_y);
    assert forall|cx: int, cy: int| 0 <= cx < width && 0 <= cy < canvas.height implies
        #[trigger] px(canvas.buffer@, width as int, cx, cy) == stamp(px(start.buffer@, width as int, cx, cy),
            in_square(zero.0 + pos.0, zero.1 + pos.1, 16, cx, cy),
            block_src(tiles.0@, tiles.1@, tiles.2@, tiles.3@, cx - (zero.0 + pos.0), cy - (zero.1 + pos.1), flip_x, flip_y)) by {
        assert(canvas.pixel(cx, cy) == px(canvas.buffer@, width as int, cx, cy));
    }
    core::mem::swap(&mut canvas.buffer, buffer);
}

} // verus!
