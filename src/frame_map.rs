//! Frame maps: the placement records that position tiles around a sprite's
//! origin, and the compositing of a list of them into one picture.

use vstd::prelude::*;
use crate::bitplanes::Tile;
use crate::centered_canvas::{block_src, in_square, px, stamp, tile_src, CenteredCanvas};
use crate::bytes::{le16, read_u16};
use crate::error::DecodeError;
use crate::pose::Frame;
use crate::snes::{try_snespc, PcAddress, Rom, SnesAddress};

verus! {

/// A composited picture of palette indices, with the position of the
/// origin inside it and how long it is shown.
#[derive(Debug)]
pub struct CompositedFrame {
    pub buffer: Vec<u8>,
    pub width: u16,
    pub height: u16,
    pub zero_x: u16,
    pub zero_y: u16,
    pub duration: u16,
}

/// One placement record of five bytes: offsets from the origin, a tile
/// index, and flag bytes that mark a 2x2 block and mirroring.
#[derive(Clone, Copy, Debug, PartialEq, Eq, Structural)]
pub struct FrameMap {
    pub x: i8,
    pub priority_a: u8,
    pub y: i8,
    pub tile: u8,
    pub priority_b: u8,
}

impl FrameMap {
    /// The part covers a 16x16 block of four tiles.
    pub open spec fn double(self) -> bool {
        self.priority_a & 0x80 != 0
    }

    pub open spec fn mirrored_x(self) -> bool {
        self.priority_b & 0x40 != 0
    }

    pub open spec fn mirrored_y(self) -> bool {
        self.priority_b & 0x80 != 0
    }

    /// The side of the square the part covers.
    pub open spec fn size(self) -> int {
        if self.double() { 16 } else { 8 }
    }

    /// The highest tile index the part uses: tiles `tile`, `tile + 1`,
    /// `tile + 16` and `tile + 17` for a block, `tile` alone otherwise.
    pub open spec fn last_tile(self) -> int {
        if self.double() { self.tile + 17 } else { self.tile as int }
    }

    /// The pixel of the part at (`dx`, `dy`) inside its square, mirroring
    /// included: the block is read as one 16x16 picture whose tile rows are
    /// 16 tiles apart.
    pub open spec fn pixel(self, tiles: Seq<Seq<u8>>, dx: int, dy: int) -> u8 {
        let s = self.size();
        let sx = if self.mirrored_x() { s - 1 - dx } else { dx };
        let sy = if self.mirrored_y() { s - 1 - dy } else { dy };
        tiles[self.tile + sx / 8 + 16 * (sy / 8)][(sy % 8) * 8 + sx % 8]
    }

    pub fn is_double(&self) -> (r: bool)
        ensures
            r == self.double(),
    {
        self.priority_a & 0x80 != 0
    }

    pub fn x(&self) -> (r: i16)
        ensures
            r == self.x,
    {
        self.x as i16
    }

    pub fn y(&self) -> (r: i16)
        ensures
            r == self.y,
    {
        self.y as i16
    }

    pub fn tile(&self) -> (r: u8)
        ensures
            r == self.tile,
    {
        self.tile
    }

    pub fn flip_horizontal(&self) -> (r: bool)
        ensures
            r == self.mirrored_x(),
    {
        self.priority_b & 0x40 != 0
    }

    pub fn flip_vertical(&self) -> (r: bool)
        ensures
            r == self.mirrored_y(),
    {
        self.priority_b & 0x80 != 0
    }

    /// Whether the part's tiles continue on the next page of graphics.
    pub fn load_next_page(&self) -> (r: bool)
        ensures
            r == (self.priority_b & 1 != 0),
    {
        self.priority_b & 1 != 0
    }

    /// Reads a record from its five bytes: x, first flags, y, tile, second
    /// flags.
    pub fn from_slice(slice: &[u8]) -> (r: FrameMap)
        requires
            slice@.len() >= 5,
        ensures
            r.x == slice@[0] as i8,
            r.priority_a == slice@[1],
            r.y == slice@[2] as i8,
            r.tile == slice@[3],
            r.priority_b == slice@[4],
    {
        FrameMap {
            x: slice[0] as i8,
            priority_a: slice[1],
            y: slice[2] as i8,
            tile: slice[3],
            priority_b: slice[4],
        }
    }
}

/// The record in the five bytes at image offset `r`.
pub open spec fn record_at(rom: Seq<u8>, r: int) -> FrameMap {
    FrameMap { x: rom[r] as i8, priority_a: rom[r + 1], y: rom[r + 2] as i8, tile: rom[r + 3], priority_b: rom[r + 4] }
}

/// The frame map stored at image offset `a`: a 16-bit count, then that
/// many five-byte records.
pub open spec fn frame_maps_at(rom: Seq<u8>, a: int) -> Seq<FrameMap> {
    Seq::new(le16(rom, a) as nat, |k: int| record_at(rom, a + 2 + 5 * k))
}

/// The frame map stored at image offset `a` lies inside the image.
pub open spec fn frame_maps_in(rom: Seq<u8>, a: int) -> bool {
    &&& 0 <= a
    &&& a + 2 <= rom.len()
    &&& a + 2 + 5 * le16(rom, a) <= rom.len()
}

impl FrameMap {
    /// The frame map stored `offset` bytes after banked address `snes_addr`.
    pub fn from_rom(rom: &Rom, snes_addr: SnesAddress, offset: usize) -> (r: Result<Vec<FrameMap>, DecodeError>)
        ensures
            r is Ok <==> snes_addr.pc() >= 0 && frame_maps_in(rom.bytes(), snes_addr.pc() + offset),
            r matches Ok(v) ==> v@ == frame_maps_at(rom.bytes(), snes_addr.pc() + offset),
    {
        let base = match try_snespc(snes_addr.0) {
            Some(p) => p,
            None => return Err(DecodeError::BadAddress { addr: snes_addr.0 }),
        };
        let n = rom.len();
        if base > n || offset > n - base {
            return Err(DecodeError::OutOfBounds { offset: base, len: offset });
        }
        let addr = base + offset;
        let head = rom.try_read(addr, 2)?;
        let count = read_u16(head) as usize;
        if n - addr - 2 < 5 * count {
            return Err(DecodeError::OutOfBounds { offset: addr + 2, len: 5 * count });
        }
        let mut v: Vec<FrameMap> = Vec::new();
        let mut k: usize = 0;
        while k < count
            invariant
                n == rom.bytes().len(),
                addr + 2 + 5 * count <= n,
                count == le16(rom.bytes(), addr as int),
                k <= count,
                v@ == frame_maps_at(rom.bytes(), addr as int).subrange(0, k as int),
            decreases count - k,
        {
            let rec = rom.read(PcAddress(addr + 2 + 5 * k), 5);
            v.push(FrameMap::from_slice(rec));
            k = k + 1;
        }
        assert(v@ =~= frame_maps_at(rom.bytes(), addr as int));
        Ok(v)
    }
}

/// `left`, `top`, `right` and `bottom` are the smallest box that holds the
/// origin and every part's square.
pub open spec fn bounding_box(parts: Seq<FrameMap>, left: int, top: int, right: int, bottom: int) -> bool {
    &&& left <= 0 && top <= 0 && 0 <= right && 0 <= bottom
    &&& forall|i: int| 0 <= i < parts.len() ==> left <= #[trigger] parts[i].x
    &&& forall|i: int| 0 <= i < parts.len() ==> top <= #[trigger] parts[i].y
    &&& forall|i: int| 0 <= i < parts.len() ==> #[trigger] parts[i].x + parts[i].size() <= right
    &&& forall|i: int| 0 <= i < parts.len() ==> #[trigger] parts[i].y + parts[i].size() <= bottom
    &&& (left == 0 || exists|i: int| 0 <= i < parts.len() && #[trigger] parts[i].x == left)
    &&& (top == 0 || exists|i: int| 0 <= i < parts.len() && #[trigger] parts[i].y == top)
    &&& (right == 0 || exists|i: int| 0 <= i < parts.len() && #[trigger] parts[i].x + parts[i].size() == right)
    &&& (bottom == 0 || exists|i: int| 0 <= i < parts.len() && #[trigger] parts[i].y + parts[i].size() == bottom)
}

/// The size of the canvas for `frame_maps` and the origin inside it:
/// (`zero_x`, `zero_y`, `width`, `height`).
pub fn dimensions(frame_maps: &[FrameMap]) -> (r: (u16, u16, u16, u16))
    ensures
        bounding_box(frame_maps@, -r.0, -r.1, r.2 - r.0, r.3 - r.1),
{
    let mut top: i16 = 0;
    let mut bottom: i16 = 0;
    let mut left: i16 = 0;
    let mut right: i16 = 0;
    let mut i: usize = 0;
    while i < frame_maps.len()
        invariant
            i <= frame_maps@.len(),
            -128 <= left <= 0,
            -128 <= top <= 0,
            0 <= right <= 143,
            0 <= bottom <= 143,
            bounding_box(frame_maps@.subrange(0, i as int), left as int, top as int, right as int, bottom as int),
        decreases frame_maps@.len() - i,
    {
        let map = frame_maps[i];
        let size: i16 = if map.is_double() { 16 } else { 8 };
        let ghost (l0, t0, r0, b0) = (left, top, right, bottom);
        if map.x() < left {
            left = map.x();
        }
        if map.x() + size > right {
            right = map.x() + size;
        }
        if map.y() < top {
            top = map.y();
        }
        if map.y() + size > bottom {
            bottom = map.y() + size;
        }
        let ghost prev = frame_maps@.subrange(0, i as int);
        let ghost next = frame_maps@.subrange(0, i + 1);
        assert(next[i as int] == map);
        assert forall|j: int| 0 <= j < i implies #[trigger] next[j] == prev[j] by {}
        proof {
            if left != 0 && left == l0 {
                let j = choose|j: int| 0 <= j < prev.len() && #[trigger] prev[j].x == l0;
                assert(next[j].x == left);
            }
            if top != 0 && top == t0 {
                let j = choose|j: int| 0 <= j < prev.len() && #[trigger] prev[j].y == t0;
                assert(next[j].y == top);
            }
            if right != 0 && right == r0 {
                let j = choose|j: int| 0 <= j < prev.len() && #[trigger] prev[j].x + prev[j].size() == r0;
                assert(next[j].x + next[j].size() == right);
            }
            if bottom != 0 && bottom == b0 {
                let j = choose|j: int| 0 <= j < prev.len() && #[trigger] prev[j].y + prev[j].size() == b0;
                assert(next[j].y + next[j].size() == bottom);
            }
        }
        i = i + 1;
    }
    assert(frame_maps@.subrange(0, i as int) =~= frame_maps@);
    ((-left) as u16, (-top) as u16, (right - left) as u16, (bottom - top) as u16)
}

/// The pixels of each tile.
pub open spec fn tile_views(tiles: Seq<Tile>) -> Seq<Seq<u8>> {
    Seq::new(tiles.len(), |i: int| tiles[i]@)
}

/// The pixel at (`cx`, `cy`) of the picture composited from `parts` on a
/// canvas whose origin is (`zx`, `zy`): the first part in the list that
/// covers the point with a non-zero pixel gives it, and a point no part
/// covers so stays transparent (zero). Later parts are painted first and
/// earlier ones over them.
pub open spec fn layered(parts: Seq<FrameMap>, tiles: Seq<Seq<u8>>, zx: int, zy: int, cx: int, cy: int) -> u8
    decreases parts.len(),
{
    if parts.len() == 0 {
        0
    } else {
        let p = parts[0];
        stamp(
            layered(parts.drop_first(), tiles, zx, zy, cx, cy),
            in_square(zx + p.x, zy + p.y, p.size(), cx, cy),
            p.pixel(tiles, cx - (zx + p.x), cy - (zy + p.y)),
        )
    }
}

/// The tile a block part shows in quadrant (`qx`, `qy`), mirroring included.
pub open spec fn quadrant(p: FrameMap, qx: int, qy: int) -> int {
    p.tile + (if p.mirrored_x() { 1 - qx } else { qx }) + 16 * (if p.mirrored_y() { 1 - qy } else { qy })
}

proof fn lemma_single_pixel(p: FrameMap, tiles: Seq<Seq<u8>>, dx: int, dy: int)
    requires
        !p.double(),
        0 <= dx < 8,
        0 <= dy < 8,
    ensures
        tile_src(tiles[p.tile as int], dx, dy, p.mirrored_x(), p.mirrored_y()) == p.pixel(tiles, dx, dy),
{
    let sx = if p.mirrored_x() { 7 - dx } else { dx };
    let sy = if p.mirrored_y() { 7 - dy } else { dy };
    assert(sx / 8 == 0 && sx % 8 == sx);
    assert(sy / 8 == 0 && sy % 8 == sy);
}

proof fn lemma_mirror_16(d: int, m: bool)
    requires
        0 <= d < 16,
    ensures
        ({
            let s = if m { 15 - d } else { d };
            &&& s / 8 == (if m { 1 - d / 8 } else { d / 8 })
            &&& s % 8 == (if m { 7 - d % 8 } else { d % 8 })
        }),
{
}

proof fn lemma_block_pixel(p: FrameMap, tiles: Seq<Seq<u8>>, dx: int, dy: int)
    requires
        p.double(),
        0 <= dx < 16,
        0 <= dy < 16,
    ensures
        block_src(tiles[quadrant(p, 0, 0)], tiles[quadrant(p, 1, 0)], tiles[quadrant(p, 0, 1)],
            tiles[quadrant(p, 1, 1)], dx, dy, p.mirrored_x(), p.mirrored_y()) == p.pixel(tiles, dx, dy),
{
    lemma_mirror_16(dx, p.mirrored_x());
    lemma_mirror_16(dy, p.mirrored_y());
    assert(quadrant(p, dx / 8, dy / 8) == p.tile
        + (if p.mirrored_x() { 15 - dx } else { dx }) / 8
        + 16 * ((if p.mirrored_y() { 15 - dy } else { dy }) / 8));
}

impl FrameMap {
    /// Composites `frame_maps` into one picture, painting them from the last
    /// to the first so that earlier parts end up on top; zero pixels are
    /// transparent. Fails when a part needs a tile that `tiles` lacks,
    /// naming the last such part in the list.
    pub fn composite(frame_maps: &[FrameMap], tiles: &[Tile], duration: u16) -> (r: Result<CompositedFrame, DecodeError>)
        ensures
            r is Err <==> exists|i: int| 0 <= i < frame_maps@.len() && #[trigger] frame_maps@[i].last_tile() >= tiles@.len(),
            r matches Err(e) ==> (e matches DecodeError::MissingTile { part, wanted, available }
                && part < frame_maps@.len()
                && wanted == frame_maps@[part as int].last_tile()
                && available == tiles@.len()
                && wanted >= available
                && forall|j: int| part < j < frame_maps@.len() ==> #[trigger] frame_maps@[j].last_tile() < tiles@.len()),
            r matches Ok(f) ==> {
                &&& bounding_box(frame_maps@, -f.zero_x, -f.zero_y, f.width - f.zero_x, f.height - f.zero_y)
                &&& f.duration == duration
                &&& f.buffer@.len() == f.width * f.height
                &&& forall|cx: int, cy: int| 0 <= cx < f.width && 0 <= cy < f.height ==>
                    #[trigger] px(f.buffer@, f.width as int, cx, cy)
                        == layered(frame_maps@, tile_views(tiles@), f.zero_x as int, f.zero_y as int, cx, cy)
            },
    {
        let n = frame_maps.len();
        let mut j: usize = n;
        while j > 0
            invariant
                j <= n,
                n == frame_maps@.len(),
                forall|k: int| j <= k < n ==> #[trigger] frame_maps@[k].last_tile() < tiles@.len(),
            decreases j,
        {
            j = j - 1;
            let part = frame_maps[j];
            let wanted: usize = if part.is_double() { part.tile as usize + 17 } else { part.tile as usize };
            if wanted >= tiles.len() {
                assert(frame_maps@[j as int].last_tile() >= tiles@.len());
                return Err(DecodeError::MissingTile { part: j, wanted, available: tiles.len() });
            }
        }
        let (zx, zy, width, height) = dimensions(frame_maps);
        let mut canvas = CenteredCanvas::new(width, height, (zx, zy));
        let ghost w = width as int;
        let ghost h = height as int;
        assert forall|cx: int, cy: int| 0 <= cx < w && 0 <= cy < h implies
            #[trigger] canvas.pixel(cx, cy) == layered(frame_maps@.subrange(n as int, n as int), tile_views(tiles@), zx as int, zy as int, cx, cy) by {
            crate::centered_canvas::lemma_index_bounds(w, h, cx, cy);
        }
        let mut i: usize = n;
        while i > 0
            invariant
                i <= n,
                n == frame_maps@.len(),
                forall|k: int| 0 <= k < n ==> #[trigger] frame_maps@[k].last_tile() < tiles@.len(),
                bounding_box(frame_maps@, -zx, -zy, width - zx, height - zy),
                canvas.wf(),
                canvas.width == width,
                canvas.height == height,
                canvas.zero_x == zx,
                canvas.zero_y == zy,
                w == width,
                h == height,
                forall|cx: int, cy: int| 0 <= cx < w && 0 <= cy < h ==>
                    #[trigger] canvas.pixel(cx, cy) == layered(frame_maps@.subrange(i as int, n as int), tile_views(tiles@), zx as int, zy as int, cx, cy),
            decreases i,
        {
            i = i - 1;
            let part = frame_maps[i];
            let ghost before = canvas;
            let ghost p = part;
            assert(frame_maps@[i as int] == part);
            assert(part.last_tile() < tiles@.len());
            let fx = part.flip_horizontal();
            let fy = part.flip_vertical();
            if part.is_double() {
                let t = part.tile as usize;
                let (a, b) = if fx { (t + 1, t) } else { (t, t + 1) };
                let (tl, tr, bl, br) = if fy { (a + 16, b + 16, a, b) } else { (a, b, a + 16, b + 16) };
                assert(tl == quadrant(p, 0, 0) && tr == quadrant(p, 1, 0) && bl == quadrant(p, 0, 1) && br == quadrant(p, 1, 1));
                canvas.paint_block(&tiles[tl], &tiles[tr], &tiles[bl], &tiles[br], part.x(), part.y(), fx, fy);
                assert forall|cx: int, cy: int| 0 <= cx < w && 0 <= cy < h &&
                    #[trigger] in_square(zx + p.x, zy + p.y, 16, cx, cy) implies
                    block_src(tiles@[tl as int]@, tiles@[tr as int]@, tiles@[bl as int]@, tiles@[br as int]@,
                        cx - (zx + p.x), cy - (zy + p.y), fx, fy) == p.pixel(tile_views(tiles@), cx - (zx + p.x), cy - (zy + p.y)) by {
                    lemma_block_pixel(p, tile_views(tiles@), cx - (zx + p.x), cy - (zy + p.y));
                }
            } else {
                canvas.paint_tile(&tiles[part.tile as usize], part.x(), part.y(), fx, fy);
                assert forall|cx: int, cy: int| 0 <= cx < w && 0 <= cy < h &&
                    #[trigger] in_square(zx + p.x, zy + p.y, 8, cx, cy) implies
                    tile_src(tiles@[p.tile as int]@, cx - (zx + p.x), cy - (zy + p.y), fx, fy)
                        == p.pixel(tile_views(tiles@), cx - (zx + p.x), cy - (zy + p.y)) by {
                    lemma_single_pixel(p, tile_views(tiles@), cx - (zx + p.x), cy - (zy + p.y));
                }
            }
            assert(frame_maps@.subrange(i as int, n as int).drop_first() =~= frame_maps@.subrange(i + 1, n as int));
            assert(frame_maps@.subrange(i as int, n as int)[0] == p);
        }
        assert(frame_maps@.subrange(0, n as int) =~= frame_maps@);
        assert forall|cx: int, cy: int| 0 <= cx < w && 0 <= cy < h implies
            #[trigger] px(canvas.buffer@, w, cx, cy) == layered(frame_maps@, tile_views(tiles@), zx as int, zy as int, cx, cy) by {
            assert(canvas.pixel(cx, cy) == layered(frame_maps@.subrange(0, n as int), tile_views(tiles@), zx as int, zy as int, cx, cy));
        }
        Ok(CompositedFrame {
            buffer: canvas.buffer,
            width: canvas.width,
            height: canvas.height,
            zero_x: canvas.zero_x,
            zero_y: canvas.zero_y,
            duration,
        })
    }
}

/// `f` is the picture composited from `parts` over `tiles`: the smallest
/// box around the parts and the origin, filled with the layered pixels.
pub open spec fn shows(f: &Frame, parts: Seq<FrameMap>, tiles: Seq<Seq<u8>>) -> bool {
    &&& bounding_box(parts, -f.zero_x, -f.zero_y, f.width - f.zero_x, f.height - f.zero_y)
    &&& f.buffer@.len() == f.width * f.height
    &&& forall|cx: int, cy: int| 0 <= cx < f.width && 0 <= cy < f.height ==>
        #[trigger] px(f.buffer@, f.width as int, cx, cy) == layered(parts, tiles, f.zero_x as int, f.zero_y as int, cx, cy)
}

/// A single plain part at the origin reproduces its tile: the pixel at
/// (`zx + c`, `zy + r`) is the tile's pixel at row `r`, column `c`, and
/// every other point of the canvas stays transparent.
pub proof fn lemma_single_part_reproduces_tile(p: FrameMap, tiles: Seq<Seq<u8>>, zx: int, zy: int, cx: int, cy: int)
    requires
        !p.double(),
        !p.mirrored_x(),
        !p.mirrored_y(),
        p.x == 0,
        p.y == 0,
        p.tile < tiles.len(),
    ensures
        in_square(zx, zy, 8, cx, cy) ==> layered(seq![p], tiles, zx, zy, cx, cy) == tiles[p.tile as int][(cy - zy) * 8 + (cx - zx)],
        !in_square(zx, zy, 8, cx, cy) ==> layered(seq![p], tiles, zx, zy, cx, cy) == 0,
{
    let parts = seq![p];
    assert(parts.drop_first() =~= Seq::<FrameMap>::empty());
    assert(layered(parts.drop_first(), tiles, zx, zy, cx, cy) == 0);
    assert(parts[0] == p);
    if in_square(zx, zy, 8, cx, cy) {
        let dx = cx - zx;
        let dy = cy - zy;
        assert(dx / 8 == 0 && dx % 8 == dx);
        assert(dy / 8 == 0 && dy % 8 == dy);
    }
}

/// Mirroring a block left to right swaps its left and right tiles in each
/// row, and shows the unmirrored block's picture reversed column by column.
pub proof fn lemma_flip_horizontal_swaps(p: FrameMap, q: FrameMap, tiles: Seq<Seq<u8>>, dx: int, dy: int)
    requires
        p.double(),
        q.double(),
        p.tile == q.tile,
        p.mirrored_x(),
        !q.mirrored_x(),
        p.mirrored_y() == q.mirrored_y(),
        0 <= dx < 16,
        0 <= dy < 16,
    ensures
        quadrant(p, 0, 0) == quadrant(q, 1, 0),
        quadrant(p, 1, 0) == quadrant(q, 0, 0),
        quadrant(p, 0, 1) == quadrant(q, 1, 1),
        quadrant(p, 1, 1) == quadrant(q, 0, 1),
        p.pixel(tiles, dx, dy) == q.pixel(tiles, 15 - dx, dy),
{
}

/// Mirroring a block top to bottom swaps its top and bottom tile rows, and
/// shows the unmirrored block's picture reversed row by row.
pub proof fn lemma_flip_vertical_swaps(p: FrameMap, q: FrameMap, tiles: Seq<Seq<u8>>, dx: int, dy: int)
    requires
        p.double(),
        q.double(),
        p.tile == q.tile,
        p.mirrored_y(),
        !q.mirrored_y(),
        p.mirrored_x() == q.mirrored_x(),
        0 <= dx < 16,
        0 <= dy < 16,
    ensures
        quadrant(p, 0, 0) == quadrant(q, 0, 1),
        quadrant(p, 1, 0) == quadrant(q, 1, 1),
        quadrant(p, 0, 1) == quadrant(q, 0, 0),
        quadrant(p, 1, 1) == quadrant(q, 1, 0),
        p.pixel(tiles, dx, dy) == q.pixel(tiles, dx, 15 - dy),
{
}

} // verus!
