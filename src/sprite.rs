//! A decoded animation with its palette, and a looping view over it.

use vstd::prelude::*;
use crate::centered_canvas::{lemma_index_bounds, lemma_index_unique, px};
use crate::frame_map::CompositedFrame;
use crate::util::{bgr555_rgb888, blue5, green5, red5, RGBu8};

verus! {

/// Composited frames and the BGR555 palette they index into.
pub struct Sprite {
    frames: Vec<CompositedFrame>,
    palette: Vec<u16>,
}

impl Sprite {
    pub closed spec fn frame_list(&self) -> Seq<CompositedFrame> {
        self.frames@
    }

    pub closed spec fn colours(&self) -> Seq<u16> {
        self.palette@
    }

    pub fn new(frames: Vec<CompositedFrame>, palette: Vec<u16>) -> (r: Sprite)
        ensures
            r.frame_list() == frames@,
            r.colours() == palette@,
    {
        Sprite { frames, palette }
    }

    pub fn frames(&self) -> (r: &[CompositedFrame])
        ensures
            r@ == self.frame_list(),
    {
        self.frames.as_slice()
    }

    /// The palette widened to eight bits per channel.
    pub fn palette888(&self) -> (r: Vec<RGBu8>)
        ensures
            r@.len() == self.colours().len(),
            forall|i: int| 0 <= i < r@.len() ==> {
                &&& (#[trigger] r@[i]).0 == red5(self.colours()[i]) * 8
                &&& r@[i].1 == green5(self.colours()[i]) * 8
                &&& r@[i].2 == blue5(self.colours()[i]) * 8
            },
    {
        let mut out: Vec<RGBu8> = Vec::new();
        let mut i: usize = 0;
        while i < self.palette.len()
            invariant
                i <= self.palette@.len(),
                out@.len() == i,
                forall|j: int| 0 <= j < i ==> {
                    &&& (#[trigger] out@[j]).0 == red5(self.palette@[j]) * 8
                    &&& out@[j].1 == green5(self.palette@[j]) * 8
                    &&& out@[j].2 == blue5(self.palette@[j]) * 8
                },
            decreases self.palette@.len() - i,
        {
            out.push(bgr555_rgb888(&self.palette[i]));
            i = i + 1;
        }
        out
    }
}

/// Plays a sprite's frames in order, starting over after the last.
pub struct SpriteView<'a> {
    frames: &'a [CompositedFrame],
    index: usize,
}

impl<'a> SpriteView<'a> {
    pub closed spec fn frame_list(&self) -> Seq<CompositedFrame> {
        self.frames@
    }

    /// The position of the frame shown next.
    pub closed spec fn position(&self) -> usize {
        self.index
    }

    pub closed spec fn wf(&self) -> bool {
        self.frames@.len() > 0 && self.index < self.frames@.len()
    }

    /// A view at the first frame of `sprite`, which must have one.
    pub fn new(sprite: &'a Sprite) -> (r: SpriteView<'a>)
        requires
            sprite.frame_list().len() > 0,
        ensures
            r.wf(),
            r.frame_list() == sprite.frame_list(),
            r.position() == 0,
    {
        SpriteView { frames: sprite.frames(), index: 0 }
    }

    /// The current frame; moves on to the next, after the last to the first.
    pub fn frame(&mut self) -> (r: &'a CompositedFrame)
        requires
            old(self).wf(),
        ensures
            final(self).wf(),
            final(self).frame_list() == old(self).frame_list(),
            *r == old(self).frame_list()[old(self).position() as int],
            final(self).position() == (old(self).position() + 1) % (old(self).frame_list().len() as int),
    {
        let f = &self.frames[self.index];
        self.index = (self.index + 1) % self.frames.len();
        f
    }
}

/// The frame fits a `size` x `size` square when its origin is put at the
/// square's centre.
pub open spec fn fits_square(size: int, f: &CompositedFrame) -> bool {
    &&& f.buffer@.len() == f.width * f.height
    &&& f.zero_x <= size / 2 && f.zero_y <= size / 2
    &&& size / 2 - f.zero_x + f.width <= size
    &&& size / 2 - f.zero_y + f.height <= size
    &&& size <= 0xFFFF
}

/// The pixel at (`x`, `y`) of the square holding `f` centred on its origin.
pub open spec fn centred_pixel(size: int, f: &CompositedFrame, x: int, y: int) -> u8 {
    let ox = size / 2 - f.zero_x;
    let oy = size / 2 - f.zero_y;
    if ox <= x < ox + f.width && oy <= y < oy + f.height {
        px(f.buffer@, f.width as int, x - ox, y - oy)
    } else {
        0
    }
}

/// Copies `frame` into a transparent `size` x `size` square, with the
/// frame's origin at the square's centre.
pub fn center_buffer_on_square(size: usize, frame: &CompositedFrame) -> (r: Vec<u8>)
    requires
        fits_square(size as int, frame),
    ensures
        r@.len() == size * size,
        forall|x: int, y: int| 0 <= x < size && 0 <= y < size ==>
            #[trigger] px(r@, size as int, x, y) == centred_pixel(size as int, frame, x, y),
{
    assert(size * size <= 0xFFFF * 0xFFFF) by (nonlinear_arith)
        requires size <= 0xFFFF;
    let n: usize = size * size;
    let mut v: Vec<u8> = Vec::new();
    let mut i: usize = 0;
    while i < n
        invariant
            i <= n,
            v@.len() == i,
            forall|j: int| 0 <= j < i ==> #[trigger] v@[j] == 0,
        decreases n - i,
    {
        v.push(0);
        i = i + 1;
    }
    let w = frame.width as usize;
    let h = frame.height as usize;
    let ox: usize = size / 2 - frame.zero_x as usize;
    let oy: usize = size / 2 - frame.zero_y as usize;
    let ghost s = size as int;
    let blen = frame.buffer.len();
    assert forall|cx: int, cy: int| 0 <= cx < s && 0 <= cy < s implies #[trigger] px(v@, s, cx, cy) == 0 by {
        lemma_index_bounds(s, s, cx, cy);
    }
    let mut y: usize = 0;
    while y < h
        invariant
            blen == frame.buffer@.len(),
            fits_square(s, frame),
            s == size,
            n == size * size,
            w == frame.width,
            h == frame.height,
            ox == size / 2 - frame.zero_x,
            oy == size / 2 - frame.zero_y,
            y <= h,
            v@.len() == n,
            forall|cx: int, cy: int| 0 <= cx < s && 0 <= cy < s ==> #[trigger] px(v@, s, cx, cy) ==
                (if oy <= cy < oy + y { centred_pixel(s, frame, cx, cy) } else { 0 }),
        decreases h - y,
    {
        let mut x: usize = 0;
        while x < w
            invariant
                blen == frame.buffer@.len(),
                fits_square(s, frame),
                s == size,
                n == size * size,
                w == frame.width,
                h == frame.height,
                ox == size / 2 - frame.zero_x,
                oy == size / 2 - frame.zero_y,
                y < h,
                x <= w,
                v@.len() == n,
                forall|cx: int, cy: int| 0 <= cx < s && 0 <= cy < s ==> #[trigger] px(v@, s, cx, cy) ==
                    (if oy <= cy < oy + y || (cy == oy + y && ox <= cx < ox + x) { centred_pixel(s, frame, cx, cy) } else { 0 }),
            decreases w - x,
        {
            proof {
                lemma_index_bounds(w as int, h as int, x as int, y as int);
                lemma_index_bounds(s, s, (ox + x) as int, (oy + y) as int);
            }
            let p = frame.buffer[y * w + x];
            let qx = ox + x;
            let qy = oy + y;
            if p != 0 {
                let ghost before = v@;
                v.set(qy * size + qx, p);
                assert forall|cx: int, cy: int| 0 <= cx < s && 0 <= cy < s implies
                    #[trigger] px(v@, s, cx, cy) == if cx == qx && cy == qy { p } else { px(before, s, cx, cy) } by {
                    lemma_index_bounds(s, s, cx, cy);
                    if cy * s + cx == qy * s + qx {
                        lemma_index_unique(s, cx, cy, qx as int, qy as int);
                    }
                }
            }
            assert(centred_pixel(s, frame, qx as int, qy as int) == p);
            x = x + 1;
        }
        y = y + 1;
    }
    v
}

/// Enlarges a `size` x `size` picture `scale` times in each direction.
pub fn scale_square(buffer: &[u8], size: usize, scale: usize) -> (r: Vec<u8>)
    requires
        buffer@.len() == size * size,
        0 < scale,
        size * scale <= 0xFFFF,
    ensures
        r@.len() == (size * scale) * (size * scale),
        forall|x: int, y: int| 0 <= x < size * scale && 0 <= y < size * scale ==>
            #[trigger] px(r@, size * scale, x, y) == px(buffer@, size as int, x / scale as int, (y as int) / (scale as int)),
{
    assert(size * scale * (size * scale) <= 0xFFFF * 0xFFFF) by (nonlinear_arith)
        requires size * scale <= 0xFFFF;
    let side: usize = size * scale;
    let ghost s = side as int;
    let blen = buffer.len();
    let mut out: Vec<u8> = Vec::new();
    let mut y: usize = 0;
    while y < side
        invariant
            s == side,
            side == size * scale,
            side <= 0xFFFF,
            buffer@.len() == size * size,
            blen == buffer@.len(),
            0 < scale,
            y <= side,
            out@.len() == y * side,
            forall|cx: int, cy: int| 0 <= cx < s && 0 <= cy < y ==>
                #[trigger] px(out@, s, cx, cy) == px(buffer@, size as int, cx / scale as int, cy / scale as int),
        decreases side - y,
    {
        let mut x: usize = 0;
        while x < side
            invariant
                s == side,
                side == size * scale,
                side <= 0xFFFF,
                buffer@.len() == size * size,
                blen == buffer@.len(),
                0 < scale,
                y < side,
                x <= side,
                out@.len() == y * side + x,
                forall|cx: int, cy: int| 0 <= cx < s && 0 <= cy < y ==>
                    #[trigger] px(out@, s, cx, cy) == px(buffer@, size as int, cx / scale as int, cy / scale as int),
                forall|cx: int| 0 <= cx < x ==>
                    #[trigger] px(out@, s, cx, y as int) == px(buffer@, size as int, cx / scale as int, (y as int) / (scale as int)),
            decreases side - x,
        {
            proof {
                lemma_scaled_index(size as int, scale as int, x as int, y as int);
                lemma_index_bounds(s, s, x as int, y as int);
            }
            let i = (y / scale) * size + x / scale;
            let ghost before = out@;
            out.push(buffer[i]);
            assert forall|cx: int, cy: int| 0 <= cx < s && 0 <= cy < y implies
                #[trigger] px(out@, s, cx, cy) == px(before, s, cx, cy) by {
                lemma_index_bounds(s, y as int, cx, cy);
                assert(y * s <= y * s + x);
            }
            assert forall|cx: int| 0 <= cx <= x implies
                #[trigger] px(out@, s, cx, y as int) == px(buffer@, size as int, cx / scale as int, (y as int) / (scale as int)) by {
                if cx < x {
                    assert(px(out@, s, cx, y as int) == px(before, s, cx, y as int));
                }
            }
            x = x + 1;
        }
        assert((y + 1) * side == y * side + side) by (nonlinear_arith);
        y = y + 1;
    }
    assert(side * side == s * s);
    out
}

proof fn lemma_scaled_index(size: int, scale: int, x: int, y: int)
    requires
        0 < scale,
        0 <= x < size * scale,
        0 <= y < size * scale,
    ensures
        0 <= x / scale < size,
        0 <= y / scale < size,
        0 <= (y / scale) * size + x / scale < size * size,
{
    assert(x / scale < size) by {
        vstd::arithmetic::div_mod::lemma_div_is_ordered(x, size * scale - 1, scale);
        vstd::arithmetic::div_mod::lemma_div_multiples_vanish_fancy(size - 1, scale - 1, scale);
        assert(size * scale - 1 == (size - 1) * scale + (scale - 1)) by (nonlinear_arith);
    }
    assert(y / scale < size) by {
        vstd::arithmetic::div_mod::lemma_div_is_ordered(y, size * scale - 1, scale);
        vstd::arithmetic::div_mod::lemma_div_multiples_vanish_fancy(size - 1, scale - 1, scale);
        assert(size * scale - 1 == (size - 1) * scale + (scale - 1)) by (nonlinear_arith);
    }
    vstd::arithmetic::div_mod::lemma_div_pos_is_pos(x, scale);
    vstd::arithmetic::div_mod::lemma_div_pos_is_pos(y, scale);
    lemma_index_bounds(size, size, x / scale, y / scale);
}

/// The four bytes (red, green, blue, alpha) shown at (`x`, `y`) of a
/// `width` x `height` picture holding `f` centred on its origin: the
/// palette colour, opaque, of a non-zero index inside the frame, and
/// transparent black elsewhere.
pub open spec fn rgba_at(f: &crate::pose::Frame, palette: Seq<RGBu8>, width: int, height: int, x: int, y: int, c: int) -> u8 {
    let ox = width / 2 - f.zero_x;
    let oy = height / 2 - f.zero_y;
    let inside = ox <= x < ox + f.width && oy <= y < oy + f.height;
    let index = px(f.buffer@, f.width as int, x - ox, y - oy);
    if inside && index != 0 {
        let colour = palette[index as int];
        if c == 0 { colour.0 } else if c == 1 { colour.1 } else if c == 2 { colour.2 } else { 0xFF }
    } else {
        0
    }
}

/// Renders `f` centred on its origin into a `width` x `height` picture of
/// red, green, blue and alpha bytes, row by row.
pub fn frame_to_rgba(f: &crate::pose::Frame, palette: &[RGBu8], width: usize, height: usize) -> (r: Vec<u8>)
    requires
        f.buffer@.len() == f.width * f.height,
        f.zero_x <= width / 2,
        f.zero_y <= height / 2,
        width <= 0xFFFF,
        height <= 0xFFFF,
        forall|i: int| 0 <= i < f.buffer@.len() ==> #[trigger] f.buffer@[i] < palette@.len(),
    ensures
        r@.len() == 4 * (width * height),
        forall|x: int, y: int, c: int| 0 <= x < width && 0 <= y < height && 0 <= c < 4 ==>
            #[trigger] r@[4 * (y * width + x) + c] == rgba_at(f, palette@, width as int, height as int, x, y, c),
{
    let fw = f.width as usize;
    let fh = f.height as usize;
    let ox: usize = width / 2 - f.zero_x as usize;
    let oy: usize = height / 2 - f.zero_y as usize;
    let blen = f.buffer.len();
    let mut out: Vec<u8> = Vec::new();
    let mut y: usize = 0;
    while y < height
        invariant
            f.buffer@.len() == f.width * f.height,
            f.zero_x <= width / 2,
            f.zero_y <= height / 2,
            width <= 0xFFFF,
            height <= 0xFFFF,
            forall|i: int| 0 <= i < f.buffer@.len() ==> #[trigger] f.buffer@[i] < palette@.len(),
            blen == f.buffer@.len(),
            fw == f.width,
            fh == f.height,
            ox == width / 2 - f.zero_x,
            oy == height / 2 - f.zero_y,
            y <= height,
            out@.len() == 4 * (y * width),
            forall|x: int, yy: int, c: int| 0 <= x < width && 0 <= yy < y && 0 <= c < 4 ==>
                #[trigger] out@[4 * (yy * width + x) + c] == rgba_at(f, palette@, width as int, height as int, x, yy, c),
        decreases height - y,
    {
        let mut x: usize = 0;
        while x < width
            invariant
                f.buffer@.len() == f.width * f.height,
                f.zero_x <= width / 2,
                f.zero_y <= height / 2,
                width <= 0xFFFF,
                height <= 0xFFFF,
                forall|i: int| 0 <= i < f.buffer@.len() ==> #[trigger] f.buffer@[i] < palette@.len(),
                blen == f.buffer@.len(),
                fw == f.width,
                fh == f.height,
                ox == width / 2 - f.zero_x,
                oy == height / 2 - f.zero_y,
                y < height,
                x <= width,
                out@.len() == 4 * (y * width + x),
                forall|xx: int, yy: int, c: int| 0 <= xx < width && 0 <= yy < y && 0 <= c < 4 ==>
                    #[trigger] out@[4 * (yy * width + xx) + c] == rgba_at(f, palette@, width as int, height as int, xx, yy, c),
                forall|xx: int, c: int| 0 <= xx < x && 0 <= c < 4 ==>
                    #[trigger] out@[4 * (y * width + xx) + c] == rgba_at(f, palette@, width as int, height as int, xx, y as int, c),
            decreases width - x,
        {
            proof {
                lemma_index_bounds(width as int, height as int, x as int, y as int);
                assert((width as int) * (height as int) <= 0xFFFF * 0xFFFF) by (nonlinear_arith)
                    requires width <= 0xFFFF, height <= 0xFFFF;
            }
            let inside = ox <= x && x < ox + fw && oy <= y && y < oy + fh;
            let mut colour: (u8, u8, u8, u8) = (0, 0, 0, 0);
            if inside {
                proof {
                    lemma_index_bounds(fw as int, fh as int, (x - ox) as int, (y - oy) as int);
                }
                let index = f.buffer[(y - oy) * fw + (x - ox)];
                if index != 0 {
                    let c = palette[index as usize];
                    colour = (c.0, c.1, c.2, 0xFF);
                }
            }
            let ghost before = out@;
            let ghost base = 4 * (y * width + x);
            out.push(colour.0);
            out.push(colour.1);
            out.push(colour.2);
            out.push(colour.3);
            assert forall|xx: int, yy: int, c: int| 0 <= xx < width && 0 <= yy < y && 0 <= c < 4 implies
                #[trigger] out@[4 * (yy * width + xx) + c] == rgba_at(f, palette@, width as int, height as int, xx, yy, c) by {
                assert(yy * width + xx < y * width) by (nonlinear_arith)
                    requires 0 <= xx < width, 0 <= yy < y;
                assert(out@[4 * (yy * width + xx) + c] == before[4 * (yy * width + xx) + c]);
            }
            assert forall|xx: int, c: int| 0 <= xx < x + 1 && 0 <= c < 4 implies
                #[trigger] out@[4 * (y * width + xx) + c] == rgba_at(f, palette@, width as int, height as int, xx, y as int, c) by {
                if xx < x {
                    assert(out@[4 * (y * width + xx) + c] == before[4 * (y * width + xx) + c]);
                } else {
                    assert(4 * (y * width + xx) + c == base + c);
                }
            }
            x = x + 1;
        }
        assert(4 * ((y + 1) * width) == 4 * (y * width + width)) by (nonlinear_arith);
        y = y + 1;
    }
    assert(y * width == width * height) by (nonlinear_arith)
        requires y == height;
    out
}

} // verus!
