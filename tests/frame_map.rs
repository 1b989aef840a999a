use samus::bitplanes::Tile;
use samus::centered_canvas::{paint_block, paint_tile, CenteredCanvas};
use samus::error::DecodeError;
use samus::frame_map::{dimensions, CompositedFrame, FrameMap};
use samus::sprite::{center_buffer_on_square, scale_square};

fn pattern(seed: u8) -> Tile {
    let mut t = [0u8; 64];
    for (i, p) in t.iter_mut().enumerate() {
        *p = ((i as u8).wrapping_mul(7).wrapping_add(seed)) % 16;
    }
    Tile(t)
}

fn part(x: i8, y: i8, tile: u8, double: bool, fx: bool, fy: bool) -> FrameMap {
    FrameMap::from_slice(&[
        x as u8,
        if double { 0x80 } else { 0 },
        y as u8,
        tile,
        (if fx { 0x40 } else { 0 }) | (if fy { 0x80 } else { 0 }),
    ])
}

#[test]
fn single_part_reproduces_its_tile() {
    let tiles = vec![pattern(0), pattern(3)];
    let f = FrameMap::composite(&[part(0, 0, 1, false, false, false)], &tiles, 5).unwrap();
    assert_eq!((f.width, f.height, f.zero_x, f.zero_y, f.duration), (8, 8, 0, 0, 5));
    for r in 0..8usize {
        for c in 0..8usize {
            let at = (f.zero_y as usize + r) * f.width as usize + f.zero_x as usize + c;
            assert_eq!(f.buffer[at], tiles[1].0[r * 8 + c]);
        }
    }
}

#[test]
fn negative_offsets_move_the_origin() {
    let tiles = vec![Tile([1u8; 64])];
    let f = FrameMap::composite(&[part(-4, -8, 0, false, false, false)], &tiles, 1).unwrap();
    assert_eq!((f.width, f.height, f.zero_x, f.zero_y), (8, 8, 4, 8));
    let f = FrameMap::composite(&[part(4, 2, 0, false, false, false)], &tiles, 1).unwrap();
    assert_eq!((f.width, f.height, f.zero_x, f.zero_y), (12, 10, 0, 0));
    assert_eq!(f.buffer.iter().filter(|p| **p != 0).count(), 64);
    assert_eq!(f.buffer[0], 0);
    assert_eq!(f.buffer[2 * 12 + 4], 1);
}

#[test]
fn dimensions_cover_all_parts() {
    let parts = [part(-10, 3, 0, true, false, false), part(20, -5, 0, false, false, false)];
    assert_eq!(dimensions(&parts), (10, 5, 38, 24));
    assert_eq!(dimensions(&[]), (0, 0, 0, 0));
}

#[test]
fn earlier_parts_are_on_top() {
    let tiles = vec![Tile([2u8; 64]), Tile([3u8; 64])];
    let f = FrameMap::composite(&[part(0, 0, 0, false, false, false), part(4, 0, 1, false, false, false)], &tiles, 1).unwrap();
    assert_eq!(f.width, 12);
    assert_eq!(f.buffer[5], 2);
    assert_eq!(f.buffer[9], 3);
    let mut holey = [4u8; 64];
    holey[5] = 0;
    let tiles = vec![Tile(holey), Tile([3u8; 64])];
    let f = FrameMap::composite(&[part(0, 0, 0, false, false, false), part(0, 0, 1, false, false, false)], &tiles, 1).unwrap();
    assert_eq!(f.buffer[5], 3);
    assert_eq!(f.buffer[6], 4);
}

fn block_tiles() -> Vec<Tile> {
    (0..18u8).map(|i| Tile([i % 15 + 1; 64])).collect()
}

#[test]
fn horizontal_flip_swaps_left_and_right() {
    let tiles = block_tiles();
    let plain = FrameMap::composite(&[part(0, 0, 0, true, false, false)], &tiles, 1).unwrap();
    let flipped = FrameMap::composite(&[part(0, 0, 0, true, true, false)], &tiles, 1).unwrap();
    assert_eq!(plain.buffer[0], 1);
    assert_eq!(plain.buffer[8], 2);
    assert_eq!(plain.buffer[8 * 16], 16 % 15 + 1);
    assert_eq!(flipped.buffer[0], 2);
    assert_eq!(flipped.buffer[8], 1);
    assert_eq!(flipped.buffer[8 * 16], 17 % 15 + 1);
    assert_eq!(flipped.buffer[8 * 16 + 8], 16 % 15 + 1);
}

#[test]
fn vertical_flip_swaps_top_and_bottom() {
    let tiles = block_tiles();
    let flipped = FrameMap::composite(&[part(0, 0, 0, true, false, true)], &tiles, 1).unwrap();
    assert_eq!(flipped.buffer[0], 16 % 15 + 1);
    assert_eq!(flipped.buffer[8], 17 % 15 + 1);
    assert_eq!(flipped.buffer[8 * 16], 1);
    assert_eq!(flipped.buffer[8 * 16 + 8], 2);
}

#[test]
fn flips_mirror_pixels_within_a_tile() {
    let mut t = [0u8; 64];
    t[0] = 9;
    let tiles = vec![Tile(t)];
    let f = FrameMap::composite(&[part(0, 0, 0, false, true, false)], &tiles, 1).unwrap();
    assert_eq!(f.buffer[7], 9);
    let f = FrameMap::composite(&[part(0, 0, 0, false, false, true)], &tiles, 1).unwrap();
    assert_eq!(f.buffer[56], 9);
    let f = FrameMap::composite(&[part(0, 0, 0, false, true, true)], &tiles, 1).unwrap();
    assert_eq!(f.buffer[63], 9);
}

#[test]
fn missing_tile_is_a_fault() {
    let tiles = vec![Tile([1u8; 64]); 17];
    let r = FrameMap::composite(&[part(0, 0, 0, true, false, false)], &tiles, 1);
    assert_eq!(r.unwrap_err(), DecodeError::MissingTile { part: 0, wanted: 17, available: 17 });
    let r = FrameMap::composite(&[part(0, 0, 3, false, false, false), part(0, 0, 0, false, false, false)], &tiles[..2], 1);
    assert_eq!(r.unwrap_err(), DecodeError::MissingTile { part: 0, wanted: 3, available: 2 });
}

#[test]
fn record_fields() {
    let p = FrameMap::from_slice(&[0xFE, 0x80, 0x03, 0x21, 0xC1]);
    assert_eq!(p.x(), -2);
    assert_eq!(p.y(), 3);
    assert_eq!(p.tile(), 0x21);
    assert!(p.is_double());
    assert!(p.flip_horizontal());
    assert!(p.flip_vertical());
    assert!(p.load_next_page());
}

#[test]
fn canvas_offsets_and_painting() {
    let mut c = CenteredCanvas::new(16, 16, (4, 4));
    assert_eq!(c.offset(-4, 2), (0, 6));
    c.paint_tile(&Tile([5u8; 64]), -4, -4, false, false);
    assert_eq!(c.buffer[0], 5);
    assert_eq!(c.buffer[8], 0);
    let a = Tile([1u8; 64]);
    let b = Tile([2u8; 64]);
    c.paint_block(&a, &b, &a, &b, -4, -4, false, false);
    assert_eq!(c.buffer[0], 1);
    assert_eq!(c.buffer[15], 2);
}

#[test]
fn centring_and_scaling_for_export() {
    let f = CompositedFrame { buffer: vec![1, 2, 3, 4], width: 2, height: 2, zero_x: 1, zero_y: 1, duration: 1 };
    let sq = center_buffer_on_square(4, &f);
    assert_eq!(sq, vec![0, 0, 0, 0, 0, 1, 2, 0, 0, 3, 4, 0, 0, 0, 0, 0]);
    let big = scale_square(&[1, 2, 3, 4], 2, 2);
    assert_eq!(big, vec![1, 1, 2, 2, 1, 1, 2, 2, 3, 3, 4, 4, 3, 3, 4, 4]);
}

#[test]
fn painting_into_a_plain_buffer() {
    let mut buffer = vec![0u8; 16 * 16];
    let mut t = [0u8; 64];
    t[0] = 7;
    paint_tile(&mut buffer, 16, (8, 8), &Tile(t), (-8, -8), true, false);
    assert_eq!(buffer[7], 7);
    assert_eq!(buffer.iter().filter(|p| **p != 0).count(), 1);
    let a = Tile([1u8; 64]);
    let b = Tile([2u8; 64]);
    paint_block(&mut buffer, 16, (8, 8), (&a, &b, &b, &a), (-8, -8), false, false);
    assert_eq!(buffer[0], 1);
    assert_eq!(buffer[8], 2);
    assert_eq!(buffer[8 * 16], 2);
    assert_eq!(buffer[16 * 16 - 1], 1);
}
