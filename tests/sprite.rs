use samus::frame_map::CompositedFrame;
use samus::pose::Frame;
use samus::sprite::{frame_to_rgba, Sprite, SpriteView};

fn frame(d: u16) -> CompositedFrame {
    CompositedFrame { buffer: vec![], width: 0, height: 0, zero_x: 0, zero_y: 0, duration: d }
}

#[test]
fn view_cycles_through_frames() {
    let sprite = Sprite::new(vec![frame(1), frame(2), frame(3)], vec![0x7FFF, 0x001F]);
    assert_eq!(sprite.frames().len(), 3);
    assert_eq!(sprite.palette888(), vec![(248, 248, 248), (248, 0, 0)]);
    let mut view = SpriteView::new(&sprite);
    let seen: Vec<u16> = (0..5).map(|_| view.frame().duration).collect();
    assert_eq!(seen, vec![1, 2, 3, 1, 2]);
}

#[test]
fn rgba_rendering_centres_and_colours() {
    let f = Frame { buffer: vec![0, 1, 2, 0], width: 2, height: 2, zero_x: 1, zero_y: 1 };
    let palette = [(0, 0, 0), (10, 20, 30), (40, 50, 60)];
    let out = frame_to_rgba(&f, &palette, 4, 4);
    assert_eq!(out.len(), 64);
    let at = |x: usize, y: usize| &out[4 * (y * 4 + x)..4 * (y * 4 + x) + 4];
    assert_eq!(at(1, 1), &[0, 0, 0, 0]);
    assert_eq!(at(2, 1), &[10, 20, 30, 255]);
    assert_eq!(at(1, 2), &[40, 50, 60, 255]);
    assert_eq!(at(0, 0), &[0, 0, 0, 0]);
    assert_eq!(at(3, 3), &[0, 0, 0, 0]);
}
