use samus::controller_input::{ControllerInput, RIGHT};
use samus::enemy::DNA;
use samus::error::DecodeError;
use samus::frame_map::FrameMap;
use samus::pose::{Terminator, Transition};
use samus::samus::{build_pose, build_pose_table, graphics, pose_frames, PoseEntry, lookup_frame_durations, lookup_frame_sequence, lookup_pose_transitions, samus_palette, tilemaps};
use samus::snes::{snespc, PcAddress, Rom, SnesAddress};
use samus::state_machine::{PoseTable, StateMachine};
use samus::util::{bgr555_rgb565, bgr555_rgb888};

fn put(rom: &mut [u8], at: usize, bytes: &[u8]) {
    rom[at..at + bytes.len()].copy_from_slice(bytes);
}

fn put16(rom: &mut [u8], at: usize, v: u16) {
    put(rom, at, &v.to_le_bytes());
}

/// A small image with two poses laid out where the tables expect them.
fn image() -> Vec<u8> {
    let mut rom = vec![0u8; 0xD9420];
    // Pose 3: durations 4, 5, 6 then "rewind 2".
    put16(&mut rom, 0x8B010 + 6, 0x1234);
    put(&mut rom, 0x81234, &[4, 5, 6, 0xFE, 0x02]);
    put16(&mut rom, 0x89EE2 + 6, 0x2000);
    put(&mut rom, 0x82000, &[0x00, 0x01, 0x01, 0x00, 0x09, 0x00, 0xFF, 0xFF]);
    // Pose 0: one frame of 3 ticks, looping, no transitions.
    put16(&mut rom, 0x8B010, 0x1000);
    put(&mut rom, 0x81000, &[3, 0xFF]);
    put16(&mut rom, 0x89EE2, 0x2100);
    put(&mut rom, 0x82100, &[0xFF, 0xFF]);
    // Pose 0's frame map: top half only, one block at (-8, -16).
    put16(&mut rom, 0x91263, 0x100);
    put16(&mut rom, 0x9145D, 0x200);
    put16(&mut rom, 0x9008D + 0x200, 0x0010);
    put16(&mut rom, 0x9008D + 0x400, 0x0000);
    put(&mut rom, 0x88010, &[1, 0, 0xF8, 0x80, 0xF0, 0x00, 0x00]);
    // Pose 0's graphics: one tile in the top's first part, one in the
    // bottom's second part.
    put16(&mut rom, 0x9594E, 0x0100);
    put(&mut rom, 0x88100, &[0, 0, 0, 0]);
    put16(&mut rom, 0x9591E, 0x0200);
    put(&mut rom, 0x88200, &[0x00, 0x80, 0x9A, 0x20, 0x00, 0x00, 0x00]);
    put16(&mut rom, 0x95938, 0x0300);
    put(&mut rom, 0x88300, &[0x00, 0x80, 0x9A, 0x00, 0x00, 0x20, 0x00]);
    put(&mut rom, 0xD0000, &[0xFF; 32]);
    // Palette: white, then red.
    put16(&mut rom, 0xD9400, 0x7FFF);
    put16(&mut rom, 0xD9402, 0x001F);
    rom
}

#[test]
fn durations_stop_at_the_opcode() {
    let bytes = image();
    let rom = Rom(&bytes);
    assert_eq!(lookup_frame_durations(&rom, 3).unwrap(), vec![4, 5, 6]);
    assert_eq!(lookup_frame_durations(&rom, 0).unwrap(), vec![3]);
}

#[test]
fn sequence_reads_terminator_and_transitions() {
    let bytes = image();
    let rom = Rom(&bytes);
    let s = lookup_frame_sequence(&rom, 3).unwrap();
    assert_eq!(s.durations, vec![4, 5, 6]);
    assert_eq!(s.terminator, Terminator::Backtrack(2));
    assert_eq!(s.transitions, vec![Transition { input: ControllerInput { bits: RIGHT }, to_pose: 9 }]);
    let s = lookup_frame_sequence(&rom, 0).unwrap();
    assert_eq!(s.terminator, Terminator::Loop);
    assert!(s.transitions.is_empty());
}

#[test]
fn opcodes_select_terminators() {
    let cases: [(u8, Terminator); 6] = [
        (0xF0, Terminator::Stop),
        (0xFF, Terminator::Loop),
        (0xF6, Terminator::Loop),
        (0xFD, Terminator::TransitionTo(0x21)),
        (0xF8, Terminator::TransitionTo(0x21)),
        (0xFE, Terminator::Backtrack(0x21)),
    ];
    for (op, want) in cases {
        let mut bytes = image();
        put(&mut bytes, 0x81234, &[4, op, 0x21]);
        let rom = Rom(&bytes);
        assert_eq!(lookup_frame_sequence(&rom, 3).unwrap().terminator, want);
    }
}

#[test]
fn sequence_faults() {
    let mut bytes = vec![0u8; 0x8B020];
    put16(&mut bytes, 0x8B010, 0x1000);
    let rom = Rom(&bytes);
    assert_eq!(lookup_frame_durations(&rom, 0).unwrap_err(), DecodeError::NoTerminator);
    assert!(matches!(lookup_frame_durations(&rom, 100).unwrap_err(), DecodeError::OutOfBounds { .. }));
    let bytes = image();
    let rom = Rom(&bytes[..0x82004]);
    assert_eq!(lookup_pose_transitions(&rom, 0).unwrap_err(), DecodeError::OutOfBounds { offset: 0x89EE2, len: 2 });
}

#[test]
fn transitions_without_end_mark_fault() {
    let mut bytes = image();
    let len = bytes.len();
    put16(&mut bytes, 0x89EE2 + 6, 0xFFF0);
    bytes.truncate(len.min(0x8FFF4));
    let rom = Rom(&bytes);
    assert_eq!(lookup_pose_transitions(&rom, 3).unwrap_err(), DecodeError::NoSentinel);
}

#[test]
fn tilemaps_join_top_and_bottom() {
    let bytes = image();
    let rom = Rom(&bytes);
    let maps = tilemaps(&rom, 0, 1).unwrap();
    assert_eq!(maps.len(), 1);
    assert_eq!(maps[0], vec![FrameMap::from_slice(&[0xF8, 0x80, 0xF0, 0x00, 0x00])]);
    assert_eq!(FrameMap::from_rom(&rom, SnesAddress(0x918000), 0x10).unwrap().len(), 1);
}

#[test]
fn graphics_pad_each_half_row() {
    let bytes = image();
    let rom = Rom(&bytes);
    let g = graphics(&rom, 0, 1).unwrap();
    assert_eq!(g.len(), 1);
    assert_eq!(g[0].len(), 32);
    for (i, t) in g[0].iter().enumerate() {
        let want = if i == 0 || i == 24 { 15 } else { 0 };
        assert!(t.0.iter().all(|p| *p == want), "tile {}", i);
    }
}

#[test]
fn build_pose_composites_and_stores() {
    let bytes = image();
    let rom = Rom(&bytes);
    let mut table = PoseTable::new();
    assert_eq!(build_pose(&rom, 0, 0x01, "elevator", &mut table), Ok(true));
    assert_eq!(build_pose(&rom, 0, 0x01, "elevator", &mut table), Ok(false));
    assert_eq!(table.poses.len(), 1);
    let p = &table.poses[0];
    assert_eq!(p.durations, vec![3]);
    assert_eq!(p.frames, vec![0]);
    assert_eq!(p.transitions, vec![Transition { input: ControllerInput::empty(), to_pose: 1 }]);
    let f = table.frame(0);
    assert_eq!((f.width, f.height, f.zero_x, f.zero_y), (16, 16, 8, 16));
    assert_eq!(f.buffer[0], 15);
    assert_eq!(f.buffer[8], 0);
    let mut sm = StateMachine::new(0, &table);
    assert_eq!(sm.next(), Some((0, 3)));
    assert_eq!(sm.next(), Some((0, 3)));
    assert_eq!(sm.pose_name(), "elevator");
}

#[test]
fn build_pose_reports_faults() {
    let bytes = image();
    let rom = Rom(&bytes[..0x8B020]);
    let mut table = PoseTable::new();
    assert!(build_pose(&rom, 0, 0xFF, "x", &mut table).is_err());
    assert!(table.poses.is_empty());
    assert!(table.frames.is_empty());
}

#[test]
fn palette_is_widened() {
    let bytes = image();
    let rom = Rom(&bytes);
    let p = samus_palette(&rom).unwrap();
    assert_eq!(p.len(), 16);
    assert_eq!(p[0], (248, 248, 248));
    assert_eq!(p[1], (248, 0, 0));
    assert_eq!(p[2], (0, 0, 0));
    assert!(samus_palette(&Rom(&bytes[..0xD9410])).is_err());
}

#[test]
fn address_translation() {
    assert_eq!(snespc(0x91B010), 0x8B010);
    assert_eq!(snespc(0x808000), 0);
    assert_eq!(SnesAddress(0x9A8000).to_pc(), PcAddress(0xD0000));
    assert_eq!(samus::util::snespc(0x91, 0xB010), 0x8B010);
    assert_eq!(samus::util::snespc2(0xA08000), 0x100000);
}

fn enemy_image() -> Vec<u8> {
    let mut rom = vec![0u8; 0x1A0100];
    let dna = 0x100000;
    put16(&mut rom, dna, 0x0020);
    put16(&mut rom, dna + 2, 0x8100);
    rom[dna + 12] = 0xA1;
    put(&mut rom, dna + 54, &[0x00, 0x82, 0xA1, 0x77]);
    put16(&mut rom, dna + 62, 0x8010);
    put(&mut rom, 0x1A0010, b"EVIR  ");
    put16(&mut rom, 0x108100, 0x7FFF);
    put(&mut rom, 0x108120, &[0x08, 0x00, 0x00, 0x90, 0xED, 0x80, 0x00, 0x00]);
    put(&mut rom, 0x109000, &[1, 0, 0, 0, 0, 0, 0]);
    put(&mut rom, 0x108200, &[0xFF, 0x00].repeat(8));
    rom
}

#[test]
fn enemy_record() {
    let bytes = enemy_image();
    let rom = Rom(&bytes);
    let dna = DNA::read_from_rom(rom, SnesAddress(0xA08000)).unwrap();
    assert_eq!(dna.graphadr, 0xA18200);
    assert_eq!(dna.mb, 0xA10000);
    assert_eq!(dna.name().unwrap(), Some("EVIR".to_string()));
    assert_eq!(dna.palette().unwrap()[..2], [0xFF, 0x7F]);
    let frames = dna.frames().unwrap();
    assert_eq!(frames.len(), 1);
    assert_eq!(frames[0].duration, 8);
    let tiles = dna.graphics().unwrap();
    assert_eq!(tiles.len(), 1);
    assert!(tiles[0].0.iter().all(|p| *p == 1));
    let f = frames[0].composited(&tiles).unwrap();
    assert_eq!((f.width, f.height, f.duration), (8, 8, 8));
    assert!(f.buffer.iter().all(|p| *p == 1));
}

#[test]
fn rom_reads() {
    let bytes = b"SAMUS ARAN\0".to_vec();
    let rom = Rom(&bytes);
    assert_eq!(rom.read(PcAddress(6), 4), b"ARAN");
    assert_eq!(rom.read_string(PcAddress(0), 11), Some("SAMUS".to_string()));
    assert_eq!(rom.read_string(PcAddress(6), 5), Some("ARAN".to_string()));
    assert_eq!(samus::util::snes_string(&[0xC3, 0x28, 0x00], 0), None);
    assert_eq!(samus::util::snes_string(&[0xC3, 0xA9, 0x00], 0), Some("\u{e9}".to_string()));
    assert!(rom.try_read(8, 4).is_err());
}

#[test]
fn colour_conversions() {
    assert_eq!(bgr555_rgb888(&0x7FFF), (248, 248, 248));
    assert_eq!(bgr555_rgb888(&0x001F), (248, 0, 0));
    assert_eq!(bgr555_rgb888(&0x03E0), (0, 248, 0));
    assert_eq!(bgr555_rgb888(&0x7C00), (0, 0, 248));
    assert_eq!(bgr555_rgb565(&0x001F), 0xF800);
    assert_eq!(bgr555_rgb565(&0x03E0), 0x07C0);
    assert_eq!(bgr555_rgb565(&0x7C00), 0x001F);
}

#[test]
fn pose_table_from_a_list() {
    let bytes = image();
    let rom = Rom(&bytes);
    let list = [
        PoseEntry { state: 0, name: "elevator", default_state: 0xFF },
        PoseEntry { state: 0x40000, name: "broken", default_state: 0xFF },
    ];
    let t = build_pose_table(&rom, &list, &[0]).unwrap();
    assert_eq!(t.poses.len(), 1);
    assert!(t.get(0).is_some());
    assert!(t.get(0x40000).is_none());
    // The second entry's table slots lie past the end of the image.
    assert!(build_pose_table(&rom, &list, &[]).is_err());
    assert_eq!(build_pose_table(&rom, &list, &[7]).unwrap().poses.len(), 0);
}

#[test]
fn address_arithmetic() {
    assert_eq!(PcAddress(0x100) + 0x20, PcAddress(0x120));
    assert_eq!((SnesAddress(0x910000) + 0x1234).to_pc(), PcAddress(0x81234));
}

#[test]
fn graphics_faults() {
    let mut bytes = image();
    put(&mut bytes, 0x88100, &[0x0D, 0, 0, 0]);
    assert_eq!(graphics(&Rom(&bytes), 0, 1).unwrap_err(), DecodeError::BadTableIndex { value: 0x0D });
    let mut bytes = image();
    put(&mut bytes, 0x88100, &[0, 0, 0x0B, 0]);
    assert_eq!(graphics(&Rom(&bytes), 0, 1).unwrap_err(), DecodeError::BadTableIndex { value: 0x0B });
    let mut bytes = image();
    put(&mut bytes, 0x88200, &[0x00, 0x80, 0x9A, 0x21, 0x00, 0x00, 0x00]);
    assert_eq!(graphics(&Rom(&bytes), 0, 1).unwrap_err(), DecodeError::BadPartSize { len: 0x21 });
    let mut bytes = image();
    put(&mut bytes, 0x88200, &[0x00, 0x10, 0x80, 0x20, 0x00, 0x00, 0x00]);
    assert_eq!(graphics(&Rom(&bytes), 0, 1).unwrap_err(), DecodeError::BadAddress { addr: 0x801000 });
}

#[test]
fn pose_without_frames_must_hand_over() {
    let mut bytes = image();
    put(&mut bytes, 0x81000, &[0xFF]);
    let mut table = PoseTable::new();
    assert_eq!(build_pose(&Rom(&bytes), 0, 0xFF, "x", &mut table), Err(DecodeError::EmptyPose { state: 0 }));
    put(&mut bytes, 0x81000, &[0xFD, 0x05]);
    assert_eq!(build_pose(&Rom(&bytes), 0, 0xFF, "x", &mut table), Ok(true));
    assert_eq!(table.poses[0].terminator, Terminator::TransitionTo(5));
    assert!(table.frames.is_empty());
}

#[test]
fn enemy_record_before_image_start() {
    let bytes = enemy_image();
    assert_eq!(DNA::read_from_rom(Rom(&bytes), SnesAddress(0x000000)).err(), Some(DecodeError::BadAddress { addr: 0 }));
}

#[test]
fn pose_frames_composite_with_durations() {
    let bytes = image();
    let frames = pose_frames(&Rom(&bytes), 0).unwrap();
    assert_eq!(frames.len(), 1);
    let f = &frames[0];
    assert_eq!((f.width, f.height, f.zero_x, f.zero_y, f.duration), (16, 16, 8, 16, 3));
    assert_eq!(f.buffer[0], 15);
    assert!(pose_frames(&Rom(&bytes[..0x8B020]), 0).is_err());
}

#[test]
fn pose_table_holds_decoded_poses() {
    let bytes = image();
    let list = [
        PoseEntry { state: 0, name: "elevator", default_state: 0x01 },
        PoseEntry { state: 0, name: "again", default_state: 0xFF },
    ];
    let t = build_pose_table(&Rom(&bytes), &list, &[]).unwrap();
    assert_eq!(t.poses.len(), 1);
    let p = t.get(0).unwrap();
    assert_eq!(p.name, "elevator");
    assert_eq!(p.durations, vec![3]);
    assert_eq!(p.terminator, Terminator::Loop);
    assert_eq!(p.transitions, vec![Transition { input: ControllerInput::empty(), to_pose: 1 }]);
    assert_eq!(t.frame(p.frames[0]).buffer[0], 15);
}

#[test]
fn enemy_frame_geometry_and_missing_tiles() {
    let bytes = enemy_image();
    let dna = DNA::read_from_rom(Rom(&bytes), SnesAddress(0xA08000)).unwrap();
    let frames = dna.frames().unwrap();
    let f = frames[0].composited(&dna.graphics().unwrap()).unwrap();
    assert_eq!((f.width, f.height, f.zero_x, f.zero_y), (8, 8, 0, 0));
    assert_eq!(
        frames[0].composited(&[]).unwrap_err(),
        DecodeError::MissingTile { part: 0, wanted: 0, available: 0 }
    );
}
