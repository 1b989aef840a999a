use samus::controller_input::{ControllerInput, JUMP, LEFT, RIGHT};
use samus::pose::{Next, Pose, Sequence, Terminator, Transition};
use samus::state_machine::{PoseTable, StateMachine};

fn pose(id: usize, frames: Vec<usize>, terminator: Terminator, transitions: Vec<Transition>) -> Pose {
    let durations: Vec<u8> = frames.iter().map(|f| (*f as u8) + 1).collect();
    Pose::new(id, "test", frames, Sequence { durations, terminator, transitions })
}

fn to(input: u16, to_pose: u8) -> Transition {
    Transition { input: ControllerInput { bits: input }, to_pose }
}

#[test]
fn loop_returns_first_frame_after_last() {
    let mut p = pose(1, vec![10, 11, 12], Terminator::Loop, vec![]);
    assert_eq!(p.next(), Next::Frame(10, 11));
    assert_eq!(p.next(), Next::Frame(11, 12));
    assert_eq!(p.next(), Next::Frame(12, 13));
    assert_eq!(p.next(), Next::Frame(10, 11));
    assert_eq!(p.next(), Next::Frame(11, 12));
}

#[test]
fn stop_holds_the_last_frame() {
    let mut p = pose(1, vec![10, 11, 12], Terminator::Stop, vec![]);
    for _ in 0..3 {
        p.next();
    }
    for _ in 0..5 {
        assert_eq!(p.next(), Next::Frame(12, 13));
    }
}

#[test]
fn backtrack_rewinds_from_the_end() {
    let mut p = pose(1, vec![0, 1, 2, 3, 4], Terminator::Backtrack(2), vec![]);
    for i in 0..5 {
        assert_eq!(p.next(), Next::Frame(i, i as u8 + 1));
    }
    assert_eq!(p.next(), Next::Frame(3, 4));
    assert_eq!(p.next(), Next::Frame(4, 5));
    assert_eq!(p.next(), Next::Frame(3, 4));
}

#[test]
fn backtrack_never_passes_the_start() {
    let mut p = pose(1, vec![0, 1], Terminator::Backtrack(9), vec![]);
    p.next();
    p.next();
    assert_eq!(p.next(), Next::Frame(0, 1));
    let mut q = pose(1, vec![0, 1], Terminator::Backtrack(0), vec![]);
    q.next();
    q.next();
    assert_eq!(q.next(), Next::Frame(1, 2));
}

#[test]
fn transition_to_asks_for_another_pose() {
    let mut p = pose(1, vec![0], Terminator::TransitionTo(7), vec![]);
    assert_eq!(p.next(), Next::Frame(0, 1));
    assert_eq!(p.next(), Next::NewPose(7));
    assert_eq!(p.next(), Next::NewPose(7));
}

fn table() -> PoseTable {
    let mut t = PoseTable::new();
    for _ in 0..8 {
        t.add_frame(samus::pose::Frame { buffer: vec![], width: 0, height: 0, zero_x: 0, zero_y: 0 });
    }
    assert!(t.insert(pose(0x00, vec![0], Terminator::Loop, vec![to(RIGHT, 0x09), to(LEFT, 0x0A)])));
    assert!(t.insert(pose(0x09, vec![1, 2], Terminator::Loop, vec![to(0, 0x00)])));
    assert!(t.insert(pose(0x0A, vec![3], Terminator::Loop, vec![to(RIGHT, 0x55)])));
    assert!(t.insert(pose(0x13, vec![4], Terminator::Stop, vec![])));
    assert!(t.insert(pose(0x67, vec![5], Terminator::Loop, vec![])));
    assert!(t.insert(pose(0xE6, vec![6], Terminator::TransitionTo(0x00), vec![])));
    assert!(!t.insert(pose(0x09, vec![7], Terminator::Loop, vec![])));
    t
}

#[test]
fn input_right_walks() {
    let t = table();
    let mut sm = StateMachine::new(0x00, &t);
    assert!(sm.input(ControllerInput { bits: RIGHT }));
    assert_eq!(sm.pose_state(), 0x09);
    assert_eq!(sm.pose_name(), "test");
    assert_eq!(sm.current_input(), ControllerInput { bits: RIGHT });
}

#[test]
fn same_input_twice_switches_once() {
    let t = table();
    let mut sm = StateMachine::new(0x00, &t);
    assert!(sm.input(ControllerInput { bits: RIGHT }));
    assert!(!sm.input(ControllerInput { bits: RIGHT }));
    assert_eq!(sm.pose_state(), 0x09);
}

#[test]
fn input_to_missing_pose_changes_nothing() {
    let t = table();
    let mut sm = StateMachine::new(0x0A, &t);
    assert!(!sm.input(ControllerInput { bits: RIGHT }));
    assert_eq!(sm.pose_state(), 0x0A);
    assert!(!sm.input(ControllerInput { bits: JUMP }));
    assert_eq!(sm.current_input(), ControllerInput { bits: JUMP });
}

#[test]
fn goto_fall_land() {
    let t = table();
    let mut sm = StateMachine::new(0x00, &t);
    assert!(!sm.goto(0x42));
    assert_eq!(sm.pose_state(), 0x00);
    assert!(!sm.fall());
    assert!(sm.goto(0x13));
    assert!(sm.fall());
    assert_eq!(sm.pose_state(), 0x67);
    assert!(sm.land());
    assert_eq!(sm.pose_state(), 0xE6);
    assert!(!sm.land());
}

#[test]
fn next_follows_hand_over_and_reapplies_held_input() {
    let t = table();
    let mut sm = StateMachine::new(0x00, &t);
    assert!(sm.input(ControllerInput { bits: RIGHT }));
    assert!(sm.goto(0xE6));
    assert_eq!(sm.next(), Some((6, 7)));
    // 0xE6 hands over to 0x00, where Right is still held: back to walking.
    assert_eq!(sm.next(), Some((1, 2)));
    assert_eq!(sm.pose_state(), 0x09);
    assert_eq!(sm.next(), Some((2, 3)));
    assert_eq!(sm.next(), Some((1, 2)));
}

#[test]
fn bonk_releases_input() {
    let t = table();
    let mut sm = StateMachine::new(0x00, &t);
    assert!(sm.input(ControllerInput { bits: RIGHT }));
    assert!(sm.bonk());
    assert_eq!(sm.pose_state(), 0x00);
    assert!(sm.current_input().is_empty());
}

#[test]
fn hand_over_to_missing_pose_gives_none() {
    let mut t = PoseTable::new();
    t.add_frame(samus::pose::Frame { buffer: vec![], width: 0, height: 0, zero_x: 0, zero_y: 0 });
    assert!(t.insert(pose(0x01, vec![0], Terminator::TransitionTo(0x02), vec![])));
    assert!(t.insert(pose(0x02, vec![], Terminator::TransitionTo(0x03), vec![])));
    let mut sm = StateMachine::new(0x01, &t);
    assert_eq!(sm.next(), Some((0, 1)));
    assert_eq!(sm.next(), None);
}

#[test]
fn hand_over_cycle_gives_none() {
    let mut t = PoseTable::new();
    assert!(t.insert(pose(0x01, vec![], Terminator::TransitionTo(0x02), vec![])));
    assert!(t.insert(pose(0x02, vec![], Terminator::TransitionTo(0x01), vec![])));
    let mut sm = StateMachine::new(0x01, &t);
    assert_eq!(sm.next(), None);
}
