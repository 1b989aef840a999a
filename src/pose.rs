//! Poses: one animation each, played back frame by frame.

use vstd::prelude::*;
use crate::controller_input::ControllerInput;

verus! {

/// A switch to another pose, taken while exactly `input` is held.
#[derive(Clone, Copy, Debug, PartialEq, Eq, Structural)]
pub struct Transition {
    pub input: ControllerInput,
    pub to_pose: u8,
}

/// What a pose does once its frames have all been shown.
#[derive(Clone, Copy, Debug, PartialEq, Eq, Structural)]
pub enum Terminator {
    /// Start again from the first frame.
    Loop,
    /// Rewind this many frames from the end.
    Backtrack(u8),
    /// Hand over to the pose with this id.
    TransitionTo(u8),
    /// Keep showing the last frame.
    Stop,
}

/// One step of playback: a frame (its index in the frame store) with its
/// duration, or a request to switch to another pose.
#[derive(Clone, Copy, Debug, PartialEq, Eq, Structural)]
pub enum Next {
    Frame(usize, u8),
    NewPose(u8),
}

/// A finished picture: palette indices, row by row, with the position of
/// the sprite's origin inside it.
#[derive(Debug)]
pub struct Frame {
    pub buffer: Vec<u8>,
    pub width: u16,
    pub height: u16,
    pub zero_x: u16,
    pub zero_y: u16,
}

/// The timing of a pose as read from the image: one duration per frame,
/// what happens at the end, and the transitions out of it.
#[derive(Debug)]
pub struct Sequence {
    pub durations: Vec<u8>,
    pub terminator: Terminator,
    pub transitions: Vec<Transition>,
}

/// One animation: frames (indices into a frame store) with their
/// durations, a terminator, the transitions out of it, and a cursor.
#[derive(Debug)]
pub struct Pose {
    pub name: &'static str,
    pub id: usize,
    pub terminator: Terminator,
    pub durations: Vec<u8>,
    pub frames: Vec<usize>,
    pub transitions: Vec<Transition>,
    pub length: usize,
    pub cursor: usize,
}

/// The mathematical content of a pose.
pub struct PoseView {
    pub name: Seq<char>,
    pub id: usize,
    pub terminator: Terminator,
    pub durations: Seq<u8>,
    pub frames: Seq<usize>,
    pub transitions: Seq<Transition>,
    pub cursor: usize,
}

impl View for Pose {
    type V = PoseView;

    open spec fn view(&self) -> PoseView {
        PoseView {
            name: self.name@,
            id: self.id,
            terminator: self.terminator,
            durations: self.durations@,
            frames: self.frames@,
            transitions: self.transitions@,
            cursor: self.cursor,
        }
    }
}

/// Where a `Backtrack(n)` lands in a pose of `len` frames: `n` frames back
/// from the end, never before the first frame; rewinding by nothing stays on
/// the last frame.
pub open spec fn backtrack_target(len: int, n: u8) -> int {
    if n == 0 {
        len - 1
    } else if n as int >= len {
        0
    } else {
        len - n as int
    }
}

impl PoseView {
    /// Frames and durations run in parallel, the cursor never passes the
    /// end, and a pose without frames can only hand over to another.
    pub open spec fn wf(self) -> bool {
        &&& self.frames.len() == self.durations.len()
        &&& self.frames.len() <= usize::MAX
        &&& self.cursor <= self.frames.len()
        &&& (self.frames.len() == 0 ==> self.terminator is TransitionTo)
    }

    pub open spec fn with_cursor(self, cursor: usize) -> PoseView {
        PoseView { cursor, ..self }
    }

    /// The frame shown at position `i`.
    pub open spec fn frame_at(self, i: int) -> Next {
        Next::Frame(self.frames[i], self.durations[i])
    }

    /// One step of playback: what is emitted, and the cursor after it.
    pub open spec fn step(self) -> (Next, usize) {
        let len = self.frames.len() as int;
        if self.cursor < len {
            (self.frame_at(self.cursor as int), (self.cursor + 1) as usize)
        } else {
            match self.terminator {
                Terminator::Loop => (self.frame_at(0), 1),
                Terminator::Backtrack(n) => {
                    let t = backtrack_target(len, n);
                    (self.frame_at(t), (t + 1) as usize)
                },
                Terminator::Stop => (self.frame_at(len - 1), self.cursor),
                Terminator::TransitionTo(p) => (Next::NewPose(p), self.cursor),
            }
        }
    }

    /// The pose after `n` steps from this one.
    pub open spec fn advanced(self, n: nat) -> PoseView
        decreases n,
    {
        if n == 0 {
            self
        } else {
            self.with_cursor(self.step().1).advanced((n - 1) as nat)
        }
    }
}

/// Copies a vector of plain values element by element.
pub fn copy_vec<T: Copy>(v: &Vec<T>) -> (r: Vec<T>)
    ensures
        r@ == v@,
{
    let mut r: Vec<T> = Vec::new();
    let mut i: usize = 0;
    while i < v.len()
        invariant
            i <= v.len(),
            r@ == v@.subrange(0, i as int),
        decreases v.len() - i,
    {
        r.push(v[i]);
        i = i + 1;
    }
    assert(r@ =~= v@);
    r
}

impl Pose {
    pub open spec fn wf(&self) -> bool {
        &&& self@.wf()
        &&& self.length == self.frames.len()
    }

    /// A pose at its first frame, built from its frames and its sequence.
    pub fn new(id: usize, name: &'static str, frames: Vec<usize>, sequence: Sequence) -> (r: Pose)
        requires
            frames.len() == sequence.durations.len(),
            frames.len() == 0 ==> sequence.terminator is TransitionTo,
        ensures
            r.wf(),
            r@.name == name@,
            r.id == id,
            r.terminator == sequence.terminator,
            r.durations@ == sequence.durations@,
            r.frames@ == frames@,
            r.transitions@ == sequence.transitions@,
            r.cursor == 0,
    {
        let length = frames.len();
        Pose {
            name,
            id,
            terminator: sequence.terminator,
            durations: sequence.durations,
            frames,
            transitions: sequence.transitions,
            length,
            cursor: 0,
        }
    }

    /// An independent copy of this pose, cursor included.
    pub fn duplicate(&self) -> (r: Pose)
        ensures
            r@ == self@,
            r.length == self.length,
    {
        Pose {
            name: self.name,
            id: self.id,
            terminator: self.terminator,
            durations: copy_vec(&self.durations),
            frames: copy_vec(&self.frames),
            transitions: copy_vec(&self.transitions),
            length: self.length,
            cursor: self.cursor,
        }
    }

    /// Emits the frame under the cursor and moves on; past the end, applies
    /// the terminator.
    pub fn next(&mut self) -> (r: Next)
        requires
            old(self).wf(),
        ensures
            final(self).wf(),
            r == old(self)@.step().0,
            final(self)@ == old(self)@.with_cursor(old(self)@.step().1),
            final(self).length == old(self).length,
    {
        if self.cursor < self.length {
            let c = self.cursor;
            self.cursor = c + 1;
            Next::Frame(self.frames[c], self.durations[c])
        } else {
            match self.terminator {
                Terminator::Loop => {
                    self.cursor = 1;
                    Next::Frame(self.frames[0], self.durations[0])
                },
                Terminator::Backtrack(n) => {
                    let len = self.length;
                    let t: usize = if n == 0 {
                        len - 1
                    } else if n as usize >= len {
                        0
                    } else {
                        len - n as usize
                    };
                    self.cursor = t + 1;
                    Next::Frame(self.frames[t], self.durations[t])
                },
                Terminator::Stop => {
                    let last = self.length - 1;
                    Next::Frame(self.frames[last], self.durations[last])
                },
                Terminator::TransitionTo(p) => Next::NewPose(p),
            }
        }
    }
}

/// A pose that loops returns to its first frame on the call after its last.
pub proof fn lemma_loop_restarts(p: PoseView)
    requires
        p.wf(),
        p.cursor == 0,
        p.frames.len() > 0,
        p.terminator == Terminator::Loop,
    ensures
        p.advanced(p.frames.len()).step().0 == p.frame_at(0),
{
    lemma_advanced_within(p, p.frames.len());
}

/// A pose that stops shows its last frame on every call past the end.
pub proof fn lemma_stop_holds_last(p: PoseView, extra: nat)
    requires
        p.wf(),
        p.cursor == 0,
        p.frames.len() > 0,
        p.terminator == Terminator::Stop,
    ensures
        p.advanced(p.frames.len() + extra).step().0 == p.frame_at(p.frames.len() - 1),
{
    lemma_advanced_within(p, p.frames.len());
    let q = p.advanced(p.frames.len());
    lemma_stop_fixed(q, extra);
    lemma_advanced_add(p, p.frames.len(), extra);
}

/// A pose that backtracks by `n` shows, on the call after its last frame,
/// the frame `n` places before the end.
pub proof fn lemma_backtrack_rewinds(p: PoseView, n: u8)
    requires
        p.wf(),
        p.cursor == 0,
        0 < n,
        n as int <= p.frames.len(),
        p.terminator == Terminator::Backtrack(n),
    ensures
        p.advanced(p.frames.len()).step().0 == p.frame_at(p.frames.len() - n),
{
    lemma_advanced_within(p, p.frames.len());
}

proof fn lemma_advanced_within(p: PoseView, n: nat)
    requires
        p.wf(),
        p.cursor as int + n <= p.frames.len(),
    ensures
        p.advanced(n) == p.with_cursor((p.cursor + n) as usize),
    decreases n,
{
    if n > 0 {
        let q = p.with_cursor(p.step().1);
        lemma_advanced_within(q, (n - 1) as nat);
        assert(q.with_cursor((q.cursor + (n - 1)) as usize) == p.with_cursor((p.cursor + n) as usize));
    } else {
        assert(p.with_cursor(p.cursor) == p);
    }
}

proof fn lemma_stop_fixed(q: PoseView, n: nat)
    requires
        q.wf(),
        q.cursor == q.frames.len(),
        q.terminator == Terminator::Stop,
    ensures
        q.advanced(n) == q,
    decreases n,
{
    if n > 0 {
        assert(q.with_cursor(q.step().1) == q);
        lemma_stop_fixed(q, (n - 1) as nat);
    }
}

proof fn lemma_advanced_add(p: PoseView, a: nat, b: nat)
    ensures
        p.advanced(a + b) == p.advanced(a).advanced(b),
    decreases a,
{
    if a > 0 {
        let q = p.with_cursor(p.step().1);
        lemma_advanced_add(q, (a - 1) as nat, b);
        assert((a + b - 1) as nat == (a - 1) as nat + b);
    }
}

} // verus!
