//! The pose table and the state machine that plays poses from it.

use vstd::prelude::*;
use crate::controller_input::ControllerInput;
use crate::pose::{Frame, Next, Pose, PoseView, Transition};

verus! {

/// The destination of the first transition that `pressed` matches exactly.
pub open spec fn find_transition(ts: Seq<Transition>, pressed: ControllerInput) -> Option<u8>
    decreases ts.len(),
{
    if ts.len() == 0 {
        None
    } else if ts[0].input == pressed {
        Some(ts[0].to_pose)
    } else {
        find_transition(ts.drop_first(), pressed)
    }
}

/// Finds the destination of the first transition for `pressed`.
pub fn transition_for(ts: &Vec<Transition>, pressed: ControllerInput) -> (r: Option<u8>)
    ensures
        r == find_transition(ts@, pressed),
{
    let mut i: usize = 0;
    assert(ts@.subrange(0, ts@.len() as int) =~= ts@);
    while i < ts.len()
        invariant
            i <= ts.len(),
            find_transition(ts@, pressed) == find_transition(ts@.subrange(i as int, ts@.len() as int), pressed),
        decreases ts.len() - i,
    {
        let ghost rest = ts@.subrange(i as int, ts@.len() as int);
        assert(rest.drop_first() =~= ts@.subrange(i + 1, ts@.len() as int));
        if ts[i].input == pressed {
            return Some(ts[i].to_pose);
        }
        i = i + 1;
    }
    None
}

/// The pose a forced fall switches to from pose `id`, if any.
pub open spec fn fall_target(id: usize) -> Option<usize> {
    if id == 0x13 { Some(0x67) }
    else if id == 0x15 { Some(0x2B) }
    else if id == 0x17 { Some(0x2D) }
    else if id == 0x30 { Some(0x29) }
    else if id == 0x4D { Some(0x29) }
    else if id == 0x51 { Some(0x67) }
    else if id == 0x14 { Some(0x68) }
    else if id == 0x16 { Some(0x2C) }
    else if id == 0x18 { Some(0x2E) }
    else if id == 0x2F { Some(0x2A) }
    else if id == 0x4E { Some(0x2A) }
    else if id == 0x52 { Some(0x68) }
    else { None }
}

/// The pose a landing switches to from pose `id`, if any.
pub open spec fn land_target(id: usize) -> Option<usize> {
    if id == 0x19 || id == 0x1B || id == 0x81 { Some(0xA6) }
    else if id == 0x1A || id == 0x1C || id == 0x82 { Some(0xA7) }
    else if id == 0x29 || id == 0x30 { Some(0xA4) }
    else if id == 0x2A || id == 0x2F { Some(0xA5) }
    else if id == 0x2B { Some(0xE0) }
    else if id == 0x2C { Some(0xE1) }
    else if id == 0x2D { Some(0xA4) }
    else if id == 0x2E { Some(0xA5) }
    else if id == 0x6D || id == 0x94 { Some(0xE2) }
    else if id == 0x6E || id == 0x93 { Some(0xE3) }
    else if id == 0x6F || id == 0x96 { Some(0xE4) }
    else if id == 0x70 || id == 0x95 { Some(0xE5) }
    else if id == 0x67 { Some(0xE6) }
    else if id == 0x68 { Some(0xE7) }
    else { None }
}

fn fall_pose(id: usize) -> (r: Option<usize>)
    ensures
        r == fall_target(id),
{
    match id {
        0x13 => Some(0x67), // right jump, gun extended
        0x15 => Some(0x2B), // right jump, aiming up
        0x17 => Some(0x2D), // right jump, aiming down
        0x30 => Some(0x29), // turning right
        0x4D => Some(0x29), // right jump, gun not extended
        0x51 => Some(0x67), // right jump forward, gun extended
        0x14 => Some(0x68), // left jump, gun extended
        0x16 => Some(0x2C), // left jump, aiming up
        0x18 => Some(0x2E), // left jump, aiming down
        0x2F => Some(0x2A), // turning left
        0x4E => Some(0x2A), // left jump, gun not extended
        0x52 => Some(0x68), // left jump forward, gun extended
        _ => None,
    }
}

fn land_pose(id: usize) -> (r: Option<usize>)
    ensures
        r == land_target(id),
{
    match id {
        0x19 | 0x1B | 0x81 => Some(0xA6), // spin, space or screw jump right
        0x1A | 0x1C | 0x82 => Some(0xA7), // spin, space or screw jump left
        0x29 | 0x30 => Some(0xA4), // falling right, falling turning right
        0x2A | 0x2F => Some(0xA5), // falling left, falling turning left
        0x2B => Some(0xE0), // falling right, aiming up
        0x2C => Some(0xE1), // falling left, aiming up
        0x2D => Some(0xA4), // falling right, aiming down
        0x2E => Some(0xA5), // falling left, aiming down
        0x6D | 0x94 => Some(0xE2), // falling, aiming up and right
        0x6E | 0x93 => Some(0xE3), // falling, aiming up and left
        0x6F | 0x96 => Some(0xE4), // falling, aiming down and right
        0x70 | 0x95 => Some(0xE5), // falling, aiming down and left
        0x67 => Some(0xE6), // falling right, firing
        0x68 => Some(0xE7), // falling left, firing
        _ => None,
    }
}

/// A read-only store of poses, keyed by id, and of the frames they show.
pub struct PoseTable {
    pub poses: Vec<Pose>,
    pub frames: Vec<Frame>,
}

impl PoseTable {
    /// Every pose is well formed, starts at its first frame, shows only
    /// stored frames, and no two poses share an id.
    pub open spec fn wf(&self) -> bool {
        &&& forall|i: int| 0 <= i < self.poses.len() ==> #[trigger] self.poses[i].wf()
        &&& forall|i: int| 0 <= i < self.poses.len() ==> #[trigger] self.poses[i].cursor == 0
        &&& forall|i: int, k: int|
            0 <= i < self.poses.len() && 0 <= k < self.poses[i].frames.len()
                ==> #[trigger] self.poses[i].frames[k] < self.frames.len()
        &&& forall|i: int, j: int|
            0 <= i < j < self.poses.len() ==> #[trigger] self.poses[i].id != #[trigger] self.poses[j].id
    }

    /// Whether a pose with this id is stored.
    pub open spec fn has(&self, id: int) -> bool {
        exists|i: int| 0 <= i < self.poses.len() && #[trigger] self.poses[i].id == id
    }

    /// The stored pose with this id.
    pub open spec fn pose_of(&self, id: int) -> PoseView {
        self.poses[choose|i: int| 0 <= i < self.poses.len() && #[trigger] self.poses[i].id == id]@
    }

    /// What a forced switch to `id` does: the stored pose when there is one,
    /// otherwise nothing.
    pub open spec fn goto_spec(&self, cur: PoseView, id: int) -> (bool, PoseView) {
        if self.has(id) {
            (true, self.pose_of(id))
        } else {
            (false, cur)
        }
    }

    /// What holding `pressed` does in pose `cur`: follow its transition for
    /// `pressed` when it leads to another pose.
    pub open spec fn transition_spec(&self, cur: PoseView, pressed: ControllerInput) -> (bool, PoseView) {
        match find_transition(cur.transitions, pressed) {
            Some(to) => if to as int != cur.id as int {
                self.goto_spec(cur, to as int)
            } else {
                (false, cur)
            },
            None => (false, cur),
        }
    }

    /// Applying input `pressed` in pose `cur` with `held` held: the same
    /// input again changes nothing; another is remembered and its transition
    /// followed. Gives whether the pose changed, the pose, and the input held.
    pub open spec fn input_spec(&self, cur: PoseView, held: ControllerInput, pressed: ControllerInput) -> (bool, PoseView, ControllerInput) {
        if pressed == held {
            (false, cur, held)
        } else {
            let (changed, next) = self.transition_spec(cur, pressed);
            (changed, next, pressed)
        }
    }

    /// Playback from pose `cur` while `held` is held, following at most
    /// `fuel` hand-overs: the frame shown (or none, when a hand-over leads
    /// to a missing pose or the hand-overs run out) and the pose after it.
    /// After each hand-over the held input is applied to the new pose.
    pub open spec fn next_spec(&self, cur: PoseView, held: ControllerInput, fuel: nat) -> (Option<(usize, u8)>, PoseView)
        decreases fuel,
    {
        match cur.step().0 {
            Next::Frame(f, d) => (Some((f, d)), cur.with_cursor(cur.step().1)),
            Next::NewPose(p) => if fuel == 0 || !self.has(p as int) {
                (None, cur)
            } else {
                self.next_spec(self.transition_spec(self.pose_of(p as int), held).1, held, (fuel - 1) as nat)
            },
        }
    }

    pub fn new() -> (r: PoseTable)
        ensures
            r.wf(),
            r.poses@.len() == 0,
            r.frames@.len() == 0,
    {
        PoseTable { poses: Vec::new(), frames: Vec::new() }
    }

    /// Stores a frame and returns its index.
    pub fn add_frame(&mut self, frame: Frame) -> (r: usize)
        requires
            old(self).wf(),
        ensures
            final(self).wf(),
            r == old(self).frames.len(),
            final(self).frames@ == old(self).frames@.push(frame),
            final(self).poses@ == old(self).poses@,
    {
        let r = self.frames.len();
        self.frames.push(frame);
        assert forall|i: int, k: int|
            0 <= i < self.poses.len() && 0 <= k < self.poses[i].frames.len()
                implies #[trigger] self.poses[i].frames[k] < self.frames.len() by {
            assert(old(self).poses[i].frames[k] < old(self).frames.len());
        }
        r
    }

    /// Stores a pose unless one with the same id is already stored; says
    /// whether it was stored.
    pub fn insert(&mut self, pose: Pose) -> (r: bool)
        requires
            old(self).wf(),
            pose.wf(),
            pose.cursor == 0,
            forall|k: int| 0 <= k < pose.frames.len() ==> #[trigger] pose.frames[k] < old(self).frames.len(),
        ensures
            final(self).wf(),
            r == !old(self).has(pose.id as int),
            r ==> final(self).poses@ == old(self).poses@.push(pose),
            !r ==> final(self).poses@ == old(self).poses@,
            final(self).frames@ == old(self).frames@,
    {
        if self.get(pose.id).is_some() {
            return false;
        }
        let ghost old_poses = self.poses@;
        let ghost old_frames = self.frames@;
        self.poses.push(pose);
        assert forall|i: int, k: int|
            0 <= i < self.poses.len() && 0 <= k < self.poses[i].frames.len()
                implies #[trigger] self.poses[i].frames[k] < self.frames.len() by {
            if i < old_poses.len() {
                assert(old_poses[i].frames[k] < old_frames.len());
            }
        }
        assert forall|i: int, j: int| 0 <= i < j < self.poses.len() implies
            #[trigger] self.poses[i].id != #[trigger] self.poses[j].id by {
            if j == old_poses.len() {
                assert(old_poses[i].id == self.poses[i].id);
            }
        }
        true
    }

    /// The stored pose with this id.
    pub fn get(&self, id: usize) -> (r: Option<&Pose>)
        requires
            self.wf(),
        ensures
            r is Some <==> self.has(id as int),
            r matches Some(p) ==> p@ == self.pose_of(id as int) && p.wf() && p.id == id && p.cursor == 0,
            r matches Some(p) ==> forall|k: int| 0 <= k < p.frames.len() ==> #[trigger] p.frames[k] < self.frames.len(),
    {
        let mut i: usize = 0;
        while i < self.poses.len()
            invariant
                self.wf(),
                i <= self.poses.len(),
                forall|j: int| 0 <= j < i ==> #[trigger] self.poses[j].id != id,
            decreases self.poses.len() - i,
        {
            if self.poses[i].id == id {
                proof {
                    let k = choose|k: int| 0 <= k < self.poses.len() && #[trigger] self.poses[k].id == id;
                    assert(self.poses[k].id == self.poses[i as int].id);
                    assert(k == i);
                }
                return Some(&self.poses[i]);
            }
            i = i + 1;
        }
        None
    }

    /// The stored frame at `index`.
    pub fn frame(&self, index: usize) -> (r: &Frame)
        requires
            index < self.frames.len(),
        ensures
            *r == self.frames[index as int],
    {
        &self.frames[index]
    }
}

/// Applying the same input twice in a row switches poses at most once: the
/// second application changes nothing and reports no switch.
pub proof fn lemma_input_twice(table: PoseTable, cur: PoseView, held: ControllerInput, x: ControllerInput)
    ensures
        ({
            let (_, cur1, held1) = table.input_spec(cur, held, x);
            let (changed2, cur2, held2) = table.input_spec(cur1, held1, x);
            !changed2 && cur2 == cur1 && held2 == held1 && held1 == x
        }),
{
}

/// The live playback state: a copy of one pose of the table, with its
/// cursor, and the input last applied.
pub struct StateMachine<'a> {
    current: Pose,
    input: ControllerInput,
    lookup: &'a PoseTable,
}

impl<'a> StateMachine<'a> {
    /// The live pose.
    pub closed spec fn current(&self) -> PoseView {
        self.current@
    }

    /// The input last applied.
    pub closed spec fn held(&self) -> ControllerInput {
        self.input
    }

    /// The table that poses are taken from.
    pub closed spec fn table(&self) -> PoseTable {
        *self.lookup
    }

    /// The live pose is a stored pose, at some cursor within it.
    pub closed spec fn wf(&self) -> bool {
        &&& self.lookup.wf()
        &&& self.current.wf()
        &&& self.lookup.has(self.current.id as int)
        &&& self.current@ == self.lookup.pose_of(self.current.id as int).with_cursor(self.current.cursor)
        &&& forall|k: int| 0 <= k < self.current.frames.len() ==> #[trigger] self.current.frames[k] < self.lookup.frames.len()
    }

    /// Starts in pose `initial` with nothing held.
    pub fn new(initial: usize, lookup: &'a PoseTable) -> (r: StateMachine<'a>)
        requires
            lookup.wf(),
            lookup.has(initial as int),
        ensures
            r.wf(),
            r.current() == lookup.pose_of(initial as int),
            r.held() == ControllerInput::empty_spec(),
            r.table() == *lookup,
    {
        let p = lookup.get(initial).unwrap();
        let current = p.duplicate();
        assert(current@ == current@.with_cursor(current.cursor));
        StateMachine { current, input: ControllerInput::empty(), lookup }
    }

    /// Switches to the stored pose `state`, at its first frame; when no
    /// pose has that id, changes nothing. Says whether it switched.
    pub fn goto(&mut self, state: usize) -> (r: bool)
        requires
            old(self).wf(),
        ensures
            final(self).wf(),
            (r, final(self).current()) == old(self).table().goto_spec(old(self).current(), state as int),
            final(self).held() == old(self).held(),
            final(self).table() == old(self).table(),
    {
        match self.lookup.get(state) {
            Some(p) => {
                self.current = p.duplicate();
                assert(self.current@ == self.current@.with_cursor(self.current.cursor));
                true
            },
            None => false,
        }
    }

    /// Follows the live pose's transition for the held input, if it leads
    /// to another pose.
    fn follow_held(&mut self) -> (r: bool)
        requires
            old(self).wf(),
        ensures
            final(self).wf(),
            (r, final(self).current()) == old(self).table().transition_spec(old(self).current(), old(self).held()),
            final(self).held() == old(self).held(),
            final(self).table() == old(self).table(),
    {
        match transition_for(&self.current.transitions, self.input) {
            Some(to) => {
                if to as usize != self.current.id {
                    self.goto(to as usize)
                } else {
                    false
                }
            },
            None => false,
        }
    }

    /// Applies a new input. An input equal to the one last applied changes
    /// nothing; another is remembered, and the live pose follows its
    /// transition for exactly that input when it leads to another stored
    /// pose. Says whether the pose changed.
    pub fn input(&mut self, pressed: ControllerInput) -> (r: bool)
        requires
            old(self).wf(),
        ensures
            final(self).wf(),
            final(self).table() == old(self).table(),
            (r, final(self).current(), final(self).held())
                == old(self).table().input_spec(old(self).current(), old(self).held(), pressed),
    {
        if pressed == self.input {
            return false;
        }
        self.input = pressed;
        self.follow_held()
    }

    /// Plays the next frame: the frame's index in the table's frame store
    /// and its duration. A pose that hands over is replaced by the stored
    /// pose it names, and the held input is applied again to the new pose.
    /// Gives `None` when a hand-over names a missing pose, or when more
    /// hand-overs follow each other than the table has poses.
    pub fn next(&mut self) -> (r: Option<(usize, u8)>)
        requires
            old(self).wf(),
        ensures
            final(self).wf(),
            (r, final(self).current())
                == old(self).table().next_spec(old(self).current(), old(self).held(), old(self).table().poses.len() as nat),
            final(self).held() == old(self).held(),
            final(self).table() == old(self).table(),
            r matches Some((f, _)) ==> f < old(self).table().frames.len(),
    {
        let ghost start = self.current@;
        let ghost table = *self.lookup;
        let ghost held = self.input;
        let mut fuel: usize = self.lookup.poses.len();
        loop
            invariant
                self.wf(),
                self.input == held,
                *self.lookup == table,
                start == old(self).current@,
                held == old(self).input,
                table == *old(self).lookup,
                table.next_spec(self.current@, held, fuel as nat)
                    == table.next_spec(start, held, table.poses.len() as nat),
            decreases fuel,
        {
            let ghost before = self.current@;
            match self.current.next() {
                Next::Frame(f, d) => {
                    return Some((f, d));
                },
                Next::NewPose(p) => {
                    assert(self.current@ == before);
                    if fuel == 0 {
                        return None;
                    }
                    if !self.goto(p as usize) {
                        return None;
                    }
                    self.follow_held();
                    fuel = fuel - 1;
                },
            }
        }
    }

    /// Releases every button: applies the empty input.
    pub fn bonk(&mut self) -> (r: bool)
        requires
            old(self).wf(),
        ensures
            final(self).wf(),
            final(self).table() == old(self).table(),
            (r, final(self).current(), final(self).held())
                == old(self).table().input_spec(old(self).current(), old(self).held(), ControllerInput::empty_spec()),
    {
        self.input(ControllerInput::empty())
    }

    /// Starts the fall that belongs to the live pose, when it has one.
    pub fn fall(&mut self) -> (r: bool)
        requires
            old(self).wf(),
        ensures
            final(self).wf(),
            final(self).held() == old(self).held(),
            final(self).table() == old(self).table(),
            match fall_target(old(self).current().id) {
                Some(t) => (r, final(self).current()) == old(self).table().goto_spec(old(self).current(), t as int),
                None => !r && final(self).current() == old(self).current(),
            },
    {
        match fall_pose(self.current.id) {
            Some(t) => self.goto(t),
            None => false,
        }
    }

    /// Starts the landing that belongs to the live pose, when it has one.
    pub fn land(&mut self) -> (r: bool)
        requires
            old(self).wf(),
        ensures
            final(self).wf(),
            final(self).held() == old(self).held(),
            final(self).table() == old(self).table(),
            match land_target(old(self).current().id) {
                Some(t) => (r, final(self).current()) == old(self).table().goto_spec(old(self).current(), t as int),
                None => !r && final(self).current() == old(self).current(),
            },
    {
        match land_pose(self.current.id) {
            Some(t) => self.goto(t),
            None => false,
        }
    }

    pub fn pose_name(&self) -> (r: &'static str)
        ensures
            r@ == self.current().name,
    {
        self.current.name
    }

    pub fn pose_state(&self) -> (r: usize)
        ensures
            r == self.current().id,
    {
        self.current.id
    }

    pub fn current_input(&self) -> (r: ControllerInput)
        ensures
            r == self.held(),
    {
        self.input
    }
}

} // verus!
