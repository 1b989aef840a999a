//! The tables that describe the player sprite's poses: frame durations and
//! terminators, input transitions, frame maps and graphics transfers.

use vstd::prelude::*;
use crate::bitplanes::{decode_tiles, decoded_tile, chunk_of, Tile};
use crate::bytes::{le16, le24, read_u16, read_u24};
use crate::controller_input::{ControllerInput, ALL_BITS};
use crate::error::DecodeError;
use crate::centered_canvas::px;
use crate::frame_map::{bounding_box, frame_maps_at, frame_maps_in, layered, shows, tile_views, CompositedFrame, FrameMap};
use crate::pose::{Frame, Pose, Sequence, Terminator, Transition};
use crate::state_machine::PoseTable;
use crate::snes::{lemma_pc_of, pc_of, snespc, try_snespc, PcAddress, Rom, SnesAddress};

verus! {

// Banked addresses of the tables.
pub const BASE_TABLES_POINTER: u32 = 0x92808D;
pub const BOTTOM_HALF_POINTERS: u32 = 0x92945D;
pub const TOP_HALF_POINTERS: u32 = 0x929263;
pub const FRAME_MAP_START: u32 = 0x918000;
pub const FRAME_PROGRESSION_TABLE_LOOKUP: u32 = 0x92D94E;
pub const FRAME_PROGRESSION_TABLES: u32 = 0x920000;
pub const FRAME_DURATION_TABLE: u32 = 0x91B010;
pub const FRAME_DURATION_START: u32 = 0x910000;
pub const POSE_TRANSITION_TABLE: u32 = 0x919EE2;
pub const TOP_DMA_LOOKUP: u32 = 0x92D91E;
pub const BOTTOM_DMA_LOOKUP: u32 = 0x92D938;

/// Entry `index` of the table of 16-bit words at image offset `table`.
pub open spec fn entry16(rom: Seq<u8>, table: int, index: int) -> int {
    le16(rom, table + 2 * index)
}

/// Entry `index` of the word table at `table` lies inside the image.
pub open spec fn entry_in(rom: Seq<u8>, table: int, index: int) -> bool {
    table + 2 * index + 2 <= rom.len()
}

/// Reads entry `index` of the word table at image offset `table`.
pub fn table_entry(rom: &Rom, table: usize, index: usize) -> (r: Result<u16, DecodeError>)
    ensures
        r is Ok <==> entry_in(rom.bytes(), table as int, index as int),
        r matches Ok(v) ==> v == entry16(rom.bytes(), table as int, index as int),
        r matches Err(e) ==> e is OutOfBounds,
{
    let n = rom.len();
    if table > n || index > (n - table) / 2 {
        return Err(DecodeError::OutOfBounds { offset: table, len: 2 });
    }
    let at = table + 2 * index;
    let s = rom.try_read(at, 2)?;
    Ok(read_u16(s))
}

/// The image offset of the first byte at or after `i` that is an opcode
/// (0xF0 or above), or the image's length when there is none.
pub open spec fn first_opcode(rom: Seq<u8>, i: int) -> int
    decreases rom.len() - i,
{
    if i < 0 || i >= rom.len() {
        rom.len() as int
    } else if rom[i] >= 0xF0 {
        i
    } else {
        first_opcode(rom, i + 1)
    }
}

/// Whether opcode `op` takes the byte after it as its argument.
pub open spec fn takes_argument(op: u8) -> bool {
    op == 0xFE || op == 0xFD || op == 0xF8
}

/// The terminator that opcode `op`, with argument byte `arg`, selects.
pub open spec fn terminator_of(op: u8, arg: u8) -> Terminator {
    if op == 0xFE {
        Terminator::Backtrack(arg)
    } else if op == 0xFD || op == 0xF8 {
        Terminator::TransitionTo(arg)
    } else if op == 0xF0 {
        Terminator::Stop
    } else {
        Terminator::Loop
    }
}

/// The image offset where the durations of pose `state` start.
pub open spec fn sequence_start(rom: Seq<u8>, state: int) -> int {
    pc_of(FRAME_DURATION_START) + entry16(rom, pc_of(FRAME_DURATION_TABLE), state)
}

/// The image offset where the transitions of pose `state` start.
pub open spec fn transitions_start(rom: Seq<u8>, state: int) -> int {
    pc_of(FRAME_DURATION_START) + entry16(rom, pc_of(POSE_TRANSITION_TABLE), state)
}

/// The image offset of the end mark (two 0xFF bytes) of the six-byte
/// records starting at `a`, or -1 when the image ends first.
pub open spec fn sentinel_from(rom: Seq<u8>, a: int) -> int
    decreases (if a < rom.len() { rom.len() - a } else { 0 }),
{
    if a < 0 || a + 2 > rom.len() {
        -1
    } else if rom[a] == 0xFF && rom[a + 1] == 0xFF {
        a
    } else {
        sentinel_from(rom, a + 6)
    }
}

/// The transition in the six-byte record at `r`: two input words joined,
/// keeping only button bits, then the destination in the low byte of the
/// third word.
pub open spec fn transition_at(rom: Seq<u8>, r: int) -> Transition {
    Transition {
        input: ControllerInput { bits: ((le16(rom, r) as u16 | le16(rom, r + 2) as u16) & ALL_BITS) as u16 },
        to_pose: rom[r + 4],
    }
}

/// The transitions of the records from `a` up to the end mark at `s`.
pub open spec fn transitions_between(rom: Seq<u8>, a: int, s: int) -> Seq<Transition> {
    Seq::new(((s - a) / 6) as nat, |k: int| transition_at(rom, a + 6 * k))
}

proof fn lemma_duration_bank(off: u16)
    ensures
        pc_of(FRAME_DURATION_START) == 0x80000,
        pc_of((FRAME_DURATION_START + off) as u32) == 0x80000 + off,
        pc_of(FRAME_DURATION_TABLE) == 0x8B010,
        pc_of(POSE_TRANSITION_TABLE) == 0x89EE2,
{
    lemma_pc_of(0x91, 0);
    lemma_pc_of(0x91, off as u32);
    lemma_pc_of(0x91, 0xB010);
    lemma_pc_of(0x91, 0x9EE2);
}

/// Scans from `start` to the first opcode byte; gives its image offset.
fn scan_to_opcode(rom: &Rom, start: usize) -> (r: Result<usize, DecodeError>)
    ensures
        r is Ok <==> first_opcode(rom.bytes(), start as int) < rom.bytes().len(),
        r matches Ok(e) ==> e == first_opcode(rom.bytes(), start as int),
        r matches Err(e) ==> e == DecodeError::NoTerminator,
{
    let n = rom.len();
    let mut i = start;
    while i < n
        invariant
            n == rom.bytes().len(),
            start <= i,
            first_opcode(rom.bytes(), start as int) == first_opcode(rom.bytes(), i as int),
        decreases n - i,
    {
        if rom.byte(i) >= 0xF0 {
            return Ok(i);
        }
        i = i + 1;
    }
    Err(DecodeError::NoTerminator)
}

/// All bytes from `start` up to the first opcode are durations.
proof fn lemma_before_opcode(rom: Seq<u8>, start: int, k: int)
    requires
        0 <= start <= k < first_opcode(rom, start),
    ensures
        rom[k] < 0xF0,
    decreases k - start,
{
    if k > start {
        lemma_before_opcode(rom, start + 1, k);
    }
}

/// The frame durations of pose `state`: the bytes from the start of its
/// sequence up to its first opcode.
pub fn lookup_frame_durations(rom: &Rom, state: usize) -> (r: Result<Vec<u8>, DecodeError>)
    ensures
        r is Ok <==> entry_in(rom.bytes(), pc_of(FRAME_DURATION_TABLE), state as int)
            && first_opcode(rom.bytes(), sequence_start(rom.bytes(), state as int)) < rom.bytes().len(),
        r matches Ok(d) ==> d@ == rom.bytes().subrange(sequence_start(rom.bytes(), state as int),
            first_opcode(rom.bytes(), sequence_start(rom.bytes(), state as int))),
        r matches Ok(d) ==> forall|k: int| 0 <= k < d@.len() ==> #[trigger] d@[k] < 0xF0,
{
    let (start, end) = sequence_bounds(rom, state)?;
    Ok(durations_between(rom, start, end))
}

/// The durations from `start` up to the opcode at `end`.
fn durations_between(rom: &Rom, start: usize, end: usize) -> (d: Vec<u8>)
    requires
        start <= end < rom.bytes().len(),
        end == first_opcode(rom.bytes(), start as int),
    ensures
        d@ == rom.bytes().subrange(start as int, end as int),
        forall|k: int| 0 <= k < d@.len() ==> #[trigger] d@[k] < 0xF0,
{
    let s = rom.read(PcAddress(start), end - start);
    let mut d: Vec<u8> = Vec::new();
    let mut i: usize = 0;
    while i < s.len()
        invariant
            i <= s@.len(),
            d@ == s@.subrange(0, i as int),
        decreases s@.len() - i,
    {
        d.push(s[i]);
        i = i + 1;
    }
    assert(d@ =~= s@);
    assert forall|k: int| 0 <= k < d@.len() implies #[trigger] d@[k] < 0xF0 by {
        lemma_before_opcode(rom.bytes(), start as int, start + k);
    }
    d
}

/// The image offsets where the sequence of pose `state` starts and where
/// its opcode stands.
fn sequence_bounds(rom: &Rom, state: usize) -> (r: Result<(usize, usize), DecodeError>)
    ensures
        r is Ok <==> entry_in(rom.bytes(), pc_of(FRAME_DURATION_TABLE), state as int)
            && first_opcode(rom.bytes(), sequence_start(rom.bytes(), state as int)) < rom.bytes().len(),
        r matches Ok((s, e)) ==> s == sequence_start(rom.bytes(), state as int)
            && e == first_opcode(rom.bytes(), s as int) && s <= e < rom.bytes().len(),
{
    proof {
        lemma_duration_bank(0);
    }
    let table = snespc(FRAME_DURATION_TABLE);
    let off = table_entry(rom, table, state)?;
    proof {
        lemma_duration_bank(off);
    }
    let start = snespc(FRAME_DURATION_START + off as u32);
    let end = scan_to_opcode(rom, start)?;
    proof {
        lemma_opcode_after(rom.bytes(), start as int);
    }
    Ok((start, end))
}

proof fn lemma_opcode_after(rom: Seq<u8>, i: int)
    requires
        0 <= i,
    ensures
        i <= first_opcode(rom, i) || first_opcode(rom, i) == rom.len(),
        first_opcode(rom, i) <= rom.len(),
    decreases rom.len() - i,
{
    if i < rom.len() && rom[i] < 0xF0 {
        lemma_opcode_after(rom, i + 1);
    }
}

/// The transitions of pose `state`: six-byte records up to the end mark.
pub fn lookup_pose_transitions(rom: &Rom, state: usize) -> (r: Result<Vec<Transition>, DecodeError>)
    ensures
        r is Ok <==> entry_in(rom.bytes(), pc_of(POSE_TRANSITION_TABLE), state as int)
            && sentinel_from(rom.bytes(), transitions_start(rom.bytes(), state as int)) >= 0,
        r matches Ok(ts) ==> ts@ == transitions_between(rom.bytes(), transitions_start(rom.bytes(), state as int),
            sentinel_from(rom.bytes(), transitions_start(rom.bytes(), state as int))),
{
    proof {
        lemma_duration_bank(0);
    }
    let table = snespc(POSE_TRANSITION_TABLE);
    let off = table_entry(rom, table, state)?;
    proof {
        lemma_duration_bank(off);
    }
    let base = snespc(FRAME_DURATION_START + off as u32);
    let ghost bytes = rom.bytes();
    let n = rom.len();
    let mut a = base;
    let mut ts: Vec<Transition> = Vec::new();
    loop
        invariant
            n == bytes.len(),
            bytes == rom.bytes(),
            entry_in(bytes, pc_of(POSE_TRANSITION_TABLE), state as int),
            base == transitions_start(bytes, state as int),
            base <= a,
            (a - base) % 6 == 0,
            sentinel_from(bytes, a as int) == sentinel_from(bytes, base as int),
            ts@ == transitions_between(bytes, base as int, a as int),
        decreases n + 6 - a,
    {
        if a > n || n - a < 2 {
            assert(sentinel_from(bytes, a as int) == -1);
            return Err(DecodeError::NoSentinel);
        }
        if rom.byte(a) == 0xFF && rom.byte(a + 1) == 0xFF {
            assert(sentinel_from(bytes, a as int) == a);
            return Ok(ts);
        }
        if n - a < 6 {
            assert(sentinel_from(bytes, a + 6) == -1);
            return Err(DecodeError::NoSentinel);
        }
        let rec = rom.read(PcAddress(a), 6);
        let c1 = read_u16(rec);
        let c2 = read_u16(&rec[2..4]);
        let input = ControllerInput::from_bits_truncate(c1 | c2);
        let t = Transition { input, to_pose: rec[4] };
        ts.push(t);
        let ghost next = a + 6;
        assert(ts@ =~= transitions_between(bytes, base as int, next));
        a = a + 6;
    }
}

/// The sequence of pose `state` can be read: its table entries lie in the
/// image, an opcode ends its durations, and its transitions are closed by
/// an end mark.
pub open spec fn sequence_ok(b: Seq<u8>, state: int) -> bool {
    let e = first_opcode(b, sequence_start(b, state));
    &&& entry_in(b, pc_of(FRAME_DURATION_TABLE), state)
    &&& e < b.len()
    &&& (takes_argument(b[e]) ==> e + 1 < b.len())
    &&& entry_in(b, pc_of(POSE_TRANSITION_TABLE), state)
    &&& sentinel_from(b, transitions_start(b, state)) >= 0
}

/// The number of frames of pose `state`.
pub open spec fn sequence_len(b: Seq<u8>, state: int) -> int {
    first_opcode(b, sequence_start(b, state)) - sequence_start(b, state)
}

/// The timing of pose `state`: its durations, the terminator its opcode
/// selects, and its transitions.
pub fn lookup_frame_sequence(rom: &Rom, state: usize) -> (r: Result<Sequence, DecodeError>)
    ensures
        r is Ok <==> sequence_ok(rom.bytes(), state as int),
        r matches Ok(s) ==> {
            let b = rom.bytes();
            let st = sequence_start(b, state as int);
            let e = first_opcode(b, st);
            &&& s.durations@ == b.subrange(st, e)
            &&& s.terminator == terminator_of(b[e], if e + 1 < b.len() { b[e + 1] } else { 0 })
            &&& s.transitions@ == transitions_between(b, transitions_start(b, state as int),
                sentinel_from(b, transitions_start(b, state as int)))
        },
{
    let (start, e) = sequence_bounds(rom, state)?;
    let durations = durations_between(rom, start, e);
    let n = rom.len();
    let op = rom.byte(e);
    let arg: u8 = if e + 1 < n { rom.byte(e + 1) } else { 0 };
    if (op == 0xFE || op == 0xFD || op == 0xF8) && e + 1 >= rom.len() {
        return Err(DecodeError::OutOfBounds { offset: e, len: 2 });
    }
    let terminator = match op {
        0xFE => Terminator::Backtrack(arg),
        0xFD | 0xF8 => Terminator::TransitionTo(arg),
        0xF0 => Terminator::Stop,
        _ => Terminator::Loop,
    };
    let transitions = lookup_pose_transitions(rom, state)?;
    Ok(Sequence { durations, terminator, transitions })
}

proof fn lemma_table_banks()
    ensures
        pc_of(BASE_TABLES_POINTER) == 0x9008D,
        pc_of(BOTTOM_HALF_POINTERS) == 0x9145D,
        pc_of(TOP_HALF_POINTERS) == 0x91263,
        pc_of(FRAME_MAP_START) == 0x88000,
        pc_of(FRAME_PROGRESSION_TABLE_LOOKUP) == 0x9594E,
        pc_of(FRAME_PROGRESSION_TABLES) == 0x88000,
        pc_of(TOP_DMA_LOOKUP) == 0x9591E,
        pc_of(BOTTOM_DMA_LOOKUP) == 0x95938,
{
    lemma_pc_of(0x92, 0x808D);
    lemma_pc_of(0x92, 0x945D);
    lemma_pc_of(0x92, 0x9263);
    lemma_pc_of(0x91, 0x8000);
    lemma_pc_of(0x92, 0xD94E);
    lemma_pc_of(0x92, 0);
    lemma_pc_of(0x92, 0xD91E);
    lemma_pc_of(0x92, 0xD938);
}

/// The image offset of the list of top-half frame map pointers of pose `state`.
pub open spec fn top_pointers_at(rom: Seq<u8>, state: int) -> int {
    pc_of(BASE_TABLES_POINTER) + 2 * entry16(rom, pc_of(TOP_HALF_POINTERS), state)
}

/// The image offset of the list of bottom-half frame map pointers of pose `state`.
pub open spec fn bottom_pointers_at(rom: Seq<u8>, state: int) -> int {
    pc_of(BASE_TABLES_POINTER) + 2 * entry16(rom, pc_of(BOTTOM_HALF_POINTERS), state)
}

/// Both pointer lists of pose `state`, `num_frames` words each, lie inside
/// the image.
pub open spec fn pointer_lists_in(rom: Seq<u8>, state: int, num_frames: int) -> bool {
    &&& entry_in(rom, pc_of(BOTTOM_HALF_POINTERS), state)
    &&& entry_in(rom, pc_of(TOP_HALF_POINTERS), state)
    &&& bottom_pointers_at(rom, state) + 2 * num_frames <= rom.len()
    &&& top_pointers_at(rom, state) + 2 * num_frames <= rom.len()
}

/// The frame map of one half of a frame: none for a zero pointer.
pub open spec fn half_map(rom: Seq<u8>, pointer: int) -> Seq<FrameMap> {
    if pointer != 0 { frame_maps_at(rom, pc_of(FRAME_MAP_START) + pointer) } else { Seq::empty() }
}

/// The half's frame map lies inside the image.
pub open spec fn half_map_in(rom: Seq<u8>, pointer: int) -> bool {
    pointer != 0 ==> frame_maps_in(rom, pc_of(FRAME_MAP_START) + pointer)
}

/// The pointers of frame `i` of pose `state`: top half, bottom half.
pub open spec fn frame_pointers(rom: Seq<u8>, state: int, i: int) -> (int, int) {
    (le16(rom, top_pointers_at(rom, state) + 2 * i), le16(rom, bottom_pointers_at(rom, state) + 2 * i))
}

/// The frame map of frame `i` of pose `state`: the top half's parts, then
/// the bottom half's.
pub open spec fn tilemap_of(rom: Seq<u8>, state: int, i: int) -> Seq<FrameMap> {
    half_map(rom, frame_pointers(rom, state, i).0) + half_map(rom, frame_pointers(rom, state, i).1)
}

/// The frame map of frame `i` of pose `state` lies inside the image.
pub open spec fn tilemap_in(rom: Seq<u8>, state: int, i: int) -> bool {
    half_map_in(rom, frame_pointers(rom, state, i).0) && half_map_in(rom, frame_pointers(rom, state, i).1)
}

/// The bottom-half and top-half frame map pointer lists of pose `state`.
fn lookup_tilemap_table<'a>(rom: &Rom<'a>, state: usize, num_frames: usize) -> (r: Result<(&'a [u8], &'a [u8]), DecodeError>)
    ensures
        r is Ok <==> pointer_lists_in(rom.bytes(), state as int, num_frames as int),
        r matches Ok((b, t)) ==> b@ == rom.bytes().subrange(bottom_pointers_at(rom.bytes(), state as int),
            bottom_pointers_at(rom.bytes(), state as int) + 2 * num_frames)
            && t@ == rom.bytes().subrange(top_pointers_at(rom.bytes(), state as int),
            top_pointers_at(rom.bytes(), state as int) + 2 * num_frames),
{
    proof {
        lemma_table_banks();
    }
    let bottom_half = table_entry(rom, snespc(BOTTOM_HALF_POINTERS), state)?;
    let top_half = table_entry(rom, snespc(TOP_HALF_POINTERS), state)?;
    let base = snespc(BASE_TABLES_POINTER);
    let b = base + bottom_half as usize * 2;
    let t = base + top_half as usize * 2;
    let n = rom.len();
    if num_frames > usize::MAX / 2 {
        assert(2 * num_frames > n);
        return Err(DecodeError::OutOfBounds { offset: b, len: num_frames });
    }
    let bs = rom.try_read(b, num_frames * 2)?;
    let ts = rom.try_read(t, num_frames * 2)?;
    Ok((bs, ts))
}

/// The half frame map that `pointer` designates, or none for zero.
fn read_half_map(rom: &Rom, pointer: u16) -> (r: Result<Vec<FrameMap>, DecodeError>)
    ensures
        r is Ok <==> half_map_in(rom.bytes(), pointer as int),
        r matches Ok(v) ==> v@ == half_map(rom.bytes(), pointer as int),
{
    proof {
        lemma_table_banks();
    }
    if pointer != 0 {
        FrameMap::from_rom(rom, SnesAddress(FRAME_MAP_START), pointer as usize)
    } else {
        Ok(Vec::new())
    }
}

/// The frame maps of the first `num_frames` frames of pose `state` can be
/// read.
pub open spec fn tilemaps_ok(b: Seq<u8>, state: int, num_frames: int) -> bool {
    &&& pointer_lists_in(b, state, num_frames)
    &&& forall|i: int| 0 <= i < num_frames ==> #[trigger] tilemap_in(b, state, i)
}

/// The frame maps of the first `num_frames` frames of pose `state`.
pub fn tilemaps(rom: &Rom, state: usize, num_frames: usize) -> (r: Result<Vec<Vec<FrameMap>>, DecodeError>)
    ensures
        r is Ok <==> tilemaps_ok(rom.bytes(), state as int, num_frames as int),
        r matches Ok(v) ==> v@.len() == num_frames
            && forall|i: int| 0 <= i < num_frames ==> #[trigger] v@[i]@ == tilemap_of(rom.bytes(), state as int, i),
{
    let (bottom_pointers, top_pointers) = lookup_tilemap_table(rom, state, num_frames)?;
    proof {
        lemma_table_banks();
    }
    let _nb = bottom_pointers.len();
    let _nt = top_pointers.len();
    let ghost b = rom.bytes();
    let mut out: Vec<Vec<FrameMap>> = Vec::new();
    let mut i: usize = 0;
    while i < num_frames
        invariant
            b == rom.bytes(),
            pointer_lists_in(b, state as int, num_frames as int),
            bottom_pointers@ == b.subrange(bottom_pointers_at(b, state as int), bottom_pointers_at(b, state as int) + 2 * num_frames),
            top_pointers@ == b.subrange(top_pointers_at(b, state as int), top_pointers_at(b, state as int) + 2 * num_frames),
            i <= num_frames,
            top_pointers@.len() == 2 * num_frames,
            bottom_pointers@.len() == 2 * num_frames,
            _nt == 2 * num_frames,
            out@.len() == i,
            forall|k: int| 0 <= k < i ==> #[trigger] tilemap_in(b, state as int, k),
            forall|k: int| 0 <= k < i ==> #[trigger] out@[k]@ == tilemap_of(b, state as int, k),
        decreases num_frames - i,
    {
        let addr_t = read_u16(&top_pointers[2 * i..2 * i + 2]);
        let addr_b = read_u16(&bottom_pointers[2 * i..2 * i + 2]);
        proof {
            lemma_table_banks();
        }
        let ghost tp = top_pointers_at(b, state as int);
        let ghost bp = bottom_pointers_at(b, state as int);
        assert(top_pointers@[2 * i as int] == b[tp + 2 * i] && top_pointers@[2 * i + 1] == b[tp + 2 * i + 1]);
        assert(bottom_pointers@[2 * i as int] == b[bp + 2 * i] && bottom_pointers@[2 * i + 1] == b[bp + 2 * i + 1]);
        assert(addr_t == frame_pointers(b, state as int, i as int).0);
        assert(addr_b == frame_pointers(b, state as int, i as int).1);
        let mut maps = match read_half_map(rom, addr_t) {
            Ok(m) => m,
            Err(e) => {
                assert(!tilemap_in(b, state as int, i as int));
                return Err(e);
            },
        };
        let mut lower = match read_half_map(rom, addr_b) {
            Ok(m) => m,
            Err(e) => {
                assert(!tilemap_in(b, state as int, i as int));
                return Err(e);
            },
        };
        maps.append(&mut lower);
        out.push(maps);
        i = i + 1;
    }
    Ok(out)
}

/// One graphics transfer: where its bytes start in the image, and the
/// lengths of its first and second parts.
#[derive(Clone, Copy, Debug, PartialEq, Eq, Structural)]
pub struct DmaEntry {
    pub address: usize,
    pub part1: usize,
    pub part2: usize,
}

/// The image offset of the transfer record `entry` of the table whose
/// offset is stored at `table_pointer`.
pub open spec fn dma_record(rom: Seq<u8>, table_pointer: int, entry: int) -> int {
    pc_of(FRAME_PROGRESSION_TABLES) + le16(rom, table_pointer) + 7 * entry
}

/// Transfer record `entry` via `table_pointer` lies inside the image and
/// points into it.
pub open spec fn dma_in(rom: Seq<u8>, table_pointer: int, entry: int) -> bool {
    &&& 0 <= table_pointer
    &&& table_pointer + 2 <= rom.len()
    &&& dma_record(rom, table_pointer, entry) + 7 <= rom.len()
    &&& pc_of(le24(rom, dma_record(rom, table_pointer, entry)) as u32) >= 0
}

/// The transfer in record `entry` via `table_pointer`: a 24-bit banked
/// address, then two 16-bit lengths.
pub open spec fn dma_at(rom: Seq<u8>, table_pointer: int, entry: int) -> DmaEntry {
    let e = dma_record(rom, table_pointer, entry);
    DmaEntry {
        address: pc_of(le24(rom, e) as u32) as usize,
        part1: le16(rom, e + 3) as usize,
        part2: le16(rom, e + 5) as usize,
    }
}

/// Reads transfer record `entry` of the table whose offset is stored at
/// `table_pointer`.
fn read_dma(rom: &Rom, table_pointer: PcAddress, entry: u8) -> (r: Result<DmaEntry, DecodeError>)
    ensures
        r is Ok <==> dma_in(rom.bytes(), table_pointer.0 as int, entry as int),
        r matches Ok(d) ==> d == dma_at(rom.bytes(), table_pointer.0 as int, entry as int),
{
    proof {
        lemma_table_banks();
    }
    let head = rom.try_read(table_pointer.0, 2)?;
    let dma_offset = read_u16(head) as usize;
    let entry_offset = snespc(FRAME_PROGRESSION_TABLES) + dma_offset + entry as usize * 7;
    let slice = rom.try_read(entry_offset, 7)?;
    let snes_graphics_addr = read_u24(slice);
    let graphics_addr = match try_snespc(snes_graphics_addr) {
        Some(p) => p,
        None => return Err(DecodeError::BadAddress { addr: snes_graphics_addr }),
    };
    let part_1_bytes = read_u16(&slice[3..5]) as usize;
    let part_2_bytes = read_u16(&slice[5..7]) as usize;
    Ok(DmaEntry { address: graphics_addr, part1: part_1_bytes, part2: part_2_bytes })
}

/// The image offset where top-half transfer table `index` is named.
pub open spec fn top_table(index: int) -> int {
    pc_of(TOP_DMA_LOOKUP) + 2 * index
}

/// The image offset where bottom-half transfer table `index` is named.
pub open spec fn bottom_table(index: int) -> int {
    pc_of(BOTTOM_DMA_LOOKUP) + 2 * index
}

/// Transfer `entry` of top-half table `index`; the tables run to 0x0C.
fn read_top_dma(rom: &Rom, index: u8, entry: u8) -> (r: Result<DmaEntry, DecodeError>)
    ensures
        r is Ok <==> index <= 0xC && dma_in(rom.bytes(), top_table(index as int), entry as int),
        r matches Ok(d) ==> d == dma_at(rom.bytes(), top_table(index as int), entry as int),
{
    if index > 0xC {
        return Err(DecodeError::BadTableIndex { value: index });
    }
    proof {
        lemma_table_banks();
    }
    let base = snespc(TOP_DMA_LOOKUP) + index as usize * 2;
    read_dma(rom, PcAddress(base), entry)
}

/// Transfer `entry` of bottom-half table `index`; the tables run to 0x0A.
fn read_bottom_dma(rom: &Rom, index: u8, entry: u8) -> (r: Result<DmaEntry, DecodeError>)
    ensures
        r is Ok <==> index <= 0xA && dma_in(rom.bytes(), bottom_table(index as int), entry as int),
        r matches Ok(d) ==> d == dma_at(rom.bytes(), bottom_table(index as int), entry as int),
{
    if index > 0xA {
        return Err(DecodeError::BadTableIndex { value: index });
    }
    proof {
        lemma_table_banks();
    }
    let base = snespc(BOTTOM_DMA_LOOKUP) + index as usize * 2;
    read_dma(rom, PcAddress(base), entry)
}

/// The four-byte progression record `k` in `pe` names readable transfers:
/// top table and entry, then bottom table and entry.
pub open spec fn progression_in(rom: Seq<u8>, pe: Seq<u8>, k: int) -> bool {
    &&& pe[4 * k] <= 0xC
    &&& dma_in(rom, top_table(pe[4 * k] as int), pe[4 * k + 1] as int)
    &&& pe[4 * k + 2] <= 0xA
    &&& dma_in(rom, bottom_table(pe[4 * k + 2] as int), pe[4 * k + 3] as int)
}

/// The top and bottom transfers that progression record `k` names.
pub open spec fn progression_at(rom: Seq<u8>, pe: Seq<u8>, k: int) -> (DmaEntry, DmaEntry) {
    (dma_at(rom, top_table(pe[4 * k] as int), pe[4 * k + 1] as int),
        dma_at(rom, bottom_table(pe[4 * k + 2] as int), pe[4 * k + 3] as int))
}

/// The transfers of each four-byte progression record in `pointer_entries`.
pub fn lookup_graphics_data(rom: &Rom, pointer_entries: &[u8]) -> (r: Result<Vec<(DmaEntry, DmaEntry)>, DecodeError>)
    requires
        pointer_entries@.len() % 4 == 0,
    ensures
        r is Ok <==> forall|k: int| 0 <= k < pointer_entries@.len() / 4 ==> #[trigger] progression_in(rom.bytes(), pointer_entries@, k),
        r matches Ok(v) ==> v@.len() == pointer_entries@.len() / 4
            && forall|k: int| 0 <= k < v@.len() ==> #[trigger] v@[k] == progression_at(rom.bytes(), pointer_entries@, k),
{
    let pe = pointer_entries;
    let len = pe.len();
    let n = len / 4;
    let mut out: Vec<(DmaEntry, DmaEntry)> = Vec::new();
    let mut k: usize = 0;
    while k < n
        invariant
            n == pe@.len() / 4,
            len == pe@.len(),
            pe@ == pointer_entries@,
            pe@.len() % 4 == 0,
            k <= n,
            out@.len() == k,
            forall|j: int| 0 <= j < k ==> #[trigger] progression_in(rom.bytes(), pe@, j),
            forall|j: int| 0 <= j < k ==> #[trigger] out@[j] == progression_at(rom.bytes(), pe@, j),
        decreases n - k,
    {
        let top = match read_top_dma(rom, pe[4 * k], pe[4 * k + 1]) {
            Ok(d) => d,
            Err(e) => {
                assert(!progression_in(rom.bytes(), pe@, k as int));
                return Err(e);
            },
        };
        let bottom = match read_bottom_dma(rom, pe[4 * k + 2], pe[4 * k + 3]) {
            Ok(d) => d,
            Err(e) => {
                assert(!progression_in(rom.bytes(), pe@, k as int));
                return Err(e);
            },
        };
        out.push((top, bottom));
        k = k + 1;
    }
    Ok(out)
}

/// The longest transfer part: half a row of eight tiles.
pub const HALF_ROW: usize = 0x100;

/// A transfer part length fits half a row and is a whole number of tiles.
pub open spec fn part_ok(len: int) -> bool {
    0 <= len <= 0x100 && len % 32 == 0
}

/// Tile `k` of the half row filled from the `len` bytes at `addr`: the
/// decoded tiles, then transparent ones.
pub open spec fn half_row_tile(rom: Seq<u8>, addr: int, len: int, k: int) -> Seq<u8> {
    if k < len / 32 {
        decoded_tile(rom.subrange(addr + 32 * k, addr + 32 * k + 32))
    } else {
        Seq::new(64, |i: int| 0u8)
    }
}

/// The four half rows of a frame's tiles, in order: the first parts of
/// the top and bottom transfers, then their second parts.
pub open spec fn half_row_source(top: DmaEntry, bottom: DmaEntry, g: int) -> (int, int) {
    if g == 0 {
        (top.address as int, top.part1 as int)
    } else if g == 1 {
        (bottom.address as int, bottom.part1 as int)
    } else if g == 2 {
        (top.address + top.part1, top.part2 as int)
    } else {
        (bottom.address + bottom.part1, bottom.part2 as int)
    }
}

/// The frame's transfers have proper lengths and lie inside the image.
pub open spec fn graphics_in(rom: Seq<u8>, top: DmaEntry, bottom: DmaEntry) -> bool {
    &&& part_ok(top.part1 as int) && part_ok(top.part2 as int)
    &&& part_ok(bottom.part1 as int) && part_ok(bottom.part2 as int)
    &&& top.address + top.part1 + top.part2 <= rom.len()
    &&& bottom.address + bottom.part1 + bottom.part2 <= rom.len()
}

/// Tile `i` of the 32 tiles (two rows of sixteen) that a frame's
/// transfers fill.
pub open spec fn graphics_tile(rom: Seq<u8>, top: DmaEntry, bottom: DmaEntry, i: int) -> Seq<u8> {
    let (a, l) = half_row_source(top, bottom, i / 8);
    half_row_tile(rom, a, l, i % 8)
}

/// Appends the eight tiles of one half row.
fn push_half_row(out: &mut Vec<Tile>, rom: &Rom, addr: usize, len: usize)
    requires
        part_ok(len as int),
        addr + len <= rom.bytes().len(),
    ensures
        final(out)@.len() == old(out)@.len() + 8,
        forall|j: int| 0 <= j < old(out)@.len() ==> #[trigger] final(out)@[j] == old(out)@[j],
        forall|k: int| 0 <= k < 8 ==> #[trigger] final(out)@[old(out)@.len() + k]@ == half_row_tile(rom.bytes(), addr as int, len as int, k),
{
    let s = rom.read(PcAddress(addr), len);
    let tiles = decode_tiles(s);
    let ghost base = old(out)@.len();
    let mut k: usize = 0;
    while k < 8
        invariant
            part_ok(len as int),
            addr + len <= rom.bytes().len(),
            s@ == rom.bytes().subrange(addr as int, addr + len),
            tiles@.len() == len / 32,
            forall|i: int| 0 <= i < tiles@.len() ==> #[trigger] tiles@[i]@ == decoded_tile(chunk_of(s@, i)),
            base == old(out)@.len(),
            k <= 8,
            out@.len() == base + k,
            forall|j: int| 0 <= j < base ==> #[trigger] out@[j] == old(out)@[j],
            forall|j: int| 0 <= j < k ==> #[trigger] out@[base + j]@ == half_row_tile(rom.bytes(), addr as int, len as int, j),
        decreases 8 - k,
    {
        if k < tiles.len() {
            out.push(tiles[k]);
            assert(chunk_of(s@, k as int) =~= rom.bytes().subrange(addr + 32 * k, addr + 32 * k + 32));
        } else {
            let t = Tile::blank();
            out.push(t);
        }
        k = k + 1;
    }
}

/// The 32 tiles of a frame: each half row holds the decoded transfer part,
/// padded with transparent tiles to eight.
fn generate_graphics(rom: &Rom, top: DmaEntry, bottom: DmaEntry) -> (r: Result<Vec<Tile>, DecodeError>)
    ensures
        r is Ok <==> graphics_in(rom.bytes(), top, bottom),
        r matches Ok(v) ==> v@.len() == 32
            && forall|i: int| 0 <= i < 32 ==> #[trigger] v@[i]@ == graphics_tile(rom.bytes(), top, bottom, i),
{
    let parts: [usize; 4] = [top.part1, top.part2, bottom.part1, bottom.part2];
    let mut p: usize = 0;
    while p < 4
        invariant
            p <= 4,
            parts@ == seq![top.part1, top.part2, bottom.part1, bottom.part2],
            forall|j: int| 0 <= j < p ==> #[trigger] part_ok(parts@[j] as int),
        decreases 4 - p,
    {
        if parts[p] > HALF_ROW || parts[p] % 32 != 0 {
            return Err(DecodeError::BadPartSize { len: parts[p] });
        }
        p = p + 1;
    }
    assert(part_ok(parts@[0] as int) && part_ok(parts@[1] as int) && part_ok(parts@[2] as int) && part_ok(parts@[3] as int));
    let n = rom.len();
    if top.address > n || n - top.address < top.part1 + top.part2 {
        return Err(DecodeError::OutOfBounds { offset: top.address, len: top.part1 + top.part2 });
    }
    if bottom.address > n || n - bottom.address < bottom.part1 + bottom.part2 {
        return Err(DecodeError::OutOfBounds { offset: bottom.address, len: bottom.part1 + bottom.part2 });
    }
    let mut out: Vec<Tile> = Vec::new();
    push_half_row(&mut out, rom, top.address, top.part1);
    push_half_row(&mut out, rom, bottom.address, bottom.part1);
    push_half_row(&mut out, rom, top.address + top.part1, top.part2);
    push_half_row(&mut out, rom, bottom.address + bottom.part1, bottom.part2);
    assert forall|i: int| 0 <= i < 32 implies #[trigger] out@[i]@ == graphics_tile(rom.bytes(), top, bottom, i) by {
        assert(i / 8 == 0 || i / 8 == 1 || i / 8 == 2 || i / 8 == 3);
        assert(i == 8 * (i / 8) + i % 8);
    }
    Ok(out)
}

/// The image offset of the progression records of pose `state`.
pub open spec fn progression_list_at(rom: Seq<u8>, state: int) -> int {
    pc_of(FRAME_PROGRESSION_TABLES) + entry16(rom, pc_of(FRAME_PROGRESSION_TABLE_LOOKUP), state)
}

/// The progression records of pose `state`, four bytes per frame.
fn lookup_frame_dma_pointers<'a>(rom: &Rom<'a>, state: usize, num_frames: usize) -> (r: Result<&'a [u8], DecodeError>)
    ensures
        r is Ok <==> entry_in(rom.bytes(), pc_of(FRAME_PROGRESSION_TABLE_LOOKUP), state as int)
            && progression_list_at(rom.bytes(), state as int) + 4 * num_frames <= rom.bytes().len(),
        r matches Ok(s) ==> s@ == rom.bytes().subrange(progression_list_at(rom.bytes(), state as int),
            progression_list_at(rom.bytes(), state as int) + 4 * num_frames),
{
    proof {
        lemma_table_banks();
    }
    let offset = table_entry(rom, snespc(FRAME_PROGRESSION_TABLE_LOOKUP), state)?;
    let addr = snespc(FRAME_PROGRESSION_TABLES) + offset as usize;
    let n = rom.len();
    if num_frames > usize::MAX / 4 {
        assert(4 * num_frames > n);
        return Err(DecodeError::OutOfBounds { offset: addr, len: num_frames });
    }
    rom.try_read(addr, num_frames * 4)
}

/// The progression records of pose `state`.
pub open spec fn progression_of(rom: Seq<u8>, state: int, num_frames: int) -> Seq<u8> {
    rom.subrange(progression_list_at(rom, state), progression_list_at(rom, state) + 4 * num_frames)
}

/// The tiles of the first `num_frames` frames of pose `state` can be read.
pub open spec fn graphics_ok(b: Seq<u8>, state: int, num_frames: int) -> bool {
    let pe = progression_of(b, state, num_frames);
    &&& entry_in(b, pc_of(FRAME_PROGRESSION_TABLE_LOOKUP), state)
    &&& progression_list_at(b, state) + 4 * num_frames <= b.len()
    &&& forall|k: int| 0 <= k < num_frames ==> #[trigger] progression_in(b, pe, k)
    &&& forall|k: int| 0 <= k < num_frames ==>
        graphics_in(b, #[trigger] progression_at(b, pe, k).0, progression_at(b, pe, k).1)
}

/// The tiles of the first `num_frames` frames of pose `state`, 32 per frame.
pub fn graphics(rom: &Rom, state: usize, num_frames: usize) -> (r: Result<Vec<Vec<Tile>>, DecodeError>)
    ensures
        r is Ok <==> graphics_ok(rom.bytes(), state as int, num_frames as int),
        r matches Ok(v) ==> v@.len() == num_frames
            && (forall|k: int| 0 <= k < num_frames ==> (#[trigger] v@[k])@.len() == 32)
            && forall|k: int, i: int| 0 <= k < num_frames && 0 <= i < 32 ==> {
                let pe = progression_of(rom.bytes(), state as int, num_frames as int);
                (#[trigger] v@[k]@[i])@ == graphics_tile(rom.bytes(), progression_at(rom.bytes(), pe, k).0,
                    progression_at(rom.bytes(), pe, k).1, i)
            },
{
    let pointers = lookup_frame_dma_pointers(rom, state, num_frames)?;
    let ghost pe = progression_of(rom.bytes(), state as int, num_frames as int);
    proof {
        lemma_table_banks();
    }
    assert(pointers@ == pe);
    assert(pe.len() == 4 * num_frames);
    let data = lookup_graphics_data(rom, pointers)?;
    let mut out: Vec<Vec<Tile>> = Vec::new();
    let mut k: usize = 0;
    while k < data.len()
        invariant
            pointers@ == pe,
            pe == progression_of(rom.bytes(), state as int, num_frames as int),
            pe.len() == 4 * num_frames,
            data@.len() == num_frames,
            forall|j: int| 0 <= j < num_frames ==> #[trigger] progression_in(rom.bytes(), pe, j),
            forall|j: int| 0 <= j < num_frames ==> #[trigger] data@[j] == progression_at(rom.bytes(), pe, j),
            k <= num_frames,
            out@.len() == k,
            forall|j: int| 0 <= j < k ==> graphics_in(rom.bytes(), #[trigger] progression_at(rom.bytes(), pe, j).0,
                progression_at(rom.bytes(), pe, j).1),
            forall|j: int| 0 <= j < k ==> (#[trigger] out@[j])@.len() == 32,
            forall|j: int, i: int| 0 <= j < k && 0 <= i < 32 ==> (#[trigger] out@[j]@[i])@ == graphics_tile(rom.bytes(), progression_at(rom.bytes(), pe, j).0,
                    progression_at(rom.bytes(), pe, j).1, i),
        decreases data@.len() - k,
    {
        let (t, b) = data[k];
        assert(data@[k as int] == progression_at(rom.bytes(), pe, k as int));
        let tiles = match generate_graphics(rom, t, b) {
            Ok(v) => v,
            Err(e) => {
                assert(!graphics_in(rom.bytes(), progression_at(rom.bytes(), pe, k as int).0,
                    progression_at(rom.bytes(), pe, k as int).1));
                return Err(e);
            },
        };
        out.push(tiles);
        k = k + 1;
    }
    Ok(out)
}

/// The transitions of a pose, with one to `default_state` on no input added
/// when `default_state` is neither 0xFF nor the pose itself.
pub open spec fn with_default(ts: Seq<Transition>, state: int, default_state: int) -> Seq<Transition> {
    if default_state != 0xFF && default_state != state {
        ts.push(Transition { input: ControllerInput::empty_spec(), to_pose: default_state as u8 })
    } else {
        ts
    }
}

/// Every part of every frame of pose `state` uses one of the 32 tiles
/// that the frame's transfers fill.
pub open spec fn parts_in_graphics(b: Seq<u8>, state: int, num_frames: int) -> bool {
    forall|k: int, j: int| 0 <= k < num_frames && 0 <= j < tilemap_of(b, state, k).len()
        ==> #[trigger] tilemap_of(b, state, k)[j].last_tile() < 32
}

/// Pose `state` decodes: its sequence, frame maps and graphics can be read,
/// its parts use existing tiles, and a pose without frames hands over.
pub open spec fn pose_ok(b: Seq<u8>, state: int) -> bool {
    let n = sequence_len(b, state);
    let e = first_opcode(b, sequence_start(b, state));
    &&& sequence_ok(b, state)
    &&& tilemaps_ok(b, state, n)
    &&& graphics_ok(b, state, n)
    &&& parts_in_graphics(b, state, n)
    &&& (n == 0 ==> takes_argument(b[e]) && b[e] != 0xFE)
}

/// The tiles of frame `k` of pose `state`, whose sequence has `n` frames.
pub open spec fn frame_tiles(b: Seq<u8>, state: int, n: int, k: int) -> Seq<Seq<u8>> {
    let pe = progression_of(b, state, n);
    Seq::new(32, |i: int| graphics_tile(b, progression_at(b, pe, k).0, progression_at(b, pe, k).1, i))
}

/// Composites the frames of a pose from their frame maps, tiles and
/// durations.
fn composite_frames(maps: &Vec<Vec<FrameMap>>, tiles: &Vec<Vec<Tile>>, durations: &Vec<u8>) -> (r: Result<Vec<Frame>, DecodeError>)
    requires
        maps@.len() == durations@.len(),
        tiles@.len() == durations@.len(),
    ensures
        r is Ok <==> forall|k: int, j: int| 0 <= k < maps@.len() && 0 <= j < maps@[k]@.len()
            ==> #[trigger] maps@[k]@[j].last_tile() < tiles@[k]@.len(),
        r matches Ok(v) ==> v@.len() == durations@.len()
            && forall|k: int| 0 <= k < v@.len() ==> #[trigger] shows(&v@[k], maps@[k]@, tile_views(tiles@[k]@)),
{
    let mut out: Vec<Frame> = Vec::new();
    let mut k: usize = 0;
    while k < durations.len()
        invariant
            maps@.len() == durations@.len(),
            tiles@.len() == durations@.len(),
            k <= durations@.len(),
            out@.len() == k,
            forall|i: int, j: int| 0 <= i < k && 0 <= j < maps@[i]@.len()
                ==> #[trigger] maps@[i]@[j].last_tile() < tiles@[i]@.len(),
            forall|i: int| 0 <= i < k ==> #[trigger] shows(&out@[i], maps@[i]@, tile_views(tiles@[i]@)),
        decreases durations@.len() - k,
    {
        let c = FrameMap::composite(maps[k].as_slice(), tiles[k].as_slice(), durations[k] as u16);
        match c {
            Ok(f) => {
                let ghost before = out@;
                out.push(Frame { buffer: f.buffer, width: f.width, height: f.height, zero_x: f.zero_x, zero_y: f.zero_y });
                assert forall|i: int| 0 <= i < k + 1 implies #[trigger] shows(&out@[i], maps@[i]@, tile_views(tiles@[i]@)) by {
                    if i < k {
                        assert(out@[i] == before[i]);
                    }
                }
            },
            Err(e) => {
                return Err(e);
            },
        }
        k = k + 1;
    }
    Ok(out)
}

/// `p` is pose `state` as decoded from `b` under `name`, with the fallback
/// transition to `default_state`, showing frames of the store `frames`.
pub open spec fn stores_decoded(b: Seq<u8>, p: Pose, state: usize, name: &'static str, default_state: usize, frames: Seq<Frame>) -> bool {
    let n = sequence_len(b, state as int);
    let st = sequence_start(b, state as int);
    let e = first_opcode(b, st);
    &&& p.id == state
    &&& p@.name == name@
    &&& p.cursor == 0
    &&& p.durations@ == b.subrange(st, e)
    &&& p.terminator == terminator_of(b[e], if e + 1 < b.len() { b[e + 1] } else { 0 })
    &&& p.transitions@ == with_default(transitions_between(b, transitions_start(b, state as int),
        sentinel_from(b, transitions_start(b, state as int))), state as int, default_state as int)
    &&& p.frames@.len() == n
    &&& forall|k: int| 0 <= k < n ==> #[trigger] p.frames@[k] < frames.len()
        && shows(&frames[p.frames@[k] as int], tilemap_of(b, state as int, k), frame_tiles(b, state as int, n, k))
}

/// A decoded pose stays decoded when frames are added after those it shows.
proof fn lemma_decoded_kept(b: Seq<u8>, p: Pose, state: usize, name: &'static str, default_state: usize, f1: Seq<Frame>, f2: Seq<Frame>)
    requires
        stores_decoded(b, p, state, name, default_state, f1),
        f1.len() <= f2.len(),
        f2.subrange(0, f1.len() as int) == f1,
    ensures
        stores_decoded(b, p, state, name, default_state, f2),
{
    let n = sequence_len(b, state as int);
    assert forall|k: int| 0 <= k < n implies #[trigger] p.frames@[k] < f2.len()
        && shows(&f2[p.frames@[k] as int], tilemap_of(b, state as int, k), frame_tiles(b, state as int, n, k)) by {
        assert(f2[p.frames@[k] as int] == f2.subrange(0, f1.len() as int)[p.frames@[k] as int]);
    }
}

/// Decodes pose `state` and stores it, with its composited frames, in
/// `table`, under `name`. A `default_state` other than 0xFF and `state`
/// adds a transition to that pose for when nothing is held. Gives whether
/// the pose was stored: it is not when the table already has this id. On a
/// fault the table is left as it was.
pub fn build_pose(rom: &Rom, state: usize, default_state: usize, name: &'static str, table: &mut PoseTable) -> (r: Result<bool, DecodeError>)
    requires
        old(table).wf(),
    ensures
        final(table).wf(),
        r is Ok <==> pose_ok(rom.bytes(), state as int),
        r is Err ==> final(table).poses@ == old(table).poses@ && final(table).frames@ == old(table).frames@,
        r matches Ok(stored) ==> stored == !old(table).has(state as int),
        r matches Ok(false) ==> final(table).poses@ == old(table).poses@ && final(table).frames@ == old(table).frames@,
        r matches Ok(true) ==> {
            let b = rom.bytes();
            let n = sequence_len(b, state as int);
            let st = sequence_start(b, state as int);
            let e = first_opcode(b, st);
            let p = final(table).poses@.last();
            &&& final(table).poses@ == old(table).poses@.push(p)
            &&& final(table).frames@.len() == old(table).frames@.len() + n
            &&& final(table).frames@.subrange(0, old(table).frames@.len() as int) == old(table).frames@
            &&& p.id == state
            &&& p@.name == name@
            &&& p.cursor == 0
            &&& p.durations@ == b.subrange(st, e)
            &&& p.terminator == terminator_of(b[e], if e + 1 < b.len() { b[e + 1] } else { 0 })
            &&& p.transitions@ == with_default(transitions_between(b, transitions_start(b, state as int),
                sentinel_from(b, transitions_start(b, state as int))), state as int, default_state as int)
            &&& p.frames@ == Seq::new(n as nat, |k: int| (old(table).frames@.len() + k) as usize)
            &&& forall|k: int| 0 <= k < n ==> #[trigger] shows(&final(table).frames@[old(table).frames@.len() + k],
                tilemap_of(b, state as int, k), frame_tiles(b, state as int, n, k))
            &&& stores_decoded(b, p, state, name, default_state, final(table).frames@)
        },
{
    let ghost b = rom.bytes();
    let sequence = lookup_frame_sequence(rom, state)?;
    proof {
        lemma_opcode_after(b, sequence_start(b, state as int));
        lemma_duration_bank(0);
    }
    let n = sequence.durations.len();
    let maps = tilemaps(rom, state, n)?;
    let tiles = graphics(rom, state, n)?;
    let frames = match composite_frames(&maps, &tiles, &sequence.durations) {
        Ok(f) => f,
        Err(e) => {
            assert(!parts_in_graphics(b, state as int, n as int)) by {
                let (k, j) = choose|k: int, j: int| 0 <= k < maps@.len() && 0 <= j < maps@[k]@.len()
                    && !(#[trigger] maps@[k]@[j].last_tile() < tiles@[k]@.len());
                assert(tiles@[k]@.len() == 32);
                assert(maps@[k]@ == tilemap_of(b, state as int, k));
            }
            return Err(e);
        },
    };
    proof {
        if !parts_in_graphics(b, state as int, n as int) {
            let (k, j) = choose|k: int, j: int| 0 <= k < n && 0 <= j < tilemap_of(b, state as int, k).len()
                && !(#[trigger] tilemap_of(b, state as int, k)[j].last_tile() < 32);
            assert(tiles@[k]@.len() == 32);
            assert(maps@[k]@ == tilemap_of(b, state as int, k));
            assert(maps@[k]@[j].last_tile() < tiles@[k]@.len());
        }
    }
    let hands_over = match sequence.terminator {
        Terminator::TransitionTo(_) => true,
        _ => false,
    };
    if n == 0 && !hands_over {
        return Err(DecodeError::EmptyPose { state });
    }
    if table.get(state).is_some() {
        return Ok(false);
    }
    let mut transitions = sequence.transitions;
    if default_state != 0xFF && default_state != state {
        transitions.push(Transition { input: ControllerInput::empty(), to_pose: default_state as u8 });
    }
    assert forall|k: int| 0 <= k < n implies #[trigger] shows(&frames@[k], tilemap_of(b, state as int, k),
        frame_tiles(b, state as int, n as int, k)) by {
        assert(tile_views(tiles@[k]@) =~= frame_tiles(b, state as int, n as int, k));
        assert(maps@[k]@ == tilemap_of(b, state as int, k));
    }
    let ghost composed = frames@;
    let ghost old_frames = table.frames@;
    let ghost old_poses = table.poses@;
    let mut indices: Vec<usize> = Vec::new();
    let mut frames = frames;
    let mut k: usize = 0;
    while k < n
        invariant
            table.wf(),
            table.poses@ == old_poses,
            k <= n,
            frames@.len() == n - k,
            frames@ == composed.subrange(k as int, n as int),
            composed.len() == n,
            forall|j: int| 0 <= j < n ==> #[trigger] shows(&composed[j], tilemap_of(b, state as int, j),
                frame_tiles(b, state as int, n as int, j)),
            forall|j: int| 0 <= j < k ==> #[trigger] table.frames@[old_frames.len() + j] == composed[j],
            table.frames@.len() == old_frames.len() + k,
            table.frames@.subrange(0, old_frames.len() as int) == old_frames,
            indices@ == Seq::new(k as nat, |i: int| (old_frames.len() + i) as usize),
        decreases n - k,
    {
        let f = frames.remove(0);
        assert(f == composed[k as int]);
        assert(frames@ =~= composed.subrange(k + 1, n as int));
        let ghost before = table.frames@;
        let i = table.add_frame(f);
        assert forall|j: int| 0 <= j < k + 1 implies #[trigger] table.frames@[old_frames.len() + j] == composed[j] by {
            if j < k {
                assert(table.frames@[old_frames.len() + j] == before[old_frames.len() + j]);
            }
        }
        assert(table.frames@.subrange(0, old_frames.len() as int) =~= before.subrange(0, old_frames.len() as int));
        indices.push(i);
        assert(indices@ =~= Seq::new((k + 1) as nat, |j: int| (old_frames.len() + j) as usize));
        k = k + 1;
    }
    let seq = Sequence { durations: sequence.durations, terminator: sequence.terminator, transitions };
    let pose = Pose::new(state, name, indices, seq);
    assert forall|j: int| 0 <= j < pose.frames.len() implies #[trigger] pose.frames[j] < table.frames.len() by {}
    let stored = table.insert(pose);
    proof {
        if stored {
            let p = table.poses@.last();
            assert forall|j: int| 0 <= j < n implies #[trigger] p.frames@[j] < table.frames@.len()
                && shows(&table.frames@[p.frames@[j] as int], tilemap_of(b, state as int, j),
                    frame_tiles(b, state as int, n as int, j)) by {
                assert(p.frames@[j] == old_frames.len() + j);
                assert(table.frames@[old_frames.len() + j] == composed[j]);
            }
        }
    }
    Ok(stored)
}

/// The image offset of the player sprite's palette.
pub const PALETTE_OFFSET: usize = 0xD9400;

/// The player sprite's palette: sixteen BGR555 colours at
/// `PALETTE_OFFSET`, widened to eight bits per channel.
pub fn samus_palette(rom: &Rom) -> (r: Result<Vec<crate::util::RGBu8>, DecodeError>)
    ensures
        r is Ok <==> PALETTE_OFFSET + 32 <= rom.bytes().len(),
        r matches Ok(p) ==> p@.len() == 16 && forall|i: int| 0 <= i < 16 ==> {
            let c = le16(rom.bytes(), PALETTE_OFFSET + 2 * i) as u16;
            &&& (#[trigger] p@[i]).0 == crate::util::red5(c) * 8
            &&& p@[i].1 == crate::util::green5(c) * 8
            &&& p@[i].2 == crate::util::blue5(c) * 8
        },
{
    let bytes = rom.try_read(PALETTE_OFFSET, 32)?;
    let mut out: Vec<crate::util::RGBu8> = Vec::new();
    let mut i: usize = 0;
    while i < 16
        invariant
            bytes@ == rom.bytes().subrange(PALETTE_OFFSET as int, PALETTE_OFFSET + 32),
            bytes@.len() == 32,
            PALETTE_OFFSET + 32 <= rom.bytes().len(),
            i <= 16,
            out@.len() == i,
            forall|j: int| 0 <= j < i ==> {
                let c = le16(rom.bytes(), PALETTE_OFFSET + 2 * j) as u16;
                &&& (#[trigger] out@[j]).0 == crate::util::red5(c) * 8
                &&& out@[j].1 == crate::util::green5(c) * 8
                &&& out@[j].2 == crate::util::blue5(c) * 8
            },
        decreases 16 - i,
    {
        let c = read_u16(&bytes[2 * i..2 * i + 2]);
        assert(bytes@[2 * i as int] == rom.bytes()[PALETTE_OFFSET + 2 * i]);
        assert(bytes@[2 * i + 1] == rom.bytes()[PALETTE_OFFSET + 2 * i + 1]);
        assert(c == le16(rom.bytes(), PALETTE_OFFSET + 2 * i));
        out.push(crate::util::bgr555_rgb888(&c));
        i = i + 1;
    }
    Ok(out)
}

/// A pose to decode: its id, its name, and the pose it falls back to when
/// nothing is held (0xFF for none).
#[derive(Clone, Copy, Debug)]
pub struct PoseEntry {
    pub state: usize,
    pub name: &'static str,
    pub default_state: usize,
}

/// Whether `e` is decoded for the choice `chosen`: every entry when nothing
/// is chosen, otherwise those whose id or fallback pose is chosen.
pub open spec fn selected(e: PoseEntry, chosen: Seq<usize>) -> bool {
    chosen.len() == 0 || chosen.contains(e.state) || chosen.contains(e.default_state)
}

/// Pose `p` is the decoded pose of one of the first `n` entries of `list`
/// that `chosen` selects, with that entry's name and fallback.
pub open spec fn decoded_from(b: Seq<u8>, list: Seq<PoseEntry>, chosen: Seq<usize>, n: int, p: Pose, frames: Seq<Frame>) -> bool {
    exists|j: int| 0 <= j < n && selected(list[j], chosen)
        && #[trigger] stores_decoded(b, p, list[j].state, list[j].name, list[j].default_state, frames)
}

fn is_selected(e: PoseEntry, chosen: &[usize]) -> (r: bool)
    ensures
        r == selected(e, chosen@),
{
    if chosen.len() == 0 {
        return true;
    }
    let mut i: usize = 0;
    while i < chosen.len()
        invariant
            i <= chosen@.len(),
            forall|j: int| 0 <= j < i ==> #[trigger] chosen@[j] != e.state && chosen@[j] != e.default_state,
        decreases chosen@.len() - i,
    {
        if chosen[i] == e.state || chosen[i] == e.default_state {
            return true;
        }
        i = i + 1;
    }
    false
}

/// Decodes the poses of `list` that `chosen` selects into one table; a
/// later entry with an id already stored is skipped. Fails on the first
/// selected pose that does not decode. Every stored pose is the decoded
/// pose of a selected entry, with that entry's name and fallback.
pub fn build_pose_table(rom: &Rom, list: &[PoseEntry], chosen: &[usize]) -> (r: Result<PoseTable, DecodeError>)
    ensures
        r is Ok <==> forall|i: int| 0 <= i < list@.len() && selected(list@[i], chosen@)
            ==> #[trigger] pose_ok(rom.bytes(), list@[i].state as int),
        r matches Ok(t) ==> t.wf(),
        r matches Ok(t) ==> forall|i: int| 0 <= i < list@.len() && selected(list@[i], chosen@)
            ==> t.has(#[trigger] list@[i].state as int),
        r matches Ok(t) ==> forall|k: int| 0 <= k < t.poses@.len() ==>
            decoded_from(rom.bytes(), list@, chosen@, list@.len() as int, #[trigger] t.poses@[k], t.frames@),
{
    let ghost b = rom.bytes();
    let mut table = PoseTable::new();
    let mut i: usize = 0;
    while i < list.len()
        invariant
            b == rom.bytes(),
            i <= list@.len(),
            table.wf(),
            forall|j: int| 0 <= j < i && selected(list@[j], chosen@) ==> #[trigger] pose_ok(b, list@[j].state as int),
            forall|j: int| 0 <= j < i && selected(list@[j], chosen@) ==> table.has(#[trigger] list@[j].state as int),
            forall|k: int| 0 <= k < table.poses@.len() ==>
                decoded_from(b, list@, chosen@, i as int, #[trigger] table.poses@[k], table.frames@),
        decreases list@.len() - i,
    {
        let e = list[i];
        if is_selected(e, chosen) {
            let ghost before = table.poses@;
            let ghost before_frames = table.frames@;
            match build_pose(rom, e.state, e.default_state, e.name, &mut table) {
                Ok(stored) => {
                    assert(table.frames@.subrange(0, before_frames.len() as int) == before_frames) by {
                        if !stored {
                            assert(table.frames@.subrange(0, before_frames.len() as int) =~= before_frames);
                        }
                    }
                    assert forall|j: int| 0 <= j < i + 1 && selected(list@[j], chosen@) implies
                        table.has(#[trigger] list@[j].state as int) by {
                        if j < i {
                            let w = choose|w: int| 0 <= w < before.len() && #[trigger] before[w].id == list@[j].state;
                            assert(table.poses@[w] == before[w]);
                        } else if stored {
                            assert(table.poses@[before.len() as int].id == e.state);
                        }
                    }
                    assert forall|k: int| 0 <= k < table.poses@.len() implies
                        decoded_from(b, list@, chosen@, i + 1, #[trigger] table.poses@[k], table.frames@) by {
                        if k < before.len() {
                            assert(table.poses@[k] == before[k]);
                            let w = choose|w: int| 0 <= w < i && selected(list@[w], chosen@)
                                && #[trigger] stores_decoded(b, before[k], list@[w].state, list@[w].name,
                                    list@[w].default_state, before_frames);
                            lemma_decoded_kept(b, before[k], list@[w].state, list@[w].name, list@[w].default_state,
                                before_frames, table.frames@);
                        } else {
                            assert(table.poses@[k] == table.poses@.last());
                            assert(stores_decoded(b, table.poses@[k], list@[i as int].state, list@[i as int].name,
                                list@[i as int].default_state, table.frames@));
                        }
                    }
                },
                Err(err) => {
                    assert(!pose_ok(b, list@[i as int].state as int));
                    return Err(err);
                },
            }
        }
        assert forall|k: int| 0 <= k < table.poses@.len() implies
            decoded_from(b, list@, chosen@, i + 1, #[trigger] table.poses@[k], table.frames@) by {
            let w = choose|w: int| 0 <= w < i && selected(list@[w], chosen@)
                && #[trigger] stores_decoded(b, table.poses@[k], list@[w].state, list@[w].name,
                    list@[w].default_state, table.frames@);
        }
        i = i + 1;
    }
    Ok(table)
}

/// The durations of pose `state` can be read.
pub open spec fn durations_ok(b: Seq<u8>, state: int) -> bool {
    &&& entry_in(b, pc_of(FRAME_DURATION_TABLE), state)
    &&& first_opcode(b, sequence_start(b, state)) < b.len()
}

/// The composited frames of pose `state`, each with its duration: the
/// frame maps of each frame laid over that frame's 32 tiles.
pub fn pose_frames(rom: &Rom, state: usize) -> (r: Result<Vec<CompositedFrame>, DecodeError>)
    ensures
        r is Ok <==> {
            let b = rom.bytes();
            let n = sequence_len(b, state as int);
            &&& durations_ok(b, state as int)
            &&& tilemaps_ok(b, state as int, n)
            &&& graphics_ok(b, state as int, n)
            &&& parts_in_graphics(b, state as int, n)
        },
        r matches Ok(v) ==> {
            let b = rom.bytes();
            let n = sequence_len(b, state as int);
            let st = sequence_start(b, state as int);
            &&& v@.len() == n
            &&& forall|k: int| 0 <= k < n ==> {
                let f = #[trigger] v@[k];
                &&& bounding_box(tilemap_of(b, state as int, k), -f.zero_x, -f.zero_y, f.width - f.zero_x, f.height - f.zero_y)
                &&& f.duration == b[st + k]
                &&& f.buffer@.len() == f.width * f.height
                &&& forall|cx: int, cy: int| 0 <= cx < f.width && 0 <= cy < f.height ==>
                    #[trigger] px(f.buffer@, f.width as int, cx, cy) == layered(tilemap_of(b, state as int, k),
                        frame_tiles(b, state as int, n, k), f.zero_x as int, f.zero_y as int, cx, cy)
            }
        },
{
    let ghost b = rom.bytes();
    proof {
        lemma_duration_bank(0);
        lemma_opcode_after(b, sequence_start(b, state as int));
    }
    let durations = lookup_frame_durations(rom, state)?;
    let n = durations.len();
    let maps = tilemaps(rom, state, n)?;
    let tiles = graphics(rom, state, n)?;
    let mut out: Vec<CompositedFrame> = Vec::new();
    let mut k: usize = 0;
    while k < n
        invariant
            b == rom.bytes(),
            n == durations@.len(),
            n == sequence_len(b, state as int),
            durations@ == b.subrange(sequence_start(b, state as int), first_opcode(b, sequence_start(b, state as int))),
            0 <= sequence_start(b, state as int) <= first_opcode(b, sequence_start(b, state as int)) <= b.len(),
            maps@.len() == n,
            forall|j: int| 0 <= j < n ==> #[trigger] maps@[j]@ == tilemap_of(b, state as int, j),
            tiles@.len() == n,
            forall|j: int| 0 <= j < n ==> (#[trigger] tiles@[j])@.len() == 32,
            forall|j: int, i: int| 0 <= j < n && 0 <= i < 32 ==> {
                let pe = progression_of(b, state as int, n as int);
                (#[trigger] tiles@[j]@[i])@ == graphics_tile(b, progression_at(b, pe, j).0, progression_at(b, pe, j).1, i)
            },
            k <= n,
            out@.len() == k,
            forall|j: int, i: int| 0 <= j < k && 0 <= i < tilemap_of(b, state as int, j).len()
                ==> #[trigger] tilemap_of(b, state as int, j)[i].last_tile() < 32,
            forall|j: int| 0 <= j < k ==> {
                let f = #[trigger] out@[j];
                &&& bounding_box(tilemap_of(b, state as int, j), -f.zero_x, -f.zero_y, f.width - f.zero_x, f.height - f.zero_y)
                &&& f.duration == b[sequence_start(b, state as int) + j]
                &&& f.buffer@.len() == f.width * f.height
                &&& forall|cx: int, cy: int| 0 <= cx < f.width && 0 <= cy < f.height ==>
                    #[trigger] px(f.buffer@, f.width as int, cx, cy) == layered(tilemap_of(b, state as int, j),
                        frame_tiles(b, state as int, n as int, j), f.zero_x as int, f.zero_y as int, cx, cy)
            },
        decreases n - k,
    {
        assert(tile_views(tiles@[k as int]@) =~= frame_tiles(b, state as int, n as int, k as int));
        let c = FrameMap::composite(maps[k].as_slice(), tiles[k].as_slice(), durations[k] as u16);
        match c {
            Ok(f) => {
                let ghost before = out@;
                out.push(f);
                assert forall|j: int| 0 <= j < k + 1 implies {
                    let f = #[trigger] out@[j];
                    &&& bounding_box(tilemap_of(b, state as int, j), -f.zero_x, -f.zero_y, f.width - f.zero_x, f.height - f.zero_y)
                    &&& f.duration == b[sequence_start(b, state as int) + j]
                    &&& f.buffer@.len() == f.width * f.height
                    &&& forall|cx: int, cy: int| 0 <= cx < f.width && 0 <= cy < f.height ==>
                        #[trigger] px(f.buffer@, f.width as int, cx, cy) == layered(tilemap_of(b, state as int, j),
                            frame_tiles(b, state as int, n as int, j), f.zero_x as int, f.zero_y as int, cx, cy)
                } by {
                    if j < k {
                        assert(out@[j] == before[j]);
                    }
                }
            },
            Err(e) => {
                assert(!parts_in_graphics(b, state as int, n as int)) by {
                    let i = choose|i: int| 0 <= i < maps@[k as int]@.len()
                        && #[trigger] maps@[k as int]@[i].last_tile() >= tiles@[k as int]@.len();
                    assert(maps@[k as int]@ == tilemap_of(b, state as int, k as int));
                }
                return Err(e);
            },
        }
        k = k + 1;
    }
    Ok(out)
}

} // verus!
