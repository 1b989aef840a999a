//! The set of held controller buttons, as a 16-bit mask.

use vstd::prelude::*;
use vstd::string::StringExecFns;

verus! {

/// The bits that name a button; the low nibble is unused.
pub const ALL_BITS: u16 = 0xFFF0;

/// The bit of each button.
pub const DIAGONAL_UP: u16 = 0x0010;
pub const DIAGONAL_DOWN: u16 = 0x0020;
pub const SHOOT: u16 = 0x0040;
pub const JUMP: u16 = 0x0080;
pub const RIGHT: u16 = 0x0100;
pub const LEFT: u16 = 0x0200;
pub const DOWN: u16 = 0x0400;
pub const UP: u16 = 0x0800;
pub const START: u16 = 0x1000;
pub const SELECT: u16 = 0x2000;
pub const CANCEL: u16 = 0x4000;
pub const RUN: u16 = 0x8000;

/// A set of controller buttons. Each button is one bit of `bits`.
#[derive(Clone, Copy, Debug, PartialEq, Eq, Structural)]
pub struct ControllerInput {
    pub bits: u16,
}

impl ControllerInput {
    /// The set holds only buttons that exist.
    pub open spec fn is_valid(self) -> bool {
        self.bits & !ALL_BITS == 0
    }

    pub open spec fn empty_spec() -> ControllerInput {
        ControllerInput { bits: 0 }
    }

    /// The empty set.
    pub fn empty() -> (r: ControllerInput)
        ensures
            r == Self::empty_spec(),
    {
        ControllerInput { bits: 0 }
    }

    /// The set of all twelve buttons.
    pub fn all() -> (r: ControllerInput)
        ensures
            r.bits == ALL_BITS,
    {
        ControllerInput { bits: ALL_BITS }
    }

    /// The raw mask.
    pub fn bits(&self) -> (r: u16)
        ensures
            r == self.bits,
    {
        self.bits
    }

    /// The set with exactly the bits of `bits`, or `None` when `bits` names
    /// a bit that is not a button.
    pub fn from_bits(bits: u16) -> (r: Option<ControllerInput>)
        ensures
            (bits & !ALL_BITS == 0) <==> r is Some,
            r matches Some(c) ==> c.bits == bits,
    {
        if bits & !ALL_BITS == 0 {
            Some(ControllerInput { bits })
        } else {
            None
        }
    }

    /// The set of the buttons named in `bits`; other bits are dropped.
    pub fn from_bits_truncate(bits: u16) -> (r: ControllerInput)
        ensures
            r.bits == bits & ALL_BITS,
    {
        ControllerInput { bits: bits & ALL_BITS }
    }

    pub fn is_empty(&self) -> (r: bool)
        ensures
            r == (self.bits == 0),
    {
        self.bits == 0
    }

    pub fn is_all(&self) -> (r: bool)
        ensures
            r == (self.bits == ALL_BITS),
    {
        self.bits == ALL_BITS
    }

    /// Whether the two sets share a button.
    pub fn intersects(&self, other: ControllerInput) -> (r: bool)
        ensures
            r == (self.bits & other.bits != 0),
    {
        self.bits & other.bits != 0
    }

    /// Whether every button of `other` is in `self`.
    pub fn contains(&self, other: ControllerInput) -> (r: bool)
        ensures
            r == (self.bits & other.bits == other.bits),
    {
        self.bits & other.bits == other.bits
    }

    pub fn insert(&mut self, other: ControllerInput)
        ensures
            final(self).bits == old(self).bits | other.bits,
    {
        self.bits = self.bits | other.bits;
    }

    pub fn remove(&mut self, other: ControllerInput)
        ensures
            final(self).bits == old(self).bits & !other.bits,
    {
        self.bits = self.bits & !other.bits;
    }

    pub fn toggle(&mut self, other: ControllerInput)
        ensures
            final(self).bits == old(self).bits ^ other.bits,
    {
        self.bits = self.bits ^ other.bits;
    }

    /// Inserts `other` when `value` holds, removes it otherwise.
    pub fn set(&mut self, other: ControllerInput, value: bool)
        ensures
            value ==> final(self).bits == old(self).bits | other.bits,
            !value ==> final(self).bits == old(self).bits & !other.bits,
    {
        if value {
            self.insert(other);
        } else {
            self.remove(other);
        }
    }

    pub fn union(self, other: ControllerInput) -> (r: ControllerInput)
        ensures
            r.bits == self.bits | other.bits,
    {
        ControllerInput { bits: self.bits | other.bits }
    }

    pub fn intersection(self, other: ControllerInput) -> (r: ControllerInput)
        ensures
            r.bits == self.bits & other.bits,
    {
        ControllerInput { bits: self.bits & other.bits }
    }

    pub fn difference(self, other: ControllerInput) -> (r: ControllerInput)
        ensures
            r.bits == self.bits & !other.bits,
    {
        ControllerInput { bits: self.bits & !other.bits }
    }

    pub fn symmetric_difference(self, other: ControllerInput) -> (r: ControllerInput)
        ensures
            r.bits == self.bits ^ other.bits,
    {
        ControllerInput { bits: self.bits ^ other.bits }
    }

    /// The buttons that are not in `self`.
    pub fn complement(self) -> (r: ControllerInput)
        ensures
            r.bits == !self.bits & ALL_BITS,
    {
        ControllerInput { bits: !self.bits & ALL_BITS }
    }
}

impl core::ops::BitOr for ControllerInput {
    type Output = ControllerInput;

    fn bitor(self, other: ControllerInput) -> ControllerInput {
        self.union(other)
    }
}

impl core::ops::BitAnd for ControllerInput {
    type Output = ControllerInput;

    fn bitand(self, other: ControllerInput) -> ControllerInput {
        self.intersection(other)
    }
}

impl core::ops::BitXor for ControllerInput {
    type Output = ControllerInput;

    fn bitxor(self, other: ControllerInput) -> ControllerInput {
        self.symmetric_difference(other)
    }
}

impl core::ops::Sub for ControllerInput {
    type Output = ControllerInput;

    fn sub(self, other: ControllerInput) -> ControllerInput {
        self.difference(other)
    }
}

impl core::ops::Not for ControllerInput {
    type Output = ControllerInput;

    fn not(self) -> ControllerInput {
        self.complement()
    }
}

impl vstd::std_specs::ops::BitOrSpecImpl for ControllerInput {
    open spec fn obeys_bitor_spec() -> bool {
        true
    }

    open spec fn bitor_req(self, rhs: ControllerInput) -> bool {
        true
    }

    open spec fn bitor_spec(self, rhs: ControllerInput) -> ControllerInput {
        ControllerInput { bits: self.bits | rhs.bits }
    }
}

impl vstd::std_specs::ops::BitAndSpecImpl for ControllerInput {
    open spec fn obeys_bitand_spec() -> bool {
        true
    }

    open spec fn bitand_req(self, rhs: ControllerInput) -> bool {
        true
    }

    open spec fn bitand_spec(self, rhs: ControllerInput) -> ControllerInput {
        ControllerInput { bits: self.bits & rhs.bits }
    }
}

impl vstd::std_specs::ops::BitXorSpecImpl for ControllerInput {
    open spec fn obeys_bitxor_spec() -> bool {
        true
    }

    open spec fn bitxor_req(self, rhs: ControllerInput) -> bool {
        true
    }

    open spec fn bitxor_spec(self, rhs: ControllerInput) -> ControllerInput {
        ControllerInput { bits: self.bits ^ rhs.bits }
    }
}

impl vstd::std_specs::ops::SubSpecImpl for ControllerInput {
    open spec fn obeys_sub_spec() -> bool {
        true
    }

    open spec fn sub_req(self, rhs: ControllerInput) -> bool {
        true
    }

    open spec fn sub_spec(self, rhs: ControllerInput) -> ControllerInput {
        ControllerInput { bits: self.bits & !rhs.bits }
    }
}

impl vstd::std_specs::ops::NotSpecImpl for ControllerInput {
    open spec fn obeys_not_spec() -> bool {
        true
    }

    open spec fn not_req(self) -> bool {
        true
    }

    open spec fn not_spec(self) -> ControllerInput {
        ControllerInput { bits: !self.bits & ALL_BITS }
    }
}

impl core::ops::BitOrAssign for ControllerInput {
    fn bitor_assign(&mut self, other: ControllerInput) {
        self.insert(other);
    }
}

impl core::ops::BitAndAssign for ControllerInput {
    fn bitand_assign(&mut self, other: ControllerInput) {
        self.bits = self.bits & other.bits;
    }
}

impl core::ops::BitXorAssign for ControllerInput {
    fn bitxor_assign(&mut self, other: ControllerInput) {
        self.toggle(other);
    }
}

impl core::ops::SubAssign for ControllerInput {
    fn sub_assign(&mut self, other: ControllerInput) {
        self.remove(other);
    }
}

/// The name of button `k`, counting from the lowest button bit.
pub open spec fn flag_name(k: int) -> Seq<char> {
    if k == 0 { "DiagonalUp"@ }
    else if k == 1 { "DiagonalDown"@ }
    else if k == 2 { "Shoot"@ }
    else if k == 3 { "Jump"@ }
    else if k == 4 { "Right"@ }
    else if k == 5 { "Left"@ }
    else if k == 6 { "Down"@ }
    else if k == 7 { "Up"@ }
    else if k == 8 { "Start"@ }
    else if k == 9 { "Select"@ }
    else if k == 10 { "Cancel"@ }
    else { "Run"@ }
}

/// The bit of button `k`.
pub open spec fn flag_bit(k: int) -> u16 {
    (0x10u16 << (k as u16)) as u16
}

/// The names of the buttons `k` onwards that `bits` holds, joined by
/// " | "; `first` tells whether none has been written yet, and when none
/// is held at all the text is "(empty)".
pub open spec fn names_from(bits: u16, k: int, first: bool) -> Seq<char>
    decreases 12 - k,
{
    if k >= 12 {
        if first { "(empty)"@ } else { Seq::empty() }
    } else if bits & flag_bit(k) != 0 {
        (if first { Seq::empty() } else { " | "@ }) + flag_name(k) + names_from(bits, k + 1, false)
    } else {
        names_from(bits, k + 1, first)
    }
}

fn flag_str(k: usize) -> (r: &'static str)
    requires
        k < 12,
    ensures
        r@ == flag_name(k as int),
{
    match k {
        0 => "DiagonalUp",
        1 => "DiagonalDown",
        2 => "Shoot",
        3 => "Jump",
        4 => "Right",
        5 => "Left",
        6 => "Down",
        7 => "Up",
        8 => "Start",
        9 => "Select",
        10 => "Cancel",
        _ => "Run",
    }
}

impl ControllerInput {
    /// The names of the held buttons, in bit order, joined by " | ", or
    /// "(empty)" when none is held.
    pub fn names(&self) -> (r: String)
        ensures
            r@ == names_from(self.bits, 0, true),
    {
        let mut out = String::new();
        let mut first = true;
        let mut k: usize = 0;
        while k < 12
            invariant
                k <= 12,
                out@ + names_from(self.bits, k as int, first) == names_from(self.bits, 0, true),
            decreases 12 - k,
        {
            let bit: u16 = 0x10u16 << (k as u16);
            assert(bit == flag_bit(k as int));
            if self.bits & bit != 0 {
                let ghost before = out@;
                if !first {
                    out.append(" | ");
                }
                out.append(flag_str(k));
                assert(out@ + names_from(self.bits, k + 1, false) =~= before + names_from(self.bits, k as int, first));
                first = false;
            }
            k = k + 1;
        }
        if first {
            out.append("(empty)");
        }
        assert(out@ =~= out@ + names_from(self.bits, 12, false));
        out
    }
}

/// The button a browser key code stands for: space jumps, control shoots,
/// the arrow keys steer.
pub open spec fn key_button(key: u8) -> Option<u16> {
    if key == 32 { Some(JUMP) }
    else if key == 17 { Some(SHOOT) }
    else if key == 37 { Some(LEFT) }
    else if key == 38 { Some(UP) }
    else if key == 39 { Some(RIGHT) }
    else if key == 40 { Some(DOWN) }
    else { None }
}

/// The input for a browser key code, if the key is bound.
pub fn decode_input(key: u8) -> (r: Option<ControllerInput>)
    ensures
        r is Some <==> key_button(key) is Some,
        r matches Some(c) ==> Some(c.bits) == key_button(key),
{
    match key {
        32 => Some(ControllerInput { bits: JUMP }),
        17 => Some(ControllerInput { bits: SHOOT }),
        37 => Some(ControllerInput { bits: LEFT }),
        38 => Some(ControllerInput { bits: UP }),
        39 => Some(ControllerInput { bits: RIGHT }),
        40 => Some(ControllerInput { bits: DOWN }),
        _ => None,
    }
}

/// Set algebra of button masks: a union intersected with one of its operands
/// gives that operand back, a set shares no button with its complement, and
/// truncating drops exactly the bits that `from_bits` rejects.
pub proof fn lemma_set_algebra(a: ControllerInput, b: ControllerInput, bits: u16)
    ensures
        (a.bits | b.bits) & b.bits == b.bits,
        a.bits & (!a.bits & ALL_BITS) == 0,
        (bits & ALL_BITS) & !ALL_BITS == 0,
        (bits & ALL_BITS == bits) <==> (bits & !ALL_BITS == 0),
{
    let x = a.bits;
    let y = b.bits;
    assert((x | y) & y == y) by (bit_vector);
    assert(x & (!x & 0xFFF0u16) == 0) by (bit_vector);
    assert((bits & 0xFFF0u16) & !0xFFF0u16 == 0) by (bit_vector);
    assert((bits & 0xFFF0u16 == bits) <==> (bits & !0xFFF0u16 == 0)) by (bit_vector);
}

} // verus!
