use samus::controller_input::{decode_input, ControllerInput, ALL_BITS, DOWN, JUMP, LEFT, RIGHT, SHOOT, UP};

fn ci(bits: u16) -> ControllerInput {
    ControllerInput { bits }
}

#[test]
fn union_then_intersection_gives_operand() {
    let samples = [0u16, RIGHT, LEFT | JUMP, ALL_BITS, SHOOT | UP | DOWN];
    for a in samples {
        for b in samples {
            assert_eq!((ci(a) | ci(b)) & ci(b), ci(b));
        }
    }
}

#[test]
fn a_set_misses_its_complement() {
    for a in [0u16, RIGHT, LEFT | JUMP, ALL_BITS] {
        assert!((ci(a) & !ci(a)).is_empty());
    }
    assert_eq!((!ci(RIGHT)).bits(), ALL_BITS & !RIGHT);
}

#[test]
fn from_bits_rejects_unknown_bits_truncate_drops_them() {
    assert_eq!(ControllerInput::from_bits(0x0001), None);
    assert_eq!(ControllerInput::from_bits(0x0101), None);
    assert_eq!(ControllerInput::from_bits(RIGHT), Some(ci(RIGHT)));
    assert_eq!(ControllerInput::from_bits_truncate(0x0101), ci(RIGHT));
    assert_eq!(ControllerInput::from_bits_truncate(0xFFFF), ControllerInput::all());
    assert_eq!(ControllerInput::all().bits(), 0xFFF0);
}

#[test]
fn insert_remove_toggle_set() {
    let mut c = ControllerInput::empty();
    c.insert(ci(RIGHT));
    assert!(c.contains(ci(RIGHT)));
    c.set(ci(JUMP), true);
    assert_eq!(c.bits(), RIGHT | JUMP);
    c.remove(ci(RIGHT));
    assert_eq!(c, ci(JUMP));
    c.toggle(ci(JUMP | LEFT));
    assert_eq!(c, ci(LEFT));
    c.set(ci(LEFT), false);
    assert!(c.is_empty());
    assert!(ControllerInput::all().is_all());
    assert!(ci(RIGHT | LEFT).intersects(ci(LEFT)));
    assert!(!ci(RIGHT).intersects(ci(LEFT)));
    assert_eq!(ci(RIGHT | LEFT) - ci(LEFT), ci(RIGHT));
    assert_eq!(ci(RIGHT) ^ ci(RIGHT | UP), ci(UP));
}

#[test]
fn browser_keys() {
    assert_eq!(decode_input(32), Some(ci(JUMP)));
    assert_eq!(decode_input(17), Some(ci(SHOOT)));
    assert_eq!(decode_input(37), Some(ci(LEFT)));
    assert_eq!(decode_input(38), Some(ci(UP)));
    assert_eq!(decode_input(39), Some(ci(RIGHT)));
    assert_eq!(decode_input(40), Some(ci(DOWN)));
    assert_eq!(decode_input(65), None);
}

#[test]
fn names_list_held_buttons() {
    assert_eq!(ci(RIGHT | JUMP).names(), "Jump | Right");
    assert_eq!(ControllerInput::empty().names(), "(empty)");
    assert_eq!(ci(UP).names(), "Up");
    assert_eq!(
        ControllerInput::all().names(),
        "DiagonalUp | DiagonalDown | Shoot | Jump | Right | Left | Down | Up | Start | Select | Cancel | Run"
    );
}
