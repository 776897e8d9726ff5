use knob_events::keycode::{conv_keycode, key_symbol, standard_zones};
use knob_events::zones::{table_is_valid, Gate, Symbol, ZoneClassifier};

#[test]
fn pressed_positions_give_their_button() {
    assert_eq!(conv_keycode(3100, 0, true), Some("Return".to_string()));
    assert_eq!(conv_keycode(2900, 0, true), Some("Left".to_string()));
    assert_eq!(conv_keycode(2520, 0, true), Some("Right".to_string()));
    assert_eq!(conv_keycode(2400, 0, true), Some("Ok".to_string()));
}

#[test]
fn button_ranges_are_inclusive() {
    let cases = [
        (3069, None),
        (3070, Some("Return")),
        (3120, Some("Return")),
        (3121, None),
        (2839, None),
        (2840, Some("Left")),
        (2910, Some("Left")),
        (2911, None),
        (2499, None),
        (2500, Some("Right")),
        (2550, Some("Right")),
        (2551, None),
        (2339, None),
        (2340, Some("Ok")),
        (2440, Some("Ok")),
        (2441, None),
    ];
    for &(pos, expected) in &cases {
        assert_eq!(conv_keycode(pos, 0, true), expected.map(|s| s.to_string()));
    }
}

#[test]
fn without_press_there_is_no_button() {
    assert_eq!(conv_keycode(3100, 0, false), None);
    assert_eq!(conv_keycode(2520, 0, false), None);
    assert_eq!(conv_keycode(0, 0, false), None);
    assert_eq!(conv_keycode(0, 0, true), None);
    assert_eq!(conv_keycode(-1, 0, true), None);
    assert_eq!(conv_keycode(i32::MAX, 0, true), None);
}

#[test]
fn slider_motion_comes_first() {
    assert_eq!(conv_keycode(3100, 1, true), Some("Left".to_string()));
    assert_eq!(conv_keycode(3100, -1, true), Some("Right".to_string()));
    assert_eq!(conv_keycode(0, 1, false), Some("Left".to_string()));
    assert_eq!(conv_keycode(0, -1, false), Some("Right".to_string()));
    assert_eq!(conv_keycode(0, 7, false), Some("Left".to_string()));
    assert_eq!(conv_keycode(0, i32::MIN, false), Some("Right".to_string()));
}

#[test]
fn key_symbol_agrees_with_the_names() {
    for &(pos, dir, pressed) in &[
        (3100, 0, true),
        (2900, 0, true),
        (2520, 0, true),
        (2400, 0, true),
        (2400, 0, false),
        (1, 1, false),
        (1, -1, true),
        (5000, 0, true),
    ] {
        assert_eq!(
            key_symbol(pos, dir, pressed).map(|s| s.name()),
            conv_keycode(pos, dir, pressed)
        );
    }
    assert_eq!(key_symbol(2400, 0, true), Some(Symbol::Okay));
}

#[test]
fn symbols_have_their_names() {
    assert_eq!(Symbol::Return.name(), "Return");
    assert_eq!(Symbol::Left.name(), "Left");
    assert_eq!(Symbol::Right.name(), "Right");
    assert_eq!(Symbol::Okay.name(), "Ok");
}

#[test]
fn standard_table_has_four_pressed_buttons() {
    let zones = standard_zones();
    assert_eq!(zones.len(), 4);
    assert!(table_is_valid(&zones));
    let expected = [
        (3070, 3120, Symbol::Return),
        (2840, 2910, Symbol::Left),
        (2500, 2550, Symbol::Right),
        (2340, 2440, Symbol::Okay),
    ];
    for (z, &(lo, hi, symbol)) in zones.iter().zip(expected.iter()) {
        assert_eq!((z.lo, z.hi, z.symbol), (lo, hi, symbol));
        assert_eq!(z.gate, Gate::Pressed);
        assert_eq!(z.required_hits, None);
        assert!(!z.comparative);
    }
}

#[test]
fn classifier_over_standard_table_agrees_with_key_symbol() {
    let mut c = ZoneClassifier::new(standard_zones()).unwrap();
    for pos in 2300..3200 {
        for &pressed in &[true, false] {
            assert_eq!(c.classify(pos, pressed, true), key_symbol(pos, 0, pressed));
        }
    }
}
