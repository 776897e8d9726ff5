use knob_events::keystate::{KeyState, KeyStateMachine, PRESS_THRESHOLD};

#[test]
fn transition_table() {
    assert_eq!(KeyState::Idle.transition(2001), KeyState::Pressed);
    assert_eq!(KeyState::Idle.transition(2000), KeyState::Idle);
    assert_eq!(KeyState::Pressed.transition(2001), KeyState::Pressed);
    assert_eq!(KeyState::Pressed.transition(2000), KeyState::Released);
    assert_eq!(KeyState::Released.transition(2001), KeyState::Released);
    assert_eq!(KeyState::Released.transition(2000), KeyState::Idle);
}

#[test]
fn threshold_is_exclusive() {
    assert_eq!(PRESS_THRESHOLD, 2000);
    assert_eq!(KeyState::Idle.transition(PRESS_THRESHOLD), KeyState::Idle);
    assert_eq!(KeyState::Idle.transition(PRESS_THRESHOLD + 1), KeyState::Pressed);
    assert_eq!(KeyState::Idle.transition(i32::MIN), KeyState::Idle);
    assert_eq!(KeyState::Idle.transition(i32::MAX), KeyState::Pressed);
}

#[test]
fn defaults_are_idle() {
    assert_eq!(KeyState::default(), KeyState::Idle);
    let m = KeyStateMachine::default();
    assert_eq!(m.state, KeyState::Idle);
    assert_eq!(m.prev_state, KeyState::Idle);
    assert!(!m.is_pressed());
    assert!(!m.is_touched());
    assert_eq!(m.current_state(), 0);
}

#[test]
fn press_is_reported_once() {
    let mut m = KeyStateMachine::default();
    m.update(2500);
    assert!(m.is_pressed());
    assert_eq!(m.state, KeyState::Pressed);
    m.update(2500);
    assert!(!m.is_pressed());
    assert_eq!(m.state, KeyState::Pressed);
    for _ in 0..50 {
        m.update(3000);
        assert!(!m.is_pressed());
        assert_eq!(m.state, KeyState::Pressed);
    }
}

#[test]
fn update_remembers_the_state_before() {
    let mut m = KeyStateMachine::default();
    let samples = [0, 2500, 2500, 100, 2500, 100, 100, 2500];
    for &x in &samples {
        let before = m.state;
        m.update(x);
        assert_eq!(m.prev_state, before);
        assert_eq!(m.state, before.transition(x));
    }
}

#[test]
fn full_cycle_and_touch_level() {
    let mut m = KeyStateMachine::default();
    m.update(1000);
    assert_eq!(m.state, KeyState::Idle);
    assert!(!m.is_touched());
    assert_eq!(m.current_state(), 0);
    m.update(2100);
    assert_eq!(m.state, KeyState::Pressed);
    assert!(m.is_touched());
    assert_eq!(m.current_state(), 1);
    m.update(1000);
    assert_eq!(m.state, KeyState::Released);
    assert!(m.is_touched());
    assert!(!m.is_pressed());
    assert_eq!(m.current_state(), 2);
    m.update(1000);
    assert_eq!(m.state, KeyState::Idle);
    assert!(!m.is_touched());
    m.update(2100);
    assert!(m.is_pressed());
}

#[test]
fn released_waits_for_a_low_sample() {
    let mut m = KeyStateMachine::default();
    m.update(2100);
    m.update(1900);
    assert_eq!(m.state, KeyState::Released);
    m.update(2100);
    assert_eq!(m.state, KeyState::Released);
    assert!(!m.is_pressed());
    m.update(1900);
    assert_eq!(m.state, KeyState::Idle);
}
