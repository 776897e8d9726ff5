use knob_events::slider::{
    get_slider_dir, SliderReading, SliderTracker, SENSITIVITY, SLIDER_MAX, SLIDER_MIN,
};

#[test]
fn rising_positions_give_plus_one() {
    let mut t = SliderTracker::new(200, 300, 6).unwrap();
    t.track(240, true);
    assert_eq!(t.track(246, true).direction, 1);
    assert_eq!(t.track(252, true).direction, 1);
}

#[test]
fn falling_positions_give_minus_one() {
    let mut t = SliderTracker::new(200, 300, 6).unwrap();
    t.track(252, true);
    assert_eq!(t.track(246, true).direction, -1);
    assert_eq!(t.track(240, true).direction, -1);
}

#[test]
fn untouched_gives_zero_whatever_moves() {
    let mut t = SliderTracker::new(200, 300, 6).unwrap();
    t.track(240, true);
    assert_eq!(t.track(246, false), SliderReading { direction: 0, position: None });
    assert_eq!(t.track(252, false), SliderReading { direction: 0, position: None });
    assert_eq!(t.track(240, false).direction, 0);
    // the position is remembered all the same
    assert_eq!(t.track(240, true).direction, 0);
    assert_eq!(t.track(246, true).direction, 1);
}

#[test]
fn jitter_within_one_step_is_no_motion() {
    let mut t = SliderTracker::standard();
    t.track(258, true);
    assert_eq!(t.track(259, true).direction, 0);
    assert_eq!(t.track(263, true).direction, 0);
    assert_eq!(t.track(258, true).direction, 0);
    assert_eq!(t.track(264, true).direction, 1);
    assert_eq!(t.track(263, true).direction, -1);
}

#[test]
fn outside_the_range_nothing_is_reported() {
    let mut t = SliderTracker::standard();
    assert_eq!(t.track(253, true), SliderReading { direction: 0, position: None });
    assert_eq!(t.track(289, true), SliderReading { direction: 0, position: None });
    // 289 / 6 = 48 is remembered; 288 / 6 = 48 too
    assert_eq!(t.track(288, true), SliderReading { direction: 0, position: Some(0) });
    assert_eq!(t.track(254, true), SliderReading { direction: -1, position: Some(5) });
}

#[test]
fn position_counts_down_from_the_upper_end() {
    let mut t = SliderTracker::standard();
    assert_eq!(t.track(288, true).position, Some(0));
    assert_eq!(t.track(283, true).position, Some(0));
    assert_eq!(t.track(282, true).position, Some(1));
    assert_eq!(t.track(260, true).position, Some(4));
    assert_eq!(t.track(254, true).position, Some(5));
    let mut u = SliderTracker::new(0, 100, 10).unwrap();
    assert_eq!(u.track(0, true).position, Some(10));
    assert_eq!(u.track(55, true).position, Some(4));
    assert_eq!(u.track(100, true).position, Some(0));
}

#[test]
fn first_sample_is_compared_with_zero() {
    let mut t = SliderTracker::standard();
    assert_eq!(t.track(260, true).direction, 1);
    let mut u = SliderTracker::new(-100, 100, 6).unwrap();
    assert_eq!(u.track(-50, true).direction, -1);
    let mut w = SliderTracker::new(-100, 100, 6).unwrap();
    assert_eq!(w.track(5, true).direction, 0);
    assert_eq!(w.track(-5, true).direction, 0);
}

#[test]
fn tracker_reset_forgets_the_position() {
    let mut t = SliderTracker::standard();
    t.track(260, true);
    assert_eq!(t.track(260, true).direction, 0);
    t.reset();
    assert_eq!(t.track(260, true).direction, 1);
}

#[test]
fn tracker_rejects_bad_configurations() {
    assert!(SliderTracker::new(254, 288, 0).is_none());
    assert!(SliderTracker::new(254, 288, -6).is_none());
    assert!(SliderTracker::new(288, 254, 6).is_none());
    assert!(SliderTracker::new(-1, i32::MAX, 6).is_none());
    assert!(SliderTracker::new(i32::MIN, i32::MAX, 6).is_none());
    assert!(SliderTracker::new(0, i32::MAX, 6).is_some());
    assert!(SliderTracker::new(254, 254, 1).is_some());
}

#[test]
fn widest_range_does_not_overflow() {
    let mut t = SliderTracker::new(0, i32::MAX, 1).unwrap();
    assert_eq!(
        t.track(0, true),
        SliderReading { direction: 0, position: Some(i32::MAX) }
    );
    assert_eq!(
        t.track(i32::MAX, true),
        SliderReading { direction: 1, position: Some(0) }
    );
    assert_eq!(t.track(i32::MIN, true), SliderReading { direction: 0, position: None });
}

#[test]
fn slider_dir_with_standard_range() {
    assert_eq!((SLIDER_MIN, SLIDER_MAX, SENSITIVITY), (254, 288, 6));
    assert_eq!(get_slider_dir(254, 260, true), 1);
    assert_eq!(get_slider_dir(260, 254, true), -1);
    assert_eq!(get_slider_dir(258, 263, true), 0);
    assert_eq!(get_slider_dir(263, 264, true), 1);
    assert_eq!(get_slider_dir(254, 260, false), 0);
    assert_eq!(get_slider_dir(0, 288, true), 1);
    assert_eq!(get_slider_dir(1000, 254, true), -1);
    assert_eq!(get_slider_dir(-1000, 254, true), 1);
}

#[test]
fn slider_dir_outside_the_range_is_zero() {
    assert_eq!(get_slider_dir(0, 253, true), 0);
    assert_eq!(get_slider_dir(0, 289, true), 0);
    assert_eq!(get_slider_dir(240, 246, true), 0);
    assert_eq!(get_slider_dir(0, 2520, true), 0);
    assert_eq!(get_slider_dir(i32::MIN, i32::MAX, true), 0);
    assert_eq!(get_slider_dir(i32::MAX, i32::MIN, true), 0);
}
