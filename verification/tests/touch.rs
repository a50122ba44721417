use linkd::touch::{TouchPad, TouchStep, LONG_PRESS_MS, TWO_FINGER_TAP_MS};

use TouchStep::{BeginScroll, EndScroll, Follow, Press, Release, RightClick, Scroll};

#[test]
fn one_finger_presses_follows_and_releases() {
    let mut t: TouchPad<(f64, f64)> = TouchPad::new();
    assert_eq!(t.down(1, (0.5, 0.5), 0), vec![Press]);
    assert_eq!(t.moved(1, (0.6, 0.5), true), vec![Follow]);
    assert_eq!(t.slots(), &[(1, (0.6, 0.5))]);
    assert_eq!(t.up(1, 20), vec![Release, EndScroll]);
    assert!(t.slots().is_empty());
}

#[test]
fn a_second_finger_releases_the_drag_and_scrolls() {
    let mut t: TouchPad<(f64, f64)> = TouchPad::new();
    t.down(1, (0.5, 0.5), 0);
    assert_eq!(t.down(2, (0.5, 0.6), 5), vec![Release, BeginScroll]);
    assert_eq!(t.moved(1, (0.5, 0.55), false), vec![Scroll]);
    assert_eq!(t.moved(2, (0.5, 0.65), false), vec![Scroll]);
    assert_eq!(t.slots(), &[(1, (0.5, 0.55)), (2, (0.5, 0.65))]);
}

#[test]
fn cancelling_the_only_finger_releases_the_button() {
    let mut t: TouchPad<(f64, f64)> = TouchPad::new();
    t.down(1, (0.1, 0.1), 0);
    assert_eq!(t.up(1, 5), vec![Release, EndScroll]);
    assert!(t.slots().is_empty());
    assert_eq!(t.press_origin(), None);
}

#[test]
fn a_resting_finger_becomes_a_right_click_once() {
    let mut t: TouchPad<(f64, f64)> = TouchPad::new();
    t.down(1, (0.4, 0.4), 0);
    assert!(t.tick(LONG_PRESS_MS - 1).is_empty());
    assert_eq!(t.tick(LONG_PRESS_MS), vec![Release, RightClick]);
    assert!(t.tick(LONG_PRESS_MS + 500).is_empty());
    assert_eq!(t.up(1, LONG_PRESS_MS + 600), vec![EndScroll]);
}

#[test]
fn a_travelling_finger_never_long_presses() {
    let mut t: TouchPad<(f64, f64)> = TouchPad::new();
    t.down(1, (0.4, 0.4), 0);
    assert_eq!(t.moved(1, (0.45, 0.4), true), vec![Follow]);
    assert_eq!(t.press_origin(), None);
    assert!(t.tick(LONG_PRESS_MS + 100).is_empty());
}

#[test]
fn a_small_drift_keeps_the_long_press() {
    let mut t: TouchPad<(f64, f64)> = TouchPad::new();
    t.down(1, (0.4, 0.4), 0);
    assert_eq!(t.press_origin(), Some((0.4, 0.4)));
    assert_eq!(t.moved(1, (0.401, 0.4), false), vec![Follow]);
    assert_eq!(t.press_origin(), Some((0.4, 0.4)));
    assert_eq!(t.tick(LONG_PRESS_MS), vec![Release, RightClick]);
}

#[test]
fn a_quick_two_finger_tap_is_a_right_click() {
    let mut t: TouchPad<(f64, f64)> = TouchPad::new();
    t.down(1, (0.5, 0.5), 0);
    t.down(2, (0.55, 0.5), 10);
    assert_eq!(t.up(1, 60), vec![EndScroll]);
    assert_eq!(t.up(2, 10 + TWO_FINGER_TAP_MS), vec![RightClick, EndScroll]);
}

#[test]
fn fingers_that_scrolled_make_no_tap() {
    let mut t: TouchPad<(f64, f64)> = TouchPad::new();
    t.down(1, (0.5, 0.5), 0);
    t.down(2, (0.55, 0.5), 10);
    t.moved(1, (0.5, 0.6), false);
    t.note_scrolled();
    t.up(1, 60);
    assert_eq!(t.up(2, 70), vec![EndScroll]);
}

#[test]
fn a_slow_two_finger_lift_is_no_tap() {
    let mut t: TouchPad<(f64, f64)> = TouchPad::new();
    t.down(1, (0.5, 0.5), 0);
    t.down(2, (0.55, 0.5), 10);
    t.up(1, 1_000);
    assert_eq!(t.up(2, 11 + TWO_FINGER_TAP_MS), vec![EndScroll]);
}

#[test]
fn a_third_finger_cancels_the_tap() {
    let mut t: TouchPad<(f64, f64)> = TouchPad::new();
    t.down(1, (0.1, 0.1), 0);
    t.down(2, (0.2, 0.2), 1);
    assert!(t.down(3, (0.3, 0.3), 2).is_empty());
    assert!(t.moved(3, (0.3, 0.4), false).is_empty());
    assert!(t.up(3, 3).is_empty());
    assert_eq!(t.up(2, 4), vec![EndScroll]);
    assert_eq!(t.up(1, 5), vec![EndScroll]);
}

#[test]
fn an_unknown_finger_keeps_the_slots() {
    let mut t: TouchPad<(f64, f64)> = TouchPad::new();
    t.down(1, (0.1, 0.1), 0);
    assert_eq!(t.moved(9, (0.9, 0.9), true), vec![Follow]);
    assert_eq!(t.slots(), &[(1, (0.1, 0.1))]);
    assert_eq!(t.press_origin(), None);
    assert_eq!(t.up(9, 5), vec![EndScroll]);
    assert_eq!(t.slots().len(), 1);
}
