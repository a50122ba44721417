use linkd::presence::{
    presence_step, proximity_config, proximity_from_config, Presence, ProximityLock, SessionAction,
    GRACE_MS,
};

#[test]
fn the_setting_round_trips() {
    assert!(proximity_from_config(proximity_config(true)));
    assert!(!proximity_from_config(proximity_config(false)));
    assert!(proximity_from_config(" on\n"));
    assert!(!proximity_from_config("yes"));
    let mut p = ProximityLock::new(false);
    assert!(!p.is_enabled());
    p.set_enabled(true);
    assert!(p.is_enabled());
}

#[test]
fn the_pc_locks_after_the_grace_period_and_unlocks_on_return() {
    let st = Presence { we_locked: false, absent_since: None };
    let (st, a, wait) = presence_step(st, true, 0, 1000);
    assert_eq!(a, SessionAction::Nothing);
    assert_eq!(wait, Some(GRACE_MS));
    let (st, a, wait) = presence_step(st, true, 0, 3000);
    assert_eq!(a, SessionAction::Nothing);
    assert_eq!(wait, Some(2000));
    let (st, a, wait) = presence_step(st, true, 0, 5000);
    assert_eq!(a, SessionAction::Lock);
    assert_eq!(wait, None);
    let (st, a, _) = presence_step(st, true, 0, 9000);
    assert_eq!(a, SessionAction::Nothing);
    let (st, a, wait) = presence_step(st, true, 1, 9500);
    assert_eq!(a, SessionAction::Unlock);
    assert_eq!(wait, None);
    assert_eq!(st, Presence { we_locked: false, absent_since: None });
}

#[test]
fn a_short_absence_or_a_disabled_lock_does_nothing() {
    let st = Presence { we_locked: false, absent_since: None };
    let (st, _, _) = presence_step(st, true, 0, 100);
    let (st, a, _) = presence_step(st, true, 1, 2000);
    assert_eq!(a, SessionAction::Nothing);
    let (_, a, wait) = presence_step(st, false, 0, 1_000_000);
    assert_eq!(a, SessionAction::Nothing);
    assert_eq!(wait, None);
}
