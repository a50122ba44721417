use linkd::battery::{BatteryState, BatteryStore};

#[test]
fn a_report_is_read_back() {
    let mut s = BatteryStore::new(None);
    assert!(s.snapshot().is_none());
    s.update("fp1", 80, false);
    s.update("fp2", 20, true);
    s.update("fp1", 79, true);
    assert_eq!(s.snapshot(), Some(BatteryState { level: 79, charging: true }));
    assert_eq!(s.of("fp1"), Some(BatteryState { level: 79, charging: true }));
    assert_eq!(s.of("fp2"), Some(BatteryState { level: 20, charging: true }));
    assert_eq!(s.of("fp3"), None);
    s.update("", 5, false);
    assert_eq!(s.snapshot(), Some(BatteryState { level: 5, charging: false }));
    assert_eq!(s.of(""), None);
}

#[test]
fn the_saved_report_is_the_starting_point() {
    let s = BatteryStore::new(Some(BatteryState { level: 42, charging: false }));
    assert_eq!(s.snapshot(), Some(BatteryState { level: 42, charging: false }));
}
