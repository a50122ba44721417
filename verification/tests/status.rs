use linkd::battery::BatteryState;
use linkd::identity::Peer;
use linkd::status::build_status;

#[test]
fn status_marks_connected_phones() {
    let peers = vec![
        Peer { name: "Pixel".into(), fingerprint: "aa".into() },
        Peer { name: "Tab".into(), fingerprint: "bb".into() },
    ];
    let connected = vec![("bb".to_string(), "Tab".to_string()), ("bb".to_string(), "Tab".to_string())];
    let s = build_status(&connected, &peers, Some(BatteryState { level: 60, charging: true }), true);
    assert!(s.connected);
    assert_eq!(s.device_count, 1);
    assert_eq!(s.device_name, "Tab");
    assert!(!s.devices[0].connected);
    assert!(s.devices[1].connected);
    assert_eq!((s.battery, s.charging, s.proximity), (60, true, true));
    let idle = build_status(&[], &peers, None, false);
    assert!(!idle.connected);
    assert_eq!(idle.device_name, "Pixel");
    assert_eq!(idle.battery, -1);
    let empty = build_status(&[], &[], None, false);
    assert_eq!(empty.device_name, "");
}
