use linkd::netwatch::{address_change, is_discovery_probe, next_retry_delay};

#[test]
fn retry_delays_double_up_to_a_minute() {
    let mut w = 2u64;
    let mut seen = Vec::new();
    for _ in 0..7 {
        seen.push(w);
        w = next_retry_delay(w);
    }
    assert_eq!(seen, vec![2, 4, 8, 16, 32, 60, 60]);
    assert_eq!(next_retry_delay(30), 60);
    assert_eq!(next_retry_delay(29), 58);
    assert_eq!(next_retry_delay(0), 0);
}

#[test]
fn a_new_address_is_republished() {
    assert_eq!(address_change(None, Some("192.168.1.5")), (Some("192.168.1.5".to_string()), true));
    assert_eq!(
        address_change(Some("192.168.1.5"), Some("192.168.1.5")),
        (Some("192.168.1.5".to_string()), false)
    );
    assert_eq!(
        address_change(Some("192.168.1.5"), Some("10.0.0.2")),
        (Some("10.0.0.2".to_string()), true)
    );
    assert_eq!(address_change(Some("192.168.1.5"), None), (None, false));
    assert_eq!(address_change(None, None), (None, false));
}

#[test]
fn only_the_exact_probe_is_answered() {
    assert!(is_discovery_probe(b"LINUXLINK?v1"));
    assert!(!is_discovery_probe(b"LINUXLINK?v2"));
    assert!(!is_discovery_probe(b"LINUXLINK?v1\n"));
    assert!(!is_discovery_probe(b""));
}
