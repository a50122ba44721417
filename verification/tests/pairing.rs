use linkd::pairing::{is_virtual_interface, local_addresses, new_token, InterfaceAddr};

#[test]
fn keeps_real_interfaces_and_drops_virtual_ones() {
    for real in ["enp7s0", "eth0", "wlan0", "wlp3s0", "eno1", "enx089798f1a6c7"] {
        assert!(!is_virtual_interface(real), "{real} wrongly filtered");
    }
    for fake in ["docker0", "br-a1b2c3", "veth12ab", "virbr0", "tun0", "tap0", "wg0", "tailscale0", "vboxnet0", "ppp0"] {
        assert!(is_virtual_interface(fake), "{fake} wrongly kept");
    }
}

fn iface(name: &str, addr: &str, lo: bool, v4: bool) -> InterfaceAddr {
    InterfaceAddr { name: name.to_string(), addr: addr.to_string(), is_loopback: lo, is_ipv4: v4 }
}

#[test]
fn offered_addresses_are_reachable_deduplicated_and_capped() {
    let ifs = vec![
        iface("lo", "127.0.0.1", true, true),
        iface("docker0", "172.17.0.1", false, true),
        iface("eth0", "192.168.1.10", false, true),
        iface("eth0", "fe80::1", false, false),
        iface("wlan0", "192.168.1.20", false, true),
        iface("wlan0", "192.168.1.20", false, true),
        iface("usb0", "10.0.0.2", false, true),
    ];
    assert_eq!(local_addresses(&ifs, None), vec!["192.168.1.10", "192.168.1.20"]);
    assert_eq!(local_addresses(&ifs, Some("192.168.1.20")), vec!["192.168.1.20", "192.168.1.10"]);
    assert_eq!(local_addresses(&ifs, Some("10.0.0.2")), vec!["10.0.0.2", "192.168.1.20"]);
    assert_eq!(local_addresses(&ifs, Some("172.17.0.1")), vec!["192.168.1.10", "192.168.1.20"]);
    assert!(local_addresses(&[], Some("1.2.3.4")).is_empty());
}

#[test]
fn tokens_are_32_lowercase_hex_digits() {
    let a = new_token();
    let b = new_token();
    assert_eq!(a.len(), 32);
    assert!(a.chars().all(|c| c.is_ascii_digit() || ('a'..='f').contains(&c)));
    assert_ne!(a, b);
}
