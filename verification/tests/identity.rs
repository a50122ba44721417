use linkd::identity::{fingerprint_of, Identity, Peer, TrustedPeers};

fn peer(name: &str, fp: &str) -> Peer {
    Peer { name: name.to_string(), fingerprint: fp.to_string() }
}

#[test]
fn fingerprint_is_lowercase_hex_sha256() {
    assert_eq!(
        fingerprint_of(b""),
        "e3b0c44298fc1c149afbf4c8996fb92427ae41e4649b934ca495991b7852b855"
    );
    assert_eq!(
        fingerprint_of(b"abc"),
        "ba7816bf8f01cfea414140de5dae2223b00361a396177a9cb410ff61f20015ad"
    );
    let id = Identity { device_name: "pc".to_string(), cert_der: b"abc".to_vec(), key_der: vec![] };
    assert_eq!(id.fingerprint(), fingerprint_of(b"abc"));
}

#[test]
fn adding_a_phone_trusts_it_once() {
    let mut t = TrustedPeers::new();
    assert!(!t.is_trusted("aa11"));
    assert!(t.add(peer("Pixel", "aa11")));
    assert!(t.is_trusted("aa11"));
    assert!(!t.add(peer("Pixel again", "aa11")));
    assert_eq!(t.peers.len(), 1);
    assert_eq!(t.peers[0].name, "Pixel");
    assert!(!t.is_trusted("aa1"));
}

#[test]
fn forgetting_by_prefix_removes_the_first_match() {
    let mut t = TrustedPeers::new();
    t.add(peer("A", "abcd"));
    t.add(peer("B", "abff"));
    t.add(peer("C", "cc00"));
    let gone = t.forget("ab").unwrap();
    assert_eq!(gone.name, "A");
    assert_eq!(t.peers.len(), 2);
    assert_eq!(t.peers[0].name, "B");
    assert!(t.forget("zz").is_none());
    assert_eq!(t.forget("cc00").unwrap().name, "C");
    assert!(!t.is_trusted("cc00"));
}
