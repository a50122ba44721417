use linkd::identity::{Peer, TrustedPeers};
use linkd::protocol::{Message, SyncEntry};
use linkd::server::{constant_time_eq, keep_alive, respond, stream_trusted, subscriber_name, webcam_frame_ok, StreamAction};

#[test]
fn tokens_compare_exactly() {
    assert!(constant_time_eq("abc", "abc"));
    assert!(!constant_time_eq("abc", "abd"));
    assert!(!constant_time_eq("abc", "ab"));
    assert!(constant_time_eq("", ""));
}

#[test]
fn untrusted_phones_get_not_trusted() {
    let a = respond(Message::Ping { seq: 1, sent_at_ms: 2 }, false, None, Some("fp"), "PC");
    assert!(matches!(a, StreamAction::Reply(Message::NotTrusted)));
    let b = respond(Message::Clipboard { text: "x".into() }, false, None, None, "PC");
    assert!(matches!(b, StreamAction::Reply(Message::NotTrusted)));
    let c = respond(Message::Subscribe, false, None, None, "PC");
    assert!(matches!(c, StreamAction::Reply(Message::NotTrusted)));
}

#[test]
fn trusted_requests_carry_their_values() {
    match respond(Message::Ping { seq: 7, sent_at_ms: 99 }, true, None, None, "PC") {
        StreamAction::Reply(Message::Pong { seq, sent_at_ms }) => assert_eq!((seq, sent_at_ms), (7, 99)),
        other => panic!("unexpected {other:?}"),
    }
    match respond(Message::Hello { version: 1, device_name: "Phone".into() }, true, None, None, "My PC") {
        StreamAction::Reply(Message::HelloOk { device_name }) => assert_eq!(device_name, "My PC"),
        other => panic!("unexpected {other:?}"),
    }
    match respond(Message::Battery { level: 55, charging: true }, true, None, None, "PC") {
        StreamAction::Battery { level, charging } => assert_eq!((level, charging), (55, true)),
        other => panic!("unexpected {other:?}"),
    }
    match respond(
        Message::SyncIndex { folder: "Documents".into(), files: vec![SyncEntry { path: "a".into(), size: 1, mtime: 2 }] },
        true,
        None,
        None,
        "PC",
    ) {
        StreamAction::Sync { folder, files } => {
            assert_eq!(folder, "Documents");
            assert_eq!(files.len(), 1);
        }
        other => panic!("unexpected {other:?}"),
    }
    assert!(matches!(respond(Message::Ack, true, None, None, "PC"), StreamAction::Ignore));
    assert!(matches!(respond(Message::Pong { seq: 1, sent_at_ms: 1 }, false, None, None, "PC"), StreamAction::Ignore));
}

#[test]
fn pairing_needs_the_version_the_window_and_the_token() {
    let req = |v: u32, t: &str| Message::PairRequest { version: v, token: t.into(), device_name: "Pixel".into() };
    match respond(req(2, "t"), false, Some("t"), Some("fp"), "PC") {
        StreamAction::Reply(Message::PairRejected { reason }) => assert_eq!(reason, "version 2 not supported"),
        other => panic!("unexpected {other:?}"),
    }
    match respond(req(1, "t"), false, None, Some("fp"), "PC") {
        StreamAction::Reply(Message::PairRejected { reason }) => assert!(reason.starts_with("the PC is not in pairing mode")),
        other => panic!("unexpected {other:?}"),
    }
    match respond(req(1, "wrong"), false, Some("t"), Some("fp"), "PC") {
        StreamAction::Reply(Message::PairRejected { reason }) => assert_eq!(reason, "invalid token"),
        other => panic!("unexpected {other:?}"),
    }
    match respond(req(1, "t"), false, Some("t"), None, "PC") {
        StreamAction::Reply(Message::PairRejected { reason }) => assert_eq!(reason, "invalid token"),
        other => panic!("unexpected {other:?}"),
    }
    match respond(req(1, "t"), false, Some("t"), Some("fp"), "My PC") {
        StreamAction::Paired { device_name, fingerprint, reply: Message::PairOk { device_name: pc } } => {
            assert_eq!((device_name.as_str(), fingerprint.as_str(), pc.as_str()), ("Pixel", "fp", "My PC"));
        }
        other => panic!("unexpected {other:?}"),
    }
}

#[test]
fn trust_comes_from_the_session_or_the_store() {
    let mut peers = TrustedPeers::new();
    peers.add(Peer { name: "Pixel".into(), fingerprint: "fp1".into() });
    assert!(stream_trusted(true, &peers, None));
    assert!(stream_trusted(false, &peers, Some("fp1")));
    assert!(!stream_trusted(false, &peers, Some("fp2")));
    assert!(!stream_trusted(false, &peers, None));
    assert_eq!(subscriber_name(&peers, Some("fp1")), "Pixel");
    assert_eq!(subscriber_name(&peers, Some("fp2")), "Phone");
    assert_eq!(subscriber_name(&peers, None), "Phone");
}

#[test]
fn keep_alive_is_slow_unless_presence_matters() {
    assert_eq!(keep_alive(false), (20, 60));
    assert_eq!(keep_alive(true), (6, 20));
}

#[test]
fn webcam_frames_are_bounded() {
    assert!(!webcam_frame_ok(0));
    assert!(webcam_frame_ok(1));
    assert!(webcam_frame_ok(8 * 1024 * 1024));
    assert!(!webcam_frame_ok(8 * 1024 * 1024 + 1));
}
