use linkd::control::{
    command_line, forget_reply, forget_result, pair_payload, paired_name, parse_control, ControlCommand,
};

fn round_trip(c: ControlCommand) -> String {
    let line = command_line(&c);
    let back = parse_control(&line).expect("parses");
    format!("{back:?}")
}

#[test]
fn commands_parse_back() {
    let cases = vec![
        ControlCommand::Pair,
        ControlCommand::Ping,
        ControlCommand::Open { url: "https://x.org/a b".into(), title: "Title".into() },
        ControlCommand::PhoneVolume { action: "set".into(), value: -3 },
        ControlCommand::Media { action: "next".into() },
        ControlCommand::SendFileTo { fingerprint: "ab12".into(), path: "/tmp/f".into() },
        ControlCommand::SendFile { path: "/tmp/g".into() },
        ControlCommand::Screen { to: None },
        ControlCommand::Screen { to: Some("ab12".into()) },
        ControlCommand::LockMode { on: true },
        ControlCommand::LockMode { on: false },
        ControlCommand::Forget { fingerprint: "cd34".into() },
    ];
    for c in cases {
        let expected = format!("{c:?}");
        assert_eq!(round_trip(c), expected);
    }
}

#[test]
fn lines_are_trimmed_and_defaults_apply() {
    assert!(matches!(parse_control("  PING \r"), Some(ControlCommand::Ping)));
    match parse_control("OPEN https://x") {
        Some(ControlCommand::Open { url, title }) => assert_eq!((url.as_str(), title.as_str()), ("https://x", "")),
        other => panic!("unexpected {other:?}"),
    }
    match parse_control("PHONEVOL up") {
        Some(ControlCommand::PhoneVolume { action, value }) => assert_eq!((action.as_str(), value), ("up", 0)),
        other => panic!("unexpected {other:?}"),
    }
    match parse_control("PHONEVOL set abc") {
        Some(ControlCommand::PhoneVolume { value, .. }) => assert_eq!(value, 0),
        other => panic!("unexpected {other:?}"),
    }
    assert!(parse_control("OPEN ").is_none());
    assert!(parse_control("SENDFILETO nofile").is_none());
    assert!(parse_control("SENDFILETO fp\t").is_none());
    assert!(parse_control("HELLO").is_none());
    assert!(matches!(parse_control("LOCKMODE yes"), Some(ControlCommand::LockMode { on: false })));
}

#[test]
fn forget_replies() {
    assert_eq!(forget_reply("", Some("x")), "ERR no fingerprint\n");
    assert_eq!(forget_reply("ab", Some("Pixel")), "OK Pixel\n");
    assert_eq!(forget_reply("ab", None), "ERR unknown device\n");
}

#[test]
fn the_client_reads_the_pairing_answers() {
    assert_eq!(pair_payload(Some("{\"v\":1}")), Ok("{\"v\":1}".to_string()));
    assert_eq!(pair_payload(Some("ERR no network")), Err("no network".to_string()));
    assert_eq!(pair_payload(None), Err("no response from daemon".to_string()));
    assert_eq!(paired_name("PAIRED Pixel 8 \n"), Some("Pixel 8".to_string()));
    assert_eq!(paired_name("TIMEOUT"), None);
}

#[test]
fn the_client_reads_the_forget_answer() {
    assert_eq!(forget_result("OK Pixel 8\n"), Ok("Pixel 8".to_string()));
    assert_eq!(forget_result("ERR unknown device\n"), Err("unknown device".to_string()));
    assert_eq!(forget_result("ERR no fingerprint"), Err("no fingerprint".to_string()));
}
