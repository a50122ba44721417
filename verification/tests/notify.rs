use linkd::notify::{
    handoff_summary, notification_buttons, notification_summary, reply_prompt_args, reply_text,
    NotificationAction, NotificationBook,
};

#[test]
fn notification_summaries() {
    assert_eq!(notification_summary("Signal", "Alice"), "Signal — Alice");
    assert_eq!(notification_summary("Signal", ""), "Signal");
    assert_eq!(handoff_summary(""), "Page from the phone");
    assert_eq!(handoff_summary("Rust"), "Open: Rust");
}

#[test]
fn a_phone_notification_replaces_its_earlier_one() {
    let mut b = NotificationBook::new();
    assert_eq!(b.replaces_id("k1"), 0);
    b.shown("k1", 17, "Signal — Alice", true);
    assert_eq!(b.replaces_id("k1"), 17);
    assert_eq!(b.replaces_id("k2"), 0);
    b.shown("k1", 18, "Signal — Alice", true);
    assert_eq!(b.replaces_id("k1"), 18);
    assert!(b.knows("k1"));
    assert!(!b.knows("k2"));
}

#[test]
fn reply_and_open_clicks() {
    let mut b = NotificationBook::new();
    b.shown("k1", 17, "Signal — Alice", true);
    b.shown("k2", 20, "Mail", false);
    b.handoff_shown(30, "https://example.org");
    assert_eq!(
        b.on_action(17, "reply"),
        NotificationAction::Reply { key: "k1".to_string(), label: "Signal — Alice".to_string() }
    );
    assert_eq!(b.on_action(20, "reply"), NotificationAction::Nothing);
    assert_eq!(b.on_action(30, "open"), NotificationAction::Open { url: "https://example.org".to_string() });
    assert_eq!(b.on_action(30, "default"), NotificationAction::Open { url: "https://example.org".to_string() });
    assert_eq!(b.on_action(17, "open"), NotificationAction::Nothing);
    assert_eq!(b.on_action(17, "dismiss"), NotificationAction::Nothing);
}

#[test]
fn a_withdrawn_notification_is_closed_once() {
    let mut b = NotificationBook::new();
    b.shown("k1", 17, "Signal — Alice", true);
    assert_eq!(b.dismiss("k1"), Some(17));
    assert_eq!(b.dismiss("k1"), None);
    assert_eq!(b.replaces_id("k1"), 0);
    assert_eq!(b.on_action(17, "reply"), NotificationAction::Nothing);
}

#[test]
fn quick_reply_prompt() {
    assert_eq!(
        reply_prompt_args("Signal — Alice"),
        vec!["--entry", "--title=Linux Link — Quick reply", "--text=Reply to: Signal — Alice", "--width=420"]
    );
    assert_eq!(reply_text("  on my way \n"), Some("on my way".to_string()));
    assert_eq!(reply_text(" \n"), None);
    assert_eq!(notification_buttons(true), vec!["reply", "Reply"]);
    assert!(notification_buttons(false).is_empty());
}
