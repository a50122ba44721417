use linkd::clipboard::{choose_backend, copy_command, image_hash, paste_command, Backend, ClipboardState, SubscriberTable, MAX_LEN};

#[test]
fn a_text_from_the_phone_is_not_sent_back() {
    let mut c = ClipboardState::new();
    assert!(c.on_peer_text("hello"));
    assert_eq!(c.last_text(), "hello");
    assert!(!c.on_local_text("hello"));
    assert!(c.on_local_text("world"));
    assert!(!c.on_local_text("world"));
    assert!(!c.on_local_text(""));
    let big = "x".repeat(MAX_LEN + 1);
    assert!(!c.on_peer_text(&big));
    assert!(!c.on_local_text(&big));
    assert_eq!(c.last_text(), "world");
}

#[test]
fn images_are_offered_once() {
    let mut c = ClipboardState::new();
    assert!(c.on_local_image("h1"));
    assert!(!c.on_local_image("h1"));
    c.set_image_hash("h2");
    assert!(!c.on_local_image("h2"));
    assert!(c.on_local_image("h3"));
}

#[test]
fn subscribers_are_listed_and_targeted() {
    let mut t = SubscriberTable::new();
    let a = t.subscribe("fp1", "Pixel");
    let b = t.subscribe("fp2", "Tab");
    let c = t.subscribe("fp1", "Pixel");
    assert_eq!((a, b, c), (1, 2, 3));
    assert_eq!(t.count(), 3);
    assert_eq!(t.connected(), vec![("fp1".to_string(), "Pixel".to_string()), ("fp2".to_string(), "Tab".to_string())]);
    assert_eq!(t.targets(None), vec![1, 2, 3]);
    assert_eq!(t.targets(Some("fp1")), vec![1, 3]);
    t.unsubscribe(1);
    assert_eq!(t.count(), 2);
    assert_eq!(t.targets(Some("fp1")), vec![3]);
    t.unsubscribe(42);
    assert_eq!(t.count(), 2);
}

#[test]
fn the_backend_follows_the_session() {
    assert_eq!(choose_backend(true, true, true, true), Backend::Wayland);
    assert_eq!(choose_backend(true, false, true, true), Backend::X11);
    assert_eq!(choose_backend(false, true, true, true), Backend::X11);
    assert_eq!(choose_backend(false, true, true, false), Backend::Unavailable);
    assert_eq!(choose_backend(false, false, false, true), Backend::Unavailable);
}

#[test]
fn clipboard_commands() {
    assert_eq!(paste_command(Backend::Wayland, false), Some(vec!["wl-paste", "-n"]));
    assert_eq!(paste_command(Backend::Wayland, true), Some(vec!["wl-paste", "-t", "image/png"]));
    assert_eq!(paste_command(Backend::X11, false), Some(vec!["xclip", "-selection", "clipboard", "-o"]));
    assert_eq!(
        paste_command(Backend::X11, true),
        Some(vec!["xclip", "-selection", "clipboard", "-t", "image/png", "-o"])
    );
    assert_eq!(paste_command(Backend::Unavailable, false), None);
    assert_eq!(copy_command(Backend::Wayland, false), Some(vec!["wl-copy"]));
    assert_eq!(copy_command(Backend::Wayland, true), Some(vec!["wl-copy", "-t", "image/png"]));
    assert_eq!(copy_command(Backend::X11, false), Some(vec!["xclip", "-selection", "clipboard", "-i"]));
    assert_eq!(copy_command(Backend::Unavailable, true), None);
}

#[test]
fn an_image_sent_by_a_phone_is_not_offered_back() {
    let png = [137u8, 80, 78, 71, 13, 10, 26, 10];
    let h = image_hash(&png);
    assert_eq!(h.len(), 64);
    assert_eq!(image_hash(b""), "e3b0c44298fc1c149afbf4c8996fb92427ae41e4649b934ca495991b7852b855");
    let mut c = ClipboardState::new();
    c.set_image_hash(&h);
    assert!(!c.on_local_image(&h));
    assert!(c.on_local_image(&image_hash(b"other")));
}
