use linkd::desktop::{
    banners_value, dnd_from_banners, media_member, pick_player, player_info, playerctl_arg, poke,
    volume_command, DndSync,
};

#[test]
fn poke_moves_the_counter_and_wraps() {
    let mut c = 5u64;
    poke(&mut c);
    assert_eq!(c, 6);
    let mut m = u64::MAX;
    poke(&mut m);
    assert_eq!(m, 0);
}

#[test]
fn dnd_is_mirrored_once_per_change() {
    let mut d = DndSync::new();
    assert_eq!(d.apply_from_phone(true), "false");
    assert_eq!(d.on_monitor_line("show-banners: false"), None);
    assert_eq!(d.on_monitor_line("show-banners: true"), Some(false));
    assert_eq!(d.on_monitor_line("show-banners: true"), None);
    assert_eq!(d.on_monitor_line("no colon here"), None);
    let mut fresh = DndSync::new();
    assert!(fresh.observe(false));
    assert!(!fresh.observe(false));
    assert!(dnd_from_banners("false\n"));
    assert!(!dnd_from_banners("true"));
    assert_eq!(banners_value(false), "true");
}

#[test]
fn volume_commands() {
    assert_eq!(volume_command("up", 0).unwrap(), vec!["set-sink-volume", "@DEFAULT_SINK@", "+5%"]);
    assert_eq!(volume_command("down", 0).unwrap(), vec!["set-sink-volume", "@DEFAULT_SINK@", "-5%"]);
    assert_eq!(volume_command("mute", 0).unwrap(), vec!["set-sink-mute", "@DEFAULT_SINK@", "toggle"]);
    assert_eq!(volume_command("set", 200).unwrap()[2], "150%");
    assert_eq!(volume_command("set", -4).unwrap()[2], "0%");
    assert_eq!(volume_command("set", 42).unwrap()[2], "42%");
    assert!(volume_command("louder", 0).is_none());
}

#[test]
fn media_commands() {
    assert_eq!(media_member("play_pause"), Some("PlayPause"));
    assert_eq!(media_member("next"), Some("Next"));
    assert_eq!(media_member("stop"), None);
    assert_eq!(playerctl_arg("play_pause"), "play-pause");
    assert_eq!(playerctl_arg("anything"), "previous");
}

#[test]
fn the_playing_player_is_preferred() {
    assert_eq!(pick_player(&[None, Some(false), Some(true), Some(true)]), Some(2));
    assert_eq!(pick_player(&[None, Some(false), Some(false)]), Some(1));
    assert_eq!(pick_player(&[None, None]), None);
    assert_eq!(
        player_info("playing", Some("Song".into()), None),
        Some(("Song".to_string(), String::new(), true))
    );
    assert_eq!(player_info("Paused", Some("".into()), Some("A".into())), None);
    assert_eq!(
        player_info("Paused", Some("S".into()), Some("A".into())),
        Some(("S".to_string(), "A".to_string(), false))
    );
}
