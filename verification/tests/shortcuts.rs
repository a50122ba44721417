use linkd::shortcuts::{
    command_of, desktop_name, detect, format_gvariant_list, gnome_install, gnome_installed,
    gnome_remove, hyprland_install, hyprland_installed, hyprland_remove, install, kde_entry,
    manual_help, parse_gvariant_list, remove, shortcuts, strip_block, Desktop, GsCommand,
};

#[test]
fn parses_and_formats_gvariant_lists() {
    assert!(parse_gvariant_list("@as []").is_empty());
    assert_eq!(
        parse_gvariant_list("['/a/custom0/', '/a/custom1/']"),
        vec!["/a/custom0/".to_string(), "/a/custom1/".to_string()]
    );
    assert_eq!(format_gvariant_list(&[]), "@as []");
    assert_eq!(
        format_gvariant_list(&["/a/".to_string(), "/b/".to_string()]),
        "['/a/', '/b/']"
    );
}

#[test]
fn gvariant_list_round_trip() {
    let items = vec!["/x/".to_string(), "/y/z/".to_string(), "/w/".to_string()];
    assert_eq!(parse_gvariant_list(&format_gvariant_list(&items)), items);
    assert_eq!(parse_gvariant_list("  [\"/q/\"]  "), vec!["/q/".to_string()]);
}

#[test]
fn strips_only_our_block() {
    let conf = "keep = 1\n# >>> Linux Link shortcuts >>>\nbind = x\n# <<< Linux Link shortcuts <<<\nkeep = 2\n";
    assert_eq!(strip_block(conf), "keep = 1\nkeep = 2\n");
}

#[test]
fn detects_the_desktop() {
    assert!(detect("Hyprland", false) == Desktop::Hyprland);
    assert!(detect("KDE", false) == Desktop::Kde);
    assert!(detect("ubuntu:GNOME", false) == Desktop::Gnome);
    assert!(detect("X-Cinnamon", false) == Desktop::Gnome);
    assert!(detect("XFCE", true) == Desktop::Hyprland);
    assert!(detect("XFCE", false) == Desktop::Unknown);
    assert_eq!(desktop_name(Desktop::Kde), "KDE Plasma");
    assert_eq!(desktop_name(Desktop::Unknown), "this desktop");
}

#[test]
fn commands_point_at_the_binaries() {
    let s = shortcuts();
    assert_eq!(command_of(&s[0], "/usr/bin"), "/usr/bin/linkd send-url");
    assert_eq!(command_of(&s[2], "/opt"), "/opt/linkd media play_pause");
    let help = manual_help("/b");
    assert_eq!(
        help,
        "  Meta+Shift+V  →  /b/linkd send-url\n  Meta+Shift+B  →  /b/linkd send-file --pick\n  Meta+Shift+Space  →  /b/linkd media play_pause\n"
    );
    assert!(install(Desktop::Gnome, "/b").is_ok());
    let e = install(Desktop::Unknown, "/b").unwrap_err();
    assert!(e.starts_with("unrecognised desktop"));
    assert!(e.ends_with(&help));
    assert!(remove(Desktop::Kde));
    assert!(!remove(Desktop::Unknown));
}

#[test]
fn gnome_install_keeps_user_bindings_and_adds_ours_once() {
    let list = vec!["/user/custom0/".to_string()];
    let cmds = gnome_install(&list, "/b");
    assert_eq!(cmds.len(), 10);
    match &cmds[9] {
        GsCommand::Change { schema, key, value } => {
            assert_eq!(schema, "org.gnome.settings-daemon.plugins.media-keys");
            assert_eq!(key, "custom-keybindings");
            assert!(value.starts_with("['/user/custom0/', '/org/gnome/"));
            let items = parse_gvariant_list(value);
            assert_eq!(items.len(), 4);
            let again = gnome_install(&items, "/b");
            match &again[9] {
                GsCommand::Change { value: v2, .. } => assert_eq!(v2, value),
                _ => panic!("expected a change"),
            }
            assert!(gnome_installed(&items));
            assert!(!gnome_installed(&list));
            let rm = gnome_remove(&items);
            assert_eq!(rm.len(), 10);
            match &rm[0] {
                GsCommand::Change { value, .. } => assert_eq!(value, "['/user/custom0/']"),
                _ => panic!("expected a change"),
            }
            assert!(matches!(&rm[1], GsCommand::Reset { .. }));
        }
        _ => panic!("expected a change"),
    }
}

#[test]
fn hyprland_block_is_replaced_not_duplicated() {
    let conf = "monitor = , preferred, auto, 1\n";
    let once = hyprland_install(conf, "/b");
    assert!(hyprland_installed(&once));
    assert!(once.starts_with("monitor = , preferred, auto, 1\n# >>> Linux Link shortcuts >>>\n"));
    assert!(once.contains("bind = SUPER SHIFT, V, exec, /b/linkd send-url\n"));
    let twice = hyprland_install(&once, "/b");
    assert_eq!(once, twice);
    assert_eq!(hyprland_remove(&once), conf);
    assert!(!hyprland_installed(conf));
}

#[test]
fn kde_entries_carry_the_shortcut() {
    let s = shortcuts();
    let e = kde_entry(&s[1], "/b");
    assert!(e.starts_with("[Desktop Entry]\nType=Application\nName=Linux Link: send a file to the phone\n"));
    assert!(e.contains("Exec=/b/linkd send-file --pick\n"));
    assert!(e.ends_with("X-KDE-Shortcuts=Meta+Shift+B\n"));
}

#[test]
fn install_then_remove_gives_the_users_list_back() {
    let user = vec!["/org/gnome/settings-daemon/plugins/media-keys/custom-keybindings/custom0/".to_string()];
    let installed = gnome_install(&user, "/usr/bin");
    let written = match installed.last().unwrap() {
        GsCommand::Change { key, value, .. } if key == "custom-keybindings" => value.clone(),
        _ => panic!("install must end by writing the list"),
    };
    let after_install = parse_gvariant_list(&written);
    assert_eq!(after_install[0], user[0]);
    assert_eq!(after_install.len(), 4);
    let removed = gnome_remove(&after_install);
    match &removed[0] {
        GsCommand::Change { key, value, .. } => {
            assert_eq!(key, "custom-keybindings");
            assert_eq!(parse_gvariant_list(value), user);
        }
        _ => panic!("removal must start by writing the list"),
    }
}

#[test]
fn strip_block_keeps_a_last_line_without_line_feed() {
    let conf = "keep = 1\n# >>> Linux Link shortcuts >>>\nbind = x\n# <<< Linux Link shortcuts <<<\nkeep = 2";
    assert_eq!(strip_block(conf), "keep = 1\nkeep = 2");
    assert_eq!(strip_block("no newline at the end"), "no newline at the end");
}

#[test]
fn strip_block_keeps_crlf_line_endings() {
    let conf = "a = 1\r\n# >>> Linux Link shortcuts >>>\r\nbind = x\r\n# <<< Linux Link shortcuts <<<\r\nb = 2\r\n";
    assert_eq!(strip_block(conf), "a = 1\r\nb = 2\r\n");
}
