use linkd::monitor::{
    big_framebuffer, big_framebuffer_undo, desktop_after, forced_output_undo, framebuffer_kept, hyprland_rule,
    krfb_args, krfb_port, new_output, pointer_button_code, right_of, setmonitor_geometry, sway_mode_args,
    sway_unplug, x11_can_host, x11_mode_name,
};

#[test]
fn gnome_on_x11_cannot_host_a_monitor() {
    assert!(!x11_can_host("ubuntu:gnome"));
    assert!(!x11_can_host("zorin:gnome"));
    assert!(x11_can_host("xfce"));
    assert!(x11_can_host(""));
}

#[test]
fn a_mode_forced_on_an_unused_output() {
    let mode = x11_mode_name(1920, 1080);
    assert_eq!(mode, "LinuxLink-1920x1080");
    assert_eq!(right_of(2560), "2560x0");
    assert_eq!(
        forced_output_undo("HDMI-1", &mode, 2560, 1440),
        vec![
            vec!["xrandr", "--output", "HDMI-1", "--off"],
            vec!["xrandr", "--delmode", "HDMI-1", "LinuxLink-1920x1080"],
            vec!["xrandr", "--rmmode", "LinuxLink-1920x1080"],
            vec!["xrandr", "--fb", "2560x1440"],
        ]
    );
    assert_eq!(desktop_after(2560, 1440, 1920, 1080), (4480, 1440));
    assert_eq!(desktop_after(1366, 768, 1920, 1080), (3286, 1080));
}

#[test]
fn an_enlarged_framebuffer() {
    let b = big_framebuffer(1920, 1080, 2560, 1440);
    assert_eq!((b.fb_w, b.fb_h, b.x_off, b.mm_w, b.mm_h), (4480, 1440, 2560, 508, 285));
    assert_eq!(setmonitor_geometry(1920, 1080, &b), "1920/508x1080/285+2560+0");
    assert!(framebuffer_kept(4480, &b));
    assert!(!framebuffer_kept(2560, &b));
    assert_eq!(
        big_framebuffer_undo(2560, 1440),
        vec![vec!["xrandr", "--delmonitor", "LinuxLink"], vec!["xrandr", "--fb", "2560x1440"]]
    );
}

#[test]
fn wlroots_outputs() {
    assert_eq!(hyprland_rule(2000, 1200, 60), "linuxlink,2000x1200@60,auto,1");
    let before = vec!["eDP-1".to_string()];
    let after = vec!["eDP-1".to_string(), "HEADLESS-1".to_string()];
    assert_eq!(new_output(&before, &after), Some("HEADLESS-1".to_string()));
    assert_eq!(new_output(&after, &after), None);
    assert_eq!(
        sway_mode_args("HEADLESS-1", 2000, 1200, 60),
        vec!["output", "HEADLESS-1", "mode", "--custom", "2000x1200@60Hz"]
    );
    assert_eq!(sway_unplug("HEADLESS-1"), vec!["swaymsg", "output", "HEADLESS-1", "unplug"]);
}

#[test]
fn kde_virtual_monitor() {
    assert_eq!(krfb_port(12345), 51000 + 12345 % 8000);
    assert_eq!(krfb_port(0), 51000);
    assert_eq!(krfb_port(7999), 58999);
    assert_eq!(
        krfb_args(1920, 1080, "secret", 54345),
        vec!["--name", "Linux Link", "--resolution", "1920x1080", "--password", "secret", "--port", "54345"]
    );
}

#[test]
fn pointer_buttons_for_mutter() {
    assert_eq!(pointer_button_code(0), 0x110);
    assert_eq!(pointer_button_code(1), 0x111);
    assert_eq!(pointer_button_code(2), 0x112);
    assert_eq!(pointer_button_code(9), 0x112);
}
