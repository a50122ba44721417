use linkd::doctor::{bluetooth_state, firewall_blocks, ping_verdict, probed_commands, report, Facts, ReportLine};

fn lines(r: &[ReportLine]) -> Vec<(bool, bool, String)> {
    r.iter().map(|l| (l.check, l.ok, l.text.clone())).collect()
}

fn all_installed() -> Vec<String> {
    probed_commands().into_iter().map(|s| s.to_string()).collect()
}

#[test]
fn a_healthy_gnome_wayland_machine() {
    let f = Facts {
        desktop: "GNOME".to_string(),
        wayland: true,
        daemon: Ok(()),
        installed: all_installed(),
        bluetooth: Some((true, true)),
        uinput_writable: false,
        ufw_status: None,
    };
    let r = lines(&report(&f));
    assert_eq!(
        r,
        vec![
            (true, true, "Desktop: GNOME (Wayland)".to_string()),
            (true, true, "Service: linkd is running and answering".to_string()),
            (true, true, "Binaries: all five installed".to_string()),
            (true, true, "Bluetooth: controller powered".to_string()),
            (true, true, "BLE wake beacon: advertising (the phone can wake on this PC)".to_string()),
            (true, true, "Second screen dependency: gstreamer tools".to_string()),
            (true, true, "Phone audio player: pw-cat".to_string()),
            (true, true, "Input injection: native (Mutter remote desktop, no udev rule needed)".to_string()),
        ]
    );
}

#[test]
fn a_broken_kde_x11_machine() {
    let f = Facts {
        desktop: "KDE".to_string(),
        wayland: false,
        daemon: Err("linkd is not running (control socket absent)".to_string()),
        installed: vec!["linux-link-gui".to_string(), "aplay".to_string(), "ffmpeg".to_string()],
        bluetooth: None,
        uinput_writable: false,
        ufw_status: Some("Status: active\nTo Action From\n22 ALLOW Anywhere\n".to_string()),
    };
    let r = lines(&report(&f));
    assert_eq!(
        r,
        vec![
            (true, true, "Desktop: KDE (X11)".to_string()),
            (true, false, "Service: linkd is not running (control socket absent)".to_string()),
            (false, true, "systemctl --user restart linkd  (or the Restart button in Settings)".to_string()),
            (
                true,
                false,
                "Binaries missing from PATH: linux-link-pair, linux-link-settings, linux-link-message".to_string()
            ),
            (false, true, "re-run ./install.sh".to_string()),
            (true, false, "Bluetooth: no controller found — wake-on-approach unavailable".to_string()),
            (false, true, "mDNS/UDP discovery still works; a BLE dongle restores auto-wake".to_string()),
            (true, false, "Second screen dependency missing: gstreamer tools (gst-launch-1.0)".to_string()),
            (false, true, "re-run ./install.sh to install the packages for this desktop".to_string()),
            (
                true,
                false,
                "Second screen dependency missing: krfb (KDE virtual monitor) (krfb-virtualmonitor)".to_string()
            ),
            (false, true, "re-run ./install.sh to install the packages for this desktop".to_string()),
            (true, true, "Second screen dependency: ffmpeg (X11 capture)".to_string()),
            (true, true, "Phone audio player: aplay".to_string()),
            (true, false, "Input injection: /dev/uinput not writable".to_string()),
            (false, true, "re-run ./install.sh (udev rule), then log out and back in".to_string()),
            (true, false, "Firewall: ufw is active and 47100/47101 are not listed".to_string()),
            (
                false,
                true,
                "sudo ufw allow 47100/udp && sudo ufw allow 47100/tcp && sudo ufw allow 47101/udp".to_string()
            ),
        ]
    );
}

#[test]
fn gnome_on_x11_is_warned_about() {
    let f = Facts {
        desktop: "ubuntu:GNOME".to_string(),
        wayland: false,
        daemon: Ok(()),
        installed: all_installed(),
        bluetooth: Some((false, false)),
        uinput_writable: true,
        ufw_status: Some("Status: inactive".to_string()),
    };
    let r = lines(&report(&f));
    assert_eq!(r[3], (true, false, "Bluetooth: controller present but off".to_string()));
    assert_eq!(r[4], (false, true, "bluetoothctl power on".to_string()));
    assert_eq!(r[5], (true, false, "Second screen: GNOME on X11 cannot host a virtual monitor".to_string()));
    assert_eq!(r[6], (false, true, "log into the \"GNOME\" (Wayland) session instead".to_string()));
    assert_eq!(r[7], (true, true, "Second screen dependency: gstreamer tools".to_string()));
    assert_eq!(r[8], (true, true, "Second screen dependency: ffmpeg (X11 capture)".to_string()));
    assert_eq!(r[10], (true, true, "Input injection: /dev/uinput writable".to_string()));
    assert_eq!(r[11], (true, true, "Firewall: ufw not blocking Linux Link".to_string()));
    assert_eq!(r.len(), 12);
}

#[test]
fn sway_needs_wf_recorder_and_no_player_is_reported() {
    let f = Facts {
        desktop: "sway".to_string(),
        wayland: true,
        daemon: Ok(()),
        installed: vec![],
        bluetooth: Some((true, false)),
        uinput_writable: true,
        ufw_status: None,
    };
    let r = lines(&report(&f));
    assert!(r.contains(&(
        true,
        false,
        "BLE wake beacon: not advertising yet — linkd retries with backoff; give it a minute".to_string()
    )));
    assert!(r.contains(&(true, false, "Second screen dependency missing: wf-recorder (wf-recorder)".to_string())));
    assert!(r.contains(&(true, false, "Phone audio: no player found (pw-cat, paplay or aplay)".to_string())));
}

#[test]
fn the_daemon_must_answer_pong() {
    assert_eq!(ping_verdict("PONG\n"), Ok(()));
    assert_eq!(ping_verdict("  PONG  "), Ok(()));
    assert_eq!(ping_verdict("ERR nope\n"), Err("unexpected reply: ERR nope".to_string()));
    assert_eq!(ping_verdict(""), Err("unexpected reply: ".to_string()));
}

#[test]
fn bluetoothctl_output_is_read() {
    assert_eq!(bluetooth_state("No default controller available\n"), None);
    assert_eq!(
        bluetooth_state("Controller AA:BB Host\n\tPowered: yes\n\tActiveInstances: 0x01 (1)\n"),
        Some((true, true))
    );
    assert_eq!(bluetooth_state("Controller AA:BB\n\tPowered: no\n"), Some((false, false)));
    assert_eq!(bluetooth_state("Controller X\n\tPowered: yes\n\tAdvertising: Yes\n"), Some((true, true)));
    assert_eq!(bluetooth_state("Controller X\n\tPowered: yes\n\tActiveInstances: 0x02\n"), Some((true, true)));
}

#[test]
fn ufw_output_is_read() {
    assert!(firewall_blocks("Status: active\n"));
    assert!(!firewall_blocks("Status: active\n47100/udp ALLOW Anywhere\n"));
    assert!(!firewall_blocks("Status: inactive\n"));
    assert!(firewall_blocks("STATUS: ACTIVE"));
}
