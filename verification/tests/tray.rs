use linkd::status::DeviceStatus;
use linkd::tray::{
    battery_item, device_items, menu, peer_online, send_file_menu, tool_tip, MenuAction, MenuEntry, MenuLeaf, SendFileMenu,
    TrayStatus,
};

fn dev(name: &str, fp: &str, connected: bool) -> DeviceStatus {
    DeviceStatus { name: name.to_string(), fingerprint: fp.to_string(), connected }
}

fn status(alive: bool, connected: bool, devices: Vec<DeviceStatus>) -> TrayStatus {
    let mut s = TrayStatus::unknown();
    s.alive = alive;
    s.connected = connected;
    s.device_count = devices.iter().filter(|d| d.connected).count();
    s.device_name = devices.iter().find(|d| d.connected).map(|d| d.name.clone()).unwrap_or_default();
    s.devices = devices;
    s
}

#[test]
fn tooltips() {
    let mut s = TrayStatus::unknown();
    assert!(!s.online());
    assert_eq!(tool_tip(&s), "Service stopped");
    s.alive = true;
    assert_eq!(tool_tip(&s), "Waiting for the phone…");
    s.connected = true;
    s.device_count = 1;
    assert_eq!(tool_tip(&s), "Connected: Phone");
    s.device_name = "Pixel".to_string();
    s.device_count = 3;
    s.battery = 80;
    assert_eq!(tool_tip(&s), "Connected: Pixel (+2)\nBattery: 80%");
    s.charging = true;
    assert_eq!(tool_tip(&s), "Connected: Pixel (+2)\nBattery: 80% ⚡");
}

#[test]
fn menu_heads() {
    assert_eq!(device_items(&status(false, false, vec![])), vec!["⚠  Service stopped"]);
    assert_eq!(device_items(&status(true, false, vec![])), vec!["○  No paired device"]);
    let s = status(true, true, vec![dev("Pixel", "aa", true), dev("Tab", "bb", false)]);
    assert_eq!(device_items(&s), vec!["●  Pixel", "○  Tab"]);
}

#[test]
fn battery_lines() {
    let mut s = status(true, true, vec![dev("Pixel", "aa", true)]);
    assert_eq!(battery_item(&s), None);
    s.battery = 42;
    assert_eq!(battery_item(&s), Some("🔋  Battery: 42%".to_string()));
    s.charging = true;
    assert_eq!(battery_item(&s), Some("⚡  Battery: 42%".to_string()));
    s.alive = false;
    assert_eq!(battery_item(&s), None);
}

#[test]
fn send_file_targets() {
    assert_eq!(send_file_menu(&status(true, false, vec![dev("Tab", "bb", false)])), SendFileMenu::Disabled);
    assert_eq!(
        send_file_menu(&status(true, true, vec![dev("Pixel", "aa", true), dev("Tab", "bb", false)])),
        SendFileMenu::One { fingerprint: "aa".to_string() }
    );
    assert_eq!(
        send_file_menu(&status(true, true, vec![dev("Pixel", "aa", true), dev("Tab", "bb", true)])),
        SendFileMenu::Several { phones: vec![("Pixel".to_string(), "aa".to_string()), ("Tab".to_string(), "bb".to_string())] }
    );
}

fn info(label: &str) -> MenuEntry {
    MenuEntry::Item { label: label.to_string(), icon: String::new(), enabled: false, action: MenuAction::Nothing }
}

fn entry(label: &str, icon: &str, action: MenuAction) -> MenuEntry {
    MenuEntry::Item { label: label.to_string(), icon: icon.to_string(), enabled: true, action }
}

fn leaf(label: &str, icon: &str, action: MenuAction) -> MenuLeaf {
    MenuLeaf::Item { label: label.to_string(), icon: icon.to_string(), action }
}

fn run(a: &str, b: &str) -> MenuAction {
    MenuAction::Linkd { args: vec![a.to_string(), b.to_string()] }
}

fn tail(online: bool, proximity: bool, alive: bool) -> Vec<MenuEntry> {
    vec![
        MenuEntry::SubMenu {
            label: "Phone media".to_string(),
            icon: "multimedia-player".to_string(),
            enabled: online,
            items: vec![
                leaf("Play / Pause", "media-playback-start", run("media", "play_pause")),
                leaf("Previous", "media-skip-backward", run("media", "previous")),
                leaf("Next", "media-skip-forward", run("media", "next")),
                MenuLeaf::Separator,
                leaf("Volume +", "audio-volume-high", run("phone-volume", "up")),
                leaf("Volume −", "audio-volume-low", run("phone-volume", "down")),
            ],
        },
        MenuEntry::Check { label: "Proximity lock".to_string(), checked: proximity, enabled: alive },
        MenuEntry::Separator,
        entry("Pair a device…", "list-add", MenuAction::Pair),
        entry("Settings…", "preferences-system", MenuAction::Settings),
        MenuEntry::Separator,
        entry("Quit", "application-exit", MenuAction::Quit),
    ]
}

#[test]
fn the_whole_menu_with_two_phones_online() {
    let mut s = status(true, true, vec![dev("Pixel", "aa11", true), dev("Tablet", "bb22", false), dev("Phone2", "cc33", true)]);
    s.device_name = "Pixel".to_string();
    s.battery = 80;
    s.charging = false;
    s.proximity = true;
    let mut expected = vec![
        info("●  Pixel"),
        info("○  Tablet"),
        info("●  Phone2"),
        info("🔋  Battery: 80%"),
        MenuEntry::Separator,
        MenuEntry::SubMenu {
            label: "Send a file…".to_string(),
            icon: "document-send".to_string(),
            enabled: true,
            items: vec![
                leaf("Pixel", "smartphone", MenuAction::SendFile { fingerprint: "aa11".to_string() }),
                leaf("Phone2", "smartphone", MenuAction::SendFile { fingerprint: "cc33".to_string() }),
            ],
        },
    ];
    expected.extend(tail(true, true, true));
    assert_eq!(menu(&s), expected);
}

#[test]
fn the_whole_menu_with_the_service_stopped() {
    let s = TrayStatus::unknown();
    let mut expected = vec![
        info("⚠  Service stopped"),
        MenuEntry::Separator,
        MenuEntry::Item {
            label: "Send a file…".to_string(),
            icon: "document-send".to_string(),
            enabled: false,
            action: MenuAction::Nothing,
        },
    ];
    expected.extend(tail(false, false, false));
    assert_eq!(menu(&s), expected);
}

#[test]
fn the_whole_menu_with_one_phone_online() {
    let mut s = status(true, true, vec![dev("Pixel", "aa11", true)]);
    s.battery = 55;
    s.charging = true;
    let mut expected = vec![
        info("●  Pixel"),
        info("⚡  Battery: 55%"),
        MenuEntry::Separator,
        entry("Send a file…", "document-send", MenuAction::SendFile { fingerprint: "aa11".to_string() }),
    ];
    expected.extend(tail(true, false, true));
    assert_eq!(menu(&s), expected);
}

#[test]
fn a_peer_is_online_by_fingerprint_prefix_or_name() {
    let devices = vec![dev("Tablet", "aabbccddeeff0011XXXX", true), dev("Pixel", "ffff", false)];
    assert!(peer_online("aabbccddeeff00112233445566778899", "Phone", &devices));
    assert!(!peer_online("aabbccddeeff00992233445566778899", "Phone", &devices));
    assert!(peer_online("0000", "Pixel", &devices));
    assert!(peer_online("aabb", "Nobody", &devices));
    assert!(!peer_online("aabb", "Nobody", &[]));
    // Sixteen bytes are eight two-byte characters.
    let odd = vec![dev("X", "éééééééé-rest", true)];
    assert!(peer_online("ééééééééz", "Y", &odd));
    assert!(!peer_online("éééééééz", "Y", &odd));
}
