//! What the tray icon shows, from the status file and whether the daemon
//! answers: the tooltip, the device lines at the top of its menu, the
//! battery line, and who "Send a file…" offers to.

use vstd::prelude::*;
use crate::status::DeviceStatus;
use crate::text::{chars_of, decimal, decimal_signed, push_decimal, push_decimal_signed, push_str_of};

verus! {

fn lit(a: &str) -> (s: String)
    ensures
        s@ == a@,
{
    let mut s = String::new();
    push_str_of(&mut s, a);
    s
}

/// The status as the tray holds it: the status file, plus whether the
/// daemon answers on its control socket.
pub struct TrayStatus {
    pub connected: bool,
    pub device_count: usize,
    pub device_name: String,
    pub devices: Vec<DeviceStatus>,
    pub battery: i32,
    pub charging: bool,
    pub proximity: bool,
    pub alive: bool,
}

impl TrayStatus {
    /// Nothing known: no daemon, no phone, battery unknown.
    pub fn unknown() -> (s: Self)
        ensures
            !s.connected && s.device_count == 0 && s.device_name@.len() == 0 && s.devices@.len() == 0
                && s.battery == -1 && !s.charging && !s.proximity && !s.alive,
    {
        TrayStatus {
            connected: false,
            device_count: 0,
            device_name: String::new(),
            devices: Vec::new(),
            battery: -1,
            charging: false,
            proximity: false,
            alive: false,
        }
    }

    /// Whether the daemon answers.
    pub fn daemon_alive(&self) -> (b: bool)
        ensures
            b == self.alive,
    {
        self.alive
    }

    /// Whether a phone is connected to a running daemon.
    pub fn online(&self) -> (b: bool)
        ensures
            b == (self.alive && self.connected),
    {
        self.daemon_alive() && self.connected
    }
}

/// The tooltip: the service stopped; or the phone connected (its name,
/// how many others, its battery); or waiting for the phone.
pub open spec fn spec_tool_tip(
    alive: bool,
    connected: bool,
    name: Seq<char>,
    count: usize,
    battery: i32,
    charging: bool,
) -> Seq<char> {
    if !alive {
        "Service stopped"@
    } else if connected {
        "Connected: "@ + (if name.len() == 0 {
            "Phone"@
        } else {
            name
        }) + (if count > 1 {
            " (+"@ + decimal((count - 1) as nat) + ")"@
        } else {
            seq![]
        }) + (if battery >= 0 {
            "\nBattery: "@ + decimal_signed(battery as int) + "%"@ + (if charging {
                " ⚡"@
            } else {
                seq![]
            })
        } else {
            seq![]
        })
    } else {
        "Waiting for the phone…"@
    }
}

fn name_part(name: &str) -> (t: String)
    ensures
        t@ == if name@.len() == 0 {
            "Phone"@
        } else {
            name@
        },
{
    if crate::text::chars_of(name).len() == 0 {
        lit("Phone")
    } else {
        lit(name)
    }
}

fn count_part(count: usize) -> (t: String)
    ensures
        t@ == if count > 1 {
            " (+"@ + decimal((count - 1) as nat) + ")"@
        } else {
            seq![]
        },
{
    let mut t = String::new();
    if count > 1 {
        push_str_of(&mut t, " (+");
        push_decimal(&mut t, (count - 1) as u64);
        push_str_of(&mut t, ")");
    }
    assert(t@ =~= if count > 1 {
        " (+"@ + decimal((count - 1) as nat) + ")"@
    } else {
        seq![]
    });
    t
}

fn battery_part(battery: i32, charging: bool) -> (t: String)
    ensures
        t@ == if battery >= 0 {
            "\nBattery: "@ + decimal_signed(battery as int) + "%"@ + (if charging {
                " ⚡"@
            } else {
                seq![]
            })
        } else {
            seq![]
        },
{
    let mut t = String::new();
    if battery >= 0 {
        push_str_of(&mut t, "\nBattery: ");
        push_decimal_signed(&mut t, battery as i64);
        push_str_of(&mut t, "%");
        if charging {
            push_str_of(&mut t, " ⚡");
        }
    }
    assert(t@ =~= if battery >= 0 {
        "\nBattery: "@ + decimal_signed(battery as int) + "%"@ + (if charging {
            " ⚡"@
        } else {
            seq![]
        })
    } else {
        seq![]
    });
    t
}

/// The tooltip (see `spec_tool_tip`).
pub fn tool_tip(s: &TrayStatus) -> (t: String)
    ensures
        t@ == spec_tool_tip(s.alive, s.connected, s.device_name@, s.device_count, s.battery, s.charging),
{
    if !s.daemon_alive() {
        lit("Service stopped")
    } else if s.online() {
        let mut t = lit("Connected: ");
        let n = name_part(s.device_name.as_str());
        push_str_of(&mut t, n.as_str());
        let c = count_part(s.device_count);
        push_str_of(&mut t, c.as_str());
        let b = battery_part(s.battery, s.charging);
        push_str_of(&mut t, b.as_str());
        t
    } else {
        lit("Waiting for the phone…")
    }
}

/// The views of the devices: (name, fingerprint, connected).
pub open spec fn devices_view(d: Seq<DeviceStatus>) -> Seq<(Seq<char>, Seq<char>, bool)> {
    d.map_values(|x: DeviceStatus| (x.name@, x.fingerprint@, x.connected))
}

/// The line of one device: a full dot when connected, an empty one when
/// not, then its name.
pub open spec fn device_line(d: (Seq<char>, Seq<char>, bool)) -> Seq<char> {
    (if d.2 {
        "●"@
    } else {
        "○"@
    }) + "  "@ + d.0
}

/// The lines at the top of the menu: the service stopped; or no paired
/// device; or one line per paired device.
pub open spec fn spec_device_items(alive: bool, devices: Seq<(Seq<char>, Seq<char>, bool)>) -> Seq<Seq<char>> {
    if !alive {
        seq!["⚠  Service stopped"@]
    } else if devices.len() == 0 {
        seq!["○  No paired device"@]
    } else {
        devices.map_values(|d: (Seq<char>, Seq<char>, bool)| device_line(d))
    }
}

/// The lines at the top of the menu (see `spec_device_items`).
pub fn device_items(s: &TrayStatus) -> (v: Vec<String>)
    ensures
        v@.map_values(|x: String| x@) == spec_device_items(s.alive, devices_view(s.devices@)),
{
    let mut v: Vec<String> = Vec::new();
    if !s.daemon_alive() {
        v.push(lit("⚠  Service stopped"));
        assert(v@.map_values(|x: String| x@) =~= spec_device_items(s.alive, devices_view(s.devices@)));
        return v;
    }
    if s.devices.len() == 0 {
        v.push(lit("○  No paired device"));
        assert(v@.map_values(|x: String| x@) =~= spec_device_items(s.alive, devices_view(s.devices@)));
        return v;
    }
    let ghost dv = devices_view(s.devices@);
    let mut i: usize = 0;
    while i < s.devices.len()
        invariant
            i <= s.devices@.len(),
            dv == devices_view(s.devices@),
            v@.len() == i,
            forall|k: int| 0 <= k < i ==> (#[trigger] v@[k])@ == device_line(dv[k]),
        decreases s.devices@.len() - i,
    {
        let d = &s.devices[i];
        let mut line = if d.connected {
            lit("●")
        } else {
            lit("○")
        };
        push_str_of(&mut line, "  ");
        push_str_of(&mut line, d.name.as_str());
        assert(line@ == device_line(dv[i as int]));
        v.push(line);
        i = i + 1;
    }
    assert(v@.map_values(|x: String| x@) =~= spec_device_items(s.alive, devices_view(s.devices@)));
    v
}

/// The battery line, when a phone is online and its level is known.
pub open spec fn spec_battery_item(online: bool, battery: i32, charging: bool) -> Option<Seq<char>> {
    if online && battery >= 0 {
        Some(
            (if charging {
                "⚡"@
            } else {
                "🔋"@
            }) + "  Battery: "@ + decimal_signed(battery as int) + "%"@,
        )
    } else {
        None
    }
}

/// The battery line (see `spec_battery_item`).
pub fn battery_item(s: &TrayStatus) -> (r: Option<String>)
    ensures
        match spec_battery_item(s.alive && s.connected, s.battery, s.charging) {
            Some(l) => r matches Some(x) && x@ == l,
            None => r is None,
        },
{
    if s.online() && s.battery >= 0 {
        let mut l = if s.charging {
            lit("⚡")
        } else {
            lit("🔋")
        };
        push_str_of(&mut l, "  Battery: ");
        push_decimal_signed(&mut l, s.battery as i64);
        push_str_of(&mut l, "%");
        Some(l)
    } else {
        None
    }
}

/// Who "Send a file…" offers to.
#[derive(Debug, Clone, PartialEq, Eq)]
pub enum SendFileMenu {
    /// No phone is connected: the entry is greyed out.
    Disabled,
    /// One phone is connected: the entry sends to it.
    One { fingerprint: String },
    /// Several are: a submenu names them, (name, fingerprint) each.
    Several { phones: Vec<(String, String)> },
}

/// The connected devices, in order.
pub open spec fn connected_of(d: Seq<(Seq<char>, Seq<char>, bool)>) -> Seq<(Seq<char>, Seq<char>)>
    decreases d.len(),
{
    if d.len() == 0 {
        seq![]
    } else {
        let rest = connected_of(d.drop_last());
        if d.last().2 {
            rest.push((d.last().0, d.last().1))
        } else {
            rest
        }
    }
}

/// What "Send a file…" offers (see `SendFileMenu`), by view: the connected
/// phones as (name, fingerprint).
pub open spec fn send_file_view(m: SendFileMenu) -> Seq<(Seq<char>, Seq<char>)> {
    match m {
        SendFileMenu::Disabled => seq![],
        SendFileMenu::One { fingerprint } => seq![(seq![], fingerprint@)],
        SendFileMenu::Several { phones } => phones@.map_values(|p: (String, String)| (p.0@, p.1@)),
    }
}

/// What "Send a file…" offers: nothing when no phone is connected, the
/// connected phone when there is one, the list of connected phones when
/// there are several.
pub fn send_file_menu(s: &TrayStatus) -> (m: SendFileMenu)
    ensures
        connected_of(devices_view(s.devices@)).len() == 0 <==> m is Disabled,
        connected_of(devices_view(s.devices@)).len() == 1 <==> m is One,
        connected_of(devices_view(s.devices@)).len() > 1 <==> m is Several,
        m matches SendFileMenu::One { fingerprint } ==> fingerprint@ == connected_of(
            devices_view(s.devices@),
        )[0].1,
        m matches SendFileMenu::Several { phones } ==> send_file_view(m) == connected_of(
            devices_view(s.devices@),
        ),
{
    let ghost dv = devices_view(s.devices@);
    let mut phones: Vec<(String, String)> = Vec::new();
    let mut i: usize = 0;
    assert(dv.take(0) =~= Seq::<(Seq<char>, Seq<char>, bool)>::empty());
    while i < s.devices.len()
        invariant
            i <= s.devices@.len(),
            dv == devices_view(s.devices@),
            phones@.map_values(|p: (String, String)| (p.0@, p.1@)) == connected_of(dv.take(i as int)),
        decreases s.devices@.len() - i,
    {
        let d = &s.devices[i];
        assert(dv.take(i + 1).drop_last() =~= dv.take(i as int));
        assert(dv.take(i + 1).last() == (d.name@, d.fingerprint@, d.connected));
        let ghost before = phones@.map_values(|p: (String, String)| (p.0@, p.1@));
        if d.connected {
            phones.push((lit(d.name.as_str()), lit(d.fingerprint.as_str())));
            assert(phones@.map_values(|p: (String, String)| (p.0@, p.1@)) =~= before.push(
                (d.name@, d.fingerprint@),
            ));
        }
        i = i + 1;
    }
    assert(dv.take(s.devices@.len() as int) =~= dv);
    let ghost cv = phones@.map_values(|p: (String, String)| (p.0@, p.1@));
    if phones.len() == 0 {
        SendFileMenu::Disabled
    } else if phones.len() == 1 {
        let fp = lit(phones[0].1.as_str());
        assert(cv[0] == (phones@[0].0@, phones@[0].1@));
        SendFileMenu::One { fingerprint: fp }
    } else {
        SendFileMenu::Several { phones }
    }
}


/// What a menu entry does when chosen.
#[derive(Debug, Clone, PartialEq, Eq)]
pub enum MenuAction {
    /// Nothing: a line that only informs.
    Nothing,
    /// Pick a file and send it to the phone with this fingerprint.
    SendFile { fingerprint: String },
    /// Run the command-line client with these arguments.
    Linkd { args: Vec<String> },
    /// Open the pairing window.
    Pair,
    /// Open the settings window.
    Settings,
    /// Quit the tray.
    Quit,
}

/// An entry of a submenu.
#[derive(Debug, Clone, PartialEq, Eq)]
pub enum MenuLeaf {
    /// A label with an icon that does something.
    Item { label: String, icon: String, action: MenuAction },
    /// A separator line.
    Separator,
}

/// An entry of the tray menu.
#[derive(Debug, Clone, PartialEq, Eq)]
pub enum MenuEntry {
    /// A label with an icon (empty for none), enabled or greyed out.
    Item { label: String, icon: String, enabled: bool, action: MenuAction },
    /// The proximity-lock switch: choosing it flips the setting and tells
    /// the daemon `proximity-lock on` or `off`.
    Check { label: String, checked: bool, enabled: bool },
    /// A submenu.
    SubMenu { label: String, icon: String, enabled: bool, items: Vec<MenuLeaf> },
    /// A separator line.
    Separator,
}

/// What a menu entry does, by view.
pub enum ActionView {
    Nothing,
    SendFile(Seq<char>),
    Linkd(Seq<Seq<char>>),
    Pair,
    Settings,
    Quit,
}

/// A submenu entry, by view.
pub enum LeafView {
    Item(Seq<char>, Seq<char>, ActionView),
    Separator,
}

/// A menu entry, by view.
pub enum EntryView {
    Item(Seq<char>, Seq<char>, bool, ActionView),
    Check(Seq<char>, bool, bool),
    SubMenu(Seq<char>, Seq<char>, bool, Seq<LeafView>),
    Separator,
}

impl View for MenuAction {
    type V = ActionView;

    open spec fn view(&self) -> ActionView {
        match self {
            MenuAction::Nothing => ActionView::Nothing,
            MenuAction::SendFile { fingerprint } => ActionView::SendFile(fingerprint@),
            MenuAction::Linkd { args } => ActionView::Linkd(args@.map_values(|a: String| a@)),
            MenuAction::Pair => ActionView::Pair,
            MenuAction::Settings => ActionView::Settings,
            MenuAction::Quit => ActionView::Quit,
        }
    }
}

impl View for MenuLeaf {
    type V = LeafView;

    open spec fn view(&self) -> LeafView {
        match self {
            MenuLeaf::Item { label, icon, action } => LeafView::Item(label@, icon@, action@),
            MenuLeaf::Separator => LeafView::Separator,
        }
    }
}

impl View for MenuEntry {
    type V = EntryView;

    open spec fn view(&self) -> EntryView {
        match self {
            MenuEntry::Item { label, icon, enabled, action } => EntryView::Item(label@, icon@, *enabled, action@),
            MenuEntry::Check { label, checked, enabled } => EntryView::Check(label@, *checked, *enabled),
            MenuEntry::SubMenu { label, icon, enabled, items } => EntryView::SubMenu(
                label@,
                icon@,
                *enabled,
                items@.map_values(|l: MenuLeaf| l@),
            ),
            MenuEntry::Separator => EntryView::Separator,
        }
    }
}

/// The menu, by view.
pub open spec fn menu_view(v: Seq<MenuEntry>) -> Seq<EntryView> {
    v.map_values(|e: MenuEntry| e@)
}

/// An informing line: no icon, greyed out, doing nothing.
pub open spec fn info_line(l: Seq<char>) -> EntryView {
    EntryView::Item(l, seq![], false, ActionView::Nothing)
}

/// "Send a file…": greyed out when no phone is connected, sending to the
/// phone when one is, a submenu naming the phones when several are.
pub open spec fn send_entry(connected: Seq<(Seq<char>, Seq<char>)>) -> EntryView {
    if connected.len() == 0 {
        EntryView::Item("Send a file…"@, "document-send"@, false, ActionView::Nothing)
    } else if connected.len() == 1 {
        EntryView::Item("Send a file…"@, "document-send"@, true, ActionView::SendFile(connected[0].1))
    } else {
        EntryView::SubMenu(
            "Send a file…"@,
            "document-send"@,
            true,
            connected.map_values(
                |p: (Seq<char>, Seq<char>)| LeafView::Item(p.0, "smartphone"@, ActionView::SendFile(p.1)),
            ),
        )
    }
}

/// The media submenu: play or pause, previous, next, then the phone's
/// volume up and down; usable while a phone is online.
pub open spec fn media_entry(online: bool) -> EntryView {
    EntryView::SubMenu(
        "Phone media"@,
        "multimedia-player"@,
        online,
        seq![
            LeafView::Item("Play / Pause"@, "media-playback-start"@, ActionView::Linkd(seq!["media"@, "play_pause"@])),
            LeafView::Item("Previous"@, "media-skip-backward"@, ActionView::Linkd(seq!["media"@, "previous"@])),
            LeafView::Item("Next"@, "media-skip-forward"@, ActionView::Linkd(seq!["media"@, "next"@])),
            LeafView::Separator,
            LeafView::Item("Volume +"@, "audio-volume-high"@, ActionView::Linkd(seq!["phone-volume"@, "up"@])),
            LeafView::Item("Volume −"@, "audio-volume-low"@, ActionView::Linkd(seq!["phone-volume"@, "down"@])),
        ],
    )
}

/// The whole tray menu: the device lines (greyed out), the battery line
/// when known, a separator, "Send a file…", the media submenu (usable while
/// a phone is online), the proximity-lock switch (checked as the setting,
/// usable while the service runs), a separator, "Pair a device…",
/// "Settings…", a separator and "Quit".
pub open spec fn spec_menu(s: TrayStatus) -> Seq<EntryView> {
    let online = s.alive && s.connected;
    let dv = devices_view(s.devices@);
    let top = spec_device_items(s.alive, dv).map_values(|l: Seq<char>| info_line(l));
    let bat = match spec_battery_item(online, s.battery, s.charging) {
        Some(l) => seq![info_line(l)],
        None => Seq::<EntryView>::empty(),
    };
    top + bat + seq![
        EntryView::Separator,
        send_entry(connected_of(dv)),
        media_entry(online),
        EntryView::Check("Proximity lock"@, s.proximity, s.alive),
        EntryView::Separator,
        EntryView::Item("Pair a device…"@, "list-add"@, true, ActionView::Pair),
        EntryView::Item("Settings…"@, "preferences-system"@, true, ActionView::Settings),
        EntryView::Separator,
        EntryView::Item("Quit"@, "application-exit"@, true, ActionView::Quit),
    ]
}

/// The arguments `a`, `b` for the command-line client.
fn args2(a: &str, b: &str) -> (r: MenuAction)
    ensures
        r@ == ActionView::Linkd(seq![a@, b@]),
{
    let mut v: Vec<String> = Vec::new();
    v.push(lit(a));
    v.push(lit(b));
    assert(v@.map_values(|x: String| x@) =~= seq![a@, b@]);
    MenuAction::Linkd { args: v }
}

/// A submenu item.
fn leaf(label: &str, icon: &str, action: MenuAction) -> (r: MenuLeaf)
    ensures
        r@ == LeafView::Item(label@, icon@, action@),
{
    MenuLeaf::Item { label: lit(label), icon: lit(icon), action }
}

/// The media submenu (see `media_entry`).
fn media_menu(online: bool) -> (e: MenuEntry)
    ensures
        e@ == media_entry(online),
{
    let mut items: Vec<MenuLeaf> = Vec::new();
    items.push(leaf("Play / Pause", "media-playback-start", args2("media", "play_pause")));
    items.push(leaf("Previous", "media-skip-backward", args2("media", "previous")));
    items.push(leaf("Next", "media-skip-forward", args2("media", "next")));
    items.push(MenuLeaf::Separator);
    items.push(leaf("Volume +", "audio-volume-high", args2("phone-volume", "up")));
    items.push(leaf("Volume −", "audio-volume-low", args2("phone-volume", "down")));
    let e = MenuEntry::SubMenu { label: lit("Phone media"), icon: lit("multimedia-player"), enabled: online, items };
    assert(items@.map_values(|l: MenuLeaf| l@) =~= media_entry(online)->SubMenu_3);
    e
}

/// "Send a file…" (see `send_entry`).
fn send_menu(s: &TrayStatus) -> (e: MenuEntry)
    ensures
        e@ == send_entry(connected_of(devices_view(s.devices@))),
{
    let ghost c = connected_of(devices_view(s.devices@));
    match send_file_menu(s) {
        SendFileMenu::Disabled => MenuEntry::Item {
            label: lit("Send a file…"),
            icon: lit("document-send"),
            enabled: false,
            action: MenuAction::Nothing,
        },
        SendFileMenu::One { fingerprint } => MenuEntry::Item {
            label: lit("Send a file…"),
            icon: lit("document-send"),
            enabled: true,
            action: MenuAction::SendFile { fingerprint },
        },
        SendFileMenu::Several { phones } => {
            let ghost pv = phones@.map_values(|p: (String, String)| (p.0@, p.1@));
            assert(pv == c);
            let mut items: Vec<MenuLeaf> = Vec::new();
            let mut i: usize = 0;
            while i < phones.len()
                invariant
                    i <= phones@.len(),
                    pv == phones@.map_values(|p: (String, String)| (p.0@, p.1@)),
                    items@.len() == i,
                    forall|k: int|
                        0 <= k < i ==> (#[trigger] items@[k])@ == LeafView::Item(
                            pv[k].0,
                            "smartphone"@,
                            ActionView::SendFile(pv[k].1),
                        ),
                decreases phones@.len() - i,
            {
                let fp = lit(phones[i].1.as_str());
                items.push(leaf(phones[i].0.as_str(), "smartphone", MenuAction::SendFile { fingerprint: fp }));
                i = i + 1;
            }
            assert(items@.map_values(|l: MenuLeaf| l@) =~= pv.map_values(
                |p: (Seq<char>, Seq<char>)| LeafView::Item(p.0, "smartphone"@, ActionView::SendFile(p.1)),
            ));
            MenuEntry::SubMenu { label: lit("Send a file…"), icon: lit("document-send"), enabled: true, items }
        },
    }
}

/// An entry with a label and an icon.
fn item(label: &str, icon: &str, enabled: bool, action: MenuAction) -> (e: MenuEntry)
    ensures
        e@ == EntryView::Item(label@, icon@, enabled, action@),
{
    MenuEntry::Item { label: lit(label), icon: lit(icon), enabled, action }
}

/// The whole tray menu (see `spec_menu`).
pub fn menu(s: &TrayStatus) -> (v: Vec<MenuEntry>)
    ensures
        menu_view(v@) == spec_menu(*s),
{
    let mut v: Vec<MenuEntry> = Vec::new();
    let lines = device_items(s);
    let ghost top = spec_device_items(s.alive, devices_view(s.devices@)).map_values(|l: Seq<char>| info_line(l));
    let mut i: usize = 0;
    while i < lines.len()
        invariant
            i <= lines@.len(),
            lines@.map_values(|x: String| x@) == spec_device_items(s.alive, devices_view(s.devices@)),
            top == spec_device_items(s.alive, devices_view(s.devices@)).map_values(|l: Seq<char>| info_line(l)),
            menu_view(v@) == top.take(i as int),
        decreases lines@.len() - i,
    {
        let e = MenuEntry::Item {
            label: lit(lines[i].as_str()),
            icon: String::new(),
            enabled: false,
            action: MenuAction::Nothing,
        };
        assert(lines@.map_values(|x: String| x@)[i as int] == lines@[i as int]@);
        assert(e@ == info_line(lines@[i as int]@));
        let ghost before = menu_view(v@);
        v.push(e);
        assert(menu_view(v@) =~= before.push(e@));
        assert(top.take(i + 1) =~= top.take(i as int).push(top[i as int]));
        i = i + 1;
    }
    assert(top.take(lines@.len() as int) =~= top);
    let ghost bat = match spec_battery_item(s.alive && s.connected, s.battery, s.charging) {
        Some(l) => seq![info_line(l)],
        None => Seq::<EntryView>::empty(),
    };
    match battery_item(s) {
        Some(l) => {
            let ghost before = menu_view(v@);
            v.push(MenuEntry::Item { label: l, icon: String::new(), enabled: false, action: MenuAction::Nothing });
            assert(menu_view(v@) =~= before + bat);
        },
        None => {
            assert(menu_view(v@) =~= top + bat);
        },
    }
    let ghost head = menu_view(v@);
    assert(head == top + bat);
    v.push(MenuEntry::Separator);
    v.push(send_menu(s));
    v.push(media_menu(s.online()));
    v.push(MenuEntry::Check { label: lit("Proximity lock"), checked: s.proximity, enabled: s.daemon_alive() });
    v.push(MenuEntry::Separator);
    v.push(item("Pair a device…", "list-add", true, MenuAction::Pair));
    v.push(item("Settings…", "preferences-system", true, MenuAction::Settings));
    v.push(MenuEntry::Separator);
    v.push(item("Quit", "application-exit", true, MenuAction::Quit));
    assert(menu_view(v@) =~= spec_menu(*s));
    v
}


/// The number of bytes `c` takes in UTF-8.
pub open spec fn utf8_width(c: char) -> nat {
    if (c as u32) < 0x80 {
        1
    } else if (c as u32) < 0x800 {
        2
    } else if (c as u32) < 0x10000 {
        3
    } else {
        4
    }
}

/// The number of bytes `s` takes in UTF-8.
pub open spec fn utf8_len(s: Seq<char>) -> nat
    decreases s.len(),
{
    if s.len() == 0 {
        0
    } else {
        utf8_len(s.drop_last()) + utf8_width(s.last())
    }
}

/// The first 16 bytes of `f` end between two characters (or `f` is no
/// longer than that), so that they can be cut off.
pub open spec fn cut_at_16(f: Seq<char>) -> bool {
    utf8_len(f) <= 16 || exists|n: int| 0 <= n <= f.len() && #[trigger] utf8_len(f.take(n)) == 16
}

/// The first 16 bytes of `f` (all of it when shorter), as the settings
/// window shows a fingerprint.
pub open spec fn short_fp(f: Seq<char>) -> Seq<char> {
    if utf8_len(f) <= 16 {
        f
    } else {
        f.take(choose|n: int| 0 <= n <= f.len() && #[trigger] utf8_len(f.take(n)) == 16)
    }
}

/// A paired phone counts as connected in the settings window when some
/// device of the status has a fingerprint that begins with the first 16
/// bytes of the phone's fingerprint, or has the phone's name.
pub open spec fn spec_peer_online(fp: Seq<char>, name: Seq<char>, devices: Seq<(Seq<char>, Seq<char>, bool)>) -> bool {
    exists|i: int|
        0 <= i < devices.len() && (crate::text::has_prefix(#[trigger] devices[i].1, short_fp(fp))
            || devices[i].0 == name)
}

/// Taking one more character adds its width.
proof fn lemma_utf8_take(f: Seq<char>, n: int)
    requires
        0 <= n < f.len(),
    ensures
        utf8_len(f.take(n + 1)) == utf8_len(f.take(n)) + utf8_width(f[n]),
{
    assert(f.take(n + 1).drop_last() =~= f.take(n));
}

/// More characters take more bytes.
proof fn lemma_utf8_grows(f: Seq<char>, m: int, n: int)
    requires
        0 <= m < n <= f.len(),
    ensures
        utf8_len(f.take(m)) < utf8_len(f.take(n)),
    decreases n - m,
{
    lemma_utf8_take(f, n - 1);
    if m < n - 1 {
        lemma_utf8_grows(f, m, n - 1);
    }
}

/// The characters of `f` in its first 16 bytes (see `short_fp`).
fn short_fingerprint(f: &[char]) -> (s: Vec<char>)
    requires
        cut_at_16(f@),
    ensures
        s@ == short_fp(f@),
{
    let mut n: usize = 0;
    let mut bytes: u64 = 0;
    while n < f.len() && bytes < 16
        invariant
            n <= f@.len(),
            bytes == utf8_len(f@.take(n as int)),
            bytes <= 19,
            n > 0 ==> utf8_len(f@.take(n - 1)) < 16,
        decreases f@.len() - n,
    {
        proof {
            lemma_utf8_take(f@, n as int);
        }
        let c = f[n] as u32;
        let w: u64 = if c < 0x80 {
            1
        } else if c < 0x800 {
            2
        } else if c < 0x10000 {
            3
        } else {
            4
        };
        bytes = bytes + w;
        n = n + 1;
    }
    proof {
        if n == f@.len() {
            assert(f@.take(n as int) =~= f@);
        }
        if n < f@.len() {
            lemma_utf8_grows(f@, n as int, f@.len() as int);
            assert(f@.take(f@.len() as int) =~= f@);
        }
        if utf8_len(f@) > 16 {
            let m = choose|m: int| 0 <= m <= f@.len() && #[trigger] utf8_len(f@.take(m)) == 16;
            if m < n {
                if m < n - 1 {
                    lemma_utf8_grows(f@, m, n - 1);
                }
            }
            if m > n {
                lemma_utf8_grows(f@, n as int, m);
            }
            assert(m == n);
        }
    }
    if n == f.len() && bytes <= 16 {
        return crate::text::copy_chars(f);
    }
    let r = crate::text::chars_of_range(f, 0, n);
    assert(r@ =~= f@.take(n as int));
    r
}

/// Whether the settings window shows the paired phone with fingerprint `fp`
/// and name `name` as connected, given the devices of the status (see
/// `spec_peer_online`).
pub fn peer_online(fp: &str, name: &str, devices: &[DeviceStatus]) -> (b: bool)
    requires
        cut_at_16(fp@),
    ensures
        b == spec_peer_online(fp@, name@, devices_view(devices@)),
{
    let f = chars_of(fp);
    let short = short_fingerprint(f.as_slice());
    let nm = chars_of(name);
    let ghost dv = devices_view(devices@);
    let mut i: usize = 0;
    while i < devices.len()
        invariant
            i <= devices@.len(),
            dv == devices_view(devices@),
            short@ == short_fp(fp@),
            nm@ == name@,
            forall|k: int|
                0 <= k < i ==> !(crate::text::has_prefix(#[trigger] dv[k].1, short@) || dv[k].0 == name@),
        decreases devices@.len() - i,
    {
        let d = &devices[i];
        let g = chars_of(d.fingerprint.as_str());
        let n = chars_of(d.name.as_str());
        assert(dv[i as int] == (d.name@, d.fingerprint@, d.connected));
        let pre = crate::text::starts_with(g.as_slice(), short.as_slice());
        let same = crate::order::same_chars(n.as_slice(), nm.as_slice());
        assert(pre == crate::text::has_prefix(dv[i as int].1, short@));
        assert(same == (dv[i as int].0 == name@));
        if pre || same {
            assert(spec_peer_online(fp@, name@, dv));
            return true;
        }
        assert forall|k: int| 0 <= k < i + 1 implies !(crate::text::has_prefix(#[trigger] dv[k].1, short@)
            || dv[k].0 == name@) by {
            if k == i {
                assert(!pre && !same);
            }
        }
        i = i + 1;
    }
    proof {
        if spec_peer_online(fp@, name@, dv) {
            let k = choose|k: int|
                0 <= k < dv.len() && (crate::text::has_prefix(#[trigger] dv[k].1, short_fp(fp@)) || dv[k].0
                    == name@);
            assert(!(crate::text::has_prefix(dv[k].1, short@) || dv[k].0 == name@));
        }
    }
    false
}

} // verus!
