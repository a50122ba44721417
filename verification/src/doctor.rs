//! The `doctor` self-check: from what was found on the machine (the
//! desktop, the commands on `PATH`, the Bluetooth controller, the firewall)
//! to the list of checks and hints that is printed.

use vstd::prelude::*;
use crate::text::{string_views, chars_of, contains, contains_seq, lowercase, push_str_of, to_lower, trim, trimmed};

verus! {

/// One printed line: a check (with its verdict) or a hint under the check
/// before it.
pub struct ReportLine {
    pub check: bool,
    pub ok: bool,
    pub text: String,
}

impl View for ReportLine {
    type V = (bool, bool, Seq<char>);

    open spec fn view(&self) -> (bool, bool, Seq<char>) {
        (self.check, self.ok, self.text@)
    }
}

/// A check line.
pub open spec fn check(ok: bool, text: Seq<char>) -> (bool, bool, Seq<char>) {
    (true, ok, text)
}

/// A hint line.
pub open spec fn hint(text: Seq<char>) -> (bool, bool, Seq<char>) {
    (false, true, text)
}

/// The views of a list of lines.
pub open spec fn lines_view(s: Seq<ReportLine>) -> Seq<(bool, bool, Seq<char>)> {
    s.map_values(|l: ReportLine| l@)
}

/// What the machine showed, gathered before the report is made.
pub struct Facts {
    /// `XDG_CURRENT_DESKTOP`, or `unknown`.
    pub desktop: String,
    /// Whether `WAYLAND_DISPLAY` is set.
    pub wayland: bool,
    /// How the daemon answered a `PING` on its control socket.
    pub daemon: Result<(), String>,
    /// The commands of `probed_commands` that were found on `PATH`.
    pub installed: Vec<String>,
    /// The Bluetooth controller, if any: (powered, advertising).
    pub bluetooth: Option<(bool, bool)>,
    /// Whether `/dev/uinput` could be opened for writing.
    pub uinput_writable: bool,
    /// The output of `ufw status`, when `ufw` is installed and ran.
    pub ufw_status: Option<String>,
}

fn push_line(out: &mut Vec<ReportLine>, chk: bool, ok: bool, text: String)
    ensures
        lines_view(final(out)@) == lines_view(old(out)@).push((chk, ok, text@)),
{
    let l = ReportLine { check: chk, ok, text };
    out.push(l);
    assert(lines_view(out@) =~= lines_view(old(out)@).push((chk, ok, text@)));
}

fn text_of(a: &str) -> (s: String)
    ensures
        s@ == a@,
{
    let mut s = String::new();
    push_str_of(&mut s, a);
    s
}

fn text_of2(a: &str, b: &str) -> (s: String)
    ensures
        s@ == a@ + b@,
{
    let mut s = String::new();
    push_str_of(&mut s, a);
    push_str_of(&mut s, b);
    s
}

/// What a `PING` on the control socket is answered with, read as a verdict.
pub open spec fn spec_ping_verdict(reply: Seq<char>) -> Result<(), Seq<char>> {
    if trim(reply) == "PONG"@ {
        Ok(())
    } else {
        Err("unexpected reply: "@ + trim(reply))
    }
}

/// The daemon answers `PONG`; any other reply is reported as it came.
pub fn ping_verdict(reply: &str) -> (r: Result<(), String>)
    ensures
        match spec_ping_verdict(reply@) {
            Ok(_) => r is Ok,
            Err(e) => r matches Err(x) && x@ == e,
        },
{
    let t = trimmed(reply);
    let tv = chars_of(t.as_str());
    if crate::text::same_chars_str(tv.as_slice(), "PONG") {
        Ok(())
    } else {
        let mut e = String::new();
        push_str_of(&mut e, "unexpected reply: ");
        push_str_of(&mut e, t.as_str());
        Err(e)
    }
}

/// What `bluetoothctl show` says of the controller: none when it names no
/// controller; else whether it is powered and whether it advertises.
pub open spec fn spec_bluetooth_state(text: Seq<char>) -> Option<(bool, bool)> {
    if !contains_seq(text, "Controller"@) {
        None
    } else {
        Some(
            (
                contains_seq(text, "Powered: yes"@),
                contains_seq(text, "ActiveInstances: 0x01"@) || contains_seq(
                    to_lower(text),
                    "advertising: yes"@,
                ) || contains_seq(text, "ActiveInstances: 0x02"@),
            ),
        )
    }
}

/// Reads the output of `bluetoothctl show` (see `spec_bluetooth_state`).
pub fn bluetooth_state(text: &str) -> (r: Option<(bool, bool)>)
    ensures
        r == spec_bluetooth_state(text@),
{
    let t = chars_of(text);
    let controller = chars_of("Controller");
    if !contains(t.as_slice(), controller.as_slice()) {
        return None;
    }
    let powered = contains(t.as_slice(), chars_of("Powered: yes").as_slice());
    let low = lowercase(text);
    let a1 = contains(t.as_slice(), chars_of("ActiveInstances: 0x01").as_slice());
    let a2 = contains(chars_of(low.as_str()).as_slice(), chars_of("advertising: yes").as_slice());
    let a3 = contains(t.as_slice(), chars_of("ActiveInstances: 0x02").as_slice());
    Some((powered, a1 || a2 || a3))
}

/// Whether the output of `ufw status` shows an active firewall that does
/// not open the port.
pub open spec fn spec_firewall_blocks(status: Seq<char>) -> bool {
    contains_seq(to_lower(status), "status: active"@) && !contains_seq(
        to_lower(status),
        "47100"@,
    )
}

/// Reads the output of `ufw status` (see `spec_firewall_blocks`).
pub fn firewall_blocks(status: &str) -> (b: bool)
    ensures
        b == spec_firewall_blocks(status@),
{
    let low = chars_of(lowercase(status).as_str());
    contains(low.as_slice(), chars_of("status: active").as_slice()) && !contains(
        low.as_slice(),
        chars_of("47100").as_slice(),
    )
}

/// The first line: the desktop and the kind of session.
pub open spec fn desktop_section(desktop: Seq<char>, wayland: bool) -> Seq<(bool, bool, Seq<char>)> {
    seq![
        check(
            true,
            "Desktop: "@ + desktop + " ("@ + (if wayland {
                "Wayland"@
            } else {
                "X11"@
            }) + ")"@,
        ),
    ]
}

fn desktop_lines(out: &mut Vec<ReportLine>, desktop: &str, wayland: bool)
    ensures
        lines_view(final(out)@) == lines_view(old(out)@) + desktop_section(desktop@, wayland),
{
    let mut t = text_of2("Desktop: ", desktop);
    push_str_of(&mut t, " (");
    if wayland {
        push_str_of(&mut t, "Wayland");
    } else {
        push_str_of(&mut t, "X11");
    }
    push_str_of(&mut t, ")");
    push_line(out, true, true, t);
    assert(lines_view(out@) =~= lines_view(old(out)@) + desktop_section(desktop@, wayland));
}

/// Whether the daemon answers.
pub open spec fn service_section(daemon: Result<(), Seq<char>>) -> Seq<(bool, bool, Seq<char>)> {
    match daemon {
        Ok(_) => seq![check(true, "Service: linkd is running and answering"@)],
        Err(e) => seq![
            check(false, "Service: "@ + e),
            hint("systemctl --user restart linkd  (or the Restart button in Settings)"@),
        ],
    }
}

/// The daemon's answer, with its error as a character sequence.
pub open spec fn daemon_view(daemon: Result<(), String>) -> Result<(), Seq<char>> {
    match daemon {
        Ok(_) => Ok(()),
        Err(e) => Err(e@),
    }
}

fn service_lines(out: &mut Vec<ReportLine>, daemon: &Result<(), String>)
    ensures
        lines_view(final(out)@) == lines_view(old(out)@) + service_section(daemon_view(*daemon)),
{
    match daemon {
        Ok(_) => {
            push_line(out, true, true, text_of("Service: linkd is running and answering"));
        },
        Err(e) => {
            push_line(out, true, false, text_of2("Service: ", e.as_str()));
            push_line(
                out,
                false,
                true,
                text_of("systemctl --user restart linkd  (or the Restart button in Settings)"),
            );
        },
    }
    assert(lines_view(out@) =~= lines_view(old(out)@) + service_section(daemon_view(*daemon)));
}

/// Whether `cmd` is among the commands found.
fn is_installed(installed: &[String], cmd: &str) -> (b: bool)
    ensures
        b == string_views(installed@).contains(cmd@),
{
    let c = chars_of(cmd);
    let mut i: usize = 0;
    while i < installed.len()
        invariant
            i <= installed@.len(),
            c@ == cmd@,
            forall|k: int| 0 <= k < i ==> installed@[k]@ != cmd@,
        decreases installed@.len() - i,
    {
        if crate::text::same_chars_str(c.as_slice(), installed[i].as_str()) {
            assert(string_views(installed@)[i as int] == cmd@);
            return true;
        }
        i = i + 1;
    }
    assert forall|k: int| 0 <= k < string_views(installed@).len() implies string_views(
        installed@,
    )[k] != cmd@ by {
        assert(string_views(installed@)[k] == installed@[k]@);
    }
    false
}

/// The companion programs that the installer puts on `PATH`.
pub open spec fn companion_programs() -> Seq<Seq<char>> {
    seq!["linux-link-gui"@, "linux-link-pair"@, "linux-link-settings"@, "linux-link-message"@]
}

/// The programs of `progs` that are not among `installed`, in order.
pub open spec fn missing_of(progs: Seq<Seq<char>>, installed: Seq<Seq<char>>) -> Seq<Seq<char>>
    decreases progs.len(),
{
    if progs.len() == 0 {
        seq![]
    } else {
        let rest = missing_of(progs.drop_last(), installed);
        if installed.contains(progs.last()) {
            rest
        } else {
            rest.push(progs.last())
        }
    }
}

/// `parts.join(sep)`.
pub open spec fn join(parts: Seq<Seq<char>>, sep: Seq<char>) -> Seq<char>
    decreases parts.len(),
{
    if parts.len() == 0 {
        seq![]
    } else if parts.len() == 1 {
        parts[0]
    } else {
        join(parts.drop_last(), sep) + sep + parts.last()
    }
}

/// Whether the companion programs are installed.
pub open spec fn binaries_section(missing: Seq<Seq<char>>) -> Seq<(bool, bool, Seq<char>)> {
    if missing.len() == 0 {
        seq![check(true, "Binaries: all five installed"@)]
    } else {
        seq![
            check(false, "Binaries missing from PATH: "@ + join(missing, ", "@)),
            hint("re-run ./install.sh"@),
        ]
    }
}

fn binaries_lines(out: &mut Vec<ReportLine>, installed: &[String])
    ensures
        lines_view(final(out)@) == lines_view(old(out)@) + binaries_section(
            missing_of(companion_programs(), string_views(installed@)),
        ),
{
    let progs: [&str; 4] = ["linux-link-gui", "linux-link-pair", "linux-link-settings", "linux-link-message"];
    let ghost pv: Seq<Seq<char>> = companion_programs();
    assert(pv.len() == 4);
    assert(progs@.len() == 4);
    let ghost inst = string_views(installed@);
    assert(progs@[0]@ == pv[0]);
    assert(progs@[1]@ == pv[1]);
    assert(progs@[2]@ == pv[2]);
    assert(progs@[3]@ == pv[3]);
    let mut joined = String::new();
    let mut n: usize = 0;
    let mut i: usize = 0;
    while i < 4
        invariant
            i <= 4,
            pv == companion_programs(),
            inst == string_views(installed@),
            forall|k: int| 0 <= k < 4 ==> #[trigger] progs@[k]@ == pv[k],
            n <= i,
            n == missing_of(pv.take(i as int), inst).len(),
            joined@ == join(missing_of(pv.take(i as int), inst), ", "@),
        decreases 4 - i,
    {
        let p = progs[i];
        assert(pv.take(i + 1).drop_last() =~= pv.take(i as int));
        assert(pv.take(i + 1).last() == pv[i as int]);
        let ghost before = missing_of(pv.take(i as int), inst);
        if !is_installed(installed, p) {
            let ghost after = before.push(pv[i as int]);
            assert(after.drop_last() =~= before);
            if n > 0 {
                push_str_of(&mut joined, ", ");
            }
            push_str_of(&mut joined, p);
            n = n + 1;
            assert(missing_of(pv.take(i + 1), inst) == after);
            assert(joined@ =~= join(after, ", "@));
        }
        i = i + 1;
    }
    assert(pv.take(4) =~= pv);
    if n == 0 {
        push_line(out, true, true, text_of("Binaries: all five installed"));
    } else {
        push_line(out, true, false, text_of2("Binaries missing from PATH: ", joined.as_str()));
        push_line(out, false, true, text_of("re-run ./install.sh"));
    }
    assert(lines_view(out@) =~= lines_view(old(out)@) + binaries_section(
        missing_of(companion_programs(), string_views(installed@)),
    ));
}

/// The Bluetooth controller and the wake beacon.
pub open spec fn bluetooth_section(bt: Option<(bool, bool)>) -> Seq<(bool, bool, Seq<char>)> {
    match bt {
        Some((powered, advertising)) => seq![
            check(
                powered,
                "Bluetooth: controller "@ + (if powered {
                    "powered"@
                } else {
                    "present but off"@
                }),
            ),
        ] + if powered {
            seq![
                check(
                    advertising,
                    "BLE wake beacon: "@ + (if advertising {
                        "advertising (the phone can wake on this PC)"@
                    } else {
                        "not advertising yet — linkd retries with backoff; give it a minute"@
                    }),
                ),
            ]
        } else {
            seq![hint("bluetoothctl power on"@)]
        },
        None => seq![
            check(false, "Bluetooth: no controller found — wake-on-approach unavailable"@),
            hint("mDNS/UDP discovery still works; a BLE dongle restores auto-wake"@),
        ],
    }
}

fn bluetooth_lines(out: &mut Vec<ReportLine>, bt: Option<(bool, bool)>)
    ensures
        lines_view(final(out)@) == lines_view(old(out)@) + bluetooth_section(bt),
{
    match bt {
        Some((powered, advertising)) => {
            let state = if powered {
                "powered"
            } else {
                "present but off"
            };
            let t = text_of2("Bluetooth: controller ", state);
            push_line(out, true, powered, t);
            if powered {
                let a = if advertising {
                    text_of2("BLE wake beacon: ", "advertising (the phone can wake on this PC)")
                } else {
                    text_of2(
                        "BLE wake beacon: ",
                        "not advertising yet — linkd retries with backoff; give it a minute",
                    )
                };
                push_line(out, true, advertising, a);
            } else {
                push_line(out, false, true, text_of("bluetoothctl power on"));
            }
        },
        None => {
            push_line(
                out,
                true,
                false,
                text_of("Bluetooth: no controller found — wake-on-approach unavailable"),
            );
            push_line(
                out,
                false,
                true,
                text_of("mDNS/UDP discovery still works; a BLE dongle restores auto-wake"),
            );
        },
    }
    assert(lines_view(out@) =~= lines_view(old(out)@) + bluetooth_section(bt));
}

/// The programs the second screen needs on this desktop (`d` in lower
/// case), each with the package that brings it.
pub open spec fn screen_deps(d: Seq<char>, wayland: bool) -> Seq<(Seq<char>, Seq<char>)> {
    seq![("gst-launch-1.0"@, "gstreamer tools"@)] + (if contains_seq(d, "kde"@) {
        seq![("krfb-virtualmonitor"@, "krfb (KDE virtual monitor)"@)]
    } else {
        seq![]
    }) + (if contains_seq(d, "hyprland"@) || contains_seq(d, "sway"@) {
        seq![("wf-recorder"@, "wf-recorder"@)]
    } else {
        seq![]
    }) + (if !wayland {
        seq![("ffmpeg"@, "ffmpeg (X11 capture)"@)]
    } else {
        seq![]
    })
}

/// The line (and hint) for one dependency of the second screen.
pub open spec fn dep_line(dep: (Seq<char>, Seq<char>), installed: Seq<Seq<char>>) -> Seq<
    (bool, bool, Seq<char>),
> {
    if installed.contains(dep.0) {
        seq![check(true, "Second screen dependency: "@ + dep.1)]
    } else {
        seq![
            check(false, "Second screen dependency missing: "@ + dep.1 + " ("@ + dep.0 + ")"@),
            hint("re-run ./install.sh to install the packages for this desktop"@),
        ]
    }
}

/// The lines for the dependencies, in order.
pub open spec fn dep_lines(deps: Seq<(Seq<char>, Seq<char>)>, installed: Seq<Seq<char>>) -> Seq<
    (bool, bool, Seq<char>),
>
    decreases deps.len(),
{
    if deps.len() == 0 {
        seq![]
    } else {
        dep_lines(deps.drop_last(), installed) + dep_line(deps.last(), installed)
    }
}

/// The second screen: GNOME on X11 cannot host it, then each dependency.
pub open spec fn screen_section(d: Seq<char>, wayland: bool, installed: Seq<Seq<char>>) -> Seq<
    (bool, bool, Seq<char>),
> {
    (if contains_seq(d, "gnome"@) && !wayland {
        seq![
            check(false, "Second screen: GNOME on X11 cannot host a virtual monitor"@),
            hint("log into the \"GNOME\" (Wayland) session instead"@),
        ]
    } else {
        seq![]
    }) + dep_lines(screen_deps(d, wayland), installed)
}

/// The views of a list of (program, package) pairs.
pub open spec fn pairs_view(v: Seq<(&str, &str)>) -> Seq<(Seq<char>, Seq<char>)> {
    v.map_values(|p: (&str, &str)| (p.0@, p.1@))
}

fn push_pair(v: &mut Vec<(&'static str, &'static str)>, a: &'static str, b: &'static str)
    ensures
        pairs_view(final(v)@) == pairs_view(old(v)@) + seq![(a@, b@)],
{
    v.push((a, b));
    assert(pairs_view(v@) =~= pairs_view(old(v)@) + seq![(a@, b@)]);
}

fn dep_lines_of(out: &mut Vec<ReportLine>, deps: &[(&str, &str)], installed: &[String])
    ensures
        lines_view(final(out)@) == lines_view(old(out)@) + dep_lines(
            pairs_view(deps@),
            string_views(installed@),
        ),
{
    let ghost dv = pairs_view(deps@);
    let ghost inst = string_views(installed@);
    let mut i: usize = 0;
    while i < deps.len()
        invariant
            i <= deps@.len(),
            dv == pairs_view(deps@),
            inst == string_views(installed@),
            lines_view(out@) == lines_view(old(out)@) + dep_lines(dv.take(i as int), inst),
        decreases deps@.len() - i,
    {
        let (bin, label) = deps[i];
        assert(dv.take(i + 1).drop_last() =~= dv.take(i as int));
        assert(dv.take(i + 1).last() == (bin@, label@));
        let ghost before = lines_view(out@);
        if is_installed(installed, bin) {
            push_line(out, true, true, text_of2("Second screen dependency: ", label));
        } else {
            let mut t = text_of2("Second screen dependency missing: ", label);
            push_str_of(&mut t, " (");
            push_str_of(&mut t, bin);
            push_str_of(&mut t, ")");
            push_line(out, true, false, t);
            push_line(
                out,
                false,
                true,
                text_of("re-run ./install.sh to install the packages for this desktop"),
            );
        }
        assert(lines_view(out@) =~= before + dep_line((bin@, label@), inst));
        i = i + 1;
    }
    assert(dv.take(deps@.len() as int) =~= dv);
}

fn screen_lines(out: &mut Vec<ReportLine>, d: &str, wayland: bool, installed: &[String])
    ensures
        lines_view(final(out)@) == lines_view(old(out)@) + screen_section(
            d@,
            wayland,
            string_views(installed@),
        ),
{
    let dv = chars_of(d);
    let mut deps: Vec<(&'static str, &'static str)> = Vec::new();
    push_pair(&mut deps, "gst-launch-1.0", "gstreamer tools");
    if contains(dv.as_slice(), chars_of("gnome").as_slice()) && !wayland {
        push_line(
            out,
            true,
            false,
            text_of("Second screen: GNOME on X11 cannot host a virtual monitor"),
        );
        push_line(out, false, true, text_of("log into the \"GNOME\" (Wayland) session instead"));
    }
    if contains(dv.as_slice(), chars_of("kde").as_slice()) {
        push_pair(&mut deps, "krfb-virtualmonitor", "krfb (KDE virtual monitor)");
    }
    if contains(dv.as_slice(), chars_of("hyprland").as_slice()) || contains(
        dv.as_slice(),
        chars_of("sway").as_slice(),
    ) {
        push_pair(&mut deps, "wf-recorder", "wf-recorder");
    }
    if !wayland {
        push_pair(&mut deps, "ffmpeg", "ffmpeg (X11 capture)");
    }
    assert(pairs_view(deps@) =~= screen_deps(d@, wayland));
    dep_lines_of(out, deps.as_slice(), installed);
    assert(lines_view(out@) =~= lines_view(old(out)@) + screen_section(
        d@,
        wayland,
        string_views(installed@),
    ));
}

/// The players that can play the phone's audio, in order of preference.
pub open spec fn audio_players() -> Seq<Seq<char>> {
    seq!["pw-cat"@, "paplay"@, "aplay"@]
}

/// The first of `progs` that is installed.
pub open spec fn first_installed(progs: Seq<Seq<char>>, installed: Seq<Seq<char>>) -> Option<
    Seq<char>,
>
    decreases progs.len(),
{
    if progs.len() == 0 {
        None
    } else if installed.contains(progs[0]) {
        Some(progs[0])
    } else {
        first_installed(progs.drop_first(), installed)
    }
}

/// The player for the phone's audio.
pub open spec fn player_section(installed: Seq<Seq<char>>) -> Seq<(bool, bool, Seq<char>)> {
    match first_installed(audio_players(), installed) {
        Some(p) => seq![check(true, "Phone audio player: "@ + p)],
        None => seq![check(false, "Phone audio: no player found (pw-cat, paplay or aplay)"@)],
    }
}

fn player_lines(out: &mut Vec<ReportLine>, installed: &[String])
    ensures
        lines_view(final(out)@) == lines_view(old(out)@) + player_section(string_views(installed@)),
{
    let ghost inst = string_views(installed@);
    let ghost ps = audio_players();
    assert(ps.drop_first() =~= seq!["paplay"@, "aplay"@]);
    assert(ps.drop_first().drop_first() =~= seq!["aplay"@]);
    assert(ps.drop_first().drop_first().drop_first() =~= Seq::<Seq<char>>::empty());
    if is_installed(installed, "pw-cat") {
        push_line(out, true, true, text_of2("Phone audio player: ", "pw-cat"));
    } else if is_installed(installed, "paplay") {
        push_line(out, true, true, text_of2("Phone audio player: ", "paplay"));
    } else if is_installed(installed, "aplay") {
        push_line(out, true, true, text_of2("Phone audio player: ", "aplay"));
    } else {
        push_line(
            out,
            true,
            false,
            text_of("Phone audio: no player found (pw-cat, paplay or aplay)"),
        );
    }
    assert(lines_view(out@) =~= lines_view(old(out)@) + player_section(inst)) by {
        reveal_with_fuel(first_installed, 4);
    }
}

/// How input from the phone reaches the desktop: natively on GNOME under
/// Wayland, else through `/dev/uinput`.
pub open spec fn input_section(d: Seq<char>, wayland: bool, uinput_writable: bool) -> Seq<
    (bool, bool, Seq<char>),
> {
    if wayland && contains_seq(d, "gnome"@) {
        seq![check(true, "Input injection: native (Mutter remote desktop, no udev rule needed)"@)]
    } else {
        seq![
            check(
                uinput_writable,
                "Input injection: /dev/uinput "@ + (if uinput_writable {
                    "writable"@
                } else {
                    "not writable"@
                }),
            ),
        ] + if uinput_writable {
            seq![]
        } else {
            seq![hint("re-run ./install.sh (udev rule), then log out and back in"@)]
        }
    }
}

fn input_lines(out: &mut Vec<ReportLine>, d: &str, wayland: bool, uinput_writable: bool)
    ensures
        lines_view(final(out)@) == lines_view(old(out)@) + input_section(
            d@,
            wayland,
            uinput_writable,
        ),
{
    let dv = chars_of(d);
    if wayland && contains(dv.as_slice(), chars_of("gnome").as_slice()) {
        push_line(
            out,
            true,
            true,
            text_of("Input injection: native (Mutter remote desktop, no udev rule needed)"),
        );
    } else {
        let state = if uinput_writable {
            "writable"
        } else {
            "not writable"
        };
        push_line(out, true, uinput_writable, text_of2("Input injection: /dev/uinput ", state));
        if !uinput_writable {
            push_line(
                out,
                false,
                true,
                text_of("re-run ./install.sh (udev rule), then log out and back in"),
            );
        }
    }
    assert(lines_view(out@) =~= lines_view(old(out)@) + input_section(
        d@,
        wayland,
        uinput_writable,
    ));
}

/// The firewall, when `ufw` is installed and answered.
pub open spec fn firewall_section(ufw_status: Option<Seq<char>>) -> Seq<(bool, bool, Seq<char>)> {
    match ufw_status {
        None => seq![],
        Some(t) => if spec_firewall_blocks(t) {
            seq![
                check(false, "Firewall: ufw is active and 47100/47101 are not listed"@),
                hint(
                    "sudo ufw allow 47100/udp && sudo ufw allow 47100/tcp && sudo ufw allow 47101/udp"@,
                ),
            ]
        } else {
            seq![check(true, "Firewall: ufw not blocking Linux Link"@)]
        },
    }
}

/// The view of an optional string.
pub open spec fn opt_view(o: Option<String>) -> Option<Seq<char>> {
    match o {
        Some(s) => Some(s@),
        None => None,
    }
}

fn firewall_lines(out: &mut Vec<ReportLine>, ufw_status: &Option<String>)
    ensures
        lines_view(final(out)@) == lines_view(old(out)@) + firewall_section(opt_view(*ufw_status)),
{
    match ufw_status {
        None => {},
        Some(t) => {
            if firewall_blocks(t.as_str()) {
                push_line(
                    out,
                    true,
                    false,
                    text_of("Firewall: ufw is active and 47100/47101 are not listed"),
                );
                push_line(
                    out,
                    false,
                    true,
                    text_of(
                        "sudo ufw allow 47100/udp && sudo ufw allow 47100/tcp && sudo ufw allow 47101/udp",
                    ),
                );
            } else {
                push_line(out, true, true, text_of("Firewall: ufw not blocking Linux Link"));
            }
        },
    }
    assert(lines_view(out@) =~= lines_view(old(out)@) + firewall_section(opt_view(*ufw_status)));
}

/// The whole report for what was found.
pub open spec fn spec_report(f: Facts) -> Seq<(bool, bool, Seq<char>)> {
    let d = to_lower(f.desktop@);
    let inst = string_views(f.installed@);
    desktop_section(f.desktop@, f.wayland) + service_section(daemon_view(f.daemon))
        + binaries_section(missing_of(companion_programs(), inst)) + bluetooth_section(f.bluetooth)
        + screen_section(d, f.wayland, inst) + player_section(inst) + input_section(
        d,
        f.wayland,
        f.uinput_writable,
    ) + firewall_section(opt_view(f.ufw_status))
}

/// The commands whose presence on `PATH` the report looks at.
pub open spec fn spec_probed_commands() -> Seq<Seq<char>> {
    companion_programs() + seq![
        "gst-launch-1.0"@,
        "krfb-virtualmonitor"@,
        "wf-recorder"@,
        "ffmpeg"@,
    ] + audio_players() + seq!["ufw"@]
}

/// The commands whose presence on `PATH` the report looks at (see
/// `spec_probed_commands`).
pub fn probed_commands() -> (v: Vec<&'static str>)
    ensures
        v@.map_values(|c: &str| c@) == spec_probed_commands(),
{
    let v: Vec<&'static str> = vec![
        "linux-link-gui",
        "linux-link-pair",
        "linux-link-settings",
        "linux-link-message",
        "gst-launch-1.0",
        "krfb-virtualmonitor",
        "wf-recorder",
        "ffmpeg",
        "pw-cat",
        "paplay",
        "aplay",
        "ufw",
    ];
    assert(v@.map_values(|c: &str| c@) =~= spec_probed_commands());
    v
}

/// The checks and hints of the self-check, in the order they are printed.
pub fn report(f: &Facts) -> (r: Vec<ReportLine>)
    ensures
        lines_view(r@) == spec_report(*f),
{
    let mut out: Vec<ReportLine> = Vec::new();
    let d = lowercase(f.desktop.as_str());
    desktop_lines(&mut out, f.desktop.as_str(), f.wayland);
    service_lines(&mut out, &f.daemon);
    binaries_lines(&mut out, f.installed.as_slice());
    bluetooth_lines(&mut out, f.bluetooth);
    screen_lines(&mut out, d.as_str(), f.wayland, f.installed.as_slice());
    player_lines(&mut out, f.installed.as_slice());
    input_lines(&mut out, d.as_str(), f.wayland, f.uinput_writable);
    firewall_lines(&mut out, &f.ufw_status);
    assert(lines_view(out@) =~= spec_report(*f));
    out
}

} // verus!
