//! Global keyboard shortcuts, written into the configuration of the desktop
//! the user runs, reversibly: named custom keybindings on GNOME, a desktop
//! entry per shortcut on KDE Plasma, a marked block in `hyprland.conf`.

use vstd::prelude::*;
use crate::text::{
    chars_of, contains, has_prefix, join_lines, drop_empty, drop_empty_of, lines, lines_of, lowercase, push_chars,
    push_str_of, replace_all, replace_of, split_chars, split_on, strip_both, strip_both_of,
    strip_lead, strip_lead_of, strip_trail, strip_trail_of, string_of, to_lower, trim, trim_end,
    trim_of, views, contains_seq, lemma_trim_drop_ws, lemma_trim_id,
};
use crate::order::same_chars;

verus! {

/// One shortcut: an id used in configuration paths, a label, the keys in
/// GNOME, KDE and Hyprland syntax, and the command (`{bin}` stands for the
/// directory of the binaries).
pub struct Shortcut {
    pub id: &'static str,
    pub name: &'static str,
    pub binding: &'static str,
    pub kde: &'static str,
    pub hypr_mods: &'static str,
    pub hypr_key: &'static str,
    pub command: &'static str,
}

/// The three shortcuts: send the clipboard, send a file, play/pause.
pub open spec fn table() -> Seq<Shortcut> {
    seq![
        Shortcut {
            id: "linuxlink-clipboard",
            name: "Linux Link: send the clipboard to the phone",
            binding: "<Super><Shift>v",
            kde: "Meta+Shift+V",
            hypr_mods: "SUPER SHIFT",
            hypr_key: "V",
            command: "{bin}/linkd send-url",
        },
        Shortcut {
            id: "linuxlink-sendfile",
            name: "Linux Link: send a file to the phone",
            binding: "<Super><Shift>b",
            kde: "Meta+Shift+B",
            hypr_mods: "SUPER SHIFT",
            hypr_key: "B",
            command: "{bin}/linkd send-file --pick",
        },
        Shortcut {
            id: "linuxlink-media",
            name: "Linux Link: play/pause on the phone",
            binding: "<Super><Shift>space",
            kde: "Meta+Shift+Space",
            hypr_mods: "SUPER SHIFT",
            hypr_key: "SPACE",
            command: "{bin}/linkd media play_pause",
        },
    ]
}

/// The shortcuts this program registers (see `table`).
pub fn shortcuts() -> (v: Vec<Shortcut>)
    ensures
        v@ == table(),
{
    let v = vec![
        Shortcut {
            id: "linuxlink-clipboard",
            name: "Linux Link: send the clipboard to the phone",
            binding: "<Super><Shift>v",
            kde: "Meta+Shift+V",
            hypr_mods: "SUPER SHIFT",
            hypr_key: "V",
            command: "{bin}/linkd send-url",
        },
        Shortcut {
            id: "linuxlink-sendfile",
            name: "Linux Link: send a file to the phone",
            binding: "<Super><Shift>b",
            kde: "Meta+Shift+B",
            hypr_mods: "SUPER SHIFT",
            hypr_key: "B",
            command: "{bin}/linkd send-file --pick",
        },
        Shortcut {
            id: "linuxlink-media",
            name: "Linux Link: play/pause on the phone",
            binding: "<Super><Shift>space",
            kde: "Meta+Shift+Space",
            hypr_mods: "SUPER SHIFT",
            hypr_key: "SPACE",
            command: "{bin}/linkd media play_pause",
        },
    ];
    assert(v@ =~= table());
    v
}

/// The desktop whose configuration receives the shortcuts.
#[derive(Debug, Clone, Copy, PartialEq, Eq)]
pub enum Desktop {
    Gnome,
    Kde,
    Hyprland,
    Unknown,
}

/// The desktop, from `XDG_CURRENT_DESKTOP` (compared in lowercase) and
/// whether `HYPRLAND_INSTANCE_SIGNATURE` is set.
pub open spec fn spec_detect(lower: Seq<char>, hyprland_signature: bool) -> Desktop {
    if contains_seq(lower, "hyprland"@) {
        Desktop::Hyprland
    } else if contains_seq(lower, "kde"@) || contains_seq(lower, "plasma"@) {
        Desktop::Kde
    } else if contains_seq(lower, "gnome"@) || contains_seq(lower, "zorin"@) || contains_seq(
        lower,
        "unity"@,
    ) || contains_seq(lower, "cinnamon"@) || contains_seq(lower, "budgie"@) || contains_seq(
        lower,
        "pantheon"@,
    ) {
        Desktop::Gnome
    } else if hyprland_signature {
        Desktop::Hyprland
    } else {
        Desktop::Unknown
    }
}

/// Whether `hay` contains the text of `needle`.
fn has(hay: &[char], needle: &str) -> (b: bool)
    ensures
        b == contains_seq(hay@, needle@),
{
    let n = chars_of(needle);
    contains(hay, n.as_slice())
}

/// The desktop the user runs (see `spec_detect`).
pub fn detect(current_desktop: &str, hyprland_signature: bool) -> (d: Desktop)
    ensures
        d == spec_detect(to_lower(current_desktop@), hyprland_signature),
{
    let low = lowercase(current_desktop);
    let l = chars_of(low.as_str());
    if has(l.as_slice(), "hyprland") {
        Desktop::Hyprland
    } else if has(l.as_slice(), "kde") || has(l.as_slice(), "plasma") {
        Desktop::Kde
    } else if has(l.as_slice(), "gnome") || has(l.as_slice(), "zorin") || has(l.as_slice(), "unity")
        || has(l.as_slice(), "cinnamon") || has(l.as_slice(), "budgie") || has(
        l.as_slice(),
        "pantheon",
    ) {
        Desktop::Gnome
    } else if hyprland_signature {
        Desktop::Hyprland
    } else {
        Desktop::Unknown
    }
}

/// The desktop's name, as messages show it.
pub fn desktop_name(d: Desktop) -> (s: &'static str)
    ensures
        s@ == match d {
            Desktop::Gnome => "GNOME"@,
            Desktop::Kde => "KDE Plasma"@,
            Desktop::Hyprland => "Hyprland"@,
            Desktop::Unknown => "this desktop"@,
        },
{
    match d {
        Desktop::Gnome => "GNOME",
        Desktop::Kde => "KDE Plasma",
        Desktop::Hyprland => "Hyprland",
        Desktop::Unknown => "this desktop",
    }
}

/// The command of a shortcut with `{bin}` replaced by `bin`.
pub open spec fn spec_command(s: Shortcut, bin: Seq<char>) -> Seq<char> {
    replace_all(s.command@, "{bin}"@, bin)
}

/// The command a shortcut runs, for binaries in `bin`.
pub fn command_of(s: &Shortcut, bin: &str) -> (c: String)
    ensures
        c@ == spec_command(*s, bin@),
{
    let cmd = chars_of(s.command);
    let pat = chars_of("{bin}");
    proof {
        reveal_strlit("{bin}");
    }
    let b = chars_of(bin);
    let r = replace_of(cmd.as_slice(), pat.as_slice(), b.as_slice());
    string_of(r.as_slice())
}

/// The help text for adding the shortcuts by hand: one line per shortcut,
/// its KDE-style keys and its command.
pub open spec fn help_text(ts: Seq<Shortcut>, bin: Seq<char>) -> Seq<char>
    decreases ts.len(),
{
    if ts.len() == 0 {
        seq![]
    } else {
        let s = ts.last();
        help_text(ts.drop_last(), bin) + "  "@ + s.kde@ + "  →  "@ + spec_command(s, bin) + "\n"@
    }
}

/// The shortcuts as text, for a desktop this program cannot configure.
pub fn manual_help(bin: &str) -> (out: String)
    ensures
        out@ == help_text(table(), bin@),
{
    let ts = shortcuts();
    let mut out = String::new();
    let mut i: usize = 0;
    assert(ts@.take(0) =~= Seq::<Shortcut>::empty());
    while i < ts.len()
        invariant
            i <= ts@.len(),
            ts@ == table(),
            out@ == help_text(ts@.take(i as int), bin@),
        decreases ts@.len() - i,
    {
        let s = &ts[i];
        push_str_of(&mut out, "  ");
        push_str_of(&mut out, s.kde);
        push_str_of(&mut out, "  →  ");
        let c = command_of(s, bin);
        push_str_of(&mut out, c.as_str());
        push_str_of(&mut out, "\n");
        assert(ts@.take(i + 1).drop_last() =~= ts@.take(i as int));
        assert(ts@.take(i + 1).last() == *s);
        i = i + 1;
    }
    assert(ts@.take(ts@.len() as int) =~= ts@);
    out
}

/// On a desktop it knows, the shortcuts can be installed; on another, the
/// error says so and lists them for adding by hand.
pub fn install(d: Desktop, bin: &str) -> (r: Result<(), String>)
    ensures
        d != Desktop::Unknown ==> r is Ok,
        d == Desktop::Unknown ==> (r matches Err(m) && m@
            == "unrecognised desktop — add the shortcuts by hand:\n"@ + help_text(table(), bin@)),
{
    match d {
        Desktop::Unknown => {
            let mut m = String::new();
            push_str_of(&mut m, "unrecognised desktop — add the shortcuts by hand:\n");
            let h = manual_help(bin);
            push_str_of(&mut m, h.as_str());
            Err(m)
        },
        _ => Ok(()),
    }
}

/// Whether there are shortcuts of ours to take out on desktop `d`: on an
/// unknown desktop none were ever written.
pub fn remove(d: Desktop) -> (r: bool)
    ensures
        r == (d != Desktop::Unknown),
{
    match d {
        Desktop::Unknown => false,
        _ => true,
    }
}

// ------------------------------------------------------------------ GNOME

/// The gsettings schema of the media keys.
pub const MEDIA_KEYS: &'static str = "org.gnome.settings-daemon.plugins.media-keys";

/// The gsettings schema of one custom keybinding.
pub const CUSTOM_SCHEMA: &'static str = "org.gnome.settings-daemon.plugins.media-keys.custom-keybinding";

/// The dconf directory of the custom keybindings.
pub const CUSTOM_ROOT: &'static str = "/org/gnome/settings-daemon/plugins/media-keys/custom-keybindings";

/// The items of a GVariant string array as `gsettings get` prints it:
/// `['/a/', '/b/']`, or `@as []` when empty.
pub open spec fn gvariant_items(raw: Seq<char>) -> Seq<Seq<char>> {
    let a = trim(strip_lead(trim(raw), "@as"@));
    let b = strip_trail(strip_lead(a, seq!['[']), ']');
    drop_empty(
        split_on(b, ',').map_values(
            |p: Seq<char>| strip_both(strip_both(trim(p), '\''), '"'),
        ),
    )
}

/// The items of a GVariant string array (see `gvariant_items`).
pub fn parse_gvariant_list(raw: &str) -> (items: Vec<String>)
    ensures
        items@.map_values(|s: String| s@) == gvariant_items(raw@),
{
    let v = chars_of(raw);
    let t = trim_of(v.as_slice());
    let at = chars_of("@as");
    let a = trim_of(strip_lead_of(t.as_slice(), at.as_slice()).as_slice());
    let open_bracket = vec!['['];
    assert(open_bracket@ =~= seq!['[']);
    let b = strip_trail_of(strip_lead_of(a.as_slice(), open_bracket.as_slice()).as_slice(), ']');
    let parts = split_chars(b.as_slice(), ',');
    let ghost pv = views(parts@);
    let ghost f = |p: Seq<char>| strip_both(strip_both(trim(p), '\''), '"');
    let mut cleaned: Vec<Vec<char>> = Vec::new();
    let mut i: usize = 0;
    while i < parts.len()
        invariant
            i <= parts@.len(),
            pv == views(parts@),
            f == (|p: Seq<char>| strip_both(strip_both(trim(p), '\''), '"')),
            views(cleaned@) == pv.take(i as int).map_values(f),
        decreases parts@.len() - i,
    {
        let c = strip_both_of(
            strip_both_of(trim_of(parts[i].as_slice()).as_slice(), '\'').as_slice(),
            '"',
        );
        let ghost before = views(cleaned@);
        cleaned.push(c);
        assert(views(cleaned@) =~= before.push(c@));
        assert(pv.take(i + 1).map_values(f) =~= pv.take(i as int).map_values(f).push(f(pv[i as int])));
        i = i + 1;
    }
    assert(pv.take(parts@.len() as int) =~= pv);
    let kept = drop_empty_of(cleaned);
    let mut out: Vec<String> = Vec::new();
    let mut k: usize = 0;
    while k < kept.len()
        invariant
            k <= kept@.len(),
            out@.map_values(|s: String| s@) == views(kept@).take(k as int),
        decreases kept@.len() - k,
    {
        let s = string_of(kept[k].as_slice());
        let ghost before = out@.map_values(|s: String| s@);
        out.push(s);
        assert(out@.map_values(|s: String| s@) =~= before.push(s@));
        assert(views(kept@).take(k + 1) =~= views(kept@).take(k as int).push(kept@[k as int]@));
        k = k + 1;
    }
    assert(views(kept@).take(kept@.len() as int) =~= views(kept@));
    out
}

/// The items quoted and joined: `'a', 'b'`.
pub open spec fn quoted_join(items: Seq<Seq<char>>) -> Seq<char>
    decreases items.len(),
{
    if items.len() == 0 {
        seq![]
    } else if items.len() == 1 {
        seq!['\''] + items[0] + seq!['\'']
    } else {
        quoted_join(items.drop_last()) + seq![',', ' ', '\''] + items.last() + seq!['\'']
    }
}

/// A GVariant string array as `gsettings set` takes it.
pub open spec fn gvariant_text(items: Seq<Seq<char>>) -> Seq<char> {
    if items.len() == 0 {
        "@as []"@
    } else {
        seq!['['] + quoted_join(items) + seq![']']
    }
}

/// A GVariant string array holding `items` (see `gvariant_text`).
pub fn format_gvariant_list(items: &[String]) -> (s: String)
    ensures
        s@ == gvariant_text(items@.map_values(|x: String| x@)),
{
    let ghost iv = items@.map_values(|x: String| x@);
    if items.len() == 0 {
        return string_of(chars_of("@as []").as_slice());
    }
    let mut s = String::new();
    push_str_of(&mut s, "[");
    let mut i: usize = 0;
    proof {
        reveal_strlit("[");
    }
    assert(s@ =~= seq!['['] + quoted_join(iv.take(0)));
    while i < items.len()
        invariant
            i <= items@.len(),
            items@.len() > 0,
            iv == items@.map_values(|x: String| x@),
            s@ == seq!['['] + quoted_join(iv.take(i as int)),
        decreases items@.len() - i,
    {
        let ghost before = s@;
        if i > 0 {
            push_chars(&mut s, &[',', ' ']);
        }
        push_char_q(&mut s);
        push_str_of(&mut s, items[i].as_str());
        push_char_q(&mut s);
        proof {
            assert(iv.take(i + 1).drop_last() =~= iv.take(i as int));
            assert(iv.take(i + 1).last() == items@[i as int]@);
            if i == 0 {
                assert(iv.take(1)[0] == items@[0]@);
                assert(s@ =~= seq!['['] + quoted_join(iv.take(i + 1)));
            } else {
                assert(s@ =~= seq!['['] + quoted_join(iv.take(i + 1)));
            }
        }
        i = i + 1;
    }
    assert(iv.take(items@.len() as int) =~= iv);
    crate::text::push_char(&mut s, ']');
    s
}

/// Appends a single quote.
fn push_char_q(s: &mut String)
    ensures
        final(s)@ == old(s)@.push('\''),
{
    crate::text::push_char(s, '\'');
}

/// The dconf path of a shortcut's custom keybinding.
pub open spec fn gnome_path(s: Shortcut) -> Seq<char> {
    CUSTOM_ROOT@ + seq!['/'] + s.id@ + seq!['/']
}

/// The dconf path of a shortcut's custom keybinding.
pub fn gnome_path_of(s: &Shortcut) -> (p: String)
    ensures
        p@ == gnome_path(*s),
{
    let mut p = String::new();
    push_str_of(&mut p, CUSTOM_ROOT);
    crate::text::push_char(&mut p, '/');
    push_str_of(&mut p, s.id);
    crate::text::push_char(&mut p, '/');
    p
}

/// One `gsettings` call: `set SCHEMA[:PATH] KEY VALUE`, or `reset
/// SCHEMA[:PATH] KEY`.
#[derive(Debug, Clone)]
pub enum GsCommand {
    Change { schema: String, key: String, value: String },
    Reset { schema: String, key: String },
}

impl View for GsCommand {
    type V = (bool, Seq<char>, Seq<char>, Seq<char>);

    /// Whether it sets, the schema, the key, the value (empty for a reset).
    open spec fn view(&self) -> (bool, Seq<char>, Seq<char>, Seq<char>) {
        match self {
            GsCommand::Change { schema, key, value } => (true, schema@, key@, value@),
            GsCommand::Reset { schema, key } => (false, schema@, key@, seq![]),
        }
    }
}

/// `list` with `path` added at the end unless it is there already.
pub open spec fn add_missing(list: Seq<Seq<char>>, path: Seq<char>) -> Seq<Seq<char>> {
    if list.contains(path) {
        list
    } else {
        list.push(path)
    }
}

/// The keybinding list after adding the paths of the shortcuts `ts`.
pub open spec fn with_paths(list: Seq<Seq<char>>, ts: Seq<Shortcut>) -> Seq<Seq<char>>
    decreases ts.len(),
{
    if ts.len() == 0 {
        list
    } else {
        add_missing(with_paths(list, ts.drop_last()), gnome_path(ts.last()))
    }
}

/// The three settings of a shortcut's keybinding: name, command, binding.
pub open spec fn shortcut_sets(s: Shortcut, bin: Seq<char>) -> Seq<(bool, Seq<char>, Seq<char>, Seq<char>)> {
    let target = CUSTOM_SCHEMA@ + seq![':'] + gnome_path(s);
    seq![
        (true, target, "name"@, s.name@),
        (true, target, "command"@, spec_command(s, bin)),
        (true, target, "binding"@, s.binding@),
    ]
}

/// The settings of every shortcut of `ts`, in order.
pub open spec fn all_sets(ts: Seq<Shortcut>, bin: Seq<char>) -> Seq<(bool, Seq<char>, Seq<char>, Seq<char>)>
    decreases ts.len(),
{
    if ts.len() == 0 {
        seq![]
    } else {
        all_sets(ts.drop_last(), bin) + shortcut_sets(ts.last(), bin)
    }
}

/// What installing on GNOME does, given the current keybinding list: the
/// settings of each shortcut, then the list with our paths added.
pub open spec fn gnome_install_cmds(list: Seq<Seq<char>>, bin: Seq<char>) -> Seq<
    (bool, Seq<char>, Seq<char>, Seq<char>),
> {
    all_sets(table(), bin).push(
        (true, MEDIA_KEYS@, "custom-keybindings"@, gvariant_text(with_paths(list, table()))),
    )
}

/// Whether `v` holds an element equal to `x`.
fn holds(v: &Vec<String>, x: &String) -> (b: bool)
    ensures
        b == v@.map_values(|s: String| s@).contains(x@),
{
    let ghost sv = v@.map_values(|s: String| s@);
    let xc = chars_of(x.as_str());
    let mut i: usize = 0;
    while i < v.len()
        invariant
            i <= v@.len(),
            xc@ == x@,
            sv == v@.map_values(|s: String| s@),
            forall|j: int| 0 <= j < i ==> sv[j] != x@,
        decreases v@.len() - i,
    {
        let c = chars_of(v[i].as_str());
        if same_chars(c.as_slice(), xc.as_slice()) {
            assert(sv[i as int] == x@);
            return true;
        }
        i = i + 1;
    }
    false
}

/// A `Set` command.
fn set_cmd(schema: &String, key: &str, value: String) -> (c: GsCommand)
    ensures
        c@ == (true, schema@, key@, value@),
{
    let mut k = String::new();
    push_str_of(&mut k, key);
    assert(k@ =~= key@);
    GsCommand::Change { schema: string_of(chars_of(schema.as_str()).as_slice()), key: k, value }
}

/// The `gsettings` calls that install the shortcuts on GNOME, given the
/// current list of custom keybindings (see `gnome_install_cmds`). Our own
/// named paths are used, so a shortcut of the user's is never touched.
pub fn gnome_install(list: &[String], bin: &str) -> (cmds: Vec<GsCommand>)
    ensures
        cmds@.map_values(|c: GsCommand| c@) == gnome_install_cmds(
            list@.map_values(|s: String| s@),
            bin@,
        ),
{
    let ts = shortcuts();
    let ghost lv = list@.map_values(|s: String| s@);
    let mut l: Vec<String> = Vec::new();
    let mut k: usize = 0;
    while k < list.len()
        invariant
            k <= list@.len(),
            lv == list@.map_values(|s: String| s@),
            l@.map_values(|s: String| s@) == lv.take(k as int),
        decreases list@.len() - k,
    {
        let ghost before = l@.map_values(|s: String| s@);
        let c = string_of(chars_of(list[k].as_str()).as_slice());
        l.push(c);
        assert(l@.map_values(|s: String| s@) =~= before.push(c@));
        assert(lv.take(k + 1) =~= lv.take(k as int).push(lv[k as int]));
        k = k + 1;
    }
    assert(lv.take(list@.len() as int) =~= lv);
    let mut cmds: Vec<GsCommand> = Vec::new();
    let mut i: usize = 0;
    assert(ts@.take(0) =~= Seq::<Shortcut>::empty());
    while i < ts.len()
        invariant
            i <= ts@.len(),
            ts@ == table(),
            l@.map_values(|s: String| s@) == with_paths(lv, ts@.take(i as int)),
            cmds@.map_values(|c: GsCommand| c@) == all_sets(ts@.take(i as int), bin@),
        decreases ts@.len() - i,
    {
        let s = &ts[i];
        let path = gnome_path_of(s);
        if !holds(&l, &path) {
            let ghost before = l@.map_values(|s: String| s@);
            let p2 = string_of(chars_of(path.as_str()).as_slice());
            l.push(p2);
            assert(l@.map_values(|s: String| s@) =~= before.push(path@));
        }
        let mut target = String::new();
        push_str_of(&mut target, CUSTOM_SCHEMA);
        crate::text::push_char(&mut target, ':');
        push_str_of(&mut target, path.as_str());
        let mut nm = String::new();
        push_str_of(&mut nm, s.name);
        let c1 = set_cmd(&target, "name", nm);
        let c2 = set_cmd(&target, "command", command_of(s, bin));
        let mut bd = String::new();
        push_str_of(&mut bd, s.binding);
        let c3 = set_cmd(&target, "binding", bd);
        let ghost before = cmds@.map_values(|c: GsCommand| c@);
        cmds.push(c1);
        cmds.push(c2);
        cmds.push(c3);
        proof {
            assert(ts@.take(i + 1).drop_last() =~= ts@.take(i as int));
            assert(ts@.take(i + 1).last() == *s);
            assert(target@ =~= CUSTOM_SCHEMA@ + seq![':'] + gnome_path(*s));
            assert(cmds@.map_values(|c: GsCommand| c@) =~= before + shortcut_sets(*s, bin@));
        }
        i = i + 1;
    }
    assert(ts@.take(ts@.len() as int) =~= ts@);
    let text = format_gvariant_list(l.as_slice());
    let mk = string_of(chars_of(MEDIA_KEYS).as_slice());
    let last = set_cmd(&mk, "custom-keybindings", text);
    let ghost before = cmds@.map_values(|c: GsCommand| c@);
    cmds.push(last);
    assert(cmds@.map_values(|c: GsCommand| c@) =~= before.push(last@));
    cmds
}

/// The keybinding paths of `list` that belong to none of our shortcuts
/// (whose path contains no shortcut id), in order.
pub open spec fn foreign_paths(list: Seq<Seq<char>>) -> Seq<Seq<char>>
    decreases list.len(),
{
    if list.len() == 0 {
        seq![]
    } else {
        let r = foreign_paths(list.drop_last());
        if ours(list.last()) {
            r
        } else {
            r.push(list.last())
        }
    }
}

/// The path mentions the id of one of our shortcuts.
pub open spec fn ours(p: Seq<char>) -> bool {
    exists|i: int| 0 <= i < table().len() && contains_seq(p, table()[i].id@)
}

/// The resets of a shortcut's keybinding: binding, command, name.
pub open spec fn shortcut_resets(s: Shortcut) -> Seq<(bool, Seq<char>, Seq<char>, Seq<char>)> {
    let target = CUSTOM_SCHEMA@ + seq![':'] + gnome_path(s);
    seq![
        (false, target, "binding"@, seq![]),
        (false, target, "command"@, seq![]),
        (false, target, "name"@, seq![]),
    ]
}

/// The resets of every shortcut of `ts`, in order.
pub open spec fn all_resets(ts: Seq<Shortcut>) -> Seq<(bool, Seq<char>, Seq<char>, Seq<char>)>
    decreases ts.len(),
{
    if ts.len() == 0 {
        seq![]
    } else {
        all_resets(ts.drop_last()) + shortcut_resets(ts.last())
    }
}

/// What removing from GNOME does: the list without our paths, then every
/// value of ours reset so that a reinstall starts clean.
pub open spec fn gnome_remove_cmds(list: Seq<Seq<char>>) -> Seq<(bool, Seq<char>, Seq<char>, Seq<char>)> {
    seq![(true, MEDIA_KEYS@, "custom-keybindings"@, gvariant_text(foreign_paths(list)))] + all_resets(
        table(),
    )
}

/// Whether path `p` mentions one of our shortcut ids.
fn is_ours(p: &[char]) -> (b: bool)
    ensures
        b == ours(p@),
{
    let ts = shortcuts();
    let mut i: usize = 0;
    while i < ts.len()
        invariant
            i <= ts@.len(),
            ts@ == table(),
            forall|j: int| 0 <= j < i ==> !contains_seq(p@, #[trigger] table()[j].id@),
        decreases ts@.len() - i,
    {
        if has(p, ts[i].id) {
            return true;
        }
        i = i + 1;
    }
    false
}

/// A `Reset` command.
fn reset_cmd(schema: &String, key: &str) -> (c: GsCommand)
    ensures
        c@ == (false, schema@, key@, Seq::<char>::empty()),
{
    let mut k = String::new();
    push_str_of(&mut k, key);
    assert(k@ =~= key@);
    GsCommand::Reset { schema: string_of(chars_of(schema.as_str()).as_slice()), key: k }
}

/// The `gsettings` calls that take our shortcuts out of GNOME, given the
/// current list of custom keybindings (see `gnome_remove_cmds`); the
/// user's own keybindings stay, in their order.
pub fn gnome_remove(list: &[String]) -> (cmds: Vec<GsCommand>)
    ensures
        cmds@.map_values(|c: GsCommand| c@) == gnome_remove_cmds(list@.map_values(|s: String| s@)),
{
    let ghost lv = list@.map_values(|s: String| s@);
    let mut kept: Vec<String> = Vec::new();
    let mut k: usize = 0;
    assert(lv.take(0) =~= Seq::<Seq<char>>::empty());
    while k < list.len()
        invariant
            k <= list@.len(),
            lv == list@.map_values(|s: String| s@),
            kept@.map_values(|s: String| s@) == foreign_paths(lv.take(k as int)),
        decreases list@.len() - k,
    {
        let c = chars_of(list[k].as_str());
        assert(lv.take(k + 1).drop_last() =~= lv.take(k as int));
        assert(lv.take(k + 1).last() == list@[k as int]@);
        if !is_ours(c.as_slice()) {
            let ghost before = kept@.map_values(|s: String| s@);
            let s = string_of(c.as_slice());
            kept.push(s);
            assert(kept@.map_values(|s: String| s@) =~= before.push(s@));
        }
        k = k + 1;
    }
    assert(lv.take(list@.len() as int) =~= lv);
    let mk = string_of(chars_of(MEDIA_KEYS).as_slice());
    let text = format_gvariant_list(kept.as_slice());
    let mut cmds: Vec<GsCommand> = Vec::new();
    cmds.push(set_cmd(&mk, "custom-keybindings", text));
    let ts = shortcuts();
    let mut i: usize = 0;
    assert(ts@.take(0) =~= Seq::<Shortcut>::empty());
    let ghost first = cmds@.map_values(|c: GsCommand| c@);
    assert(first =~= seq![(true, MEDIA_KEYS@, "custom-keybindings"@, gvariant_text(foreign_paths(lv)))]);
    while i < ts.len()
        invariant
            i <= ts@.len(),
            ts@ == table(),
            cmds@.map_values(|c: GsCommand| c@) == first + all_resets(ts@.take(i as int)),
        decreases ts@.len() - i,
    {
        let s = &ts[i];
        let path = gnome_path_of(s);
        let mut target = String::new();
        push_str_of(&mut target, CUSTOM_SCHEMA);
        crate::text::push_char(&mut target, ':');
        push_str_of(&mut target, path.as_str());
        let ghost before = cmds@.map_values(|c: GsCommand| c@);
        cmds.push(reset_cmd(&target, "binding"));
        cmds.push(reset_cmd(&target, "command"));
        cmds.push(reset_cmd(&target, "name"));
        proof {
            assert(ts@.take(i + 1).drop_last() =~= ts@.take(i as int));
            assert(ts@.take(i + 1).last() == *s);
            assert(target@ =~= CUSTOM_SCHEMA@ + seq![':'] + gnome_path(*s));
            assert(cmds@.map_values(|c: GsCommand| c@) =~= before + shortcut_resets(*s));
        }
        i = i + 1;
    }
    assert(ts@.take(ts@.len() as int) =~= ts@);
    cmds
}

/// Our shortcuts are registered on GNOME: every id appears in some path of
/// the keybinding list.
pub open spec fn gnome_registered(list: Seq<Seq<char>>) -> bool {
    forall|i: int| 0 <= i < table().len() ==> #[trigger] id_listed(list, table()[i].id@)
}

/// Some path of `list` mentions `id`.
pub open spec fn id_listed(list: Seq<Seq<char>>, id: Seq<char>) -> bool {
    exists|j: int| 0 <= j < list.len() && contains_seq(list[j], id)
}

/// Whether our shortcuts appear in the GNOME keybinding list.
pub fn gnome_installed(list: &[String]) -> (b: bool)
    ensures
        b == gnome_registered(list@.map_values(|s: String| s@)),
{
    let ghost lv = list@.map_values(|s: String| s@);
    let ts = shortcuts();
    let mut i: usize = 0;
    while i < ts.len()
        invariant
            i <= ts@.len(),
            ts@ == table(),
            lv == list@.map_values(|s: String| s@),
            forall|m: int| 0 <= m < i ==> #[trigger] id_listed(lv, table()[m].id@),
        decreases ts@.len() - i,
    {
        let mut found = false;
        let mut k: usize = 0;
        while k < list.len()
            invariant
                k <= list@.len(),
                ts@ == table(),
                i < ts@.len(),
                lv == list@.map_values(|s: String| s@),
                found ==> id_listed(lv, table()[i as int].id@),
                !found ==> forall|j: int| 0 <= j < k ==> !contains_seq(lv[j], table()[i as int].id@),
            decreases list@.len() - k,
        {
            let c = chars_of(list[k].as_str());
            assert(c@ == lv[k as int]);
            assert(ts@[i as int].id@ == table()[i as int].id@);
            if has(c.as_slice(), ts[i].id) {
                found = true;
                assert(contains_seq(lv[k as int], table()[i as int].id@));
            }
            k = k + 1;
        }
        if !found {
            assert(!id_listed(lv, table()[i as int].id@));
            return false;
        }
        i = i + 1;
    }
    assert(table().len() == 3);
    true
}

// -------------------------------------------------------------------- KDE

/// The desktop entry that carries a shortcut for KDE's kglobalaccel.
pub open spec fn kde_entry_text(s: Shortcut, bin: Seq<char>) -> Seq<char> {
    "[Desktop Entry]\nType=Application\nName="@ + s.name@ + "\nExec="@ + spec_command(s, bin)
        + "\nIcon=linux-link\nTerminal=false\nNoDisplay=true\nX-KDE-Shortcuts="@ + s.kde@ + "\n"@
}

/// The desktop entry of a shortcut (see `kde_entry_text`).
pub fn kde_entry(s: &Shortcut, bin: &str) -> (e: String)
    ensures
        e@ == kde_entry_text(*s, bin@),
{
    let mut e = String::new();
    push_str_of(&mut e, "[Desktop Entry]\nType=Application\nName=");
    push_str_of(&mut e, s.name);
    push_str_of(&mut e, "\nExec=");
    let c = command_of(s, bin);
    push_str_of(&mut e, c.as_str());
    push_str_of(&mut e, "\nIcon=linux-link\nTerminal=false\nNoDisplay=true\nX-KDE-Shortcuts=");
    push_str_of(&mut e, s.kde);
    push_str_of(&mut e, "\n");
    assert(e@ =~= kde_entry_text(*s, bin@));
    e
}

// --------------------------------------------------------------- Hyprland

/// The line that opens our block in `hyprland.conf`.
pub const HYPR_BEGIN: &'static str = "# >>> Linux Link shortcuts >>>";

/// The line that closes our block in `hyprland.conf`.
pub const HYPR_END: &'static str = "# <<< Linux Link shortcuts <<<";

/// The lines of `s`, each with its own line feed (the last may have none):
/// joined back together they give `s` again.
pub open spec fn segments(s: Seq<char>) -> Seq<Seq<char>>
    decreases s.len(),
{
    if s.len() == 0 {
        seq![]
    } else {
        let r = segments(s.drop_last());
        let c = s.last();
        if r.len() == 0 || r.last().last() == '\n' {
            r.push(seq![c])
        } else {
            r.update(r.len() - 1, r.last().push(c))
        }
    }
}

/// The texts of `ls`, one after the other.
pub open spec fn concat_all(ls: Seq<Seq<char>>) -> Seq<char>
    decreases ls.len(),
{
    if ls.len() == 0 {
        seq![]
    } else {
        concat_all(ls.drop_last()) + ls.last()
    }
}

/// One line of the walk through the configuration: the text kept so far
/// and whether the walk is inside our block, after the line `l`. Marker
/// lines (compared trimmed) are dropped, so is every line between them, and
/// every other line is kept as it is, line feed included.
pub open spec fn strip_step(r: (Seq<char>, bool), l: Seq<char>) -> (Seq<char>, bool) {
    if trim(l) == HYPR_BEGIN@ {
        (r.0, true)
    } else if trim(l) == HYPR_END@ {
        (r.0, false)
    } else if !r.1 {
        (r.0 + l, false)
    } else {
        r
    }
}

/// The walk through the lines `ls`, from the state `start`.
pub open spec fn strip_walk(ls: Seq<Seq<char>>, start: (Seq<char>, bool)) -> (Seq<char>, bool)
    decreases ls.len(),
{
    if ls.len() == 0 {
        start
    } else {
        strip_step(strip_walk(ls.drop_last(), start), ls.last())
    }
}

/// `conf` without our block, markers included: every other line as it was.
pub open spec fn spec_strip_block(conf: Seq<char>) -> Seq<char> {
    strip_walk(segments(conf), (seq![], false)).0
}

/// Whether the trimmed `v` is exactly the text of `s`.
fn trimmed_is(v: &[char], s: &str) -> (b: bool)
    ensures
        b == (trim(v@) == s@),
{
    let t = trim_of(v);
    crate::text::same_chars_str(t.as_slice(), s)
}

/// The walk through one line, on the text kept so far.
fn strip_line(out: &mut String, inside: &mut bool, l: &[char])
    ensures
        (final(out)@, *final(inside)) == strip_step((old(out)@, *old(inside)), l@),
{
    if trimmed_is(l, HYPR_BEGIN) {
        *inside = true;
    } else if trimmed_is(l, HYPR_END) {
        *inside = false;
    } else if !*inside {
        push_chars(out, l);
    }
}

/// `conf` without a previous block of ours, markers included; every other
/// line is kept exactly as it was, its own line ending included.
pub fn strip_block(conf: &str) -> (out: String)
    ensures
        out@ == spec_strip_block(conf@),
{
    let c = chars_of(conf);
    let mut out = String::new();
    let mut inside = false;
    let mut cur: Vec<char> = Vec::new();
    let ghost mut closed: Seq<Seq<char>> = seq![];
    let mut i: usize = 0;
    assert(c@.take(0) =~= Seq::<char>::empty());
    while i < c.len()
        invariant
            i <= c@.len(),
            c@ == conf@,
            segments(c@.take(i as int)) == (if cur@.len() == 0 { closed } else { closed.push(cur@) }),
            closed.len() == 0 || (closed.last().len() > 0 && closed.last().last() == '\n'),
            cur@.len() > 0 ==> cur@.last() != '\n',
            (out@, inside) == strip_walk(closed, (seq![], false)),
        decreases c@.len() - i,
    {
        let ch = c[i];
        assert(c@.take(i + 1).drop_last() =~= c@.take(i as int));
        assert(c@.take(i + 1).last() == ch);
        let ghost prev = cur@;
        cur.push(ch);
        if cur.len() == 1 {
            assert(cur@ =~= seq![ch]);
        } else {
            assert(cur@ =~= prev.push(ch));
            assert(closed.push(prev).update(closed.len() as int, prev.push(ch)) =~= closed.push(cur@));
        }
        if ch == '\n' {
            strip_line(&mut out, &mut inside, cur.as_slice());
            proof {
                assert(closed.push(cur@).drop_last() =~= closed);
                closed = closed.push(cur@);
            }
            cur = Vec::new();
        }
        i = i + 1;
    }
    if cur.len() > 0 {
        strip_line(&mut out, &mut inside, cur.as_slice());
        proof {
            assert(closed.push(cur@).drop_last() =~= closed);
            closed = closed.push(cur@);
        }
    }
    assert(c@.take(c@.len() as int) =~= c@);
    out
}

/// The `bind` lines of the shortcuts `ts`.
pub open spec fn bind_lines(ts: Seq<Shortcut>, bin: Seq<char>) -> Seq<char>
    decreases ts.len(),
{
    if ts.len() == 0 {
        seq![]
    } else {
        let s = ts.last();
        bind_lines(ts.drop_last(), bin) + "bind = "@ + s.hypr_mods@ + ", "@ + s.hypr_key@
            + ", exec, "@ + spec_command(s, bin) + "\n"@
    }
}

/// Our block for `hyprland.conf`: the markers around one `bind` line per
/// shortcut.
pub open spec fn hypr_block(bin: Seq<char>) -> Seq<char> {
    HYPR_BEGIN@ + "\n"@ + bind_lines(table(), bin) + HYPR_END@ + "\n"@
}

/// `hyprland.conf` with our block (re)installed: the existing text without
/// a previous block and without trailing whitespace, a line feed, then the
/// block.
pub open spec fn hypr_installed_text(existing: Seq<char>, bin: Seq<char>) -> Seq<char> {
    trim_end(spec_strip_block(existing)) + "\n"@ + hypr_block(bin)
}

/// The new text of `hyprland.conf` after installing the shortcuts (see
/// `hypr_installed_text`).
pub fn hyprland_install(existing: &str, bin: &str) -> (conf: String)
    ensures
        conf@ == hypr_installed_text(existing@, bin@),
{
    let stripped = strip_block(existing);
    let sc = chars_of(stripped.as_str());
    let mut conf = String::new();
    let ts = shortcuts();
    let end = crate::text::trim_end_len(sc.as_slice());
    push_chars(&mut conf, crate::text::chars_of_range(sc.as_slice(), 0, end).as_slice());
    push_str_of(&mut conf, "\n");
    push_str_of(&mut conf, HYPR_BEGIN);
    push_str_of(&mut conf, "\n");
    let ghost head = conf@;
    let mut i: usize = 0;
    assert(ts@.take(0) =~= Seq::<Shortcut>::empty());
    assert(conf@ =~= head + bind_lines(ts@.take(0), bin@));
    while i < ts.len()
        invariant
            i <= ts@.len(),
            ts@ == table(),
            conf@ == head + bind_lines(ts@.take(i as int), bin@),
        decreases ts@.len() - i,
    {
        let s = &ts[i];
        push_str_of(&mut conf, "bind = ");
        push_str_of(&mut conf, s.hypr_mods);
        push_str_of(&mut conf, ", ");
        push_str_of(&mut conf, s.hypr_key);
        push_str_of(&mut conf, ", exec, ");
        let c = command_of(s, bin);
        push_str_of(&mut conf, c.as_str());
        push_str_of(&mut conf, "\n");
        assert(ts@.take(i + 1).drop_last() =~= ts@.take(i as int));
        assert(ts@.take(i + 1).last() == *s);
        assert(conf@ =~= head + bind_lines(ts@.take(i + 1), bin@));
        i = i + 1;
    }
    assert(ts@.take(ts@.len() as int) =~= ts@);
    push_str_of(&mut conf, HYPR_END);
    push_str_of(&mut conf, "\n");
    assert(conf@ =~= hypr_installed_text(existing@, bin@));
    conf
}

/// The new text of `hyprland.conf` after removing the shortcuts: the
/// existing text without our block.
pub fn hyprland_remove(existing: &str) -> (conf: String)
    ensures
        conf@ == spec_strip_block(existing@),
{
    strip_block(existing)
}

/// Whether our block is in `hyprland.conf`.
pub fn hyprland_installed(conf: &str) -> (b: bool)
    ensures
        b == contains_seq(conf@, HYPR_BEGIN@),
{
    let c = chars_of(conf);
    has(c.as_slice(), HYPR_BEGIN)
}

/// No line of `ls` is one of our markers.
pub open spec fn no_markers(ls: Seq<Seq<char>>) -> bool {
    forall|i: int| 0 <= i < ls.len() ==> trim(#[trigger] ls[i]) != HYPR_BEGIN@ && trim(ls[i]) != HYPR_END@
}

/// The lines of a text: none is empty, the last ends with the text's last
/// character, and together they are the text.
proof fn lemma_segments_shape(s: Seq<char>)
    ensures
        (segments(s).len() == 0) == (s.len() == 0),
        s.len() > 0 ==> segments(s).last().len() > 0 && segments(s).last().last() == s.last(),
        forall|k: int| 0 <= k < segments(s).len() ==> #[trigger] segments(s)[k].len() > 0,
        concat_all(segments(s)) == s,
    decreases s.len(),
{
    if s.len() > 0 {
        let d = s.drop_last();
        lemma_segments_shape(d);
        let r = segments(d);
        let c = s.last();
        if r.len() == 0 || r.last().last() == '\n' {
            assert(r.push(seq![c]).drop_last() =~= r);
            assert(concat_all(r) + seq![c] =~= s);
        } else {
            let u = r.update(r.len() - 1, r.last().push(c));
            assert(u.drop_last() =~= r.drop_last());
            assert(concat_all(r) == concat_all(r.drop_last()) + r.last());
            assert(concat_all(r.drop_last()) + r.last().push(c) =~= d.push(c));
            assert(d.push(c) =~= s);
        }
    }
}

/// The lines of two texts, the first of them ending a line, are the lines
/// of the one followed by the lines of the other.
proof fn lemma_segments_append(x: Seq<char>, y: Seq<char>)
    requires
        x.len() == 0 || x.last() == '\n',
    ensures
        segments(x + y) == segments(x) + segments(y),
    decreases y.len(),
{
    lemma_segments_shape(x);
    if y.len() == 0 {
        assert(x + y =~= x);
        assert(segments(x) + segments(y) =~= segments(x));
    } else {
        lemma_segments_append(x, y.drop_last());
        lemma_segments_shape(y.drop_last());
        assert((x + y).drop_last() =~= x + y.drop_last());
        assert((x + y).last() == y.last());
        let p = segments(x);
        let q = segments(y.drop_last());
        let c = y.last();
        if q.len() == 0 {
            assert(p + q =~= p);
            assert(p.push(seq![c]) =~= p + seq![seq![c]]);
        } else {
            assert((p + q).last() == q.last());
            assert((p + q).push(seq![c]) =~= p + q.push(seq![c]));
            assert((p + q).update((p + q).len() - 1, q.last().push(c)) =~= p + q.update(
                q.len() - 1,
                q.last().push(c),
            ));
        }
    }
}

/// A text without a line feed, followed by one, is a single line.
proof fn lemma_segments_line(x: Seq<char>)
    requires
        forall|k: int| 0 <= k < x.len() ==> x[k] != '\n',
    ensures
        segments(x.push('\n')) == seq![x.push('\n')],
        segments(x) == (if x.len() == 0 { Seq::<Seq<char>>::empty() } else { seq![x] }),
    decreases x.len(),
{
    if x.len() > 0 {
        let d = x.drop_last();
        lemma_segments_line(d);
        assert(d.push(x.last()) =~= x);
        if d.len() == 0 {
            assert(seq![x.last()] =~= x);
        } else {
            assert(d.last() == x[d.len() - 1]);
            assert(d.last() != '\n');
            assert(seq![d].update(0, d.push(x.last())) =~= seq![x]);
        }
        assert(segments(x) == seq![x]);
    } else {
        assert(segments(x) == Seq::<Seq<char>>::empty());
    }
    let y = x.push('\n');
    assert(y.drop_last() =~= x);
    assert(y.last() == '\n');
    if x.len() > 0 {
        assert(x.last() == x[x.len() - 1]);
        assert(seq![x].update(0, x.push('\n')) =~= seq![y]);
    } else {
        assert(seq!['\n'] =~= y);
    }
}

/// Walking two lists of lines one after the other is one walk.
proof fn lemma_walk_append(p: Seq<Seq<char>>, q: Seq<Seq<char>>, st: (Seq<char>, bool))
    ensures
        strip_walk(p + q, st) == strip_walk(q, strip_walk(p, st)),
    decreases q.len(),
{
    if q.len() == 0 {
        assert(p + q =~= p);
    } else {
        lemma_walk_append(p, q.drop_last(), st);
        assert((p + q).drop_last() =~= p + q.drop_last());
        assert((p + q).last() == q.last());
    }
}

/// Outside our block, lines that are no marker are kept as they are.
proof fn lemma_walk_outside(q: Seq<Seq<char>>, st: (Seq<char>, bool))
    requires
        !st.1,
        no_markers(q),
    ensures
        strip_walk(q, st) == (st.0 + concat_all(q), false),
    decreases q.len(),
{
    if q.len() == 0 {
        assert(st.0 + concat_all(q) =~= st.0);
    } else {
        lemma_walk_outside(q.drop_last(), st);
        assert(trim(q[q.len() - 1]) != HYPR_BEGIN@);
        assert(st.0 + concat_all(q.drop_last()) + q.last() =~= st.0 + concat_all(q));
    }
}

/// Inside our block, every line up to the closing marker is dropped.
proof fn lemma_walk_inside(q: Seq<Seq<char>>, st: (Seq<char>, bool))
    requires
        st.1,
        forall|i: int| 0 <= i < q.len() ==> trim(#[trigger] q[i]) != HYPR_END@,
    ensures
        strip_walk(q, st) == st,
    decreases q.len(),
{
    if q.len() > 0 {
        lemma_walk_inside(q.drop_last(), st);
        assert(trim(q[q.len() - 1]) != HYPR_END@);
    }
}

/// A marker followed by a line feed is one line, and trims to the marker.
proof fn lemma_marker_line(m: Seq<char>)
    requires
        m == HYPR_BEGIN@ || m == HYPR_END@,
    ensures
        segments(m + "\n"@) == seq![m + "\n"@],
        trim(m + "\n"@) == m,
{
    reveal_strlit("# >>> Linux Link shortcuts >>>");
    reveal_strlit("# <<< Linux Link shortcuts <<<");
    reveal_strlit("\n");
    assert(m.len() == 30);
    assert forall|k: int| 0 <= k < m.len() implies m[k] != '\n' by {
        assert(HYPR_BEGIN@[k] != '\n');
        assert(HYPR_END@[k] != '\n');
    }
    assert(m + "\n"@ =~= m.push('\n'));
    lemma_segments_line(m);
    assert(m.push('\n').drop_last() =~= m);
    lemma_trim_drop_ws(m.push('\n'));
    lemma_trim_id(m);
}

/// Removing our block takes out exactly the block, markers included, and
/// leaves the rest of the configuration exactly as it was: `before` and
/// `after` (neither holding a marker line, `before` empty or ending a line)
/// come back joined, line endings and all; the lines of `inside` (none of
/// them the closing marker, the last one ended) are dropped.
pub proof fn lemma_strip_block_removes_only_ours(before: Seq<char>, inside: Seq<char>, after: Seq<char>)
    requires
        before.len() == 0 || before.last() == '\n',
        inside.len() == 0 || inside.last() == '\n',
        no_markers(segments(before)),
        forall|i: int|
            0 <= i < segments(inside).len() ==> trim(#[trigger] segments(inside)[i]) != HYPR_END@,
        no_markers(segments(after)),
    ensures
        spec_strip_block(before + HYPR_BEGIN@ + "\n"@ + inside + HYPR_END@ + "\n"@ + after) == before
            + after,
{
    let bl = HYPR_BEGIN@ + "\n"@;
    let el = HYPR_END@ + "\n"@;
    lemma_marker_line(HYPR_BEGIN@);
    lemma_marker_line(HYPR_END@);
    assert(HYPR_BEGIN@ != HYPR_END@) by {
        reveal_strlit("# >>> Linux Link shortcuts >>>");
        reveal_strlit("# <<< Linux Link shortcuts <<<");
        assert(HYPR_BEGIN@[2] != HYPR_END@[2]);
    }
    reveal_strlit("\n");
    let x1 = before + bl;
    let x2 = x1 + inside;
    let x3 = x2 + el;
    assert(bl.last() == '\n' && el.last() == '\n');
    lemma_segments_append(before, bl);
    assert(x1.last() == '\n');
    lemma_segments_append(x1, inside);
    assert(x2.len() == 0 || x2.last() == '\n') by {
        if inside.len() == 0 {
            assert(x2 =~= x1);
        } else {
            assert(x2.last() == inside.last());
        }
    }
    lemma_segments_append(x2, el);
    assert(x3.last() == '\n');
    lemma_segments_append(x3, after);
    let conf = before + HYPR_BEGIN@ + "\n"@ + inside + HYPR_END@ + "\n"@ + after;
    assert(conf =~= x3 + after);
    let sa = segments(before);
    let sm = segments(inside);
    let sb = segments(after);
    assert(segments(conf) == sa + seq![bl] + sm + seq![el] + sb);
    let e: (Seq<char>, bool) = (seq![], false);
    lemma_segments_shape(before);
    lemma_segments_shape(after);
    lemma_walk_append(sa + seq![bl] + sm + seq![el], sb, e);
    lemma_walk_append(sa + seq![bl] + sm, seq![el], e);
    lemma_walk_append(sa + seq![bl], sm, e);
    lemma_walk_append(sa, seq![bl], e);
    lemma_walk_outside(sa, e);
    assert(e.0 + before =~= before);
    assert(strip_walk(sa, e) == (before, false));
    assert(strip_step((before, false), bl) == (before, true));
    assert(seq![bl].drop_last() =~= Seq::<Seq<char>>::empty());
    assert(seq![el].drop_last() =~= Seq::<Seq<char>>::empty());
    assert(strip_walk(seq![bl].drop_last(), (before, false)) == (before, false));
    assert(strip_walk(seq![bl], (before, false)) == (before, true));
    assert(strip_walk(sa + seq![bl], e) == (before, true));
    lemma_walk_inside(sm, (before, true));
    assert(strip_walk(sa + seq![bl] + sm, e) == (before, true));
    assert(strip_step((before, true), el) == (before, false));
    assert(strip_walk(seq![el].drop_last(), (before, true)) == (before, true));
    assert(strip_walk(seq![el], (before, true)) == (before, false));
    assert(strip_walk(sa + seq![bl] + sm + seq![el], e) == (before, false));
    lemma_walk_outside(sb, (before, false));
}

/// A configuration without our markers comes out of `strip_block`
/// unchanged, to the last character.
pub proof fn lemma_strip_keeps_foreign_lines(conf: Seq<char>)
    requires
        no_markers(segments(conf)),
    ensures
        spec_strip_block(conf) == conf,
{
    lemma_segments_shape(conf);
    lemma_walk_outside(segments(conf), (seq![], false));
    assert(Seq::<char>::empty() + conf =~= conf);
}

/// The dconf path of each of our shortcuts is one of ours.
proof fn lemma_our_path_is_ours(t: Shortcut)
    requires
        table().contains(t),
    ensures
        ours(gnome_path(t)),
{
    let k = choose|k: int| 0 <= k < table().len() && table()[k] == t;
    let p = gnome_path(t);
    let at: int = CUSTOM_ROOT@.len() as int + 1;
    assert(p.subrange(at, at + t.id@.len() as int) =~= t.id@);
    assert(crate::text::occurs_at(p, table()[k].id@, at));
}

/// Adding one of our paths leaves the user's paths as they were.
proof fn lemma_foreign_after_add(list: Seq<Seq<char>>, path: Seq<char>)
    requires
        ours(path),
    ensures
        foreign_paths(add_missing(list, path)) == foreign_paths(list),
{
    if !list.contains(path) {
        assert(list.push(path).drop_last() =~= list);
    }
}

/// What installing the shortcuts of a prefix of the table does to the
/// list: the user's entries stay first, in order, and the user's paths are
/// unchanged.
proof fn lemma_with_paths_prefix(list: Seq<Seq<char>>, n: int)
    requires
        0 <= n <= table().len(),
    ensures
        with_paths(list, table().take(n)).len() >= list.len(),
        with_paths(list, table().take(n)).take(list.len() as int) == list,
        foreign_paths(with_paths(list, table().take(n))) == foreign_paths(list),
    decreases n,
{
    if n == 0 {
        assert(list.take(list.len() as int) =~= list);
    } else {
        let ts = table().take(n);
        assert(ts.drop_last() =~= table().take(n - 1));
        lemma_with_paths_prefix(list, n - 1);
        let prev = with_paths(list, table().take(n - 1));
        assert(table().contains(ts.last())) by {
            assert(table()[n - 1] == ts.last());
        }
        lemma_our_path_is_ours(ts.last());
        lemma_foreign_after_add(prev, gnome_path(ts.last()));
        if !prev.contains(gnome_path(ts.last())) {
            assert(prev.push(gnome_path(ts.last())).take(list.len() as int) =~= prev.take(
                list.len() as int,
            ));
        }
    }
}

/// A list holding none of our paths is kept whole by removal.
proof fn lemma_foreign_of_users_list(list: Seq<Seq<char>>)
    requires
        forall|i: int| 0 <= i < list.len() ==> !ours(#[trigger] list[i]),
    ensures
        foreign_paths(list) == list,
    decreases list.len(),
{
    if list.len() > 0 {
        lemma_foreign_of_users_list(list.drop_last());
        assert(list.drop_last().push(list.last()) =~= list);
    }
}

/// Installing on GNOME never overwrites a keybinding of the user's, and
/// removing takes only ours back out: the list written on install begins
/// with the user's list, in order; the list written on removal holds
/// exactly the user's paths of the list it starts from; so installing and
/// then removing gives a list without our paths back unchanged.
pub proof fn lemma_install_then_remove(list: Seq<Seq<char>>)
    ensures
        with_paths(list, table()).take(list.len() as int) == list,
        foreign_paths(with_paths(list, table())) == foreign_paths(list),
        (forall|i: int| 0 <= i < list.len() ==> !ours(#[trigger] list[i])) ==> foreign_paths(
            with_paths(list, table()),
        ) == list,
{
    lemma_with_paths_prefix(list, table().len() as int);
    assert(table().take(table().len() as int) =~= table());
    if forall|i: int| 0 <= i < list.len() ==> !ours(#[trigger] list[i]) {
        lemma_foreign_of_users_list(list);
    }
}

} // verus!

verus! {

/// Whether the output of `linkd shortcuts status` says the shortcuts are
/// installed.
pub fn shortcuts_installed(status_output: &str) -> (b: bool)
    ensures
        b == contains_seq(status_output@, ": installed"@),
{
    let c = chars_of(status_output);
    contains(c.as_slice(), chars_of(": installed").as_slice())
}

/// An item that a GVariant string array carries through unchanged: not
/// empty, no comma, and neither beginning nor ending with a quote.
pub open spec fn plain_item(x: Seq<char>) -> bool {
    &&& x.len() > 0
    &&& crate::text::free_of(x, ',')
    &&& x[0] != '\'' && x[0] != '"'
    &&& x.last() != '\'' && x.last() != '"'
}

/// The piece of the joined text that holds item `k`.
pub open spec fn quoted_piece(k: int, x: Seq<char>) -> Seq<char> {
    if k == 0 {
        seq!['\''] + x + seq!['\'']
    } else {
        seq![' ', '\''] + x + seq!['\'']
    }
}

/// Splitting the joined items at commas gives one piece per item.
proof fn lemma_split_quoted(items: Seq<Seq<char>>)
    requires
        items.len() > 0,
        forall|i: int| 0 <= i < items.len() ==> plain_item(#[trigger] items[i]),
    ensures
        split_on(quoted_join(items), ',') == items.map(|k: int, x: Seq<char>| quoted_piece(k, x)),
    decreases items.len(),
{
    let last = items.last();
    assert(plain_item(last)) by {
        assert(last == items[items.len() - 1]);
    }
    if items.len() == 1 {
        let y = quoted_piece(0, last);
        assert(crate::text::free_of(y, ','));
        crate::text::lemma_split_on_append_free(seq![], y, ',');
        assert(seq![] + y =~= y);
        assert(quoted_join(items) == y);
        assert(split_on(seq![], ',') =~= seq![Seq::<char>::empty()]);
        assert(Seq::<char>::empty() + y =~= y);
        assert(split_on(y, ',') =~= items.map(|k: int, x: Seq<char>| quoted_piece(k, x)));
    } else {
        let init = items.drop_last();
        assert forall|i: int| 0 <= i < init.len() implies plain_item(#[trigger] init[i]) by {
            assert(init[i] == items[i]);
        }
        lemma_split_quoted(init);
        let q = quoted_join(init);
        let y = quoted_piece(1, last);
        assert(crate::text::free_of(y, ','));
        let qc = q.push(',');
        assert(qc.drop_last() =~= q);
        assert(split_on(qc, ',') == split_on(q, ',').push(seq![]));
        crate::text::lemma_split_on_append_free(qc, y, ',');
        assert(quoted_join(items) =~= qc + y);
        assert(Seq::<char>::empty() + y =~= y);
        let m = items.map(|k: int, x: Seq<char>| quoted_piece(k, x));
        let mi = init.map(|k: int, x: Seq<char>| quoted_piece(k, x));
        assert(m =~= mi.push(y));
        assert(split_on(q, ',').push(seq![]).update(split_on(q, ',').len() as int, y) =~= mi.push(y));
    }
}

/// Each piece reads back as its item.
proof fn lemma_piece_reads_back(k: int, x: Seq<char>)
    requires
        k >= 0,
        plain_item(x),
    ensures
        strip_both(strip_both(trim(quoted_piece(k, x)), '\''), '"') == x,
{
    let q = seq!['\''] + x + seq!['\''];
    crate::text::lemma_trim_id(q);
    if k > 0 {
        let p = quoted_piece(k, x);
        assert(p.skip(1) =~= q);
        crate::text::lemma_trim_start_skip(p, 1);
        assert(crate::text::trim_start(q) == q);
        assert(crate::text::trim_start(p) == q);
    }
    assert(trim(quoted_piece(k, x)) == q);
    assert(q.skip(1) =~= x + seq!['\'']);
    assert(q.take(1) =~= seq!['\'']);
    assert(has_prefix(q, seq!['\'']));
    assert(!has_prefix(x + seq!['\''], seq!['\'']));
    assert(strip_lead(x + seq!['\''], seq!['\'']) == x + seq!['\'']);
    assert(strip_lead(q, seq!['\'']) == x + seq!['\'']);
    assert((x + seq!['\'']).drop_last() =~= x);
    assert(strip_trail(x, '\'') == x);
    assert(strip_both(q, '\'') == x);
    assert(x.take(1)[0] == x[0]);
    assert(seq!['"'][0] == '"');
    assert(!has_prefix(x, seq!['"']));
    assert(strip_lead(x, seq!['"']) == x);
    assert(strip_both(x, '"') == x);
}

/// Dropping the empty pieces keeps a list without empty pieces whole.
proof fn lemma_drop_empty_keeps(ps: Seq<Seq<char>>)
    requires
        forall|i: int| 0 <= i < ps.len() ==> #[trigger] ps[i].len() > 0,
    ensures
        drop_empty(ps) == ps,
    decreases ps.len(),
{
    if ps.len() > 0 {
        let init = ps.drop_last();
        assert forall|i: int| 0 <= i < init.len() implies #[trigger] init[i].len() > 0 by {
            assert(init[i] == ps[i]);
        }
        lemma_drop_empty_keeps(init);
        assert(ps.last() == ps[ps.len() - 1]);
        assert(init.push(ps.last()) =~= ps);
    }
}

/// A list written as a GVariant string array is read back as the same
/// list, when its items are plain (not empty, no comma, no quote at either
/// end), as dconf paths are.
pub proof fn lemma_gvariant_round_trip(items: Seq<Seq<char>>)
    requires
        forall|i: int| 0 <= i < items.len() ==> plain_item(#[trigger] items[i]),
    ensures
        gvariant_items(gvariant_text(items)) == items,
{
    reveal_strlit("@as");
    reveal_strlit("@as []");
    let t = gvariant_text(items);
    if items.len() == 0 {
        let e = "@as []"@;
        crate::text::lemma_trim_id(e);
        assert(has_prefix(e, "@as"@)) by {
            assert(e.take(3) =~= "@as"@);
        }
        let r = e.skip(3);
        assert(r =~= seq![' ', '[', ']']);
        assert(r.take(3)[0] == ' ');
        assert("@as"@[0] == '@');
        assert(!has_prefix(r, "@as"@));
        assert(strip_lead(r, "@as"@) == r);
        assert(strip_lead(e, "@as"@) == r);
        let r2 = seq!['[', ']'];
        crate::text::lemma_trim_start_skip(r, 1);
        assert(r.skip(1) =~= r2);
        crate::text::lemma_trim_id(r2);
        assert(trim(r) == r2);
        assert(r2.skip(1) =~= seq![']']);
        assert(seq![']'].take(1)[0] == ']');
        assert(!has_prefix(seq![']'], seq!['[']));
        assert(strip_lead(seq![']'], seq!['[']) == seq![']']);
        assert(r2.take(1) =~= seq!['[']);
        assert(has_prefix(r2, seq!['[']));
        assert(strip_lead(r2, seq!['[']) == seq![']']);
        assert(seq![']'].drop_last() =~= Seq::<char>::empty());
        assert(seq![']'].last() == ']');
        assert(strip_trail(Seq::<char>::empty(), ']') == Seq::<char>::empty());
        assert(strip_trail(seq![']'], ']') == Seq::<char>::empty());
        assert(split_on(Seq::<char>::empty(), ',') =~= seq![Seq::<char>::empty()]);
        let m = seq![Seq::<char>::empty()].map_values(
            |p: Seq<char>| strip_both(strip_both(trim(p), '\''), '"'),
        );
        assert(m[0] == strip_both(strip_both(trim(Seq::<char>::empty()), '\''), '"'));
        assert(m =~= seq![Seq::<char>::empty()]);
        assert(m.drop_last() =~= Seq::<Seq<char>>::empty());
        assert(m.last().len() == 0);
        assert(drop_empty(Seq::<Seq<char>>::empty()) == Seq::<Seq<char>>::empty());
        assert(drop_empty(m) =~= items);
    } else {
        let q = quoted_join(items);
        lemma_split_quoted(items);
        let pieces = items.map(|k: int, x: Seq<char>| quoted_piece(k, x));
        assert(q.len() > 0 && q[0] == '\'' && q.last() == '\'') by {
            assert(pieces[0] == quoted_piece(0, items[0]));
            crate::text::lemma_split_on_nonempty(q, ',');
            assert(plain_item(items[0]));
            assert(plain_item(items.last())) by {
                assert(items.last() == items[items.len() - 1]);
            }
            lemma_quoted_ends(items);
        }
        assert(t =~= seq!['['] + q + seq![']']);
        crate::text::lemma_trim_id(t);
        assert(t.take(3)[0] == '[');
        assert("@as"@[0] == '@');
        assert(!has_prefix(t, "@as"@));
        assert(t.take(1) =~= seq!['[']);
        assert(strip_lead(t, "@as"@) == t);
        assert(t.skip(1) =~= q + seq![']']);
        assert((q + seq![']']).take(1)[0] == '\'');
        assert(!has_prefix(q + seq![']'], seq!['[']));
        assert(strip_lead(q + seq![']'], seq!['[']) == q + seq![']']);
        assert(has_prefix(t, seq!['[']));
        assert(strip_lead(t, seq!['[']) == q + seq![']']);
        assert((q + seq![']']).drop_last() =~= q);
        assert(strip_trail(q, ']') == q);
        assert(strip_trail(q + seq![']'], ']') == q);
        let m = pieces.map_values(|p: Seq<char>| strip_both(strip_both(trim(p), '\''), '"'));
        assert forall|i: int| 0 <= i < m.len() implies #[trigger] m[i] == items[i] by {
            lemma_piece_reads_back(i, items[i]);
        }
        assert(m =~= items);
        lemma_drop_empty_keeps(items);
    }
}

/// The joined items begin and end with a quote.
proof fn lemma_quoted_ends(items: Seq<Seq<char>>)
    requires
        items.len() > 0,
    ensures
        quoted_join(items).len() > 0,
        quoted_join(items)[0] == '\'',
        quoted_join(items).last() == '\'',
    decreases items.len(),
{
    if items.len() > 1 {
        lemma_quoted_ends(items.drop_last());
    }
}

} // verus!
