//! The daemon's local control socket: one command per line, sent by the
//! command line, the tray icon and the file managers.

use vstd::prelude::*;
use crate::text::{
    chars_of, decimal_signed, has_prefix, is_ws, parse_i32, parse_i32_of, push_chars,
    push_decimal_signed, push_str_of, starts_with, string_of, trim, trim_of,
};

verus! {

/// A control command.
#[derive(Debug, Clone)]
pub enum ControlCommand {
    /// Open a pairing window and report its outcome.
    Pair,
    /// Hand a page off to the phones.
    Open { url: String, title: String },
    /// Change the phone's volume.
    PhoneVolume { action: String, value: i32 },
    /// Control the phone's media player.
    Media { action: String },
    /// Offer a file to one phone, by certificate fingerprint.
    SendFileTo { fingerprint: String, path: String },
    /// Offer a file to every connected phone.
    SendFile { path: String },
    /// Offer the second screen to one tablet, or to every one.
    Screen { to: Option<String> },
    /// Turn proximity lock on or off.
    LockMode { on: bool },
    /// Stop trusting a phone, by fingerprint (or its beginning).
    Forget { fingerprint: String },
    /// Liveness check.
    Ping,
}

/// A control command as plain values.
pub enum CommandView {
    Pair,
    Open(Seq<char>, Seq<char>),
    PhoneVolume(Seq<char>, i32),
    Media(Seq<char>),
    SendFileTo(Seq<char>, Seq<char>),
    SendFile(Seq<char>),
    Screen(Option<Seq<char>>),
    LockMode(bool),
    Forget(Seq<char>),
    Ping,
}

impl View for ControlCommand {
    type V = CommandView;

    open spec fn view(&self) -> CommandView {
        match self {
            ControlCommand::Pair => CommandView::Pair,
            ControlCommand::Open { url, title } => CommandView::Open(url@, title@),
            ControlCommand::PhoneVolume { action, value } => CommandView::PhoneVolume(action@, *value),
            ControlCommand::Media { action } => CommandView::Media(action@),
            ControlCommand::SendFileTo { fingerprint, path } => CommandView::SendFileTo(
                fingerprint@,
                path@,
            ),
            ControlCommand::SendFile { path } => CommandView::SendFile(path@),
            ControlCommand::Screen { to } => CommandView::Screen(
                match to {
                    Some(f) => Some(f@),
                    None => None,
                },
            ),
            ControlCommand::LockMode { on } => CommandView::LockMode(*on),
            ControlCommand::Forget { fingerprint } => CommandView::Forget(fingerprint@),
            ControlCommand::Ping => CommandView::Ping,
        }
    }
}

/// `str::strip_prefix`.
pub open spec fn strip_prefix(s: Seq<char>, p: Seq<char>) -> Option<Seq<char>> {
    if has_prefix(s, p) {
        Some(s.skip(p.len() as int))
    } else {
        None
    }
}

/// The first position of `c` in `s`.
pub open spec fn index_of(s: Seq<char>, c: char) -> Option<int>
    decreases s.len(),
{
    if s.len() == 0 {
        None
    } else if s[0] == c {
        Some(0)
    } else {
        match index_of(s.drop_first(), c) {
            Some(i) => Some(i + 1),
            None => None,
        }
    }
}

pub proof fn lemma_index_of(s: Seq<char>, c: char)
    ensures
        index_of(s, c) matches Some(i) ==> 0 <= i < s.len() && s[i] == c && forall|j: int|
            0 <= j < i ==> s[j] != c,
        index_of(s, c) is None ==> forall|j: int| 0 <= j < s.len() ==> s[j] != c,
    decreases s.len(),
{
    if s.len() > 0 {
        lemma_index_of(s.drop_first(), c);
        assert forall|j: int| 1 <= j < s.len() implies s[j] == s.drop_first()[j - 1] by {}
    }
}

/// `str::split_once` on a character.
pub open spec fn split_once(s: Seq<char>, c: char) -> Option<(Seq<char>, Seq<char>)> {
    match index_of(s, c) {
        Some(i) => Some((s.take(i), s.skip(i + 1))),
        None => None,
    }
}

/// The command a line stands for, once trimmed (see `parse_control`).
pub open spec fn spec_parse(line0: Seq<char>) -> Option<CommandView> {
    let line = trim(line0);
    if line == "PAIR"@ {
        Some(CommandView::Pair)
    } else if strip_prefix(line, "OPEN "@) is Some {
        let rest = strip_prefix(line, "OPEN "@).unwrap();
        let (url, title) = match split_once(rest, '\t') {
            Some(p) => p,
            None => (rest, seq![]),
        };
        if url.len() == 0 {
            None
        } else {
            Some(CommandView::Open(url, title))
        }
    } else if strip_prefix(line, "PHONEVOL "@) is Some {
        let rest = strip_prefix(line, "PHONEVOL "@).unwrap();
        let (action, value) = match split_once(rest, ' ') {
            Some(p) => p,
            None => (rest, "0"@),
        };
        Some(
            CommandView::PhoneVolume(
                action,
                match parse_i32(trim(value)) {
                    Some(v) => v,
                    None => 0,
                },
            ),
        )
    } else if strip_prefix(line, "MEDIA "@) is Some {
        Some(CommandView::Media(trim(strip_prefix(line, "MEDIA "@).unwrap())))
    } else if strip_prefix(line, "SENDFILETO "@) is Some {
        match split_once(strip_prefix(line, "SENDFILETO "@).unwrap(), '\t') {
            None => None,
            Some((fp, path)) => if path.len() == 0 {
                None
            } else {
                Some(CommandView::SendFileTo(fp, path))
            },
        }
    } else if strip_prefix(line, "SENDFILE "@) is Some {
        Some(CommandView::SendFile(trim(strip_prefix(line, "SENDFILE "@).unwrap())))
    } else if line == "SCREEN"@ || has_prefix(line, "SCREEN "@) {
        let fp = trim(line.skip(6));
        Some(
            CommandView::Screen(
                if fp.len() == 0 {
                    None
                } else {
                    Some(fp)
                },
            ),
        )
    } else if strip_prefix(line, "LOCKMODE "@) is Some {
        Some(CommandView::LockMode(trim(strip_prefix(line, "LOCKMODE "@).unwrap()) == "on"@))
    } else if strip_prefix(line, "FORGET "@) is Some {
        Some(CommandView::Forget(trim(strip_prefix(line, "FORGET "@).unwrap())))
    } else if line == "PING"@ {
        Some(CommandView::Ping)
    } else {
        None
    }
}

/// `str::strip_prefix` with a literal pattern.
fn strip_prefix_of(v: &[char], p: &str) -> (r: Option<Vec<char>>)
    ensures
        match r {
            Some(x) => strip_prefix(v@, p@) == Some(x@),
            None => strip_prefix(v@, p@) is None,
        },
{
    let pc = chars_of(p);
    if starts_with(v, pc.as_slice()) {
        let x = crate::text::chars_of_range(v, pc.len(), v.len());
        assert(x@ =~= v@.skip(p@.len() as int));
        Some(x)
    } else {
        None
    }
}

/// `str::split_once` on a character.
fn split_once_of(v: &[char], c: char) -> (r: Option<(Vec<char>, Vec<char>)>)
    ensures
        match r {
            Some((a, b)) => split_once(v@, c) == Some((a@, b@)),
            None => split_once(v@, c) is None,
        },
{
    proof {
        lemma_index_of(v@, c);
    }
    let mut i: usize = 0;
    while i < v.len()
        invariant
            i <= v@.len(),
            forall|j: int| 0 <= j < i ==> v@[j] != c,
        decreases v@.len() - i,
    {
        if v[i] == c {
            proof {
                lemma_index_of(v@, c);
                let k = index_of(v@, c);
                if k is None {
                    assert(v@[i as int] == c);
                } else if k.unwrap() > i {
                    assert(v@[i as int] == c);
                }
            }
            let a = crate::text::chars_of_range(v, 0, i);
            let b = crate::text::chars_of_range(v, i + 1, v.len());
            assert(a@ =~= v@.take(i as int));
            assert(b@ =~= v@.skip(i + 1));
            return Some((a, b));
        }
        i = i + 1;
    }
    proof {
        lemma_index_of(v@, c);
        if index_of(v@, c) is Some {
            let k = index_of(v@, c).unwrap();
            assert(v@[k] == c);
        }
    }
    None
}

/// The command a control line stands for (see `spec_parse`); `None` for a
/// line the daemon ignores.
pub fn parse_control(line: &str) -> (r: Option<ControlCommand>)
    ensures
        match r {
            Some(c) => spec_parse(line@) == Some(c@),
            None => spec_parse(line@) is None,
        },
{
    let raw = chars_of(line);
    let l = trim_of(raw.as_slice());
    let ls = l.as_slice();
    if crate::text::same_chars_str(ls, "PAIR") {
        return Some(ControlCommand::Pair);
    }
    if let Some(rest) = strip_prefix_of(ls, "OPEN ") {
        let (url, title) = match split_once_of(rest.as_slice(), '\t') {
            Some(p) => p,
            None => (rest, Vec::new()),
        };
        if url.len() == 0 {
            return None;
        }
        return Some(
            ControlCommand::Open { url: string_of(url.as_slice()), title: string_of(title.as_slice()) },
        );
    }
    if let Some(rest) = strip_prefix_of(ls, "PHONEVOL ") {
        let (action, value) = match split_once_of(rest.as_slice(), ' ') {
            Some(p) => p,
            None => (rest, chars_of("0")),
        };
        let t = trim_of(value.as_slice());
        let v = match parse_i32_of(t.as_slice()) {
            Some(v) => v,
            None => 0,
        };
        return Some(ControlCommand::PhoneVolume { action: string_of(action.as_slice()), value: v });
    }
    if let Some(rest) = strip_prefix_of(ls, "MEDIA ") {
        let a = trim_of(rest.as_slice());
        return Some(ControlCommand::Media { action: string_of(a.as_slice()) });
    }
    if let Some(rest) = strip_prefix_of(ls, "SENDFILETO ") {
        return match split_once_of(rest.as_slice(), '\t') {
            None => None,
            Some((fp, path)) => {
                if path.len() == 0 {
                    None
                } else {
                    Some(
                        ControlCommand::SendFileTo {
                            fingerprint: string_of(fp.as_slice()),
                            path: string_of(path.as_slice()),
                        },
                    )
                }
            },
        };
    }
    if let Some(rest) = strip_prefix_of(ls, "SENDFILE ") {
        let p = trim_of(rest.as_slice());
        return Some(ControlCommand::SendFile { path: string_of(p.as_slice()) });
    }
    let screen = chars_of("SCREEN ");
    if crate::text::same_chars_str(ls, "SCREEN") || starts_with(ls, screen.as_slice()) {
        proof {
            reveal_strlit("SCREEN");
            reveal_strlit("SCREEN ");
        }
        let tail = crate::text::chars_of_range(ls, 6, ls.len());
        assert(tail@ =~= l@.skip(6));
        let fp = trim_of(tail.as_slice());
        let to = if fp.len() == 0 {
            None
        } else {
            Some(string_of(fp.as_slice()))
        };
        return Some(ControlCommand::Screen { to });
    }
    if let Some(rest) = strip_prefix_of(ls, "LOCKMODE ") {
        let t = trim_of(rest.as_slice());
        return Some(ControlCommand::LockMode { on: crate::text::same_chars_str(t.as_slice(), "on") });
    }
    if let Some(rest) = strip_prefix_of(ls, "FORGET ") {
        let f = trim_of(rest.as_slice());
        return Some(ControlCommand::Forget { fingerprint: string_of(f.as_slice()) });
    }
    if crate::text::same_chars_str(ls, "PING") {
        return Some(ControlCommand::Ping);
    }
    None
}

/// The line a client sends for a command (without its line feed).
pub open spec fn spec_line(c: CommandView) -> Seq<char> {
    match c {
        CommandView::Pair => "PAIR"@,
        CommandView::Open(url, title) => "OPEN "@ + url + seq!['\t'] + title,
        CommandView::PhoneVolume(action, value) => "PHONEVOL "@ + action + seq![' '] + decimal_signed(
            value as int,
        ),
        CommandView::Media(action) => "MEDIA "@ + action,
        CommandView::SendFileTo(fp, path) => "SENDFILETO "@ + fp + seq!['\t'] + path,
        CommandView::SendFile(path) => "SENDFILE "@ + path,
        CommandView::Screen(to) => match to {
            Some(fp) => "SCREEN "@ + fp,
            None => "SCREEN"@,
        },
        CommandView::LockMode(on) => "LOCKMODE "@ + if on {
            "on"@
        } else {
            "off"@
        },
        CommandView::Forget(fp) => "FORGET "@ + fp,
        CommandView::Ping => "PING"@,
    }
}

/// The line a client sends for `cmd` (see `spec_line`).
pub fn command_line(cmd: &ControlCommand) -> (l: String)
    ensures
        l@ == spec_line(cmd@),
{
    let mut l = String::new();
    match cmd {
        ControlCommand::Pair => push_str_of(&mut l, "PAIR"),
        ControlCommand::Open { url, title } => {
            push_str_of(&mut l, "OPEN ");
            push_str_of(&mut l, url.as_str());
            push_chars(&mut l, &['\t']);
            push_str_of(&mut l, title.as_str());
        },
        ControlCommand::PhoneVolume { action, value } => {
            push_str_of(&mut l, "PHONEVOL ");
            push_str_of(&mut l, action.as_str());
            push_chars(&mut l, &[' ']);
            push_decimal_signed(&mut l, *value as i64);
        },
        ControlCommand::Media { action } => {
            push_str_of(&mut l, "MEDIA ");
            push_str_of(&mut l, action.as_str());
        },
        ControlCommand::SendFileTo { fingerprint, path } => {
            push_str_of(&mut l, "SENDFILETO ");
            push_str_of(&mut l, fingerprint.as_str());
            push_chars(&mut l, &['\t']);
            push_str_of(&mut l, path.as_str());
        },
        ControlCommand::SendFile { path } => {
            push_str_of(&mut l, "SENDFILE ");
            push_str_of(&mut l, path.as_str());
        },
        ControlCommand::Screen { to } => match to {
            Some(fp) => {
                push_str_of(&mut l, "SCREEN ");
                push_str_of(&mut l, fp.as_str());
            },
            None => push_str_of(&mut l, "SCREEN"),
        },
        ControlCommand::LockMode { on } => {
            push_str_of(&mut l, "LOCKMODE ");
            push_str_of(
                &mut l,
                if *on {
                    "on"
                } else {
                    "off"
                },
            );
        },
        ControlCommand::Forget { fingerprint } => {
            push_str_of(&mut l, "FORGET ");
            push_str_of(&mut l, fingerprint.as_str());
        },
        ControlCommand::Ping => push_str_of(&mut l, "PING"),
    }
    assert(l@ =~= spec_line(cmd@));
    l
}

/// The daemon's reply to `FORGET`: the name of the phone forgotten, or the
/// reason nothing was.
pub open spec fn spec_forget_reply(fingerprint: Seq<char>, forgotten: Option<Seq<char>>) -> Seq<char> {
    if fingerprint.len() == 0 {
        "ERR no fingerprint\n"@
    } else {
        match forgotten {
            Some(name) => "OK "@ + name + "\n"@,
            None => "ERR unknown device\n"@,
        }
    }
}

/// The daemon's reply to `FORGET` (see `spec_forget_reply`).
pub fn forget_reply(fingerprint: &str, forgotten: Option<&str>) -> (r: String)
    ensures
        r@ == spec_forget_reply(fingerprint@, match forgotten {
            Some(n) => Some(n@),
            None => None,
        }),
{
    let mut r = String::new();
    let f = chars_of(fingerprint);
    if f.len() == 0 {
        push_str_of(&mut r, "ERR no fingerprint\n");
    } else {
        match forgotten {
            Some(name) => {
                push_str_of(&mut r, "OK ");
                push_str_of(&mut r, name);
                push_str_of(&mut r, "\n");
            },
            None => push_str_of(&mut r, "ERR unknown device\n"),
        }
    }
    assert(r@ =~= spec_forget_reply(fingerprint@, match forgotten {
        Some(n) => Some(n@),
        None => None,
    }));
    r
}

/// The commands whose line reads back as the same command: texts that the
/// line's trimming, its tab or space separators or its own trimming of a
/// field would alter are left out.
pub open spec fn well_formed(c: CommandView) -> bool {
    match c {
        CommandView::Open(url, title) => url.len() > 0 && !url.contains('\t') && !is_ws(url.last())
            && (title.len() == 0 || !is_ws(title.last())),
        CommandView::PhoneVolume(action, _) => !action.contains(' '),
        CommandView::Media(action) => action.len() > 0 && trim(action) == action,
        CommandView::SendFileTo(fp, path) => !fp.contains('\t') && path.len() > 0 && !is_ws(
            path.last(),
        ),
        CommandView::SendFile(path) => path.len() > 0 && trim(path) == path,
        CommandView::Screen(to) => match to {
            Some(fp) => fp.len() > 0 && trim(fp) == fp,
            None => true,
        },
        CommandView::Forget(fp) => fp.len() > 0 && trim(fp) == fp,
        _ => true,
    }
}

proof fn lemma_strip(p: Seq<char>, rest: Seq<char>)
    ensures
        strip_prefix(p + rest, p) == Some(rest),
        has_prefix(p + rest, p),
{
    assert((p + rest).take(p.len() as int) =~= p);
    assert((p + rest).skip(p.len() as int) =~= rest);
}

proof fn lemma_no_strip(line: Seq<char>, p: Seq<char>, i: int)
    requires
        0 <= i < p.len(),
        i < line.len(),
        line[i] != p[i],
    ensures
        strip_prefix(line, p) is None,
        !has_prefix(line, p),
        line != p,
{
    if has_prefix(line, p) {
        assert(line.take(p.len() as int)[i] == line[i]);
    }
}

proof fn lemma_split_at_first(a: Seq<char>, c: char, b: Seq<char>)
    requires
        !a.contains(c),
    ensures
        split_once(a + seq![c] + b, c) == Some((a, b)),
{
    let s = a + seq![c] + b;
    lemma_index_of(s, c);
    assert(s[a.len() as int] == c);
    match index_of(s, c) {
        Some(i) => {
            if i < a.len() {
                assert(s[i] == a[i]);
                assert(a.contains(c));
            }
            assert(i == a.len());
        },
        None => {},
    }
    assert(s.take(a.len() as int) =~= a);
    assert(s.skip(a.len() as int + 1) =~= b);
}

proof fn lemma_split_none(a: Seq<char>, c: char)
    requires
        !a.contains(c),
    ensures
        split_once(a, c) is None,
{
    lemma_index_of(a, c);
    if index_of(a, c) is Some {
        let i = index_of(a, c).unwrap();
        assert(a[i] == c);
    }
}

/// `PAIR` and `PING` read back.
proof fn lemma_rt_plain(c: CommandView)
    requires
        c is Pair || c is Ping,
    ensures
        spec_parse(spec_line(c)) == Some(c),
{
    reveal_strlit("PAIR");
    reveal_strlit("OPEN ");
    reveal_strlit("PHONEVOL ");
    reveal_strlit("MEDIA ");
    reveal_strlit("SENDFILETO ");
    reveal_strlit("SENDFILE ");
    reveal_strlit("SCREEN");
    reveal_strlit("SCREEN ");
    reveal_strlit("LOCKMODE ");
    reveal_strlit("FORGET ");
    reveal_strlit("PING");
    let line = spec_line(c);
    crate::text::lemma_trim_id(line);
    if c is Ping {
        lemma_no_strip(line, "PAIR"@, 1);
        lemma_no_strip(line, "OPEN "@, 0);
        lemma_no_strip(line, "PHONEVOL "@, 1);
        lemma_no_strip(line, "MEDIA "@, 0);
        lemma_no_strip(line, "SENDFILETO "@, 0);
        lemma_no_strip(line, "SENDFILE "@, 0);
        lemma_no_strip(line, "SCREEN"@, 0);
        lemma_no_strip(line, "SCREEN "@, 0);
        lemma_no_strip(line, "LOCKMODE "@, 0);
        lemma_no_strip(line, "FORGET "@, 0);
    }
}

/// `OPEN` reads back.
proof fn lemma_rt_open(url: Seq<char>, title: Seq<char>)
    requires
        well_formed(CommandView::Open(url, title)),
    ensures
        spec_parse(spec_line(CommandView::Open(url, title))) == Some(CommandView::Open(url, title)),
{
    reveal_strlit("PAIR");
    reveal_strlit("OPEN ");
    let line = spec_line(CommandView::Open(url, title));
    let rest = url + seq!['\t'] + title;
    assert(line =~= "OPEN "@ + rest);
    if title.len() == 0 {
        let t = "OPEN "@ + url;
        assert(line =~= t.push('\t'));
        assert(line.drop_last() =~= t);
        assert(t.last() == url.last());
        assert(is_ws('\t'));
        assert(crate::text::trim_end(line) == crate::text::trim_end(t));
        crate::text::lemma_trim_id(t);
        assert(crate::text::trim_start(line) == line);
        assert(trim(line) == t);
        lemma_strip("OPEN "@, url);
        lemma_split_none(url, '\t');
        lemma_no_strip(t, "PAIR"@, 0);
        assert(title =~= Seq::<char>::empty());
    } else {
        assert(line.last() == title.last());
        crate::text::lemma_trim_id(line);
        lemma_strip("OPEN "@, rest);
        lemma_split_at_first(url, '\t', title);
        lemma_no_strip(line, "PAIR"@, 0);
    }
}

/// `PHONEVOL` reads back.
proof fn lemma_rt_volume(action: Seq<char>, value: i32)
    requires
        well_formed(CommandView::PhoneVolume(action, value)),
    ensures
        spec_parse(spec_line(CommandView::PhoneVolume(action, value))) == Some(
            CommandView::PhoneVolume(action, value),
        ),
{
    reveal_strlit("PAIR");
    reveal_strlit("OPEN ");
    reveal_strlit("PHONEVOL ");
    let line = spec_line(CommandView::PhoneVolume(action, value));
    let d = crate::text::decimal_signed(value as int);
    crate::text::lemma_parse_decimal_signed(value);
    let m = (if value < 0 {
        -(value as int)
    } else {
        value as int
    }) as nat;
    crate::text::lemma_decimal(m);
    let dv = crate::text::decimal(m);
    assert(dv.len() > 0);
    assert('0' <= dv[dv.len() - 1] <= '9') by {
        assert(crate::text::all_digits(dv));
    }
    let rest = action + seq![' '] + d;
    assert(line =~= "PHONEVOL "@ + rest);
    assert(d.len() > 0);
    assert(line.last() == d.last());
    assert(d.last() == dv.last());
    if value < 0 {
        assert(d[0] == '-');
    } else {
        assert(d[0] == dv[0]);
    }
    crate::text::lemma_trim_id(line);
    crate::text::lemma_trim_id(d);
    lemma_no_strip(line, "PAIR"@, 1);
    lemma_no_strip(line, "OPEN "@, 0);
    lemma_strip("PHONEVOL "@, rest);
    lemma_split_at_first(action, ' ', d);
}

/// A field that is its own trim, after a prefix, makes a line that is its
/// own trim.
proof fn lemma_line_trim(p: Seq<char>, field: Seq<char>)
    requires
        p.len() > 0,
        !is_ws(p[0]),
        field.len() > 0,
        trim(field) == field,
    ensures
        trim(p + field) == p + field,
        !is_ws(field[0]),
        !is_ws(field.last()),
{
    crate::text::lemma_trim_fixed(field);
    assert((p + field).last() == field.last());
    assert((p + field)[0] == p[0]);
    crate::text::lemma_trim_id(p + field);
}

/// `MEDIA`, `SENDFILE` and `FORGET` read back.
proof fn lemma_rt_field(c: CommandView)
    requires
        well_formed(c),
        c is Media || c is SendFile || c is Forget,
    ensures
        spec_parse(spec_line(c)) == Some(c),
{
    reveal_strlit("PAIR");
    reveal_strlit("OPEN ");
    reveal_strlit("PHONEVOL ");
    reveal_strlit("MEDIA ");
    reveal_strlit("SENDFILETO ");
    reveal_strlit("SENDFILE ");
    reveal_strlit("SCREEN");
    reveal_strlit("SCREEN ");
    reveal_strlit("LOCKMODE ");
    reveal_strlit("FORGET ");
    let line = spec_line(c);
    match c {
        CommandView::Media(a) => {
            lemma_line_trim("MEDIA "@, a);
            lemma_no_strip(line, "PAIR"@, 0);
            lemma_no_strip(line, "OPEN "@, 0);
            lemma_no_strip(line, "PHONEVOL "@, 0);
            lemma_strip("MEDIA "@, a);
        },
        CommandView::SendFile(a) => {
            lemma_line_trim("SENDFILE "@, a);
            lemma_no_strip(line, "PAIR"@, 0);
            lemma_no_strip(line, "OPEN "@, 0);
            lemma_no_strip(line, "PHONEVOL "@, 0);
            lemma_no_strip(line, "MEDIA "@, 0);
            lemma_no_strip(line, "SENDFILETO "@, 8);
            lemma_strip("SENDFILE "@, a);
        },
        CommandView::Forget(a) => {
            lemma_line_trim("FORGET "@, a);
            lemma_no_strip(line, "PAIR"@, 0);
            lemma_no_strip(line, "OPEN "@, 0);
            lemma_no_strip(line, "PHONEVOL "@, 0);
            lemma_no_strip(line, "MEDIA "@, 0);
            lemma_no_strip(line, "SENDFILETO "@, 0);
            lemma_no_strip(line, "SENDFILE "@, 0);
            lemma_no_strip(line, "SCREEN"@, 0);
            lemma_no_strip(line, "SCREEN "@, 0);
            lemma_no_strip(line, "LOCKMODE "@, 0);
            lemma_strip("FORGET "@, a);
        },
        _ => {},
    }
}

/// `SENDFILETO` reads back.
proof fn lemma_rt_send_to(fp: Seq<char>, path: Seq<char>)
    requires
        well_formed(CommandView::SendFileTo(fp, path)),
    ensures
        spec_parse(spec_line(CommandView::SendFileTo(fp, path))) == Some(
            CommandView::SendFileTo(fp, path),
        ),
{
    reveal_strlit("PAIR");
    reveal_strlit("OPEN ");
    reveal_strlit("PHONEVOL ");
    reveal_strlit("MEDIA ");
    reveal_strlit("SENDFILETO ");
    let line = spec_line(CommandView::SendFileTo(fp, path));
    let rest = fp + seq!['\t'] + path;
    assert(line =~= "SENDFILETO "@ + rest);
    assert(line.last() == path.last());
    crate::text::lemma_trim_id(line);
    lemma_no_strip(line, "PAIR"@, 0);
    lemma_no_strip(line, "OPEN "@, 0);
    lemma_no_strip(line, "PHONEVOL "@, 0);
    lemma_no_strip(line, "MEDIA "@, 0);
    lemma_strip("SENDFILETO "@, rest);
    lemma_split_at_first(fp, '\t', path);
}

/// `SCREEN` reads back.
proof fn lemma_rt_screen(to: Option<Seq<char>>)
    requires
        well_formed(CommandView::Screen(to)),
    ensures
        spec_parse(spec_line(CommandView::Screen(to))) == Some(CommandView::Screen(to)),
{
    reveal_strlit("PAIR");
    reveal_strlit("OPEN ");
    reveal_strlit("PHONEVOL ");
    reveal_strlit("MEDIA ");
    reveal_strlit("SENDFILETO ");
    reveal_strlit("SENDFILE ");
    reveal_strlit("SCREEN");
    reveal_strlit("SCREEN ");
    let line = spec_line(CommandView::Screen(to));
    match to {
        Some(fp) => {
            lemma_line_trim("SCREEN "@, fp);
            lemma_strip("SCREEN "@, fp);
            let tail = line.skip(6);
            assert(tail =~= seq![' '] + fp);
            assert(tail.drop_first() =~= fp);
            assert(crate::text::trim_start(tail) == crate::text::trim_start(fp));
            crate::text::lemma_trim_id(fp);
        },
        None => {
            crate::text::lemma_trim_id(line);
            assert(line.skip(6) =~= Seq::<char>::empty());
        },
    }
    lemma_no_strip(line, "PAIR"@, 0);
    lemma_no_strip(line, "OPEN "@, 0);
    lemma_no_strip(line, "PHONEVOL "@, 0);
    lemma_no_strip(line, "MEDIA "@, 0);
    lemma_no_strip(line, "SENDFILETO "@, 1);
    lemma_no_strip(line, "SENDFILE "@, 1);
}

/// `LOCKMODE` reads back.
proof fn lemma_rt_lock(on: bool)
    ensures
        spec_parse(spec_line(CommandView::LockMode(on))) == Some(CommandView::LockMode(on)),
{
    reveal_strlit("PAIR");
    reveal_strlit("OPEN ");
    reveal_strlit("PHONEVOL ");
    reveal_strlit("MEDIA ");
    reveal_strlit("SENDFILETO ");
    reveal_strlit("SENDFILE ");
    reveal_strlit("SCREEN");
    reveal_strlit("SCREEN ");
    reveal_strlit("LOCKMODE ");
    reveal_strlit("on");
    reveal_strlit("off");
    let line = spec_line(CommandView::LockMode(on));
    let w = if on {
        "on"@
    } else {
        "off"@
    };
    assert(line =~= "LOCKMODE "@ + w);
    assert(line.last() == w.last());
    crate::text::lemma_trim_id(line);
    crate::text::lemma_trim_id(w);
    lemma_no_strip(line, "PAIR"@, 0);
    lemma_no_strip(line, "OPEN "@, 0);
    lemma_no_strip(line, "PHONEVOL "@, 0);
    lemma_no_strip(line, "MEDIA "@, 0);
    lemma_no_strip(line, "SENDFILETO "@, 0);
    lemma_no_strip(line, "SENDFILE "@, 0);
    lemma_no_strip(line, "SCREEN"@, 0);
    lemma_no_strip(line, "SCREEN "@, 0);
    lemma_strip("LOCKMODE "@, w);
    if !on {
        assert(w.len() != ("on"@).len());
    }
}

/// A command sent by a client reads back, on the daemon's side, as the same
/// command.
pub proof fn lemma_control_round_trip(c: CommandView)
    requires
        well_formed(c),
    ensures
        spec_parse(spec_line(c)) == Some(c),
{
    match c {
        CommandView::Pair => lemma_rt_plain(c),
        CommandView::Ping => lemma_rt_plain(c),
        CommandView::Open(url, title) => lemma_rt_open(url, title),
        CommandView::PhoneVolume(action, value) => lemma_rt_volume(action, value),
        CommandView::Media(_) => lemma_rt_field(c),
        CommandView::SendFile(_) => lemma_rt_field(c),
        CommandView::Forget(_) => lemma_rt_field(c),
        CommandView::SendFileTo(fp, path) => lemma_rt_send_to(fp, path),
        CommandView::Screen(to) => lemma_rt_screen(to),
        CommandView::LockMode(on) => lemma_rt_lock(on),
    }
}

} // verus!

verus! {

/// What a client reads as the daemon's first answer to `PAIR`: the QR
/// payload, or the daemon's error (the text after `ERR `), or, when the
/// daemon said nothing, that it did not answer.
pub open spec fn spec_pair_payload(line: Option<Seq<char>>) -> Result<Seq<char>, Seq<char>> {
    match line {
        None => Err("no response from daemon"@),
        Some(l) => match strip_prefix(l, "ERR "@) {
            Some(e) => Err(e),
            None => Ok(l),
        },
    }
}

fn text_of(v: &[char]) -> (s: String)
    ensures
        s@ == v@,
{
    string_of(v)
}

/// The daemon's first answer to `PAIR` (see `spec_pair_payload`).
pub fn pair_payload(line: Option<&str>) -> (r: Result<String, String>)
    ensures
        match spec_pair_payload(match line {
            Some(l) => Some(l@),
            None => None,
        }) {
            Ok(p) => r matches Ok(x) && x@ == p,
            Err(e) => r matches Err(x) && x@ == e,
        },
{
    match line {
        None => {
            let mut e = String::new();
            push_str_of(&mut e, "no response from daemon");
            assert(e@ =~= "no response from daemon"@);
            Err(e)
        },
        Some(l) => {
            let v = chars_of(l);
            let p = chars_of("ERR ");
            if starts_with(v.as_slice(), p.as_slice()) {
                let rest = crate::text::chars_of_range(v.as_slice(), p.len(), v.len());
                assert(rest@ =~= l@.skip(p@.len() as int));
                Err(text_of(rest.as_slice()))
            } else {
                Ok(text_of(v.as_slice()))
            }
        },
    }
}

/// The name of the phone that paired, when the daemon's second answer to
/// `PAIR` reports one (`PAIRED <name>`); `None` when the window closed
/// without a pairing.
pub open spec fn spec_paired_name(line: Seq<char>) -> Option<Seq<char>> {
    if has_prefix(line, "PAIRED "@) {
        Some(trim(crate::text::strip_lead(line, "PAIRED "@)))
    } else {
        None
    }
}

/// The daemon's second answer to `PAIR` (see `spec_paired_name`).
pub fn paired_name(line: &str) -> (r: Option<String>)
    ensures
        match spec_paired_name(line@) {
            Some(n) => r matches Some(x) && x@ == n,
            None => r is None,
        },
{
    let v = chars_of(line);
    let p = chars_of("PAIRED ");
    if starts_with(v.as_slice(), p.as_slice()) {
        let rest = crate::text::strip_lead_of(v.as_slice(), p.as_slice());
        let t = trim_of(rest.as_slice());
        Some(text_of(t.as_slice()))
    } else {
        None
    }
}

/// What a client reads from the daemon's reply to `FORGET`: the name of
/// the phone forgotten (after `OK `), or the reason nothing was (the reply
/// without its `ERR ` prefixes), each without surrounding whitespace.
pub open spec fn spec_forget_result(reply: Seq<char>) -> Result<Seq<char>, Seq<char>> {
    match strip_prefix(reply, "OK "@) {
        Some(name) => Ok(trim(name)),
        None => Err(trim(crate::text::strip_lead(reply, "ERR "@))),
    }
}

/// The daemon's reply to `FORGET` (see `spec_forget_result`).
pub fn forget_result(reply: &str) -> (r: Result<String, String>)
    ensures
        match spec_forget_result(reply@) {
            Ok(n) => r matches Ok(x) && x@ == n,
            Err(e) => r matches Err(x) && x@ == e,
        },
{
    let v = chars_of(reply);
    let ok = chars_of("OK ");
    if starts_with(v.as_slice(), ok.as_slice()) {
        let rest = crate::text::chars_of_range(v.as_slice(), ok.len(), v.len());
        assert(rest@ =~= reply@.skip(ok@.len() as int));
        let t = trim_of(rest.as_slice());
        Ok(text_of(t.as_slice()))
    } else {
        let err = chars_of("ERR ");
        let rest = crate::text::strip_lead_of(v.as_slice(), err.as_slice());
        let t = trim_of(rest.as_slice());
        Err(text_of(t.as_slice()))
    }
}

} // verus!

verus! {

/// What the daemon answers to `FORGET` the client reads back: the name of
/// the phone forgotten (without surrounding whitespace), or the reason.
pub proof fn lemma_forget_answer_reads_back(fingerprint: Seq<char>, forgotten: Option<Seq<char>>)
    ensures
        spec_forget_result(spec_forget_reply(fingerprint, forgotten)) == if fingerprint.len() == 0 {
            Err::<Seq<char>, Seq<char>>("no fingerprint"@)
        } else {
            match forgotten {
                Some(name) => Ok::<Seq<char>, Seq<char>>(trim(name)),
                None => Err("unknown device"@),
            }
        },
{
    reveal_strlit("OK ");
    reveal_strlit("ERR ");
    reveal_strlit("ERR no fingerprint\n");
    reveal_strlit("ERR unknown device\n");
    reveal_strlit("no fingerprint");
    reveal_strlit("unknown device");
    reveal_strlit("\n");
    let reply = spec_forget_reply(fingerprint, forgotten);
    if fingerprint.len() == 0 || forgotten is None {
        let reason: Seq<char> = if fingerprint.len() == 0 {
            "no fingerprint"@
        } else {
            "unknown device"@
        };
        assert(reply =~= "ERR "@ + reason.push('\n'));
        assert(reply.take(3)[0] == 'E');
        assert(!has_prefix(reply, "OK "@));
        assert(reply.take(4) =~= "ERR "@);
        let rest = reply.skip(4);
        assert(rest =~= reason.push('\n'));
        assert(rest.take(4)[0] != 'E');
        assert(!has_prefix(rest, "ERR "@));
        assert(crate::text::strip_lead(rest, "ERR "@) == rest);
        assert(crate::text::strip_lead(reply, "ERR "@) == rest);
        crate::text::lemma_trim_drop_ws(rest);
        assert(rest.drop_last() =~= reason);
        crate::text::lemma_trim_id(reason);
    } else {
        let name = forgotten.unwrap();
        assert(reply =~= "OK "@ + name + "\n"@);
        assert(reply.take(3) =~= "OK "@);
        let rest = reply.skip(3);
        assert(rest =~= name.push('\n'));
        crate::text::lemma_trim_drop_ws(rest);
        assert(rest.drop_last() =~= name);
    }
}

} // verus!
