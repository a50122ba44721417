//! The PC-side effects of the phone's requests and of desktop changes:
//! do-not-disturb mirroring, volume and media commands, the now-playing
//! mirror, and the change counter that wakes the daemon's watchers.

use vstd::prelude::*;
use crate::text::{
    ascii_lower, chars_of, decimal_signed, push_decimal_signed, push_str_of, split_chars, split_on,
    trim,
};

verus! {

// ------------------------------------------------------------------ events

/// Marks that something changed: the change counter moves on by one,
/// wrapping around.
pub fn poke(counter: &mut u64)
    ensures
        *final(counter) == (if *old(counter) == u64::MAX {
            0
        } else {
            (*old(counter) + 1) as u64
        }),
{
    *counter = if *counter == u64::MAX {
        0
    } else {
        *counter + 1
    };
}

// --------------------------------------------------------- do not disturb

/// What the PC's `show-banners` value says of do-not-disturb: on when
/// banners are off (`false`).
pub open spec fn spec_dnd_from_banners(out: Seq<char>) -> bool {
    trim(out) == "false"@
}

/// Do-not-disturb as `gsettings get … show-banners` prints it.
pub fn dnd_from_banners(out: &str) -> (on: bool)
    ensures
        on == spec_dnd_from_banners(out@),
{
    let t = crate::text::trimmed(out);
    crate::text::same_chars_str(chars_of(t.as_str()).as_slice(), "false")
}

/// The `show-banners` value that sets do-not-disturb `on`.
pub fn banners_value(on: bool) -> (v: &'static str)
    ensures
        v@ == if on {
            "false"@
        } else {
            "true"@
        },
{
    if on {
        "false"
    } else {
        "true"
    }
}

/// The do-not-disturb value carried by a line of `gsettings monitor`
/// (`show-banners: false`): the text after the first colon, `None` when the
/// line has none.
pub open spec fn spec_monitor_value(line: Seq<char>) -> Option<bool> {
    let parts = split_on(line, ':');
    if parts.len() >= 2 {
        Some(trim(parts[1]) == "false"@)
    } else {
        None
    }
}

/// Mirrors do-not-disturb between the phone and the PC, remembering the
/// last state either side reported so that a change is pushed once.
pub struct DndSync {
    last: i8,
}

impl View for DndSync {
    type V = Option<bool>;

    /// The last known state (`None` before any).
    closed spec fn view(&self) -> Option<bool> {
        if self.last == 1 {
            Some(true)
        } else if self.last == 0 {
            Some(false)
        } else {
            None
        }
    }
}

impl DndSync {
    /// Nothing known yet.
    pub fn new() -> (d: Self)
        ensures
            d@ is None,
    {
        DndSync { last: -1 }
    }

    /// The phone switched do-not-disturb: remember it, and return the
    /// `show-banners` value to set on the PC.
    pub fn apply_from_phone(&mut self, on: bool) -> (v: &'static str)
        ensures
            final(self)@ == Some(on),
            v@ == if on {
                "false"@
            } else {
                "true"@
            },
    {
        self.last = if on {
            1
        } else {
            0
        };
        banners_value(on)
    }

    /// The PC reported `cur`; says whether that is a change to push to the
    /// phones (always the case for the first report), and remembers it.
    pub fn observe(&mut self, cur: bool) -> (push: bool)
        ensures
            final(self)@ == Some(cur),
            push == (old(self)@ != Some(cur)),
    {
        let v: i8 = if cur {
            1
        } else {
            0
        };
        let prev = self.last;
        self.last = v;
        prev != v
    }

    /// A line of `gsettings monitor`: the state to push to the phones when
    /// it changed; lines without a value change nothing.
    pub fn on_monitor_line(&mut self, line: &str) -> (push: Option<bool>)
        ensures
            match spec_monitor_value(line@) {
                None => push is None && final(self)@ == old(self)@,
                Some(cur) => final(self)@ == Some(cur) && push == if old(self)@ == Some(cur) {
                    None
                } else {
                    Some(cur)
                },
            },
    {
        let v = chars_of(line);
        let parts = split_chars(v.as_slice(), ':');
        if parts.len() < 2 {
            return None;
        }
        assert(parts@[1]@ == split_on(line@, ':')[1]);
        let t = crate::text::trim_of(parts[1].as_slice());
        let cur = crate::text::same_chars_str(t.as_slice(), "false");
        if self.observe(cur) {
            Some(cur)
        } else {
            None
        }
    }
}

// ----------------------------------------------------------------- volume

/// The volume of the PC moves in steps of 5%.
pub open spec fn sink() -> Seq<char> {
    "@DEFAULT_SINK@"@
}

/// The `pactl` arguments for a volume request from the phone: up or down a
/// step, toggle mute, or set a level held to 0..150%; `None` for an
/// unknown action.
pub open spec fn spec_volume_args(action: Seq<char>, value: i32) -> Option<Seq<Seq<char>>> {
    if action == "up"@ {
        Some(seq!["set-sink-volume"@, sink(), "+5%"@])
    } else if action == "down"@ {
        Some(seq!["set-sink-volume"@, sink(), "-5%"@])
    } else if action == "mute"@ {
        Some(seq!["set-sink-mute"@, sink(), "toggle"@])
    } else if action == "set"@ {
        let c = if value < 0 {
            0
        } else if value > 150 {
            150
        } else {
            value as int
        };
        Some(seq!["set-sink-volume"@, sink(), decimal_signed(c) + "%"@])
    } else {
        None
    }
}

/// A `String` holding the text of `s`.
fn lit(s: &str) -> (r: String)
    ensures
        r@ == s@,
{
    let mut r = String::new();
    push_str_of(&mut r, s);
    assert(r@ =~= s@);
    r
}

/// The `pactl` arguments for a volume request (see `spec_volume_args`).
pub fn volume_command(action: &str, value: i32) -> (r: Option<Vec<String>>)
    ensures
        match spec_volume_args(action@, value) {
            Some(a) => (r matches Some(v) && v@.map_values(|s: String| s@) == a),
            None => r is None,
        },
{
    let a = chars_of(action);
    let (first, third) = if crate::text::same_chars_str(a.as_slice(), "up") {
        (lit("set-sink-volume"), lit("+5%"))
    } else if crate::text::same_chars_str(a.as_slice(), "down") {
        (lit("set-sink-volume"), lit("-5%"))
    } else if crate::text::same_chars_str(a.as_slice(), "mute") {
        (lit("set-sink-mute"), lit("toggle"))
    } else if crate::text::same_chars_str(a.as_slice(), "set") {
        let c: i32 = if value < 0 {
            0
        } else if value > 150 {
            150
        } else {
            value
        };
        let mut t = String::new();
        push_decimal_signed(&mut t, c as i64);
        push_str_of(&mut t, "%");
        assert(t@ =~= decimal_signed(c as int) + "%"@);
        (lit("set-sink-volume"), t)
    } else {
        return None;
    };
    let v = vec![first, lit("@DEFAULT_SINK@"), third];
    assert(v@.map_values(|s: String| s@) =~= spec_volume_args(action@, value).unwrap());
    Some(v)
}

// ------------------------------------------------------------------ media

/// The MPRIS method for a media request from the phone; `None` for an
/// unknown action.
pub open spec fn spec_media_member(action: Seq<char>) -> Option<Seq<char>> {
    if action == "play_pause"@ {
        Some("PlayPause"@)
    } else if action == "next"@ {
        Some("Next"@)
    } else if action == "previous"@ {
        Some("Previous"@)
    } else {
        None
    }
}

/// The MPRIS method for a media request (see `spec_media_member`).
pub fn media_member(action: &str) -> (m: Option<&'static str>)
    ensures
        match spec_media_member(action@) {
            Some(x) => (m matches Some(y) && y@ == x),
            None => m is None,
        },
{
    let a = chars_of(action);
    if crate::text::same_chars_str(a.as_slice(), "play_pause") {
        Some("PlayPause")
    } else if crate::text::same_chars_str(a.as_slice(), "next") {
        Some("Next")
    } else if crate::text::same_chars_str(a.as_slice(), "previous") {
        Some("Previous")
    } else {
        None
    }
}

/// The `playerctl` argument used when no MPRIS player answers.
pub fn playerctl_arg(action: &str) -> (arg: &'static str)
    ensures
        arg@ == if action@ == "play_pause"@ {
            "play-pause"@
        } else if action@ == "next"@ {
            "next"@
        } else {
            "previous"@
        },
{
    let a = chars_of(action);
    if crate::text::same_chars_str(a.as_slice(), "play_pause") {
        "play-pause"
    } else if crate::text::same_chars_str(a.as_slice(), "next") {
        "next"
    } else {
        "previous"
    }
}

/// `str::eq_ignore_ascii_case`.
pub open spec fn eq_ignore_case(a: Seq<char>, b: Seq<char>) -> bool {
    a.len() == b.len() && forall|i: int| 0 <= i < a.len() ==> ascii_lower(#[trigger] a[i]) == ascii_lower(b[i])
}

/// ASCII lowercase of one character.
pub fn lower_char(c: char) -> (r: char)
    ensures
        r == ascii_lower(c),
{
    if 'A' <= c && c <= 'Z' {
        ((c as u32 + 32) as u8) as char
    } else {
        c
    }
}

/// Whether `a` and `b` are equal up to ASCII case.
pub fn equal_ignoring_case(a: &[char], b: &[char]) -> (r: bool)
    ensures
        r == eq_ignore_case(a@, b@),
{
    if a.len() != b.len() {
        return false;
    }
    let mut i: usize = 0;
    while i < a.len()
        invariant
            i <= a@.len(),
            a@.len() == b@.len(),
            forall|k: int| 0 <= k < i ==> ascii_lower(#[trigger] a@[k]) == ascii_lower(b@[k]),
        decreases a@.len() - i,
    {
        if lower_char(a[i]) != lower_char(b[i]) {
            return false;
        }
        i = i + 1;
    }
    true
}

/// What the phone is shown of a player: its title, artist and whether it
/// plays; nothing for a player without a title.
pub open spec fn spec_player_info(status: Seq<char>, title: Option<Seq<char>>, artist: Option<Seq<char>>) -> Option<
    (Seq<char>, Seq<char>, bool),
> {
    match title {
        None => None,
        Some(t) => if t.len() == 0 {
            None
        } else {
            Some(
                (
                    t,
                    match artist {
                        Some(a) => a,
                        None => seq![],
                    },
                    eq_ignore_case(status, "Playing"@),
                ),
            )
        },
    }
}

/// What the phone is shown of a player (see `spec_player_info`).
pub fn player_info(status: &str, title: Option<String>, artist: Option<String>) -> (r: Option<
    (String, String, bool),
>)
    ensures
        match r {
            Some((t, a, p)) => spec_player_info(
                status@,
                match title {
                    Some(x) => Some(x@),
                    None => None,
                },
                match artist {
                    Some(x) => Some(x@),
                    None => None,
                },
            ) == Some((t@, a@, p)),
            None => spec_player_info(
                status@,
                match title {
                    Some(x) => Some(x@),
                    None => None,
                },
                match artist {
                    Some(x) => Some(x@),
                    None => None,
                },
            ) is None,
        },
{
    let t = match title {
        Some(t) => t,
        None => {
            return None;
        },
    };
    let tc = chars_of(t.as_str());
    if tc.len() == 0 {
        return None;
    }
    let a = match artist {
        Some(a) => a,
        None => String::new(),
    };
    let s = chars_of(status);
    let p = chars_of("Playing");
    let playing = equal_ignoring_case(s.as_slice(), p.as_slice());
    Some((t, a, playing))
}

/// The player to control: the first one playing, else the first one with
/// something to show; `None` when no player shows anything.
pub open spec fn spec_pick_player(players: Seq<Option<bool>>) -> Option<int>
    decreases players.len(),
{
    if players.len() == 0 {
        None
    } else {
        let r = spec_pick_player(players.drop_last());
        match r {
            Some(i) => if players[i] == Some(true) {
                Some(i)
            } else if players.last() == Some(true) {
                Some(players.len() - 1)
            } else {
                Some(i)
            },
            None => if players.last() is Some {
                Some(players.len() - 1)
            } else {
                None
            },
        }
    }
}

/// Among the players, by whether each is playing (`None`: nothing to
/// show), the position of the one to control (see `spec_pick_player`).
pub fn pick_player(players: &[Option<bool>]) -> (r: Option<usize>)
    ensures
        match r {
            Some(i) => spec_pick_player(players@) == Some(i as int),
            None => spec_pick_player(players@) is None,
        },
{
    let mut fallback: Option<usize> = None;
    let mut i: usize = 0;
    assert(players@.take(0) =~= Seq::<Option<bool>>::empty());
    while i < players.len()
        invariant
            i <= players@.len(),
            match fallback {
                Some(f) => f < i && spec_pick_player(players@.take(i as int)) == Some(f as int),
                None => spec_pick_player(players@.take(i as int)) is None,
            },
            fallback matches Some(f) ==> players@[f as int] != Some(true),
        decreases players@.len() - i,
    {
        assert(players@.take(i + 1).drop_last() =~= players@.take(i as int));
        assert(players@.take(i + 1).last() == players@[i as int]);
        match players[i] {
            Some(true) => {
                proof {
                    if fallback is Some {
                        assert(players@.take(i + 1)[fallback.unwrap() as int] == players@[fallback.unwrap() as int]);
                    }
                }
                let r = Some(i);
                proof {
                    lemma_pick_playing(players@, i as int);
                }
                return r;
            },
            Some(false) => {
                if fallback.is_none() {
                    fallback = Some(i);
                } else {
                    assert(players@.take(i + 1)[fallback.unwrap() as int] == players@[fallback.unwrap() as int]);
                }
            },
            None => {
                if fallback.is_some() {
                    assert(players@.take(i + 1)[fallback.unwrap() as int] == players@[fallback.unwrap() as int]);
                }
            },
        }
        i = i + 1;
    }
    assert(players@.take(players@.len() as int) =~= players@);
    fallback
}

/// Once a player that plays is picked, later players do not change the
/// pick.
proof fn lemma_pick_playing(s: Seq<Option<bool>>, i: int)
    requires
        0 <= i < s.len(),
        s[i] == Some(true),
        spec_pick_player(s.take(i + 1)) == Some(i),
    ensures
        spec_pick_player(s) == Some(i),
    decreases s.len() - i,
{
    if s.len() > i + 1 {
        assert(s.drop_last().take(i + 1) =~= s.take(i + 1));
        lemma_pick_playing(s.drop_last(), i);
    } else {
        assert(s.take(i + 1) =~= s);
    }
}

} // verus!
