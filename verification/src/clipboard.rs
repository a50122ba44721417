//! Clipboard sharing: which clipboard changes travel, so that a text that
//! came from the phone is never sent back to it, and the table of phones
//! listening for pushes.

use vstd::prelude::*;
use vstd::string::StringSliceAdditionalSpecFns;
use crate::text::{chars_of, string_of};
use crate::order::same_chars;
use crate::identity::{fingerprint_of, spec_fingerprint};

verus! {

/// The largest clipboard text shared, in bytes.
pub const MAX_LEN: usize = 262144;

/// The length in bytes of the UTF-8 text of `s`.
pub open spec fn byte_len(s: &str) -> nat {
    s.spec_bytes().len()
}

/// The last clipboard text and image seen on either side.
pub struct ClipboardState {
    last_text: String,
    last_image_hash: String,
}

impl View for ClipboardState {
    type V = (Seq<char>, Seq<char>);

    /// The last text, and the fingerprint of the last image.
    closed spec fn view(&self) -> (Seq<char>, Seq<char>) {
        (self.last_text@, self.last_image_hash@)
    }
}

/// A copy of `s`.
fn copy_str(s: &str) -> (r: String)
    ensures
        r@ == s@,
{
    string_of(chars_of(s).as_slice())
}

impl ClipboardState {
    /// Nothing seen yet.
    pub fn new() -> (c: Self)
        ensures
            c@ == (Seq::<char>::empty(), Seq::<char>::empty()),
    {
        ClipboardState { last_text: String::new(), last_image_hash: String::new() }
    }

    /// The last text seen, which a phone that subscribes receives at once
    /// when it is not empty.
    pub fn last_text(&self) -> (t: &str)
        ensures
            t@ == self@.0,
    {
        self.last_text.as_str()
    }

    /// The PC's clipboard holds `current`: whether to push it to the
    /// phones. It travels when it is not empty, at most `MAX_LEN` bytes, and
    /// not the text seen last (which covers a text that came from a phone).
    pub fn on_local_text(&mut self, current: &str) -> (push: bool)
        ensures
            push == pushes_local(old(self)@.0, current@, byte_len(current)),
            final(self)@ == if push {
                (current@, old(self)@.1)
            } else {
                old(self)@
            },
    {
        if current.is_empty() || current.as_bytes().len() > MAX_LEN {
            return false;
        }
        let c = chars_of(current);
        let l = chars_of(self.last_text.as_str());
        if same_chars(c.as_slice(), l.as_slice()) {
            return false;
        }
        self.last_text = copy_str(current);
        true
    }

    /// A phone sent `text`: whether to take it (put it on the PC's clipboard
    /// and pass it to every listening phone). Texts over `MAX_LEN` bytes are
    /// ignored.
    pub fn on_peer_text(&mut self, text: &str) -> (accept: bool)
        ensures
            accept == (byte_len(text) <= MAX_LEN),
            final(self)@ == took_peer_text(old(self)@, text@, byte_len(text)),
    {
        if text.as_bytes().len() > MAX_LEN {
            return false;
        }
        self.last_text = copy_str(text);
        true
    }

    /// The PC's clipboard holds an image with fingerprint `hash`: whether
    /// to offer it to the phones (only when it differs from the last one).
    pub fn on_local_image(&mut self, hash: &str) -> (offer: bool)
        ensures
            offer == offers_image(old(self)@, hash@),
            final(self)@ == (old(self)@.0, hash@),
    {
        let h = chars_of(hash);
        let l = chars_of(self.last_image_hash.as_str());
        let same = same_chars(h.as_slice(), l.as_slice());
        self.last_image_hash = copy_str(hash);
        !same
    }

    /// A phone sent an image with fingerprint `hash`, now on the PC's
    /// clipboard.
    pub fn set_image_hash(&mut self, hash: &str)
        ensures
            final(self)@ == (old(self)@.0, hash@),
    {
        self.last_image_hash = copy_str(hash);
    }
}

/// Whether a text on the PC's clipboard travels to the phones, given the
/// last text seen: not empty, at most `MAX_LEN` bytes, and new.
pub open spec fn pushes_local(last: Seq<char>, current: Seq<char>, bytes: nat) -> bool {
    current.len() > 0 && bytes <= MAX_LEN && current != last
}

/// The state once a phone's `text` (of `bytes` bytes) was taken.
pub open spec fn took_peer_text(s: (Seq<char>, Seq<char>), text: Seq<char>, bytes: nat) -> (
    Seq<char>,
    Seq<char>,
) {
    if bytes <= MAX_LEN {
        (text, s.1)
    } else {
        s
    }
}

/// Whether an image with fingerprint `hash` on the PC's clipboard is
/// offered to the phones.
pub open spec fn offers_image(s: (Seq<char>, Seq<char>), hash: Seq<char>) -> bool {
    hash != s.1
}

/// No echo: a text the PC took from a phone is not pushed back when it
/// shows up on the PC's clipboard, and an image a phone sent is not offered
/// back either.
pub proof fn lemma_no_echo(
    s: (Seq<char>, Seq<char>),
    text: Seq<char>,
    bytes: nat,
    hash: Seq<char>,
)
    requires
        bytes <= MAX_LEN,
    ensures
        !pushes_local(took_peer_text(s, text, bytes).0, text, bytes),
        !offers_image((s.0, hash), hash),
{
}

/// The fingerprint by which a clipboard image is recognised: the hex
/// SHA-256 of its bytes.
pub fn image_hash(bytes: &[u8]) -> (h: String)
    ensures
        h@ == spec_fingerprint(bytes@),
{
    fingerprint_of(bytes)
}

/// The tool that reaches the desktop's clipboard.
#[derive(Debug, Clone, Copy, PartialEq, Eq, Structural)]
pub enum Backend {
    /// `wl-clipboard` under Wayland.
    Wayland,
    /// `xclip` under X11.
    X11,
    /// Neither is there: no clipboard sharing.
    Unavailable,
}

/// The backend: `wl-clipboard` in a Wayland session that has `wl-paste`,
/// else `xclip` in an X11 session that has it, else none.
pub fn choose_backend(wayland: bool, has_wl_paste: bool, x11: bool, has_xclip: bool) -> (b: Backend)
    ensures
        b == if wayland && has_wl_paste {
            Backend::Wayland
        } else if x11 && has_xclip {
            Backend::X11
        } else {
            Backend::Unavailable
        },
{
    if wayland && has_wl_paste {
        Backend::Wayland
    } else if x11 && has_xclip {
        Backend::X11
    } else {
        Backend::Unavailable
    }
}

/// The views of a command line.
pub open spec fn argv_view(v: Seq<&str>) -> Seq<Seq<char>> {
    v.map_values(|a: &str| a@)
}

/// The command that reads the clipboard: its text when `image` is false,
/// its PNG image when it is true.
pub open spec fn spec_paste_command(b: Backend, image: bool) -> Option<Seq<Seq<char>>> {
    match b {
        Backend::Wayland => Some(
            if image {
                seq!["wl-paste"@, "-t"@, "image/png"@]
            } else {
                seq!["wl-paste"@, "-n"@]
            },
        ),
        Backend::X11 => Some(
            if image {
                seq!["xclip"@, "-selection"@, "clipboard"@, "-t"@, "image/png"@, "-o"@]
            } else {
                seq!["xclip"@, "-selection"@, "clipboard"@, "-o"@]
            },
        ),
        Backend::Unavailable => None,
    }
}

/// The command that sets the clipboard from its standard input: text when
/// `image` is false, a PNG image when it is true.
pub open spec fn spec_copy_command(b: Backend, image: bool) -> Option<Seq<Seq<char>>> {
    match b {
        Backend::Wayland => Some(
            if image {
                seq!["wl-copy"@, "-t"@, "image/png"@]
            } else {
                seq!["wl-copy"@]
            },
        ),
        Backend::X11 => Some(
            if image {
                seq!["xclip"@, "-selection"@, "clipboard"@, "-t"@, "image/png"@, "-i"@]
            } else {
                seq!["xclip"@, "-selection"@, "clipboard"@, "-i"@]
            },
        ),
        Backend::Unavailable => None,
    }
}

/// The command that reads the clipboard (see `spec_paste_command`).
pub fn paste_command(b: Backend, image: bool) -> (c: Option<Vec<&'static str>>)
    ensures
        match spec_paste_command(b, image) {
            Some(v) => c matches Some(x) && argv_view(x@) == v,
            None => c is None,
        },
{
    let c: Option<Vec<&'static str>> = match b {
        Backend::Wayland => Some(
            if image {
                vec!["wl-paste", "-t", "image/png"]
            } else {
                vec!["wl-paste", "-n"]
            },
        ),
        Backend::X11 => Some(
            if image {
                vec!["xclip", "-selection", "clipboard", "-t", "image/png", "-o"]
            } else {
                vec!["xclip", "-selection", "clipboard", "-o"]
            },
        ),
        Backend::Unavailable => None,
    };
    proof {
        if c is Some {
            assert(argv_view(c.unwrap()@) =~= spec_paste_command(b, image).unwrap());
        }
    }
    c
}

/// The command that sets the clipboard (see `spec_copy_command`).
pub fn copy_command(b: Backend, image: bool) -> (c: Option<Vec<&'static str>>)
    ensures
        match spec_copy_command(b, image) {
            Some(v) => c matches Some(x) && argv_view(x@) == v,
            None => c is None,
        },
{
    let c: Option<Vec<&'static str>> = match b {
        Backend::Wayland => Some(
            if image {
                vec!["wl-copy", "-t", "image/png"]
            } else {
                vec!["wl-copy"]
            },
        ),
        Backend::X11 => Some(
            if image {
                vec!["xclip", "-selection", "clipboard", "-t", "image/png", "-i"]
            } else {
                vec!["xclip", "-selection", "clipboard", "-i"]
            },
        ),
        Backend::Unavailable => None,
    };
    proof {
        if c is Some {
            assert(argv_view(c.unwrap()@) =~= spec_copy_command(b, image).unwrap());
        }
    }
    c
}

/// A phone listening for pushes.
#[derive(Debug, Clone)]
pub struct Subscriber {
    pub id: u64,
    pub fingerprint: String,
    pub name: String,
}

/// The phones listening for pushes, in the order they subscribed.
pub struct SubscriberTable {
    subs: Vec<Subscriber>,
    next_id: u64,
}

impl View for SubscriberTable {
    type V = (Seq<(u64, Seq<char>, Seq<char>)>, u64);

    /// The subscribers (id, fingerprint, name) and the next id to hand out.
    closed spec fn view(&self) -> (Seq<(u64, Seq<char>, Seq<char>)>, u64) {
        (self.subs@.map_values(|s: Subscriber| (s.id, s.fingerprint@, s.name@)), self.next_id)
    }
}

/// The entries of `s` whose id is not `id`, in order.
pub open spec fn without_id(s: Seq<(u64, Seq<char>, Seq<char>)>, id: u64) -> Seq<(u64, Seq<char>, Seq<char>)>
    decreases s.len(),
{
    if s.len() == 0 {
        s
    } else if s.last().0 == id {
        without_id(s.drop_last(), id)
    } else {
        without_id(s.drop_last(), id).push(s.last())
    }
}

/// The (fingerprint, name) of each distinct fingerprint, first subscriber
/// first.
pub open spec fn distinct_phones(s: Seq<(u64, Seq<char>, Seq<char>)>) -> Seq<(Seq<char>, Seq<char>)>
    decreases s.len(),
{
    if s.len() == 0 {
        seq![]
    } else {
        let r = distinct_phones(s.drop_last());
        if r.map_values(|p: (Seq<char>, Seq<char>)| p.0).contains(s.last().1) {
            r
        } else {
            r.push((s.last().1, s.last().2))
        }
    }
}

/// The ids of the subscribers a push reaches: all of them, or those of one
/// fingerprint.
pub open spec fn push_targets(s: Seq<(u64, Seq<char>, Seq<char>)>, fp: Option<Seq<char>>) -> Seq<u64>
    decreases s.len(),
{
    if s.len() == 0 {
        seq![]
    } else {
        let r = push_targets(s.drop_last(), fp);
        match fp {
            Some(f) => if s.last().1 == f {
                r.push(s.last().0)
            } else {
                r
            },
            None => r.push(s.last().0),
        }
    }
}

impl SubscriberTable {
    /// No phone listening; ids start at 1.
    pub fn new() -> (t: Self)
        ensures
            t@ == (Seq::<(u64, Seq<char>, Seq<char>)>::empty(), 1u64),
    {
        let t = SubscriberTable { subs: Vec::new(), next_id: 1 };
        assert(t@.0 =~= Seq::<(u64, Seq<char>, Seq<char>)>::empty());
        t
    }

    /// Adds a listening phone; returns its id (the next one, which then
    /// moves on by one, wrapping around).
    pub fn subscribe(&mut self, fingerprint: &str, name: &str) -> (id: u64)
        ensures
            id == old(self)@.1,
            final(self)@.0 == old(self)@.0.push((id, fingerprint@, name@)),
            final(self)@.1 == if id == u64::MAX {
                0
            } else {
                (id + 1) as u64
            },
    {
        let id = self.next_id;
        self.next_id = if id == u64::MAX {
            0
        } else {
            id + 1
        };
        let s = Subscriber { id, fingerprint: copy_str(fingerprint), name: copy_str(name) };
        let ghost before = self@.0;
        self.subs.push(s);
        assert(self@.0 =~= before.push((id, fingerprint@, name@)));
        id
    }

    /// Removes every subscriber with id `id`.
    pub fn unsubscribe(&mut self, id: u64)
        ensures
            final(self)@ == (without_id(old(self)@.0, id), old(self)@.1),
    {
        let ghost sv = self@.0;
        let mut kept: Vec<Subscriber> = Vec::new();
        let mut i: usize = 0;
        assert(sv.take(0) =~= Seq::<(u64, Seq<char>, Seq<char>)>::empty());
        while i < self.subs.len()
            invariant
                i <= self.subs@.len(),
                sv == self.subs@.map_values(|s: Subscriber| (s.id, s.fingerprint@, s.name@)),
                kept@.map_values(|s: Subscriber| (s.id, s.fingerprint@, s.name@)) == without_id(sv.take(i as int), id),
            decreases self.subs@.len() - i,
        {
            assert(sv.take(i + 1).drop_last() =~= sv.take(i as int));
            assert(sv.take(i + 1).last() == sv[i as int]);
            if self.subs[i].id != id {
                let s = Subscriber {
                    id: self.subs[i].id,
                    fingerprint: copy_str(self.subs[i].fingerprint.as_str()),
                    name: copy_str(self.subs[i].name.as_str()),
                };
                let ghost before = kept@.map_values(|s: Subscriber| (s.id, s.fingerprint@, s.name@));
                kept.push(s);
                assert(kept@.map_values(|s: Subscriber| (s.id, s.fingerprint@, s.name@)) =~= before.push(sv[i as int]));
            }
            i = i + 1;
        }
        assert(sv.take(sv.len() as int) =~= sv);
        self.subs = kept;
    }

    /// How many phones listen.
    pub fn count(&self) -> (n: usize)
        ensures
            n == self@.0.len(),
    {
        self.subs.len()
    }

    /// The connected phones: (fingerprint, name) of each distinct
    /// fingerprint, first subscriber first.
    pub fn connected(&self) -> (out: Vec<(String, String)>)
        ensures
            out@.map_values(|p: (String, String)| (p.0@, p.1@)) == distinct_phones(self@.0),
    {
        let ghost sv = self@.0;
        let mut out: Vec<(String, String)> = Vec::new();
        let mut i: usize = 0;
        assert(sv.take(0) =~= Seq::<(u64, Seq<char>, Seq<char>)>::empty());
        while i < self.subs.len()
            invariant
                i <= self.subs@.len(),
                sv == self.subs@.map_values(|s: Subscriber| (s.id, s.fingerprint@, s.name@)),
                out@.map_values(|p: (String, String)| (p.0@, p.1@)) == distinct_phones(sv.take(i as int)),
            decreases self.subs@.len() - i,
        {
            assert(sv.take(i + 1).drop_last() =~= sv.take(i as int));
            assert(sv.take(i + 1).last() == sv[i as int]);
            let f = chars_of(self.subs[i].fingerprint.as_str());
            let ghost ov = out@.map_values(|p: (String, String)| (p.0@, p.1@));
            let mut seen = false;
            let mut k: usize = 0;
            while k < out.len()
                invariant
                    k <= out@.len(),
                    ov == out@.map_values(|p: (String, String)| (p.0@, p.1@)),
                    seen == exists|j: int| 0 <= j < k && ov[j].0 == f@,
                decreases out@.len() - k,
            {
                let g = chars_of(out[k].0.as_str());
                assert(g@ == ov[k as int].0);
                if same_chars(g.as_slice(), f.as_slice()) {
                    seen = true;
                }
                k = k + 1;
            }
            proof {
                let m = ov.map_values(|p: (Seq<char>, Seq<char>)| p.0);
                if seen {
                    let j = choose|j: int| 0 <= j < out@.len() && ov[j].0 == f@;
                    assert(m[j] == f@);
                } else {
                    assert forall|j: int| 0 <= j < m.len() implies m[j] != f@ by {
                        assert(m[j] == ov[j].0);
                    }
                }
            }
            if !seen {
                let pair = (string_of(f.as_slice()), copy_str(self.subs[i].name.as_str()));
                out.push(pair);
                assert(out@.map_values(|p: (String, String)| (p.0@, p.1@)) =~= ov.push((f@, sv[i as int].2)));
            }
            i = i + 1;
        }
        assert(sv.take(sv.len() as int) =~= sv);
        out
    }

    /// The ids a push reaches: every subscriber, or those of phone
    /// `fingerprint` (see `push_targets`).
    pub fn targets(&self, fingerprint: Option<&str>) -> (ids: Vec<u64>)
        ensures
            ids@ == push_targets(self@.0, match fingerprint {
                Some(f) => Some(f@),
                None => None,
            }),
    {
        let ghost sv = self@.0;
        let ghost fv = match fingerprint {
            Some(f) => Some(f@),
            None => None::<Seq<char>>,
        };
        let f: Option<Vec<char>> = match fingerprint {
            Some(x) => Some(chars_of(x)),
            None => None,
        };
        let mut ids: Vec<u64> = Vec::new();
        let mut i: usize = 0;
        assert(sv.take(0) =~= Seq::<(u64, Seq<char>, Seq<char>)>::empty());
        while i < self.subs.len()
            invariant
                i <= self.subs@.len(),
                sv == self.subs@.map_values(|s: Subscriber| (s.id, s.fingerprint@, s.name@)),
                fv == match f {
                    Some(x) => Some(x@),
                    None => None::<Seq<char>>,
                },
                ids@ == push_targets(sv.take(i as int), fv),
            decreases self.subs@.len() - i,
        {
            assert(sv.take(i + 1).drop_last() =~= sv.take(i as int));
            assert(sv.take(i + 1).last() == sv[i as int]);
            let hit = match &f {
                Some(x) => {
                    let g = chars_of(self.subs[i].fingerprint.as_str());
                    same_chars(g.as_slice(), x.as_slice())
                },
                None => true,
            };
            if hit {
                ids.push(self.subs[i].id);
            }
            i = i + 1;
        }
        assert(sv.take(sv.len() as int) =~= sv);
        ids
    }
}

} // verus!
