//! Phone notifications on the desktop: which desktop notification a phone
//! notification replaces, what a click on "Reply" or "Open" leads to, and
//! the texts shown.

use vstd::prelude::*;
use crate::text::{chars_of, push_str_of, string_of, trim, trimmed};

verus! {

/// The map an association list stands for: a later entry for a key wins.
pub open spec fn assoc_map<K, V>(s: Seq<(K, V)>) -> Map<K, V>
    decreases s.len(),
{
    if s.len() == 0 {
        Map::empty()
    } else {
        assoc_map(s.drop_last()).insert(s.last().0, s.last().1)
    }
}

/// The entries of `s` whose key is not `k`.
pub open spec fn assoc_without<K, V>(s: Seq<(K, V)>, k: K) -> Seq<(K, V)>
    decreases s.len(),
{
    if s.len() == 0 {
        seq![]
    } else if s.last().0 == k {
        assoc_without(s.drop_last(), k)
    } else {
        assoc_without(s.drop_last(), k).push(s.last())
    }
}

/// Dropping the entries of a key removes the key from the map.
pub proof fn lemma_assoc_without<K, V>(s: Seq<(K, V)>, k: K)
    ensures
        assoc_map(assoc_without(s, k)) == assoc_map(s).remove(k),
    decreases s.len(),
{
    if s.len() > 0 {
        lemma_assoc_without(s.drop_last(), k);
        if s.last().0 == k {
            assert(assoc_map(s).remove(k) =~= assoc_map(s.drop_last()).remove(k));
        } else {
            let w = assoc_without(s.drop_last(), k);
            assert(w.push(s.last()).drop_last() =~= w);
            assert(assoc_map(s).remove(k) =~= assoc_map(s.drop_last()).remove(k).insert(
                s.last().0,
                s.last().1,
            ));
        }
    } else {
        assert(assoc_map(s).remove(k) =~= Map::<K, V>::empty());
    }
}

/// What a click on a notification leads to.
#[derive(Debug, Clone, PartialEq, Eq)]
pub enum NotificationAction {
    /// Ask for a reply to the phone notification `key`, labelled `label`.
    Reply { key: String, label: String },
    /// Open `url` in the browser.
    Open { url: String },
    /// Nothing to do.
    Nothing,
}

/// What a click leads to, by view.
pub enum ActionView {
    Reply(Seq<char>, Seq<char>),
    Open(Seq<char>),
    Nothing,
}

impl View for NotificationAction {
    type V = ActionView;

    open spec fn view(&self) -> ActionView {
        match self {
            NotificationAction::Reply { key, label } => ActionView::Reply(key@, label@),
            NotificationAction::Open { url } => ActionView::Open(url@),
            NotificationAction::Nothing => ActionView::Nothing,
        }
    }
}

/// The desktop notifications shown for the phone: by phone key, the id the
/// desktop gave; by id, the notifications that can be replied to and the
/// pages that can be opened.
pub struct NotificationBook {
    ids: Vec<(String, u32)>,
    replies: Vec<(u32, String, String)>,
    opens: Vec<(u32, String)>,
}

/// The key-to-id entries, by view.
pub open spec fn ids_view(s: Seq<(String, u32)>) -> Seq<(Seq<char>, u32)> {
    s.map_values(|e: (String, u32)| (e.0@, e.1))
}

/// The reply entries, by view.
pub open spec fn replies_view(s: Seq<(u32, String, String)>) -> Seq<(u32, (Seq<char>, Seq<char>))> {
    s.map_values(|e: (u32, String, String)| (e.0, (e.1@, e.2@)))
}

/// The page entries, by view.
pub open spec fn opens_view(s: Seq<(u32, String)>) -> Seq<(u32, Seq<char>)> {
    s.map_values(|e: (u32, String)| (e.0, e.1@))
}

impl View for NotificationBook {
    type V = (Map<Seq<char>, u32>, Map<u32, (Seq<char>, Seq<char>)>, Map<u32, Seq<char>>);

    /// The id of each phone notification shown, the (key, summary) of each
    /// notification that can be replied to, the page of each hand-off.
    closed spec fn view(&self) -> Self::V {
        (
            assoc_map(ids_view(self.ids@)),
            assoc_map(replies_view(self.replies@)),
            assoc_map(opens_view(self.opens@)),
        )
    }
}

fn copy_str(s: &str) -> (r: String)
    ensures
        r@ == s@,
{
    string_of(chars_of(s).as_slice())
}

impl NotificationBook {
    /// Nothing shown yet.
    pub fn new() -> (b: Self)
        ensures
            b@.0 == Map::<Seq<char>, u32>::empty(),
            b@.1 == Map::<u32, (Seq<char>, Seq<char>)>::empty(),
            b@.2 == Map::<u32, Seq<char>>::empty(),
    {
        let b = NotificationBook { ids: Vec::new(), replies: Vec::new(), opens: Vec::new() };
        assert(ids_view(b.ids@) =~= Seq::empty());
        assert(replies_view(b.replies@) =~= Seq::empty());
        assert(opens_view(b.opens@) =~= Seq::empty());
        b
    }

    /// The id that the notification for `key` replaces: the one shown for
    /// it before, or 0 (a new notification).
    pub fn replaces_id(&self, key: &str) -> (id: u32)
        ensures
            id == if self@.0.contains_key(key@) {
                self@.0[key@]
            } else {
                0
            },
    {
        let ghost s = ids_view(self.ids@);
        let k = chars_of(key);
        assert(s.take(s.len() as int) =~= s);
        let mut i: usize = self.ids.len();
        while i > 0
            invariant
                i <= self.ids@.len(),
                s == ids_view(self.ids@),
                k@ == key@,
                assoc_map(s).contains_key(key@) ==> (assoc_map(s.take(i as int)).contains_key(key@)
                    && assoc_map(s.take(i as int))[key@] == assoc_map(s)[key@]),
                !assoc_map(s).contains_key(key@) ==> !assoc_map(s.take(i as int)).contains_key(
                    key@,
                ),
            decreases i,
        {
            let e = &self.ids[i - 1];
            assert(s.take(i as int).drop_last() =~= s.take(i - 1));
            assert(s.take(i as int).last() == (e.0@, e.1));
            if crate::text::same_chars_str(k.as_slice(), e.0.as_str()) {
                return e.1;
            }
            i = i - 1;
        }
        assert(s.take(0) =~= Seq::<(Seq<char>, u32)>::empty());
        0
    }

    /// The desktop showed the notification for `key` as `id`, with
    /// `summary`; one that can be replied to is remembered for the reply.
    pub fn shown(&mut self, key: &str, id: u32, summary: &str, can_reply: bool)
        ensures
            final(self)@ == after_shown(old(self)@, key@, id, summary@, can_reply),
    {
        let ghost s0 = ids_view(self.ids@);
        self.ids = without_key(&self.ids, key);
        proof {
            lemma_assoc_without(s0, key@);
        }
        let ghost s1 = ids_view(self.ids@);
        self.ids.push((copy_str(key), id));
        assert(ids_view(self.ids@).drop_last() =~= s1);
        assert(assoc_map(ids_view(self.ids@)) =~= old(self)@.0.insert(key@, id));
        if can_reply {
            let ghost r0 = replies_view(self.replies@);
            self.replies = without_reply(&self.replies, id);
            proof {
                lemma_assoc_without(r0, id);
            }
            let ghost r1 = replies_view(self.replies@);
            self.replies.push((id, copy_str(key), copy_str(summary)));
            assert(replies_view(self.replies@).drop_last() =~= r1);
            assert(assoc_map(replies_view(self.replies@)) =~= old(self)@.1.insert(
                id,
                (key@, summary@),
            ));
        }
    }

    /// The desktop showed a page handed off from the phone as `id`.
    pub fn handoff_shown(&mut self, id: u32, url: &str)
        ensures
            final(self)@.0 == old(self)@.0,
            final(self)@.1 == old(self)@.1,
            final(self)@.2 == old(self)@.2.insert(id, url@),
    {
        let ghost o0 = opens_view(self.opens@);
        self.opens = without_open(&self.opens, id);
        proof {
            lemma_assoc_without(o0, id);
        }
        let ghost o1 = opens_view(self.opens@);
        self.opens.push((id, copy_str(url)));
        assert(opens_view(self.opens@).drop_last() =~= o1);
        assert(assoc_map(opens_view(self.opens@)) =~= old(self)@.2.insert(id, url@));
    }

    /// The phone withdrew its notification `key`: the id to close on the
    /// desktop, if one was shown, now forgotten along with its reply.
    pub fn dismiss(&mut self, key: &str) -> (closed: Option<u32>)
        ensures
            (closed, final(self)@) == after_dismiss(old(self)@, key@),
    {
        let id = self.replaces_id(key);
        let known = self.knows(key);
        if !known {
            return None;
        }
        let ghost s0 = ids_view(self.ids@);
        self.ids = without_key(&self.ids, key);
        proof {
            lemma_assoc_without(s0, key@);
        }
        let ghost r0 = replies_view(self.replies@);
        self.replies = without_reply(&self.replies, id);
        proof {
            lemma_assoc_without(r0, id);
        }
        Some(id)
    }

    /// Whether a notification was shown for `key`.
    pub fn knows(&self, key: &str) -> (b: bool)
        ensures
            b == self@.0.contains_key(key@),
    {
        let ghost s = ids_view(self.ids@);
        let k = chars_of(key);
        assert(s.take(s.len() as int) =~= s);
        let mut i: usize = self.ids.len();
        while i > 0
            invariant
                i <= self.ids@.len(),
                s == ids_view(self.ids@),
                k@ == key@,
                assoc_map(s).contains_key(key@) == assoc_map(s.take(i as int)).contains_key(key@),
            decreases i,
        {
            let e = &self.ids[i - 1];
            assert(s.take(i as int).drop_last() =~= s.take(i - 1));
            assert(s.take(i as int).last() == (e.0@, e.1));
            if crate::text::same_chars_str(k.as_slice(), e.0.as_str()) {
                return true;
            }
            i = i - 1;
        }
        assert(s.take(0) =~= Seq::<(Seq<char>, u32)>::empty());
        false
    }

    /// What a click on the button `action` of notification `id` leads to:
    /// "reply" on one that can be replied to asks for the reply; "open" or
    /// a click on the body of a hand-off opens the page.
    pub fn on_action(&self, id: u32, action: &str) -> (a: NotificationAction)
        ensures
            a@ == spec_on_action(self@, id, action@),
    {
        let act = chars_of(action);
        if crate::text::same_chars_str(act.as_slice(), "reply") {
            match reply_of(&self.replies, id) {
                Some((key, label)) => NotificationAction::Reply { key, label },
                None => NotificationAction::Nothing,
            }
        } else if crate::text::same_chars_str(act.as_slice(), "open")
            || crate::text::same_chars_str(act.as_slice(), "default") {
            match open_of(&self.opens, id) {
                Some(url) => NotificationAction::Open { url },
                None => NotificationAction::Nothing,
            }
        } else {
            NotificationAction::Nothing
        }
    }
}

/// The book once the desktop showed the notification for `key` as `id`.
pub open spec fn after_shown(
    b: (Map<Seq<char>, u32>, Map<u32, (Seq<char>, Seq<char>)>, Map<u32, Seq<char>>),
    key: Seq<char>,
    id: u32,
    summary: Seq<char>,
    can_reply: bool,
) -> (Map<Seq<char>, u32>, Map<u32, (Seq<char>, Seq<char>)>, Map<u32, Seq<char>>) {
    (
        b.0.insert(key, id),
        if can_reply {
            b.1.insert(id, (key, summary))
        } else {
            b.1
        },
        b.2,
    )
}

/// The id to close when the phone withdraws `key`, and the book after.
pub open spec fn after_dismiss(
    b: (Map<Seq<char>, u32>, Map<u32, (Seq<char>, Seq<char>)>, Map<u32, Seq<char>>),
    key: Seq<char>,
) -> (Option<u32>, (Map<Seq<char>, u32>, Map<u32, (Seq<char>, Seq<char>)>, Map<u32, Seq<char>>)) {
    if b.0.contains_key(key) {
        (Some(b.0[key]), (b.0.remove(key), b.1.remove(b.0[key]), b.2))
    } else {
        (None, b)
    }
}

/// Dismissed on one side, gone on the other: a phone notification shown
/// on the desktop is the one its withdrawal closes; after that the key is
/// forgotten (the next notification for it is a new one) and no "Reply"
/// click on it asks for a reply any more.
pub proof fn lemma_dismiss_closes_what_was_shown(
    b: (Map<Seq<char>, u32>, Map<u32, (Seq<char>, Seq<char>)>, Map<u32, Seq<char>>),
    key: Seq<char>,
    id: u32,
    summary: Seq<char>,
    can_reply: bool,
)
    ensures
        after_dismiss(after_shown(b, key, id, summary, can_reply), key).0 == Some(id),
        !after_dismiss(after_shown(b, key, id, summary, can_reply), key).1.0.contains_key(key),
        spec_on_action(after_dismiss(after_shown(b, key, id, summary, can_reply), key).1, id, "reply"@)
            == ActionView::Nothing,
{
}

/// What a click leads to, given the book's view (see `on_action`).
pub open spec fn spec_on_action(
    b: (Map<Seq<char>, u32>, Map<u32, (Seq<char>, Seq<char>)>, Map<u32, Seq<char>>),
    id: u32,
    action: Seq<char>,
) -> ActionView {
    if action == "reply"@ {
        if b.1.contains_key(id) {
            ActionView::Reply(b.1[id].0, b.1[id].1)
        } else {
            ActionView::Nothing
        }
    } else if action == "open"@ || action == "default"@ {
        if b.2.contains_key(id) {
            ActionView::Open(b.2[id])
        } else {
            ActionView::Nothing
        }
    } else {
        ActionView::Nothing
    }
}

fn without_key(s: &Vec<(String, u32)>, key: &str) -> (r: Vec<(String, u32)>)
    ensures
        ids_view(r@) == assoc_without(ids_view(s@), key@),
{
    let k = chars_of(key);
    let ghost sv = ids_view(s@);
    let mut r: Vec<(String, u32)> = Vec::new();
    let mut i: usize = 0;
    while i < s.len()
        invariant
            i <= s@.len(),
            sv == ids_view(s@),
            k@ == key@,
            ids_view(r@) == assoc_without(sv.take(i as int), key@),
        decreases s@.len() - i,
    {
        let e = &s[i];
        assert(sv.take(i + 1).drop_last() =~= sv.take(i as int));
        assert(sv.take(i + 1).last() == (e.0@, e.1));
        if !crate::text::same_chars_str(k.as_slice(), e.0.as_str()) {
            r.push((copy_str(e.0.as_str()), e.1));
        }
        assert(ids_view(r@) =~= assoc_without(sv.take(i + 1), key@));
        i = i + 1;
    }
    assert(sv.take(s@.len() as int) =~= sv);
    r
}

fn without_reply(s: &Vec<(u32, String, String)>, id: u32) -> (r: Vec<(u32, String, String)>)
    ensures
        replies_view(r@) == assoc_without(replies_view(s@), id),
{
    let ghost sv = replies_view(s@);
    let mut r: Vec<(u32, String, String)> = Vec::new();
    let mut i: usize = 0;
    while i < s.len()
        invariant
            i <= s@.len(),
            sv == replies_view(s@),
            replies_view(r@) == assoc_without(sv.take(i as int), id),
        decreases s@.len() - i,
    {
        let e = &s[i];
        assert(sv.take(i + 1).drop_last() =~= sv.take(i as int));
        assert(sv.take(i + 1).last() == (e.0, (e.1@, e.2@)));
        if e.0 != id {
            r.push((e.0, copy_str(e.1.as_str()), copy_str(e.2.as_str())));
        }
        assert(replies_view(r@) =~= assoc_without(sv.take(i + 1), id));
        i = i + 1;
    }
    assert(sv.take(s@.len() as int) =~= sv);
    r
}

fn without_open(s: &Vec<(u32, String)>, id: u32) -> (r: Vec<(u32, String)>)
    ensures
        opens_view(r@) == assoc_without(opens_view(s@), id),
{
    let ghost sv = opens_view(s@);
    let mut r: Vec<(u32, String)> = Vec::new();
    let mut i: usize = 0;
    while i < s.len()
        invariant
            i <= s@.len(),
            sv == opens_view(s@),
            opens_view(r@) == assoc_without(sv.take(i as int), id),
        decreases s@.len() - i,
    {
        let e = &s[i];
        assert(sv.take(i + 1).drop_last() =~= sv.take(i as int));
        assert(sv.take(i + 1).last() == (e.0, e.1@));
        if e.0 != id {
            r.push((e.0, copy_str(e.1.as_str())));
        }
        assert(opens_view(r@) =~= assoc_without(sv.take(i + 1), id));
        i = i + 1;
    }
    assert(sv.take(s@.len() as int) =~= sv);
    r
}

fn reply_of(s: &Vec<(u32, String, String)>, id: u32) -> (r: Option<(String, String)>)
    ensures
        match r {
            Some(p) => assoc_map(replies_view(s@)).contains_key(id) && assoc_map(
                replies_view(s@),
            )[id] == (p.0@, p.1@),
            None => !assoc_map(replies_view(s@)).contains_key(id),
        },
{
    let ghost sv = replies_view(s@);
    assert(sv.take(sv.len() as int) =~= sv);
    let mut i: usize = s.len();
    while i > 0
        invariant
            i <= s@.len(),
            sv == replies_view(s@),
            assoc_map(sv).contains_key(id) ==> (assoc_map(sv.take(i as int)).contains_key(id)
                && assoc_map(sv.take(i as int))[id] == assoc_map(sv)[id]),
            !assoc_map(sv).contains_key(id) ==> !assoc_map(sv.take(i as int)).contains_key(id),
        decreases i,
    {
        let e = &s[i - 1];
        assert(sv.take(i as int).drop_last() =~= sv.take(i - 1));
        assert(sv.take(i as int).last() == (e.0, (e.1@, e.2@)));
        if e.0 == id {
            return Some((copy_str(e.1.as_str()), copy_str(e.2.as_str())));
        }
        i = i - 1;
    }
    assert(sv.take(0) =~= Seq::<(u32, (Seq<char>, Seq<char>))>::empty());
    None
}

fn open_of(s: &Vec<(u32, String)>, id: u32) -> (r: Option<String>)
    ensures
        match r {
            Some(u) => assoc_map(opens_view(s@)).contains_key(id) && assoc_map(opens_view(s@))[id]
                == u@,
            None => !assoc_map(opens_view(s@)).contains_key(id),
        },
{
    let ghost sv = opens_view(s@);
    assert(sv.take(sv.len() as int) =~= sv);
    let mut i: usize = s.len();
    while i > 0
        invariant
            i <= s@.len(),
            sv == opens_view(s@),
            assoc_map(sv).contains_key(id) ==> (assoc_map(sv.take(i as int)).contains_key(id)
                && assoc_map(sv.take(i as int))[id] == assoc_map(sv)[id]),
            !assoc_map(sv).contains_key(id) ==> !assoc_map(sv.take(i as int)).contains_key(id),
        decreases i,
    {
        let e = &s[i - 1];
        assert(sv.take(i as int).drop_last() =~= sv.take(i - 1));
        assert(sv.take(i as int).last() == (e.0, e.1@));
        if e.0 == id {
            return Some(copy_str(e.1.as_str()));
        }
        i = i - 1;
    }
    assert(sv.take(0) =~= Seq::<(u32, Seq<char>)>::empty());
    None
}

/// The summary line of a phone notification on the desktop: the app's
/// name, then an em dash and the title when there is one.
pub open spec fn spec_summary(app: Seq<char>, title: Seq<char>) -> Seq<char> {
    if title.len() == 0 {
        app
    } else {
        app + " — "@ + title
    }
}

/// The summary line of a phone notification (see `spec_summary`).
pub fn notification_summary(app: &str, title: &str) -> (s: String)
    ensures
        s@ == spec_summary(app@, title@),
{
    let mut s = String::new();
    push_str_of(&mut s, app);
    let t = chars_of(title);
    if t.len() > 0 {
        push_str_of(&mut s, " — ");
        push_str_of(&mut s, title);
    }
    assert(s@ =~= spec_summary(app@, title@));
    s
}

/// The summary line of a page handed off from the phone.
pub open spec fn spec_handoff_summary(title: Seq<char>) -> Seq<char> {
    if title.len() == 0 {
        "Page from the phone"@
    } else {
        "Open: "@ + title
    }
}

/// The summary line of a page handed off from the phone.
pub fn handoff_summary(title: &str) -> (s: String)
    ensures
        s@ == spec_handoff_summary(title@),
{
    let t = chars_of(title);
    let mut s = String::new();
    if t.len() == 0 {
        push_str_of(&mut s, "Page from the phone");
    } else {
        push_str_of(&mut s, "Open: ");
        push_str_of(&mut s, title);
    }
    s
}

/// The buttons of a phone notification: "Reply" when the phone can take a
/// reply, none otherwise (as (key, label) pairs, flattened).
pub fn notification_buttons(can_reply: bool) -> (v: Vec<&'static str>)
    ensures
        v@.map_values(|b: &str| b@) == if can_reply {
            seq!["reply"@, "Reply"@]
        } else {
            Seq::<Seq<char>>::empty()
        },
{
    let v: Vec<&'static str> = if can_reply {
        vec!["reply", "Reply"]
    } else {
        Vec::new()
    };
    assert(v@.map_values(|b: &str| b@) =~= if can_reply {
        seq!["reply"@, "Reply"@]
    } else {
        Seq::<Seq<char>>::empty()
    });
    v
}

/// The arguments of the `zenity` prompt for a quick reply.
pub open spec fn spec_reply_prompt_args(label: Seq<char>) -> Seq<Seq<char>> {
    seq!["--entry"@, "--title=Linux Link — Quick reply"@, "--text=Reply to: "@ + label, "--width=420"@]
}

/// The arguments of the `zenity` prompt for a quick reply.
pub fn reply_prompt_args(label: &str) -> (v: Vec<String>)
    ensures
        crate::text::string_views(v@) == spec_reply_prompt_args(label@),
{
    let mut v: Vec<String> = Vec::new();
    let mut a = String::new();
    push_str_of(&mut a, "--entry");
    v.push(a);
    let mut b = String::new();
    push_str_of(&mut b, "--title=Linux Link — Quick reply");
    v.push(b);
    let mut c = String::new();
    push_str_of(&mut c, "--text=Reply to: ");
    push_str_of(&mut c, label);
    v.push(c);
    let mut d = String::new();
    push_str_of(&mut d, "--width=420");
    v.push(d);
    assert(crate::text::string_views(v@) =~= spec_reply_prompt_args(label@));
    v
}

/// The reply typed into the prompt: its text without surrounding
/// whitespace; nothing is sent when that is empty.
pub fn reply_text(typed: &str) -> (r: Option<String>)
    ensures
        match r {
            Some(t) => t@ == trim(typed@) && t@.len() > 0,
            None => trim(typed@).len() == 0,
        },
{
    let t = trimmed(typed);
    if chars_of(t.as_str()).len() == 0 {
        None
    } else {
        Some(t)
    }
}

} // verus!
