//! Finger gestures on the tablet: which pointer actions a stream of touch
//! events (finger down, move, up, and the passing of time) turns into. One
//! finger clicks and drags, a held finger becomes a right click, two fingers
//! scroll, and a quick two-finger tap is a right click.
//!
//! Positions are whatever the caller measures fingers in; the decisions here
//! never look inside them. The caller measures how far a finger travelled and
//! turns two-finger travel into wheel steps.

use vstd::prelude::*;

verus! {

/// How long a finger must rest before it becomes a right click, in ms.
pub const LONG_PRESS_MS: u64 = 500;

/// How quickly two fingers must leave again to count as a tap, in ms.
pub const TWO_FINGER_TAP_MS: u64 = 250;

/// One thing the pointer should do in answer to a touch event.
#[derive(Debug, Clone, Copy, PartialEq, Eq, Structural)]
pub enum TouchStep {
    /// Move the pointer to the finger and press the left button.
    Press,
    /// Move the pointer to the finger.
    Follow,
    /// Release the left button.
    Release,
    /// Click the right button.
    RightClick,
    /// Two fingers are down: measure their travel from where they are now.
    BeginScroll,
    /// Two fingers moved: turn their travel into wheel steps.
    Scroll,
    /// Two-finger travel is over: forget where the fingers were.
    EndScroll,
}

/// The state of the pad: the fingers down with their last positions, whether
/// one finger holds the left button, when and where a press began that may
/// still become a right click, when the second finger came down, and whether
/// the two fingers have scrolled since.
#[verifier::ext_equal]
pub struct TouchView<P> {
    pub slots: Seq<(u32, P)>,
    pub dragging: bool,
    pub press: Option<(u64, P)>,
    pub two_at: Option<u64>,
    pub scrolled: bool,
}

/// `j` is the first slot that holds finger `id`.
pub open spec fn first_slot<P>(s: Seq<(u32, P)>, id: u32, j: int) -> bool {
    &&& 0 <= j < s.len()
    &&& s[j].0 == id
    &&& forall|k: int| 0 <= k < j ==> s[k].0 != id
}

/// The first slot that holds finger `id`, or -1 when none does.
pub open spec fn slot_index<P>(s: Seq<(u32, P)>, id: u32) -> int {
    if exists|j: int| #[trigger] first_slot(s, id, j) {
        choose|j: int| #[trigger] first_slot(s, id, j)
    } else {
        -1
    }
}

/// The fingers after `id` comes down at `pos`.
pub open spec fn placed<P>(s: Seq<(u32, P)>, id: u32, pos: P) -> Seq<(u32, P)> {
    let k = slot_index(s, id);
    if k >= 0 {
        s.update(k, (id, pos))
    } else {
        s.push((id, pos))
    }
}

/// The fingers after `id` moves to `pos` (an unknown finger changes nothing).
pub open spec fn moved_to<P>(s: Seq<(u32, P)>, id: u32, pos: P) -> Seq<(u32, P)> {
    let k = slot_index(s, id);
    if k >= 0 {
        s.update(k, (id, pos))
    } else {
        s
    }
}

/// The fingers after `id` leaves.
pub open spec fn lifted<P>(s: Seq<(u32, P)>, id: u32) -> Seq<(u32, P)> {
    let k = slot_index(s, id);
    if k >= 0 {
        s.remove(k)
    } else {
        s
    }
}

/// `a - b`, or 0 when `b` is later.
pub open spec fn since(a: u64, b: u64) -> int {
    if a >= b {
        a - b
    } else {
        0
    }
}

/// Finger `id` comes down at `pos` at time `now`: the first finger presses
/// the left button, the second releases it and starts a scroll, a third
/// cancels both the pending long press and the two-finger tap.
pub open spec fn after_down<P>(v: TouchView<P>, id: u32, pos: P, now: u64) -> (TouchView<P>, Seq<TouchStep>) {
    let slots = placed(v.slots, id, pos);
    if slots.len() == 1 {
        (
            TouchView { slots, dragging: true, press: Some((now, pos)), two_at: v.two_at, scrolled: v.scrolled },
            seq![TouchStep::Press],
        )
    } else if slots.len() == 2 {
        (
            TouchView { slots, dragging: false, press: None, two_at: Some(now), scrolled: false },
            if v.dragging {
                seq![TouchStep::Release, TouchStep::BeginScroll]
            } else {
                seq![TouchStep::BeginScroll]
            },
        )
    } else {
        (TouchView { slots, dragging: v.dragging, press: None, two_at: None, scrolled: v.scrolled }, seq![])
    }
}

/// Finger `id` moves to `pos`; `beyond_slop` says whether it is now farther
/// from where the press began than a resting finger drifts. A dragging
/// finger is followed (and, once beyond the slop, can no longer become a
/// right click); two fingers scroll.
pub open spec fn after_move<P>(v: TouchView<P>, id: u32, pos: P, beyond_slop: bool) -> (TouchView<P>, Seq<TouchStep>) {
    let slots = moved_to(v.slots, id, pos);
    if v.dragging && slots.len() == 1 {
        (
            TouchView {
                slots,
                dragging: v.dragging,
                press: if beyond_slop { None } else { v.press },
                two_at: v.two_at,
                scrolled: v.scrolled,
            },
            seq![TouchStep::Follow],
        )
    } else if slots.len() == 2 {
        (
            TouchView { slots, dragging: v.dragging, press: v.press, two_at: v.two_at, scrolled: v.scrolled },
            seq![TouchStep::Scroll],
        )
    } else {
        (TouchView { slots, dragging: v.dragging, press: v.press, two_at: v.two_at, scrolled: v.scrolled }, seq![])
    }
}

/// The last finger has left within the tap time of the second finger's
/// arrival, and the two did not scroll.
pub open spec fn tap_due(two_at: Option<u64>, scrolled: bool, now: u64) -> bool {
    match two_at {
        Some(t) => since(now, t) <= TWO_FINGER_TAP_MS && !scrolled,
        None => false,
    }
}

/// Finger `id` leaves (or is cancelled) at time `now`. When the last one
/// leaves, a held button is released and a quick two-finger tap becomes a
/// right click; everything is forgotten.
pub open spec fn after_up<P>(v: TouchView<P>, id: u32, now: u64) -> (TouchView<P>, Seq<TouchStep>) {
    let slots = lifted(v.slots, id);
    if slots.len() == 0 {
        let release = if v.dragging { seq![TouchStep::Release] } else { seq![] };
        let click = if tap_due(v.two_at, v.scrolled, now) { seq![TouchStep::RightClick] } else { seq![] };
        (
            TouchView { slots, dragging: false, press: None, two_at: None, scrolled: false },
            release + click + seq![TouchStep::EndScroll],
        )
    } else if slots.len() == 1 {
        (
            TouchView { slots, dragging: v.dragging, press: v.press, two_at: v.two_at, scrolled: v.scrolled },
            seq![TouchStep::EndScroll],
        )
    } else {
        (TouchView { slots, dragging: v.dragging, press: v.press, two_at: v.two_at, scrolled: v.scrolled }, seq![])
    }
}

/// A single dragging finger has rested for the long-press time.
pub open spec fn long_press_due<P>(v: TouchView<P>, now: u64) -> bool {
    match v.press {
        Some(p) => v.slots.len() == 1 && v.dragging && since(now, p.0) >= LONG_PRESS_MS,
        None => false,
    }
}

/// Time passes: a due long press releases the left button and clicks the
/// right one, once.
pub open spec fn after_tick<P>(v: TouchView<P>, now: u64) -> (TouchView<P>, Seq<TouchStep>) {
    if long_press_due(v, now) {
        (
            TouchView { slots: v.slots, dragging: false, press: None, two_at: v.two_at, scrolled: v.scrolled },
            seq![TouchStep::Release, TouchStep::RightClick],
        )
    } else {
        (v, seq![])
    }
}

/// The two fingers have produced a wheel step.
pub open spec fn after_scrolled<P>(v: TouchView<P>) -> TouchView<P> {
    TouchView { slots: v.slots, dragging: v.dragging, press: v.press, two_at: v.two_at, scrolled: true }
}

/// No finger is listed twice.
pub open spec fn distinct_ids<P>(s: Seq<(u32, P)>) -> bool {
    forall|a: int, b: int| 0 <= a < b < s.len() ==> #[trigger] s[a].0 != #[trigger] s[b].0
}

/// The states the pad can be in: each finger once, the left button held only
/// by a single finger, and a pending long press only while it holds it.
pub open spec fn touch_wf<P>(v: TouchView<P>) -> bool {
    &&& distinct_ids(v.slots)
    &&& v.dragging ==> v.slots.len() == 1
    &&& v.press is Some ==> v.dragging
}

/// Whether the left button is held after `steps`, starting from `held`.
pub open spec fn held_after(held: bool, steps: Seq<TouchStep>) -> bool
    decreases steps.len(),
{
    if steps.len() == 0 {
        held
    } else {
        match steps.last() {
            TouchStep::Press => true,
            TouchStep::Release => false,
            _ => held_after(held, steps.drop_last()),
        }
    }
}

/// A finger that holds some slot holds a first one.
proof fn lemma_first_exists<P>(s: Seq<(u32, P)>, id: u32, j: int)
    requires
        0 <= j < s.len(),
        s[j].0 == id,
    ensures
        exists|c: int| #[trigger] first_slot(s, id, c),
    decreases j,
{
    if exists|k: int| 0 <= k < j && s[k].0 == id {
        let k = choose|k: int| 0 <= k < j && s[k].0 == id;
        lemma_first_exists(s, id, k);
    } else {
        assert(first_slot(s, id, j));
    }
}

/// What `slot_index` finds: the first slot of the finger, or -1 exactly when
/// no slot holds it.
pub proof fn lemma_slot_index<P>(s: Seq<(u32, P)>, id: u32)
    ensures
        slot_index(s, id) >= -1,
        slot_index(s, id) >= 0 ==> first_slot(s, id, slot_index(s, id)),
        slot_index(s, id) < 0 ==> forall|k: int| 0 <= k < s.len() ==> s[k].0 != id,
{
    if !(exists|c: int| #[trigger] first_slot(s, id, c)) {
        assert forall|k: int| 0 <= k < s.len() implies s[k].0 != id by {
            if s[k].0 == id {
                lemma_first_exists(s, id, k);
            }
        }
    }
}

/// The first slot of a finger is the one `slot_index` names.
proof fn lemma_first_slot<P>(s: Seq<(u32, P)>, id: u32, j: int)
    requires
        first_slot(s, id, j),
    ensures
        slot_index(s, id) == j,
{
    lemma_slot_index(s, id);
    let c = slot_index(s, id);
    if c < j {
        assert(s[c].0 != id);
    } else if c > j {
        assert(s[j].0 != id);
    }
}

/// Placing, moving and lifting fingers keeps each finger listed once.
proof fn lemma_slots_distinct<P>(s: Seq<(u32, P)>, id: u32, pos: P)
    requires
        distinct_ids(s),
    ensures
        distinct_ids(placed(s, id, pos)),
        distinct_ids(moved_to(s, id, pos)),
        distinct_ids(lifted(s, id)),
        placed(s, id, pos).len() == if slot_index(s, id) >= 0 { s.len() } else { s.len() + 1 },
        moved_to(s, id, pos).len() == s.len(),
        lifted(s, id).len() == if slot_index(s, id) >= 0 { s.len() - 1 } else { s.len() as int },
{
    lemma_slot_index(s, id);
    let k = slot_index(s, id);
    if k >= 0 {
        let u = s.update(k, (id, pos));
        assert forall|a: int, b: int| 0 <= a < b < u.len() implies #[trigger] u[a].0 != #[trigger] u[b].0 by {
            assert(u[a].0 == s[a].0);
            assert(u[b].0 == s[b].0);
        }
        let r = s.remove(k);
        assert forall|a: int, b: int| 0 <= a < b < r.len() implies #[trigger] r[a].0 != #[trigger] r[b].0 by {
            let a2 = if a < k { a } else { a + 1 };
            let b2 = if b < k { b } else { b + 1 };
            assert(r[a] == s[a2]);
            assert(r[b] == s[b2]);
            assert(s[a2].0 != s[b2].0);
        }
    } else {
        let p = s.push((id, pos));
        assert forall|a: int, b: int| 0 <= a < b < p.len() implies #[trigger] p[a].0 != #[trigger] p[b].0 by {
            if b == s.len() {
                assert(s[a].0 != id);
            } else {
                assert(p[a] == s[a] && p[b] == s[b]);
            }
        }
    }
}

/// Every touch event and every tick keeps the pad in a state it can be in:
/// each finger once, the button held by a lone finger only, a long press
/// pending only while that finger holds it.
pub proof fn lemma_touch_wf_kept<P>(v: TouchView<P>, id: u32, pos: P, now: u64, beyond_slop: bool)
    requires
        touch_wf(v),
    ensures
        touch_wf(after_down(v, id, pos, now).0),
        touch_wf(after_move(v, id, pos, beyond_slop).0),
        touch_wf(after_up(v, id, now).0),
        touch_wf(after_tick(v, now).0),
        touch_wf(after_scrolled(v)),
{
    lemma_slots_distinct(v.slots, id, pos);
}

/// The left button, as the desktop sees it from the steps sent, is held
/// exactly while the pad says a finger drags: every event and tick sends the
/// press or release that keeps the two in step.
pub proof fn lemma_button_tracks_drag<P>(v: TouchView<P>, id: u32, pos: P, now: u64, beyond_slop: bool)
    requires
        touch_wf(v),
    ensures
        held_after(v.dragging, after_down(v, id, pos, now).1) == after_down(v, id, pos, now).0.dragging,
        held_after(v.dragging, after_move(v, id, pos, beyond_slop).1) == after_move(
            v,
            id,
            pos,
            beyond_slop,
        ).0.dragging,
        held_after(v.dragging, after_up(v, id, now).1) == after_up(v, id, now).0.dragging,
        held_after(v.dragging, after_tick(v, now).1) == after_tick(v, now).0.dragging,
{
    lemma_slots_distinct(v.slots, id, pos);
    reveal_with_fuel(held_after, 4);
    let press = seq![TouchStep::Press];
    let rb = seq![TouchStep::Release, TouchStep::BeginScroll];
    assert(rb.drop_last() =~= seq![TouchStep::Release]);
    assert(seq![TouchStep::Release].drop_last() =~= Seq::<TouchStep>::empty());
    assert(press.drop_last() =~= Seq::<TouchStep>::empty());
    assert(seq![TouchStep::BeginScroll].drop_last() =~= Seq::<TouchStep>::empty());
    assert(seq![TouchStep::Follow].drop_last() =~= Seq::<TouchStep>::empty());
    assert(seq![TouchStep::Scroll].drop_last() =~= Seq::<TouchStep>::empty());
    assert(seq![TouchStep::EndScroll].drop_last() =~= Seq::<TouchStep>::empty());
    let rc = seq![TouchStep::Release, TouchStep::RightClick];
    assert(rc.drop_last() =~= seq![TouchStep::Release]);
    let up = after_up(v, id, now);
    if lifted(v.slots, id).len() == 0 {
        let release: Seq<TouchStep> = if v.dragging { seq![TouchStep::Release] } else { seq![] };
        let click: Seq<TouchStep> = if tap_due(v.two_at, v.scrolled, now) {
            seq![TouchStep::RightClick]
        } else {
            seq![]
        };
        let all = release + click + seq![TouchStep::EndScroll];
        assert(all.drop_last() =~= release + click);
        if tap_due(v.two_at, v.scrolled, now) {
            assert((release + click).drop_last() =~= release);
        } else {
            assert(release + click =~= release);
        }
    }
}

/// A long press fires once: the tick after the one that fired sends
/// nothing, whenever it comes.
pub proof fn lemma_long_press_fires_once<P>(v: TouchView<P>, t1: u64, t2: u64)
    requires
        after_tick(v, t1).1.len() > 0,
    ensures
        after_tick(after_tick(v, t1).0, t2).1 == Seq::<TouchStep>::empty(),
{
}

/// Two fingers that have scrolled never make a right click when they leave.
pub proof fn lemma_scroll_is_no_tap<P>(v: TouchView<P>, id: u32, now: u64)
    ensures
        !after_up(after_scrolled(v), id, now).1.contains(TouchStep::RightClick),
{
    let w = after_scrolled(v);
    if lifted(w.slots, id).len() == 0 {
        let release: Seq<TouchStep> = if w.dragging { seq![TouchStep::Release] } else { seq![] };
        let s = after_up(w, id, now).1;
        assert(s =~= release + seq![TouchStep::EndScroll]);
        if s.contains(TouchStep::RightClick) {
            let i = choose|i: int| 0 <= i < s.len() && s[i] == TouchStep::RightClick;
            assert(s[i] != TouchStep::RightClick);
        }
    } else if lifted(w.slots, id).len() == 1 {
        let s = after_up(w, id, now).1;
        if s.contains(TouchStep::RightClick) {
            let i = choose|i: int| 0 <= i < s.len() && s[i] == TouchStep::RightClick;
            assert(s[i] == TouchStep::EndScroll);
        }
    }
}

/// Only a finger that holds the left button moves the pointer: a move
/// sends `Follow` only while the pad drags with one finger down, and when
/// one finger is down without dragging (it stayed after a two-finger
/// gesture, or its long press already fired) a move sends nothing and
/// changes nothing but that finger's position.
pub proof fn lemma_only_a_dragging_finger_is_followed<P>(v: TouchView<P>, id: u32, pos: P, beyond_slop: bool)
    ensures
        after_move(v, id, pos, beyond_slop).1.contains(TouchStep::Follow) ==> v.dragging && v.slots.len()
            == 1,
        !v.dragging && v.slots.len() == 1 ==> after_move(v, id, pos, beyond_slop).1 == Seq::<TouchStep>::empty()
            && !after_move(v, id, pos, beyond_slop).0.dragging && after_move(v, id, pos, beyond_slop).0.press
            == v.press,
        v.dragging && v.slots.len() == 1 ==> after_move(v, id, pos, beyond_slop).1 == seq![TouchStep::Follow],
{
    lemma_moved_keeps_count(v.slots, id, pos);
    let s = after_move(v, id, pos, beyond_slop).1;
    if s.contains(TouchStep::Follow) {
        let i = choose|i: int| 0 <= i < s.len() && s[i] == TouchStep::Follow;
        if !(v.dragging && moved_to(v.slots, id, pos).len() == 1) {
            if moved_to(v.slots, id, pos).len() == 2 {
                assert(s[i] == TouchStep::Scroll);
            }
        }
    }
}

/// Moving a finger never changes how many fingers are down.
proof fn lemma_moved_keeps_count<P>(s: Seq<(u32, P)>, id: u32, pos: P)
    ensures
        moved_to(s, id, pos).len() == s.len(),
{
}

/// The fingers on the tablet and what they are doing.
pub struct TouchPad<P> {
    slots: Vec<(u32, P)>,
    dragging: bool,
    press: Option<(u64, P)>,
    two_at: Option<u64>,
    scrolled: bool,
}

impl<P> View for TouchPad<P> {
    type V = TouchView<P>;

    closed spec fn view(&self) -> TouchView<P> {
        TouchView {
            slots: self.slots@,
            dragging: self.dragging,
            press: self.press,
            two_at: self.two_at,
            scrolled: self.scrolled,
        }
    }
}

/// The slot of finger `id` in `slots`, if any.
fn find_slot<P: Copy>(slots: &Vec<(u32, P)>, id: u32) -> (k: Option<usize>)
    ensures
        match k {
            Some(i) => i < slots@.len() && slot_index(slots@, id) == i,
            None => slot_index(slots@, id) == -1,
        },
{
    let mut i: usize = 0;
    while i < slots.len()
        invariant
            i <= slots@.len(),
            forall|k: int| 0 <= k < i ==> slots@[k].0 != id,
        decreases slots@.len() - i,
    {
        if slots[i].0 == id {
            proof {
                lemma_first_slot(slots@, id, i as int);
            }
            return Some(i);
        }
        i += 1;
    }
    proof {
        lemma_slot_index(slots@, id);
        if slot_index(slots@, id) >= 0 {
            assert(slots@[slot_index(slots@, id)].0 == id);
        }
    }
    None
}

impl<P: Copy> TouchPad<P> {
    /// No finger down.
    pub fn new() -> (p: Self)
        ensures
            p@.slots == Seq::<(u32, P)>::empty(),
            !p@.dragging,
            p@.press is None,
            p@.two_at is None,
            !p@.scrolled,
            touch_wf(p@),
    {
        TouchPad { slots: Vec::new(), dragging: false, press: None, two_at: None, scrolled: false }
    }

    /// The fingers down, with their last positions.
    pub fn slots(&self) -> (s: &[(u32, P)])
        ensures
            s@ == self@.slots,
    {
        self.slots.as_slice()
    }

    /// Where the press that may still become a right click began.
    pub fn press_origin(&self) -> (o: Option<P>)
        ensures
            o == match self@.press {
                Some(p) => Some(p.1),
                None => None::<P>,
            },
    {
        match self.press {
            Some(p) => Some(p.1),
            None => None,
        }
    }

    /// Finger `id` comes down at `pos` at time `now` (ms).
    pub fn down(&mut self, id: u32, pos: P, now: u64) -> (steps: Vec<TouchStep>)
        ensures
            final(self)@ == after_down(old(self)@, id, pos, now).0,
            steps@ == after_down(old(self)@, id, pos, now).1,
    {
        match find_slot(&self.slots, id) {
            Some(k) => {
                self.slots.set(k, (id, pos));
            },
            None => {
                self.slots.push((id, pos));
            },
        }
        let ghost v = old(self)@;
        assert(self.slots@ =~= placed(v.slots, id, pos));
        let n = self.slots.len();
        let mut steps: Vec<TouchStep> = Vec::new();
        if n == 1 {
            steps.push(TouchStep::Press);
            self.dragging = true;
            self.press = Some((now, pos));
        } else if n == 2 {
            if self.dragging {
                steps.push(TouchStep::Release);
                self.dragging = false;
            }
            steps.push(TouchStep::BeginScroll);
            self.press = None;
            self.two_at = Some(now);
            self.scrolled = false;
        } else {
            self.press = None;
            self.two_at = None;
        }
        assert(self@ =~= after_down(v, id, pos, now).0);
        assert(steps@ =~= after_down(v, id, pos, now).1);
        steps
    }

    /// Finger `id` moves to `pos`; `beyond_slop` tells whether it is farther
    /// from where its press began than a resting finger drifts.
    pub fn moved(&mut self, id: u32, pos: P, beyond_slop: bool) -> (steps: Vec<TouchStep>)
        ensures
            final(self)@ == after_move(old(self)@, id, pos, beyond_slop).0,
            steps@ == after_move(old(self)@, id, pos, beyond_slop).1,
    {
        match find_slot(&self.slots, id) {
            Some(k) => {
                self.slots.set(k, (id, pos));
            },
            None => {},
        }
        let ghost v = old(self)@;
        assert(self.slots@ =~= moved_to(v.slots, id, pos));
        let n = self.slots.len();
        let mut steps: Vec<TouchStep> = Vec::new();
        if self.dragging && n == 1 {
            steps.push(TouchStep::Follow);
            if beyond_slop {
                self.press = None;
            }
        } else if n == 2 {
            steps.push(TouchStep::Scroll);
        }
        assert(self@ =~= after_move(v, id, pos, beyond_slop).0);
        assert(steps@ =~= after_move(v, id, pos, beyond_slop).1);
        steps
    }

    /// The two fingers produced a wheel step, so their lift is no tap.
    pub fn note_scrolled(&mut self)
        ensures
            final(self)@ == after_scrolled(old(self)@),
    {
        self.scrolled = true;
        assert(self@ =~= after_scrolled(old(self)@));
    }

    /// Finger `id` leaves the glass, or its touch is cancelled, at `now`.
    pub fn up(&mut self, id: u32, now: u64) -> (steps: Vec<TouchStep>)
        ensures
            final(self)@ == after_up(old(self)@, id, now).0,
            steps@ == after_up(old(self)@, id, now).1,
    {
        match find_slot(&self.slots, id) {
            Some(k) => {
                self.slots.remove(k);
            },
            None => {},
        }
        let ghost v = old(self)@;
        assert(self.slots@ =~= lifted(v.slots, id));
        let n = self.slots.len();
        let mut steps: Vec<TouchStep> = Vec::new();
        if n == 0 {
            if self.dragging {
                steps.push(TouchStep::Release);
                self.dragging = false;
            }
            let tapped = match self.two_at {
                Some(t) => {
                    let gap: u64 = if now >= t { now - t } else { 0 };
                    gap <= TWO_FINGER_TAP_MS && !self.scrolled
                },
                None => false,
            };
            if tapped {
                steps.push(TouchStep::RightClick);
            }
            steps.push(TouchStep::EndScroll);
            self.press = None;
            self.two_at = None;
            self.scrolled = false;
            proof {
                let release: Seq<TouchStep> = if v.dragging { seq![TouchStep::Release] } else { seq![] };
                let click: Seq<TouchStep> = if tap_due(v.two_at, v.scrolled, now) {
                    seq![TouchStep::RightClick]
                } else {
                    seq![]
                };
                assert(steps@ =~= release + click + seq![TouchStep::EndScroll]);
            }
        } else if n == 1 {
            steps.push(TouchStep::EndScroll);
        }
        assert(self@ =~= after_up(v, id, now).0);
        assert(steps@ =~= after_up(v, id, now).1);
        steps
    }

    /// Time `now` (ms) has come: a finger that rested long enough becomes a
    /// right click.
    pub fn tick(&mut self, now: u64) -> (steps: Vec<TouchStep>)
        ensures
            final(self)@ == after_tick(old(self)@, now).0,
            steps@ == after_tick(old(self)@, now).1,
    {
        let ghost v = old(self)@;
        let due = match self.press {
            Some(p) => {
                let waited: u64 = if now >= p.0 { now - p.0 } else { 0 };
                self.slots.len() == 1 && self.dragging && waited >= LONG_PRESS_MS
            },
            None => false,
        };
        let mut steps: Vec<TouchStep> = Vec::new();
        if due {
            self.press = None;
            self.dragging = false;
            steps.push(TouchStep::Release);
            steps.push(TouchStep::RightClick);
        }
        assert(self@ =~= after_tick(v, now).0);
        assert(steps@ =~= after_tick(v, now).1);
        steps
    }
}

} // verus!
