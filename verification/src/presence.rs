//! Proximity lock: the PC locks when the phone has been gone for a grace
//! period, and unlocks when the phone it locked for comes back.

use vstd::prelude::*;
use crate::text::{chars_of, trim};

verus! {

/// How long the phone may be gone before the PC locks, in milliseconds: a
/// phone that drops for a second while switching access point should not
/// lock the PC.
pub const GRACE_MS: u64 = 4000;

/// Whether proximity lock is on.
pub struct ProximityLock {
    enabled: bool,
}

impl View for ProximityLock {
    type V = bool;

    closed spec fn view(&self) -> bool {
        self.enabled
    }
}

impl ProximityLock {
    /// The setting as saved by a previous run.
    pub fn new(enabled: bool) -> (p: Self)
        ensures
            p@ == enabled,
    {
        ProximityLock { enabled }
    }

    /// Turns proximity lock on or off.
    pub fn set_enabled(&mut self, on: bool)
        ensures
            final(self)@ == on,
    {
        self.enabled = on;
    }

    /// Whether proximity lock is on.
    pub fn is_enabled(&self) -> (b: bool)
        ensures
            b == self@,
    {
        self.enabled
    }
}

/// The saved setting reads as on exactly when the file holds `on`, give or
/// take surrounding whitespace.
pub open spec fn spec_config_on(text: Seq<char>) -> bool {
    trim(text) == "on"@
}

/// The setting read from the saved file's text.
pub fn proximity_from_config(text: &str) -> (on: bool)
    ensures
        on == spec_config_on(text@),
{
    let t = crate::text::trimmed(text);
    crate::text::same_chars_str(chars_of(t.as_str()).as_slice(), "on")
}

/// The text saved for the setting.
pub fn proximity_config(on: bool) -> (text: &'static str)
    ensures
        text@ == if on {
            "on"@
        } else {
            "off"@
        },
{
    if on {
        "on"
    } else {
        "off"
    }
}

/// Saving the setting and reading it back gives the setting.
pub proof fn lemma_config_round_trip(on: bool)
    ensures
        spec_config_on(if on {
            "on"@
        } else {
            "off"@
        }) == on,
{
    reveal_strlit("on");
    reveal_strlit("off");
    let s = if on {
        "on"@
    } else {
        "off"@
    };
    assert(!crate::text::is_ws(s[0]));
    assert(!crate::text::is_ws(s.last()));
    assert(crate::text::trim_start(s) == s);
    assert(crate::text::trim_end(s) == s);
}

/// What the watcher remembers between wake-ups: whether it locked the PC,
/// and since when (in milliseconds) the phone has been seen gone.
#[derive(Debug, Clone, Copy, PartialEq, Eq)]
pub struct Presence {
    pub we_locked: bool,
    pub absent_since: Option<u64>,
}

/// What to do to the session.
#[derive(Debug, Clone, Copy, PartialEq, Eq)]
pub enum SessionAction {
    Nothing,
    Lock,
    Unlock,
}

/// `a - b`, or 0 when `b` is later.
pub open spec fn elapsed(now: u64, since: u64) -> u64 {
    if now >= since {
        (now - since) as u64
    } else {
        0
    }
}

/// One wake-up of the watcher, at time `now`, with proximity lock `enabled`
/// and `phones` phones connected: the new state, what to do to the
/// session, and how long to wait at most before the next wake-up (`None`:
/// until something happens).
pub open spec fn spec_step(st: Presence, enabled: bool, phones: u64, now: u64) -> (
    Presence,
    SessionAction,
    Option<u64>,
) {
    let (next, action) = if !enabled {
        (Presence { we_locked: st.we_locked, absent_since: None }, SessionAction::Nothing)
    } else if phones > 0 {
        if st.we_locked {
            (Presence { we_locked: false, absent_since: None }, SessionAction::Unlock)
        } else {
            (Presence { we_locked: false, absent_since: None }, SessionAction::Nothing)
        }
    } else {
        let since = match st.absent_since {
            Some(s) => s,
            None => now,
        };
        if !st.we_locked && elapsed(now, since) >= GRACE_MS {
            (Presence { we_locked: true, absent_since: Some(since) }, SessionAction::Lock)
        } else {
            (Presence { we_locked: st.we_locked, absent_since: Some(since) }, SessionAction::Nothing)
        }
    };
    let wait = match next.absent_since {
        Some(since) => if enabled && !next.we_locked {
            Some(
                if elapsed(now, since) >= GRACE_MS {
                    0
                } else {
                    (GRACE_MS - elapsed(now, since)) as u64
                },
            )
        } else {
            None
        },
        None => None,
    };
    (next, action, wait)
}

/// One wake-up of the proximity watcher (see `spec_step`).
pub fn presence_step(st: Presence, enabled: bool, phones: u64, now: u64) -> (r: (
    Presence,
    SessionAction,
    Option<u64>,
))
    ensures
        r == spec_step(st, enabled, phones, now),
        r.1 == SessionAction::Lock ==> enabled && phones == 0 && !st.we_locked && (st.absent_since
            matches Some(s) && elapsed(now, s) >= GRACE_MS) && r.0.we_locked,
        r.1 == SessionAction::Unlock ==> enabled && phones > 0 && st.we_locked && !r.0.we_locked,
        !enabled ==> r.1 == SessionAction::Nothing,
{
    let (next, action) = if !enabled {
        (Presence { we_locked: st.we_locked, absent_since: None }, SessionAction::Nothing)
    } else if phones > 0 {
        if st.we_locked {
            (Presence { we_locked: false, absent_since: None }, SessionAction::Unlock)
        } else {
            (Presence { we_locked: false, absent_since: None }, SessionAction::Nothing)
        }
    } else {
        let since = match st.absent_since {
            Some(s) => s,
            None => now,
        };
        let gone = if now >= since {
            now - since
        } else {
            0
        };
        if !st.we_locked && gone >= GRACE_MS {
            (Presence { we_locked: true, absent_since: Some(since) }, SessionAction::Lock)
        } else {
            (Presence { we_locked: st.we_locked, absent_since: Some(since) }, SessionAction::Nothing)
        }
    };
    let wait = match next.absent_since {
        Some(since) => if enabled && !next.we_locked {
            let gone = if now >= since {
                now - since
            } else {
                0
            };
            Some(
                if gone >= GRACE_MS {
                    0
                } else {
                    GRACE_MS - gone
                },
            )
        } else {
            None
        },
        None => None,
    };
    (next, action, wait)
}

/// The watcher never locks twice without an unlock in between, and only
/// unlocks a session it locked: over any run of wake-ups, the locks and
/// unlocks it asks for alternate, starting with a lock.
pub proof fn lemma_locks_alternate(st: Presence, enabled: bool, phones: u64, now: u64)
    ensures
        spec_step(st, enabled, phones, now).1 == SessionAction::Lock ==> !st.we_locked
            && spec_step(st, enabled, phones, now).0.we_locked,
        spec_step(st, enabled, phones, now).1 == SessionAction::Unlock ==> st.we_locked
            && !spec_step(st, enabled, phones, now).0.we_locked,
        spec_step(st, enabled, phones, now).1 == SessionAction::Nothing ==> spec_step(
            st,
            enabled,
            phones,
            now,
        ).0.we_locked == st.we_locked,
{
}

/// A phone seen gone for the first time never locks the PC at once: the
/// grace period starts then.
pub proof fn lemma_first_absence_waits(we_locked: bool, now: u64)
    ensures
        spec_step(Presence { we_locked, absent_since: None }, true, 0, now).1 != SessionAction::Lock,
        !we_locked ==> spec_step(Presence { we_locked, absent_since: None }, true, 0, now).2 == Some(
            GRACE_MS,
        ),
{
}

} // verus!
