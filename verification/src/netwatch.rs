//! Staying findable on the network: when to republish the advertisements,
//! how long to wait between Bluetooth retries, which UDP datagrams are
//! discovery probes.

use vstd::prelude::*;
use crate::text::chars_of;

verus! {

/// The longest wait between two Bluetooth advertisement retries, in
/// seconds.
pub const MAX_RETRY_SECS: u64 = 60;

/// The wait that follows `wait` seconds between two retries.
pub open spec fn retry_after(wait: int) -> int {
    if 2 * wait < MAX_RETRY_SECS {
        2 * wait
    } else {
        MAX_RETRY_SECS as int
    }
}

/// The wait before the next Bluetooth retry: twice the last one, at most a
/// minute.
pub fn next_retry_delay(wait: u64) -> (next: u64)
    requires
        wait <= MAX_RETRY_SECS,
    ensures
        next == retry_after(wait as int),
{
    let d = wait * 2;
    if d < MAX_RETRY_SECS {
        d
    } else {
        MAX_RETRY_SECS
    }
}

/// The waits between retries never shrink, never pass a minute, and once
/// at a minute they stay there.
pub proof fn lemma_retry_delays_grow_to_a_minute(wait: u64)
    requires
        wait <= MAX_RETRY_SECS,
    ensures
        wait <= retry_after(wait as int) <= MAX_RETRY_SECS,
        wait == MAX_RETRY_SECS ==> retry_after(wait as int) == MAX_RETRY_SECS,
        wait > 0 && 2 * wait < MAX_RETRY_SECS ==> retry_after(wait as int) == 2 * wait,
{
}

/// After a check of the primary address (`None`: no network), the address
/// to remember and whether to republish the advertisements: on every change
/// to a new address; losing the network only resets the remembered one.
pub fn address_change(current: Option<&str>, now: Option<&str>) -> (r: (Option<String>, bool))
    ensures
        match now {
            Some(n) => (r.0 matches Some(x) && x@ == n@) && r.1 == !(current matches Some(c) && c@
                == n@),
            None => r.0 is None && !r.1,
        },
{
    match now {
        None => (None, false),
        Some(n) => {
            let nc = chars_of(n);
            let same = match current {
                Some(c) => crate::order::same_chars(chars_of(c).as_slice(), nc.as_slice()),
                None => false,
            };
            (Some(crate::text::string_of(nc.as_slice())), !same)
        },
    }
}

/// The probe a phone broadcasts to find the PC again.
pub open spec fn probe() -> Seq<u8> {
    seq![76u8, 73, 78, 85, 88, 76, 73, 78, 75, 63, 118, 49]
}

/// Whether a datagram is the discovery probe `LINUXLINK?v1`.
pub fn is_discovery_probe(data: &[u8]) -> (b: bool)
    ensures
        b == (data@ == probe()),
{
    let p: [u8; 12] = [76, 73, 78, 85, 88, 76, 73, 78, 75, 63, 118, 49];
    assert(p@ =~= probe());
    if data.len() != 12 {
        return false;
    }
    let mut i: usize = 0;
    while i < 12
        invariant
            i <= 12,
            data@.len() == 12,
            p@ == probe(),
            forall|k: int| 0 <= k < i ==> data@[k] == probe()[k],
        decreases 12 - i,
    {
        if data[i] != p[i] {
            return false;
        }
        i = i + 1;
    }
    assert(data@ =~= probe());
    true
}

} // verus!
