//! The status the daemon publishes for the tray icon and the settings
//! window: which phones are trusted and connected, the battery, the
//! proximity lock.

use vstd::prelude::*;
use crate::battery::BatteryState;
use crate::identity::Peer;
use crate::text::{chars_of, string_of};
use crate::order::same_chars;

verus! {

/// A trusted phone, and whether it is connected now.
#[derive(Debug, Clone)]
pub struct DeviceStatus {
    pub name: String,
    pub fingerprint: String,
    pub connected: bool,
}

/// What the tray icon shows.
#[derive(Debug, Clone)]
pub struct Status {
    pub connected: bool,
    pub device_count: usize,
    pub device_name: String,
    pub devices: Vec<DeviceStatus>,
    pub battery: i32,
    pub charging: bool,
    pub proximity: bool,
}

/// The number of distinct values in `s`.
pub open spec fn distinct_count(s: Seq<Seq<char>>) -> nat
    decreases s.len(),
{
    if s.len() == 0 {
        0
    } else if s.drop_last().contains(s.last()) {
        distinct_count(s.drop_last())
    } else {
        distinct_count(s.drop_last()) + 1
    }
}

/// The distinct count never exceeds the length.
pub proof fn lemma_distinct_count_le(s: Seq<Seq<char>>)
    ensures
        distinct_count(s) <= s.len(),
    decreases s.len(),
{
    if s.len() > 0 {
        lemma_distinct_count_le(s.drop_last());
    }
}

/// Whether `x` is among the views of `v`.
fn listed(v: &[(String, String)], x: &[char], upto: usize) -> (b: bool)
    requires
        upto <= v@.len(),
    ensures
        b == v@.take(upto as int).map_values(|p: (String, String)| p.0@).contains(x@),
{
    let ghost s = v@.take(upto as int).map_values(|p: (String, String)| p.0@);
    let mut i: usize = 0;
    while i < upto
        invariant
            i <= upto <= v@.len(),
            s == v@.take(upto as int).map_values(|p: (String, String)| p.0@),
            forall|j: int| 0 <= j < i ==> s[j] != x@,
        decreases upto - i,
    {
        let c = chars_of(v[i].0.as_str());
        if same_chars(c.as_slice(), x) {
            assert(s[i as int] == x@);
            return true;
        }
        i = i + 1;
    }
    false
}

/// The status for the connected phones `connected` (fingerprint, name, in
/// connection order), the trusted phones `peers`, the latest battery
/// report and the proximity setting: each trusted phone marked connected
/// when its fingerprint is among the connected ones, the number of distinct
/// connected fingerprints, the name of the first connected phone (else of
/// the first trusted one, else empty), and the battery level (-1 when
/// unknown).
pub fn build_status(
    connected: &[(String, String)],
    peers: &[Peer],
    battery: Option<BatteryState>,
    proximity: bool,
) -> (s: Status)
    ensures
        s.device_count == distinct_count(connected@.map_values(|p: (String, String)| p.0@)),
        s.connected == (s.device_count > 0),
        s.devices@.len() == peers@.len(),
        forall|i: int|
            0 <= i < peers@.len() ==> (#[trigger] s.devices@[i]).name@ == peers@[i].name@
                && s.devices@[i].fingerprint@ == peers@[i].fingerprint@ && s.devices@[i].connected
                == connected@.map_values(|p: (String, String)| p.0@).contains(peers@[i].fingerprint@),
        s.device_name@ == if connected@.len() > 0 {
            connected@[0].1@
        } else if peers@.len() > 0 {
            peers@[0].name@
        } else {
            Seq::<char>::empty()
        },
        s.battery == match battery {
            Some(b) => b.level,
            None => -1i32,
        },
        s.charging == match battery {
            Some(b) => b.charging,
            None => false,
        },
        s.proximity == proximity,
{
    let ghost fps = connected@.map_values(|p: (String, String)| p.0@);
    let mut count: usize = 0;
    let mut i: usize = 0;
    assert(fps.take(0) =~= Seq::<Seq<char>>::empty());
    while i < connected.len()
        invariant
            i <= connected@.len(),
            fps == connected@.map_values(|p: (String, String)| p.0@),
            count == distinct_count(fps.take(i as int)),
            count <= i,
        decreases connected@.len() - i,
    {
        let c = chars_of(connected[i].0.as_str());
        let seen = listed(connected, c.as_slice(), i);
        proof {
            assert(fps.take(i + 1).drop_last() =~= fps.take(i as int));
            assert(fps.take(i + 1).last() == c@);
            assert(connected@.take(i as int).map_values(|p: (String, String)| p.0@) =~= fps.take(
                i as int,
            ));
        }
        if !seen {
            count = count + 1;
        }
        i = i + 1;
    }
    assert(fps.take(connected@.len() as int) =~= fps);
    let mut devices: Vec<DeviceStatus> = Vec::new();
    let mut k: usize = 0;
    while k < peers.len()
        invariant
            k <= peers@.len(),
            fps == connected@.map_values(|p: (String, String)| p.0@),
            devices@.len() == k,
            forall|m: int|
                0 <= m < k ==> (#[trigger] devices@[m]).name@ == peers@[m].name@
                    && devices@[m].fingerprint@ == peers@[m].fingerprint@ && devices@[m].connected
                    == fps.contains(peers@[m].fingerprint@),
        decreases peers@.len() - k,
    {
        let f = chars_of(peers[k].fingerprint.as_str());
        let on = listed(connected, f.as_slice(), connected.len());
        assert(connected@.take(connected@.len() as int) =~= connected@);
        let d = DeviceStatus {
            name: string_of(chars_of(peers[k].name.as_str()).as_slice()),
            fingerprint: string_of(f.as_slice()),
            connected: on,
        };
        devices.push(d);
        k = k + 1;
    }
    let device_name = if connected.len() > 0 {
        string_of(chars_of(connected[0].1.as_str()).as_slice())
    } else if peers.len() > 0 {
        string_of(chars_of(peers[0].name.as_str()).as_slice())
    } else {
        String::new()
    };
    let (level, charging) = match battery {
        Some(b) => (b.level, b.charging),
        None => (-1, false),
    };
    Status {
        connected: count > 0,
        device_count: count,
        device_name,
        devices,
        battery: level,
        charging,
        proximity,
    }
}

} // verus!
