//! The phone's battery level, as the phones last reported it: the latest
//! report of any phone, and the latest report of each phone by certificate
//! fingerprint.

use vstd::prelude::*;
use crate::text::chars_of;
use crate::order::same_chars;

verus! {

/// One battery report.
#[derive(Debug, Clone, Copy, PartialEq, Eq)]
pub struct BatteryState {
    pub level: i32,
    pub charging: bool,
}

/// The latest battery report of each phone.
pub struct BatteryStore {
    last: Option<BatteryState>,
    by_device: Vec<(String, BatteryState)>,
}

/// The entries as plain values.
pub open spec fn entries(v: Seq<(String, BatteryState)>) -> Seq<(Seq<char>, BatteryState)> {
    v.map_values(|e: (String, BatteryState)| (e.0@, e.1))
}

/// The report of the last entry for fingerprint `k`.
pub open spec fn last_of(s: Seq<(Seq<char>, BatteryState)>, k: Seq<char>) -> Option<BatteryState>
    decreases s.len(),
{
    if s.len() == 0 {
        None
    } else if s.last().0 == k {
        Some(s.last().1)
    } else {
        last_of(s.drop_last(), k)
    }
}

/// Rewriting the last entry of a fingerprint changes that fingerprint's
/// report and no other.
proof fn lemma_last_of_update(s: Seq<(Seq<char>, BatteryState)>, i: int, v: BatteryState, x: Seq<char>)
    requires
        0 <= i < s.len(),
        forall|j: int| i < j < s.len() ==> s[j].0 != s[i].0,
    ensures
        last_of(s.update(i, (s[i].0, v)), x) == if x == s[i].0 {
            Some(v)
        } else {
            last_of(s, x)
        },
    decreases s.len(),
{
    let t = s.update(i, (s[i].0, v));
    if i < s.len() - 1 {
        assert(t.drop_last() =~= s.drop_last().update(i, (s[i].0, v)));
        assert(t.last() == s.last());
        lemma_last_of_update(s.drop_last(), i, v, x);
    } else {
        assert(t.drop_last() =~= s.drop_last());
    }
}

/// The position of the last entry for fingerprint `f`.
fn last_index(v: &Vec<(String, BatteryState)>, f: &[char]) -> (r: Option<usize>)
    ensures
        match r {
            Some(i) => i < v@.len() && entries(v@)[i as int].0 == f@ && forall|m: int|
                i < m < v@.len() ==> entries(v@)[m].0 != f@,
            None => forall|m: int| 0 <= m < v@.len() ==> entries(v@)[m].0 != f@,
        },
{
    let ghost es = entries(v@);
    let mut j: usize = v.len();
    while j > 0
        invariant
            j <= v@.len(),
            es == entries(v@),
            forall|m: int| j <= m < v@.len() ==> es[m].0 != f@,
        decreases j,
    {
        let g = chars_of(v[j - 1].0.as_str());
        if same_chars(g.as_slice(), f) {
            return Some(j - 1);
        }
        j = j - 1;
    }
    None
}

impl View for BatteryStore {
    type V = Option<BatteryState>;

    /// The latest report of any phone.
    closed spec fn view(&self) -> Option<BatteryState> {
        self.last
    }
}

impl BatteryStore {
    /// The latest report of the phone with certificate fingerprint `k`.
    pub closed spec fn latest(&self, k: Seq<char>) -> Option<BatteryState> {
        last_of(entries(self.by_device@), k)
    }

    /// A store that starts from the report saved by a previous run, if any,
    /// with no report from any phone yet.
    pub fn new(saved: Option<BatteryState>) -> (s: Self)
        ensures
            s@ == saved,
            forall|k: Seq<char>| #[trigger] s.latest(k) is None,
    {
        BatteryStore { last: saved, by_device: Vec::new() }
    }

    /// Records a report from the phone with certificate fingerprint
    /// `fingerprint` (empty when unknown: then only the latest report
    /// changes).
    pub fn update(&mut self, fingerprint: &str, level: i32, charging: bool)
        ensures
            final(self)@ == Some(BatteryState { level, charging }),
            forall|k: Seq<char>|
                #[trigger] final(self).latest(k) == if fingerprint@.len() > 0 && k == fingerprint@ {
                    Some(BatteryState { level, charging })
                } else {
                    old(self).latest(k)
                },
    {
        let state = BatteryState { level, charging };
        self.last = Some(state);
        let f = chars_of(fingerprint);
        if f.len() == 0 {
            return;
        }
        let ghost before = entries(self.by_device@);
        match last_index(&self.by_device, f.as_slice()) {
            Some(i) => {
                let mut entry = (String::new(), state);
                self.by_device.set_and_swap(i, &mut entry);
                let name = entry.0;
                let mut entry2 = (name, state);
                self.by_device.set_and_swap(i, &mut entry2);
                proof {
                    assert(entries(self.by_device@) =~= before.update(i as int, (before[i as int].0, state)));
                    assert forall|k: Seq<char>| #[trigger] self.latest(k) == if k == fingerprint@ {
                        Some(state)
                    } else {
                        old(self).latest(k)
                    } by {
                        lemma_last_of_update(before, i as int, state, k);
                    }
                }
            },
            None => {
                let key = crate::text::string_of(f.as_slice());
                self.by_device.push((key, state));
                proof {
                    assert(entries(self.by_device@) =~= before.push((fingerprint@, state)));
                    assert(entries(self.by_device@).drop_last() =~= before);
                }
            },
        }
    }

    /// The latest report of any phone.
    pub fn snapshot(&self) -> (s: Option<BatteryState>)
        ensures
            s == self@,
    {
        self.last
    }

    /// The latest report of the phone with certificate fingerprint
    /// `fingerprint`.
    pub fn of(&self, fingerprint: &str) -> (s: Option<BatteryState>)
        ensures
            s == self.latest(fingerprint@),
    {
        let ghost es = entries(self.by_device@);
        let f = chars_of(fingerprint);
        let mut j: usize = self.by_device.len();
        assert(es.take(j as int) =~= es);
        while j > 0
            invariant
                j <= self.by_device@.len(),
                es == entries(self.by_device@),
                f@ == fingerprint@,
                last_of(es, fingerprint@) == last_of(es.take(j as int), fingerprint@),
            decreases j,
        {
            assert(es.take(j as int).last() == es[j - 1]);
            let g = chars_of(self.by_device[j - 1].0.as_str());
            if same_chars(g.as_slice(), f.as_slice()) {
                return Some(self.by_device[j - 1].1);
            }
            assert(es.take(j as int).drop_last() =~= es.take(j - 1));
            j = j - 1;
        }
        None
    }
}

/// A report is read back as written: after `update`, the latest report is
/// the new one, the reporting phone's report is the new one, and every
/// other phone's report is what it was.
pub proof fn lemma_report_read_back(before: BatteryStore, after: BatteryStore, fp: Seq<char>, state: BatteryState)
    requires
        fp.len() > 0,
        after@ == Some(state),
        forall|k: Seq<char>|
            #[trigger] after.latest(k) == if fp.len() > 0 && k == fp {
                Some(state)
            } else {
                before.latest(k)
            },
    ensures
        after@ == Some(state),
        after.latest(fp) == Some(state),
        forall|k: Seq<char>| k != fp ==> #[trigger] after.latest(k) == before.latest(k),
{
    assert(after.latest(fp) == Some(state));
}

} // verus!
