//! Two-way folder sync: deciding, from the PC's listing, the phone's listing
//! and the state both agreed on after the last sync, which files travel in
//! which direction and which are deleted.

use vstd::prelude::*;
use crate::order::{insert_sorted, same_chars, sorted_strict, lemma_sorted_unique, lemma_sorted_exists, seq_lt, lemma_lt_irreflexive};
use crate::protocol::SyncEntry;
use crate::text::{chars_of, split_on, string_of, views, string_views};

verus! {

/// What both sides held for one path when the previous sync completed.
#[derive(Debug, Clone)]
pub struct BaseRecord {
    pub path: String,
    pub size: u64,
    pub pc_mtime: i64,
    pub phone_mtime: i64,
}

impl View for BaseRecord {
    type V = (Seq<char>, u64, i64, i64);

    open spec fn view(&self) -> (Seq<char>, u64, i64, i64) {
        (self.path@, self.size, self.pc_mtime, self.phone_mtime)
    }
}

/// The state of a folder after the previous sync. When a path is listed more
/// than once, its last record counts.
#[derive(Debug, Clone)]
pub struct Baseline {
    pub files: Vec<BaseRecord>,
}

/// What a sync does: files the PC sends, files it asks for, files the phone
/// deletes and files the PC deletes, each list in increasing path order.
#[derive(Debug)]
pub struct Plan {
    pub push: Vec<SyncEntry>,
    pub pull: Vec<String>,
    pub del_phone: Vec<String>,
    pub del_pc: Vec<String>,
}

/// The fate of one path in a sync.
#[derive(Debug, Clone, Copy, PartialEq, Eq)]
pub enum SyncAction {
    Push,
    Pull,
    DeletePhone,
    DeletePc,
    Keep,
}

pub open spec fn entry_views(s: Seq<SyncEntry>) -> Seq<(Seq<char>, u64, i64)> {
    s.map_values(|e: SyncEntry| e@)
}

pub open spec fn record_views(s: Seq<BaseRecord>) -> Seq<(Seq<char>, u64, i64, i64)> {
    s.map_values(|r: BaseRecord| r@)
}

impl View for Plan {
    type V = (Seq<(Seq<char>, u64, i64)>, Seq<Seq<char>>, Seq<Seq<char>>, Seq<Seq<char>>);

    open spec fn view(&self) -> Self::V {
        (
            entry_views(self.push@),
            string_views(self.pull@),
            string_views(self.del_phone@),
            string_views(self.del_pc@),
        )
    }
}

/// The last entry of `s` for path `k`: what a map built from `s` holds.
pub open spec fn lookup(s: Seq<(Seq<char>, u64, i64)>, k: Seq<char>) -> Option<
    (Seq<char>, u64, i64),
>
    decreases s.len(),
{
    if s.len() == 0 {
        None
    } else if s.last().0 == k {
        Some(s.last())
    } else {
        lookup(s.drop_last(), k)
    }
}

/// The last baseline record of `s` for path `k`.
pub open spec fn lookup_base(s: Seq<(Seq<char>, u64, i64, i64)>, k: Seq<char>) -> Option<
    (Seq<char>, u64, i64, i64),
>
    decreases s.len(),
{
    if s.len() == 0 {
        None
    } else if s.last().0 == k {
        Some(s.last())
    } else {
        lookup_base(s.drop_last(), k)
    }
}

/// The PC's copy differs from what was synced last time (or appeared, or
/// disappeared).
pub open spec fn pc_changed(p: Option<(Seq<char>, u64, i64)>, b: Option<(Seq<char>, u64, i64, i64)>) -> bool {
    match (p, b) {
        (Some(p), Some(b)) => p.1 != b.1 || p.2 != b.2,
        (Some(_), None) => true,
        (None, Some(_)) => true,
        (None, None) => false,
    }
}

/// The phone's copy differs from what was synced last time.
pub open spec fn phone_changed(h: Option<(Seq<char>, u64, i64)>, b: Option<(Seq<char>, u64, i64, i64)>) -> bool {
    match (h, b) {
        (Some(h), Some(b)) => h.1 != b.1 || h.2 != b.3,
        (Some(_), None) => true,
        (None, Some(_)) => true,
        (None, None) => false,
    }
}

/// The fate of a path, from the PC's entry, the phone's entry and the
/// baseline record for it.
pub open spec fn action_for(
    p: Option<(Seq<char>, u64, i64)>,
    h: Option<(Seq<char>, u64, i64)>,
    b: Option<(Seq<char>, u64, i64, i64)>,
) -> SyncAction {
    let pc = pc_changed(p, b);
    let ph = phone_changed(h, b);
    match (p, h) {
        (Some(p), Some(h)) => {
            if pc && ph {
                if p.2 >= h.2 {
                    SyncAction::Push
                } else {
                    SyncAction::Pull
                }
            } else if pc {
                SyncAction::Push
            } else if ph {
                SyncAction::Pull
            } else {
                SyncAction::Keep
            }
        },
        (Some(_), None) => {
            if b is Some && !pc {
                SyncAction::DeletePc
            } else {
                SyncAction::Push
            }
        },
        (None, Some(_)) => {
            if b is Some && !ph {
                SyncAction::DeletePhone
            } else {
                SyncAction::Pull
            }
        },
        (None, None) => SyncAction::Keep,
    }
}

/// The fate of path `k` given the three listings.
pub open spec fn action_of(
    pc: Seq<(Seq<char>, u64, i64)>,
    ph: Seq<(Seq<char>, u64, i64)>,
    b: Seq<(Seq<char>, u64, i64, i64)>,
    k: Seq<char>,
) -> SyncAction {
    action_for(lookup(pc, k), lookup(ph, k), lookup_base(b, k))
}

/// The plan for the keys `ks`, taken in order.
pub open spec fn plan_of(
    ks: Seq<Seq<char>>,
    pc: Seq<(Seq<char>, u64, i64)>,
    ph: Seq<(Seq<char>, u64, i64)>,
    b: Seq<(Seq<char>, u64, i64, i64)>,
) -> (Seq<(Seq<char>, u64, i64)>, Seq<Seq<char>>, Seq<Seq<char>>, Seq<Seq<char>>)
    decreases ks.len(),
{
    if ks.len() == 0 {
        (seq![], seq![], seq![], seq![])
    } else {
        let r = plan_of(ks.drop_last(), pc, ph, b);
        let k = ks.last();
        match action_of(pc, ph, b, k) {
            SyncAction::Push => (r.0.push(lookup(pc, k).unwrap()), r.1, r.2, r.3),
            SyncAction::Pull => (r.0, r.1.push(k), r.2, r.3),
            SyncAction::DeletePhone => (r.0, r.1, r.2.push(k), r.3),
            SyncAction::DeletePc => (r.0, r.1, r.2, r.3.push(k)),
            SyncAction::Keep => r,
        }
    }
}

/// The paths of a listing, in its order.
pub open spec fn entry_paths(s: Seq<(Seq<char>, u64, i64)>) -> Seq<Seq<char>> {
    s.map_values(|e: (Seq<char>, u64, i64)| e.0)
}

/// The paths of a baseline, in its order.
pub open spec fn record_paths(s: Seq<(Seq<char>, u64, i64, i64)>) -> Seq<Seq<char>> {
    s.map_values(|e: (Seq<char>, u64, i64, i64)| e.0)
}

/// Every path that the PC, the phone or the baseline lists.
pub open spec fn key_set(
    pc: Seq<(Seq<char>, u64, i64)>,
    ph: Seq<(Seq<char>, u64, i64)>,
    b: Seq<(Seq<char>, u64, i64, i64)>,
) -> Set<Seq<char>> {
    entry_paths(pc).to_set() + entry_paths(ph).to_set() + record_paths(b).to_set()
}

/// The paths of `s` in increasing order, each once.
pub open spec fn sorted_keys(s: Set<Seq<char>>) -> Seq<Seq<char>> {
    choose|ks: Seq<Seq<char>>| sorted_strict(ks) && ks.to_set() == s
}

/// The plan `reconcile` computes: one decision per path, paths in increasing
/// order.
pub open spec fn spec_plan(
    pc: Seq<(Seq<char>, u64, i64)>,
    ph: Seq<(Seq<char>, u64, i64)>,
    b: Seq<(Seq<char>, u64, i64, i64)>,
) -> (Seq<(Seq<char>, u64, i64)>, Seq<Seq<char>>, Seq<Seq<char>>, Seq<Seq<char>>) {
    plan_of(sorted_keys(key_set(pc, ph, b)), pc, ph, b)
}

/// Where the last entry of `s` for `k` stands.
fn find_entry(s: &[SyncEntry], k: &[char]) -> (r: Option<usize>)
    ensures
        match r {
            Some(i) => i < s@.len() && lookup(entry_views(s@), k@) == Some(s@[i as int]@),
            None => lookup(entry_views(s@), k@) is None,
        },
{
    let mut j: usize = s.len();
    let ghost sv = entry_views(s@);
    assert(sv.take(j as int) =~= sv);
    while j > 0
        invariant
            j <= s@.len(),
            sv == entry_views(s@),
            lookup(sv, k@) == lookup(sv.take(j as int), k@),
        decreases j,
    {
        let p = chars_of(s[j - 1].path.as_str());
        assert(sv.take(j as int).last() == s@[j - 1]@);
        if same_chars(p.as_slice(), k) {
            return Some(j - 1);
        }
        assert(sv.take(j as int).drop_last() =~= sv.take(j - 1));
        j = j - 1;
    }
    None
}

/// Where the last baseline record of `s` for `k` stands.
fn find_record(s: &[BaseRecord], k: &[char]) -> (r: Option<usize>)
    ensures
        match r {
            Some(i) => i < s@.len() && lookup_base(record_views(s@), k@) == Some(s@[i as int]@),
            None => lookup_base(record_views(s@), k@) is None,
        },
{
    let mut j: usize = s.len();
    let ghost sv = record_views(s@);
    assert(sv.take(j as int) =~= sv);
    while j > 0
        invariant
            j <= s@.len(),
            sv == record_views(s@),
            lookup_base(sv, k@) == lookup_base(sv.take(j as int), k@),
        decreases j,
    {
        let p = chars_of(s[j - 1].path.as_str());
        assert(sv.take(j as int).last() == s@[j - 1]@);
        if same_chars(p.as_slice(), k) {
            return Some(j - 1);
        }
        assert(sv.take(j as int).drop_last() =~= sv.take(j - 1));
        j = j - 1;
    }
    None
}

/// The fate of one path.
fn decide(p: Option<&SyncEntry>, h: Option<&SyncEntry>, b: Option<&BaseRecord>) -> (r: SyncAction)
    ensures
        r == action_for(
            match p { Some(e) => Some(e@), None => None },
            match h { Some(e) => Some(e@), None => None },
            match b { Some(e) => Some(e@), None => None },
        ),
{
    let pc = match (p, b) {
        (Some(p), Some(b)) => p.size != b.size || p.mtime != b.pc_mtime,
        (Some(_), None) => true,
        (None, Some(_)) => true,
        (None, None) => false,
    };
    let ph = match (h, b) {
        (Some(h), Some(b)) => h.size != b.size || h.mtime != b.phone_mtime,
        (Some(_), None) => true,
        (None, Some(_)) => true,
        (None, None) => false,
    };
    match (p, h) {
        (Some(p), Some(h)) => {
            if pc && ph {
                if p.mtime >= h.mtime {
                    SyncAction::Push
                } else {
                    SyncAction::Pull
                }
            } else if pc {
                SyncAction::Push
            } else if ph {
                SyncAction::Pull
            } else {
                SyncAction::Keep
            }
        },
        (Some(_), None) => {
            if b.is_some() && !pc {
                SyncAction::DeletePc
            } else {
                SyncAction::Push
            }
        },
        (None, Some(_)) => {
            if b.is_some() && !ph {
                SyncAction::DeletePhone
            } else {
                SyncAction::Pull
            }
        },
        (None, None) => SyncAction::Keep,
    }
}

/// Adds the paths of `s` to the strictly sorted `keys`.
fn add_entry_paths(keys: &mut Vec<Vec<char>>, s: &[SyncEntry])
    requires
        sorted_strict(views(old(keys)@)),
    ensures
        sorted_strict(views(final(keys)@)),
        views(final(keys)@).to_set() == views(old(keys)@).to_set() + entry_paths(
            entry_views(s@),
        ).to_set(),
{
    let ghost start = views(keys@).to_set();
    let ghost sp = entry_paths(entry_views(s@));
    let mut i: usize = 0;
    assert(sp.take(0).to_set() =~= Set::empty());
    assert(start + Set::empty() =~= start);
    while i < s.len()
        invariant
            i <= s@.len(),
            sp == entry_paths(entry_views(s@)),
            sorted_strict(views(keys@)),
            views(keys@).to_set() == start + sp.take(i as int).to_set(),
        decreases s@.len() - i,
    {
        let k = chars_of(s[i].path.as_str());
        insert_sorted(keys, k.as_slice());
        proof {
            assert(sp.take(i + 1) =~= sp.take(i as int).push(sp[i as int]));
            sp.take(i as int).lemma_push_to_set_commute(sp[i as int]);
            assert(views(keys@).to_set() =~= start + sp.take(i + 1).to_set());
        }
        i = i + 1;
    }
    assert(sp.take(s@.len() as int) =~= sp);
}

/// Adds the paths of the baseline records `s` to the strictly sorted `keys`.
fn add_record_paths(keys: &mut Vec<Vec<char>>, s: &[BaseRecord])
    requires
        sorted_strict(views(old(keys)@)),
    ensures
        sorted_strict(views(final(keys)@)),
        views(final(keys)@).to_set() == views(old(keys)@).to_set() + record_paths(
            record_views(s@),
        ).to_set(),
{
    let ghost start = views(keys@).to_set();
    let ghost sp = record_paths(record_views(s@));
    let mut i: usize = 0;
    assert(sp.take(0).to_set() =~= Set::empty());
    assert(start + Set::empty() =~= start);
    while i < s.len()
        invariant
            i <= s@.len(),
            sp == record_paths(record_views(s@)),
            sorted_strict(views(keys@)),
            views(keys@).to_set() == start + sp.take(i as int).to_set(),
        decreases s@.len() - i,
    {
        let k = chars_of(s[i].path.as_str());
        insert_sorted(keys, k.as_slice());
        proof {
            assert(sp.take(i + 1) =~= sp.take(i as int).push(sp[i as int]));
            sp.take(i as int).lemma_push_to_set_commute(sp[i as int]);
            assert(views(keys@).to_set() =~= start + sp.take(i + 1).to_set());
        }
        i = i + 1;
    }
    assert(sp.take(s@.len() as int) =~= sp);
}

/// Every path of the three listings, in increasing order, each once.
fn all_paths(pc: &[SyncEntry], phone: &[SyncEntry], base: &Baseline) -> (keys: Vec<Vec<char>>)
    ensures
        views(keys@) == sorted_keys(
            key_set(entry_views(pc@), entry_views(phone@), record_views(base.files@)),
        ),
{
    let mut keys: Vec<Vec<char>> = Vec::new();
    assert(views(keys@).to_set() =~= Set::empty());
    add_entry_paths(&mut keys, pc);
    add_entry_paths(&mut keys, phone);
    add_record_paths(&mut keys, base.files.as_slice());
    let ghost ks = key_set(entry_views(pc@), entry_views(phone@), record_views(base.files@));
    assert(views(keys@).to_set() =~= ks);
    proof {
        let w = views(keys@);
        assert(sorted_strict(w) && w.to_set() == ks);
        let c = sorted_keys(ks);
        assert(sorted_strict(c) && c.to_set() == ks);
        lemma_sorted_unique(w, c);
    }
    keys
}

/// The sync plan for the PC's listing, the phone's listing and the
/// baseline: every path any of them lists is decided once, in increasing
/// path order (see `action_for`).
pub fn reconcile(pc: &[SyncEntry], phone: &[SyncEntry], base: &Baseline) -> (plan: Plan)
    ensures
        plan@ == spec_plan(entry_views(pc@), entry_views(phone@), record_views(base.files@)),
{
    let ghost pcv = entry_views(pc@);
    let ghost phv = entry_views(phone@);
    let ghost bv = record_views(base.files@);
    let keys = all_paths(pc, phone, base);
    let ghost kv = views(keys@);
    let mut plan = Plan { push: Vec::new(), pull: Vec::new(), del_phone: Vec::new(), del_pc: Vec::new() };
    let mut n: usize = 0;
    assert(plan@ == plan_of(kv.take(0), pcv, phv, bv)) by {
        assert(kv.take(0) =~= Seq::<Seq<char>>::empty());
        assert(plan@.0 =~= Seq::<(Seq<char>, u64, i64)>::empty());
        assert(plan@.1 =~= Seq::<Seq<char>>::empty());
        assert(plan@.2 =~= Seq::<Seq<char>>::empty());
        assert(plan@.3 =~= Seq::<Seq<char>>::empty());
    }
    while n < keys.len()
        invariant
            n <= keys@.len(),
            kv == views(keys@),
            pcv == entry_views(pc@),
            phv == entry_views(phone@),
            bv == record_views(base.files@),
            plan@ == plan_of(kv.take(n as int), pcv, phv, bv),
        decreases keys@.len() - n,
    {
        let k = keys[n].as_slice();
        assert(k@ == kv[n as int]);
        let pi = find_entry(pc, k);
        let hi = find_entry(phone, k);
        let bi = find_record(base.files.as_slice(), k);
        let p = match pi {
            Some(i) => Some(&pc[i]),
            None => None,
        };
        let h = match hi {
            Some(i) => Some(&phone[i]),
            None => None,
        };
        let b = match bi {
            Some(i) => Some(&base.files[i]),
            None => None,
        };
        let act = decide(p, h, b);
        let ghost before = plan@;
        assert(kv.take(n + 1).drop_last() =~= kv.take(n as int));
        assert(kv.take(n + 1).last() == k@);
        assert(act == action_of(pcv, phv, bv, k@));
        match act {
            SyncAction::Push => {
                let i = pi.unwrap();
                plan.push.push(pc[i as usize].copied());
                assert(plan@.0 =~= before.0.push(pcv[i as int]));
            },
            SyncAction::Pull => {
                plan.pull.push(string_of(k));
                assert(plan@.1 =~= before.1.push(k@));
            },
            SyncAction::DeletePhone => {
                plan.del_phone.push(string_of(k));
                assert(plan@.2 =~= before.2.push(k@));
            },
            SyncAction::DeletePc => {
                plan.del_pc.push(string_of(k));
                assert(plan@.3 =~= before.3.push(k@));
            },
            SyncAction::Keep => {},
        }
        n = n + 1;
    }
    assert(kv.take(keys@.len() as int) =~= kv);
    plan
}

/// What the baseline records for a path once a sync has completed: the
/// size and the PC's modification time from the PC, the phone's modification
/// time from the phone, for a path that both sides hold.
pub open spec fn settled(p: Option<(Seq<char>, u64, i64)>, h: Option<(Seq<char>, u64, i64)>) -> Option<
    (Seq<char>, u64, i64, i64),
> {
    match (p, h) {
        (Some(p), Some(h)) => Some((p.0, p.1, p.2, h.2)),
        _ => None,
    }
}

/// The baseline to remember once a sync has completed, from the listings
/// both sides hold at its end: one record per path that both of them list.
pub fn next_baseline(pc: &[SyncEntry], phone: &[SyncEntry]) -> (b: Baseline)
    ensures
        forall|k: Seq<char>|
            #[trigger] lookup_base(record_views(b.files@), k) == settled(
                lookup(entry_views(pc@), k),
                lookup(entry_views(phone@), k),
            ),
{
    let ghost pcv = entry_views(pc@);
    let ghost phv = entry_views(phone@);
    let mut files: Vec<BaseRecord> = Vec::new();
    let mut i: usize = 0;
    while i < pc.len()
        invariant
            i <= pc@.len(),
            pcv == entry_views(pc@),
            phv == entry_views(phone@),
            forall|k: Seq<char>|
                #[trigger] lookup_base(record_views(files@), k) == settled(
                    lookup(pcv.take(i as int), k),
                    lookup(phv, k),
                ),
        decreases pc@.len() - i,
    {
        let k = chars_of(pc[i].path.as_str());
        let ghost before = record_views(files@);
        assert(pcv.take(i + 1).drop_last() =~= pcv.take(i as int));
        assert(pcv.take(i + 1).last() == pc@[i as int]@);
        match find_entry(phone, k.as_slice()) {
            Some(j) => {
                files.push(
                    BaseRecord {
                        path: pc[i].path.clone(),
                        size: pc[i].size,
                        pc_mtime: pc[i].mtime,
                        phone_mtime: phone[j].mtime,
                    },
                );
                let ghost r = record_views(files@).last();
                assert(record_views(files@) =~= before.push(r));
                assert(record_views(files@).drop_last() =~= before);
                assert forall|x: Seq<char>|
                    #[trigger] lookup_base(record_views(files@), x) == settled(
                        lookup(pcv.take(i + 1), x),
                        lookup(phv, x),
                    ) by {
                    assert(lookup_base(before, x) == settled(lookup(pcv.take(i as int), x), lookup(phv, x)));
                }
            },
            None => {
                assert forall|x: Seq<char>|
                    #[trigger] lookup_base(record_views(files@), x) == settled(
                        lookup(pcv.take(i + 1), x),
                        lookup(phv, x),
                    ) by {
                    assert(lookup_base(before, x) == settled(lookup(pcv.take(i as int), x), lookup(phv, x)));
                }
            },
        }
        i = i + 1;
    }
    assert(pcv.take(pc@.len() as int) =~= pcv);
    Baseline { files }
}

/// The plan for `ks` pushes, pulls and deletes exactly the paths of `ks`
/// whose decision says so; each pushed entry is the PC's entry for its path.
proof fn lemma_plan_of_members(
    ks: Seq<Seq<char>>,
    pc: Seq<(Seq<char>, u64, i64)>,
    ph: Seq<(Seq<char>, u64, i64)>,
    b: Seq<(Seq<char>, u64, i64, i64)>,
)
    ensures
        forall|k: Seq<char>|
            #[trigger] plan_of(ks, pc, ph, b).1.contains(k) <==> (ks.contains(k) && action_of(
                pc,
                ph,
                b,
                k,
            ) == SyncAction::Pull),
        forall|k: Seq<char>|
            #[trigger] plan_of(ks, pc, ph, b).2.contains(k) <==> (ks.contains(k) && action_of(
                pc,
                ph,
                b,
                k,
            ) == SyncAction::DeletePhone),
        forall|k: Seq<char>|
            #[trigger] plan_of(ks, pc, ph, b).3.contains(k) <==> (ks.contains(k) && action_of(
                pc,
                ph,
                b,
                k,
            ) == SyncAction::DeletePc),
        forall|k: Seq<char>|
            #[trigger] entry_paths(plan_of(ks, pc, ph, b).0).contains(k) <==> (ks.contains(k)
                && action_of(pc, ph, b, k) == SyncAction::Push),
        forall|e: (Seq<char>, u64, i64)|
            #[trigger] plan_of(ks, pc, ph, b).0.contains(e) ==> lookup(pc, e.0) == Some(e),
    decreases ks.len(),
{
    if ks.len() > 0 {
        let r = plan_of(ks.drop_last(), pc, ph, b);
        let k = ks.last();
        let res = plan_of(ks, pc, ph, b);
        lemma_plan_of_members(ks.drop_last(), pc, ph, b);
        assert forall|x: Seq<char>| #[trigger] ks.contains(x) <==> (ks.drop_last().contains(x) || x == k) by {
            if ks.contains(x) {
                let j = choose|j: int| 0 <= j < ks.len() && ks[j] == x;
                if j < ks.len() - 1 {
                    assert(ks.drop_last()[j] == x);
                }
            }
            if ks.drop_last().contains(x) {
                let j = choose|j: int| 0 <= j < ks.drop_last().len() && ks.drop_last()[j] == x;
                assert(ks[j] == x);
            }
            if x == k {
                assert(ks[ks.len() - 1] == x);
            }
        }
        match action_of(pc, ph, b, k) {
            SyncAction::Push => {
                assert(lookup(pc, k) is Some);
                let e = lookup(pc, k).unwrap();
                lemma_lookup_key(pc, k);
                assert(e.0 == k);
                assert(res.0 == r.0.push(e));
                assert(entry_paths(res.0) =~= entry_paths(r.0).push(k));
                assert forall|x: (Seq<char>, u64, i64)| #[trigger] res.0.contains(x) implies lookup(pc, x.0) == Some(x) by {
                    let j = choose|j: int| 0 <= j < res.0.len() && res.0[j] == x;
                    if j < r.0.len() {
                        assert(r.0[j] == x);
                        assert(r.0.contains(x));
                    } else {
                        assert(x == e);
                    }
                }
            },
            SyncAction::Pull => {},
            SyncAction::DeletePhone => {},
            SyncAction::DeletePc => {},
            SyncAction::Keep => {},
        }
        assert forall|x: Seq<char>|
            #[trigger] entry_paths(res.0).contains(x) <==> (ks.contains(x) && action_of(pc, ph, b, x)
                == SyncAction::Push) by {
            assert(entry_paths(r.0).contains(x) <==> (ks.drop_last().contains(x) && action_of(
                pc,
                ph,
                b,
                x,
            ) == SyncAction::Push));
            if action_of(pc, ph, b, k) == SyncAction::Push {
                assert(entry_paths(res.0) =~= entry_paths(r.0).push(k));
                if x == k {
                    assert(entry_paths(res.0)[entry_paths(res.0).len() - 1] == k);
                }
                if entry_paths(res.0).contains(x) && x != k {
                    let j = choose|j: int| 0 <= j < entry_paths(res.0).len() && entry_paths(res.0)[j] == x;
                    assert(entry_paths(r.0)[j] == x);
                }
                if entry_paths(r.0).contains(x) {
                    let j = choose|j: int| 0 <= j < entry_paths(r.0).len() && entry_paths(r.0)[j] == x;
                    assert(entry_paths(res.0)[j] == x);
                }
            } else {
                assert(res.0 == r.0);
            }
            assert(ks.contains(x) <==> (ks.drop_last().contains(x) || x == k));
        }
        assert forall|x: Seq<char>|
            #[trigger] res.1.contains(x) <==> (ks.contains(x) && action_of(pc, ph, b, x)
                == SyncAction::Pull) by {
            assert(r.1.contains(x) <==> (ks.drop_last().contains(x) && action_of(pc, ph, b, x)
                == SyncAction::Pull));
            lemma_push_contains(r.1, k, x);
            assert(ks.contains(x) <==> (ks.drop_last().contains(x) || x == k));
        }
        assert forall|x: Seq<char>|
            #[trigger] res.2.contains(x) <==> (ks.contains(x) && action_of(pc, ph, b, x)
                == SyncAction::DeletePhone) by {
            assert(r.2.contains(x) <==> (ks.drop_last().contains(x) && action_of(pc, ph, b, x)
                == SyncAction::DeletePhone));
            lemma_push_contains(r.2, k, x);
            assert(ks.contains(x) <==> (ks.drop_last().contains(x) || x == k));
        }
        assert forall|x: Seq<char>|
            #[trigger] res.3.contains(x) <==> (ks.contains(x) && action_of(pc, ph, b, x)
                == SyncAction::DeletePc) by {
            assert(r.3.contains(x) <==> (ks.drop_last().contains(x) && action_of(pc, ph, b, x)
                == SyncAction::DeletePc));
            lemma_push_contains(r.3, k, x);
            assert(ks.contains(x) <==> (ks.drop_last().contains(x) || x == k));
        }
    }
}

/// An element of `s` with `a` pushed is `a` or an element of `s`.
proof fn lemma_push_contains(s: Seq<Seq<char>>, a: Seq<char>, x: Seq<char>)
    ensures
        s.push(a).contains(x) <==> (s.contains(x) || x == a),
{
    if s.push(a).contains(x) && x != a {
        let j = choose|j: int| 0 <= j < s.push(a).len() && s.push(a)[j] == x;
        assert(s[j] == x);
    }
    if s.contains(x) {
        let j = choose|j: int| 0 <= j < s.len() && s[j] == x;
        assert(s.push(a)[j] == x);
    }
    if x == a {
        assert(s.push(a)[s.len() as int] == x);
    }
}

/// The entry `lookup` finds is one for the path asked for.
proof fn lemma_lookup_key(s: Seq<(Seq<char>, u64, i64)>, k: Seq<char>)
    ensures
        lookup(s, k) matches Some(e) ==> e.0 == k && entry_paths(s).contains(k),
    decreases s.len(),
{
    if s.len() > 0 && s.last().0 != k {
        lemma_lookup_key(s.drop_last(), k);
        if lookup(s, k) is Some {
            let j = choose|j: int| 0 <= j < entry_paths(s.drop_last()).len() && entry_paths(s.drop_last())[j] == k;
            assert(entry_paths(s)[j] == k);
        }
    } else if s.len() > 0 {
        assert(entry_paths(s)[s.len() - 1] == k);
    }
}

/// A baseline record that `lookup_base` finds lists the path asked for.
proof fn lemma_lookup_base_key(s: Seq<(Seq<char>, u64, i64, i64)>, k: Seq<char>)
    ensures
        lookup_base(s, k) is Some ==> record_paths(s).contains(k),
    decreases s.len(),
{
    if s.len() > 0 && s.last().0 != k {
        lemma_lookup_base_key(s.drop_last(), k);
        if lookup_base(s, k) is Some {
            let j = choose|j: int| 0 <= j < record_paths(s.drop_last()).len() && record_paths(s.drop_last())[j] == k;
            assert(record_paths(s)[j] == k);
        }
    } else if s.len() > 0 {
        assert(record_paths(s)[s.len() - 1] == k);
    }
}

/// A plan over keys whose decisions are all to keep things as they are is
/// empty.
proof fn lemma_plan_of_keep(
    ks: Seq<Seq<char>>,
    pc: Seq<(Seq<char>, u64, i64)>,
    ph: Seq<(Seq<char>, u64, i64)>,
    b: Seq<(Seq<char>, u64, i64, i64)>,
)
    requires
        forall|k: Seq<char>| #[trigger] action_of(pc, ph, b, k) == SyncAction::Keep,
    ensures
        plan_of(ks, pc, ph, b) == (
            Seq::<(Seq<char>, u64, i64)>::empty(),
            Seq::<Seq<char>>::empty(),
            Seq::<Seq<char>>::empty(),
            Seq::<Seq<char>>::empty(),
        ),
    decreases ks.len(),
{
    if ks.len() > 0 {
        lemma_plan_of_keep(ks.drop_last(), pc, ph, b);
        assert(action_of(pc, ph, b, ks.last()) == SyncAction::Keep);
    }
}

/// Every path listed anywhere is decided once: the plan pulls, deletes on
/// the phone, deletes on the PC and pushes exactly the paths whose decision
/// (`action_of`) says so, and what it pushes is the PC's own entry.
pub proof fn lemma_plan_decides_each_path(
    pc: Seq<(Seq<char>, u64, i64)>,
    ph: Seq<(Seq<char>, u64, i64)>,
    b: Seq<(Seq<char>, u64, i64, i64)>,
)
    ensures
        forall|k: Seq<char>|
            #[trigger] spec_plan(pc, ph, b).1.contains(k) <==> action_of(pc, ph, b, k)
                == SyncAction::Pull,
        forall|k: Seq<char>|
            #[trigger] spec_plan(pc, ph, b).2.contains(k) <==> action_of(pc, ph, b, k)
                == SyncAction::DeletePhone,
        forall|k: Seq<char>|
            #[trigger] spec_plan(pc, ph, b).3.contains(k) <==> action_of(pc, ph, b, k)
                == SyncAction::DeletePc,
        forall|k: Seq<char>|
            #[trigger] entry_paths(spec_plan(pc, ph, b).0).contains(k) <==> action_of(pc, ph, b, k)
                == SyncAction::Push,
        forall|e: (Seq<char>, u64, i64)|
            #[trigger] spec_plan(pc, ph, b).0.contains(e) ==> lookup(pc, e.0) == Some(e),
{
    let s = key_set(pc, ph, b);
    lemma_sorted_exists(s);
    let ks = sorted_keys(s);
    assert(sorted_strict(ks) && ks.to_set() == s);
    lemma_plan_of_members(ks, pc, ph, b);
    assert forall|k: Seq<char>| action_of(pc, ph, b, k) != SyncAction::Keep implies #[trigger] ks.contains(k) by {
        lemma_lookup_key(pc, k);
        lemma_lookup_key(ph, k);
        lemma_lookup_base_key(b, k);
        assert(s.contains(k));
        assert(ks.to_set().contains(k));
    }
}

/// Appending a path above every path of a strictly increasing list keeps
/// it strictly increasing.
proof fn lemma_sorted_push(s: Seq<Seq<char>>, k: Seq<char>)
    requires
        sorted_strict(s),
        forall|x: Seq<char>| #[trigger] s.contains(x) ==> seq_lt(x, k),
    ensures
        sorted_strict(s.push(k)),
{
    let p = s.push(k);
    assert forall|i: int, j: int| 0 <= i < j < p.len() implies seq_lt(#[trigger] p[i], #[trigger] p[j]) by {
        assert(p[i] == s[i]);
        if j < s.len() {
            assert(p[j] == s[j]);
        } else {
            assert(s.contains(s[i]));
        }
    }
}

/// Over strictly increasing keys, each list of the plan is strictly
/// increasing too.
proof fn lemma_plan_of_sorted(
    ks: Seq<Seq<char>>,
    pc: Seq<(Seq<char>, u64, i64)>,
    ph: Seq<(Seq<char>, u64, i64)>,
    b: Seq<(Seq<char>, u64, i64, i64)>,
)
    requires
        sorted_strict(ks),
    ensures
        sorted_strict(entry_paths(plan_of(ks, pc, ph, b).0)),
        sorted_strict(plan_of(ks, pc, ph, b).1),
        sorted_strict(plan_of(ks, pc, ph, b).2),
        sorted_strict(plan_of(ks, pc, ph, b).3),
    decreases ks.len(),
{
    if ks.len() > 0 {
        let d = ks.drop_last();
        let k = ks.last();
        assert(sorted_strict(d)) by {
            assert forall|i: int, j: int| 0 <= i < j < d.len() implies seq_lt(#[trigger] d[i], #[trigger] d[j]) by {
                assert(d[i] == ks[i] && d[j] == ks[j]);
            }
        }
        lemma_plan_of_sorted(d, pc, ph, b);
        lemma_plan_of_members(d, pc, ph, b);
        lemma_plan_of_members(ks, pc, ph, b);
        let r = plan_of(d, pc, ph, b);
        assert forall|x: Seq<char>| #[trigger] d.contains(x) implies seq_lt(x, k) by {
            let j = choose|j: int| 0 <= j < d.len() && d[j] == x;
            assert(ks[j] == x);
        }
        match action_of(pc, ph, b, k) {
            SyncAction::Push => {
                let e = lookup(pc, k).unwrap();
                assert(entry_paths(r.0.push(e)) =~= entry_paths(r.0).push(e.0));
                lemma_push_contains(entry_paths(r.0), e.0, k);
                assert(ks.contains(k)) by {
                    assert(ks[ks.len() - 1] == k);
                }
                assert(entry_paths(plan_of(ks, pc, ph, b).0).contains(k));
                if e.0 != k {
                    assert(entry_paths(r.0).contains(k));
                    assert(d.contains(k));
                    lemma_lt_irreflexive(k);
                }
                lemma_sorted_push(entry_paths(r.0), k);
            },
            SyncAction::Pull => {
                lemma_sorted_push(r.1, k);
            },
            SyncAction::DeletePhone => {
                lemma_sorted_push(r.2, k);
            },
            SyncAction::DeletePc => {
                lemma_sorted_push(r.3, k);
            },
            SyncAction::Keep => {},
        }
    }
}

/// The plan lists each path at most once, in increasing path order: the
/// entries to push, the paths to pull and the paths to delete on either
/// side are each strictly increasing.
pub proof fn lemma_plan_in_path_order(
    pc: Seq<(Seq<char>, u64, i64)>,
    ph: Seq<(Seq<char>, u64, i64)>,
    b: Seq<(Seq<char>, u64, i64, i64)>,
)
    ensures
        sorted_strict(entry_paths(spec_plan(pc, ph, b).0)),
        sorted_strict(spec_plan(pc, ph, b).1),
        sorted_strict(spec_plan(pc, ph, b).2),
        sorted_strict(spec_plan(pc, ph, b).3),
{
    let s = key_set(pc, ph, b);
    lemma_sorted_exists(s);
    let ks = sorted_keys(s);
    assert(sorted_strict(ks) && ks.to_set() == s);
    lemma_plan_of_sorted(ks, pc, ph, b);
}

/// What happens to a path that both sides list, against the baseline
/// record `r` of the last sync (`p`, `h` being the PC's and the phone's
/// entries: path, size, modification time). A copy counts as edited when
/// its size or its modification time differs from the record. An edit on
/// the phone only is pulled to the PC and not pushed back; an edit on the
/// PC only is pushed and not pulled; when both were edited the later copy
/// wins (the PC's on a tie); when neither was, the path is left alone.
pub proof fn lemma_edits_travel_one_way(
    pc: Seq<(Seq<char>, u64, i64)>,
    ph: Seq<(Seq<char>, u64, i64)>,
    b: Seq<(Seq<char>, u64, i64, i64)>,
    k: Seq<char>,
    p: (Seq<char>, u64, i64),
    h: (Seq<char>, u64, i64),
    r: (Seq<char>, u64, i64, i64),
)
    requires
        lookup(pc, k) == Some(p),
        lookup(ph, k) == Some(h),
        lookup_base(b, k) == Some(r),
    ensures
        (p.1 == r.1 && p.2 == r.2 && (h.1 != r.1 || h.2 != r.3)) ==> spec_plan(pc, ph, b).1.contains(k)
            && !entry_paths(spec_plan(pc, ph, b).0).contains(k),
        (h.1 == r.1 && h.2 == r.3 && (p.1 != r.1 || p.2 != r.2)) ==> entry_paths(
            spec_plan(pc, ph, b).0,
        ).contains(k) && !spec_plan(pc, ph, b).1.contains(k),
        ((p.1 != r.1 || p.2 != r.2) && (h.1 != r.1 || h.2 != r.3)) ==> (if p.2 >= h.2 {
            entry_paths(spec_plan(pc, ph, b).0).contains(k) && !spec_plan(pc, ph, b).1.contains(k)
        } else {
            spec_plan(pc, ph, b).1.contains(k) && !entry_paths(spec_plan(pc, ph, b).0).contains(k)
        }),
        (p.1 == r.1 && p.2 == r.2 && h.1 == r.1 && h.2 == r.3) ==> !spec_plan(pc, ph, b).1.contains(k)
            && !entry_paths(spec_plan(pc, ph, b).0).contains(k) && !spec_plan(pc, ph, b).2.contains(k)
            && !spec_plan(pc, ph, b).3.contains(k),
        !spec_plan(pc, ph, b).2.contains(k) && !spec_plan(pc, ph, b).3.contains(k),
{
    lemma_plan_decides_each_path(pc, ph, b);
    assert(spec_plan(pc, ph, b).1.contains(k) <==> action_of(pc, ph, b, k) == SyncAction::Pull);
    assert(spec_plan(pc, ph, b).2.contains(k) <==> action_of(pc, ph, b, k) == SyncAction::DeletePhone);
    assert(spec_plan(pc, ph, b).3.contains(k) <==> action_of(pc, ph, b, k) == SyncAction::DeletePc);
    assert(entry_paths(spec_plan(pc, ph, b).0).contains(k) <==> action_of(pc, ph, b, k) == SyncAction::Push);
}

/// A path only one side lists: when the baseline knows it and the side that
/// still has it did not edit it, the other side deleted it, so it is deleted
/// here too; otherwise it is new (or edited) and copied over.
pub proof fn lemma_one_sided_paths(
    pc: Seq<(Seq<char>, u64, i64)>,
    ph: Seq<(Seq<char>, u64, i64)>,
    b: Seq<(Seq<char>, u64, i64, i64)>,
    k: Seq<char>,
    e: (Seq<char>, u64, i64),
)
    ensures
        lookup(pc, k) == Some(e) && lookup(ph, k) is None ==> (if (lookup_base(b, k) matches Some(r) && e.1
            == r.1 && e.2 == r.2) {
            spec_plan(pc, ph, b).3.contains(k) && !entry_paths(spec_plan(pc, ph, b).0).contains(k)
        } else {
            entry_paths(spec_plan(pc, ph, b).0).contains(k) && !spec_plan(pc, ph, b).3.contains(k)
        }),
        lookup(ph, k) == Some(e) && lookup(pc, k) is None ==> (if (lookup_base(b, k) matches Some(r) && e.1
            == r.1 && e.2 == r.3) {
            spec_plan(pc, ph, b).2.contains(k) && !spec_plan(pc, ph, b).1.contains(k)
        } else {
            spec_plan(pc, ph, b).1.contains(k) && !spec_plan(pc, ph, b).2.contains(k)
        }),
{
    lemma_plan_decides_each_path(pc, ph, b);
    assert(spec_plan(pc, ph, b).1.contains(k) <==> action_of(pc, ph, b, k) == SyncAction::Pull);
    assert(spec_plan(pc, ph, b).2.contains(k) <==> action_of(pc, ph, b, k) == SyncAction::DeletePhone);
    assert(spec_plan(pc, ph, b).3.contains(k) <==> action_of(pc, ph, b, k) == SyncAction::DeletePc);
    assert(entry_paths(spec_plan(pc, ph, b).0).contains(k) <==> action_of(pc, ph, b, k) == SyncAction::Push);
}

/// A completed sync leaves nothing to do: when both sides list the same
/// paths with the same sizes, and the baseline is the one `next_baseline`
/// records for those listings, the plan is empty.
pub proof fn lemma_sync_settles(
    pc: Seq<(Seq<char>, u64, i64)>,
    ph: Seq<(Seq<char>, u64, i64)>,
    b: Seq<(Seq<char>, u64, i64, i64)>,
)
    requires
        forall|k: Seq<char>| #[trigger] lookup_base(b, k) == settled(lookup(pc, k), lookup(ph, k)),
        forall|k: Seq<char>| (#[trigger] lookup(pc, k) is Some) == (lookup(ph, k) is Some),
        forall|k: Seq<char>|
            #[trigger] lookup(pc, k) is Some ==> lookup(pc, k).unwrap().1 == lookup(ph, k).unwrap().1,
    ensures
        spec_plan(pc, ph, b) == (
            Seq::<(Seq<char>, u64, i64)>::empty(),
            Seq::<Seq<char>>::empty(),
            Seq::<Seq<char>>::empty(),
            Seq::<Seq<char>>::empty(),
        ),
{
    assert forall|k: Seq<char>| #[trigger] action_of(pc, ph, b, k) == SyncAction::Keep by {
        assert(lookup_base(b, k) == settled(lookup(pc, k), lookup(ph, k)));
        assert((lookup(pc, k) is Some) == (lookup(ph, k) is Some));
    }
    lemma_plan_of_keep(sorted_keys(key_set(pc, ph, b)), pc, ph, b);
}

/// A relative path that stays inside the synced folder: not empty, not
/// absolute, and without a `.` or `..` component.
pub open spec fn spec_safe_rel(p: Seq<char>) -> bool {
    p.len() > 0 && p[0] != '/' && forall|i: int|
        0 <= i < split_on(p, '/').len() ==> #[trigger] split_on(p, '/')[i] != seq!['.', '.']
            && split_on(p, '/')[i] != seq!['.']
}

/// Whether a path the phone sends may be written under the synced folder
/// (see `spec_safe_rel`).
pub fn safe_rel(path: &str) -> (ok: bool)
    ensures
        ok == spec_safe_rel(path@),
{
    let v = chars_of(path);
    if v.len() == 0 || v[0] == '/' {
        return false;
    }
    let parts = crate::text::split_chars(v.as_slice(), '/');
    let ghost pv = views(parts@);
    let mut i: usize = 0;
    while i < parts.len()
        invariant
            i <= parts@.len(),
            pv == views(parts@),
            pv == split_on(v@, '/'),
            v@ == path@,
            forall|j: int| 0 <= j < i ==> #[trigger] pv[j] != seq!['.', '.'] && pv[j] != seq!['.'],
        decreases parts@.len() - i,
    {
        let c = &parts[i];
        let dot = c.len() == 1 && c[0] == '.';
        let dotdot = c.len() == 2 && c[0] == '.' && c[1] == '.';
        proof {
            assert(pv[i as int] == c@);
            if c@.len() == 1 && c@[0] == '.' {
                assert(c@ =~= seq!['.']);
            }
            if c@.len() == 2 && c@[0] == '.' && c@[1] == '.' {
                assert(c@ =~= seq!['.', '.']);
            }
        }
        if dot || dotdot {
            assert(split_on(path@, '/')[i as int] == seq!['.', '.'] || split_on(path@, '/')[i as int]
                == seq!['.']);
            return false;
        }
        i = i + 1;
    }
    true
}

/// A file found while walking a synced folder: its full path (the folder's
/// path, a slash, then the path inside it), size and modification time in
/// milliseconds since the epoch.
#[derive(Debug, Clone)]
pub struct FoundFile {
    pub path: String,
    pub size: u64,
    pub mtime: i64,
}

/// The listing entry of a found file: its path relative to the folder,
/// with `/` as the separator.
pub open spec fn relative_entry(root: Seq<char>, f: (Seq<char>, u64, i64)) -> (Seq<char>, u64, i64) {
    (crate::text::replace_all(f.0.skip(root.len() as int + 1), seq!['\\'], seq!['/']), f.1, f.2)
}

/// The folder's listing from the files found under `root` (see
/// `relative_entry`), in the order found.
pub fn scan(root: &str, found: &[FoundFile]) -> (entries: Vec<SyncEntry>)
    requires
        forall|i: int|
            0 <= i < found@.len() ==> crate::text::has_prefix(#[trigger] found@[i].path@, root@.push('/')),
    ensures
        entries@.len() == found@.len(),
        forall|i: int|
            0 <= i < found@.len() ==> (#[trigger] entries@[i])@ == relative_entry(
                root@,
                (found@[i].path@, found@[i].size, found@[i].mtime),
            ),
{
    let r = chars_of(root);
    let back = vec!['\\'];
    let slash = vec!['/'];
    assert(back@ =~= seq!['\\']);
    assert(slash@ =~= seq!['/']);
    let mut out: Vec<SyncEntry> = Vec::new();
    let mut i: usize = 0;
    while i < found.len()
        invariant
            i <= found@.len(),
            r@ == root@,
            back@ == seq!['\\'],
            slash@ == seq!['/'],
            out@.len() == i,
            forall|j: int|
                0 <= j < found@.len() ==> crate::text::has_prefix(#[trigger] found@[j].path@, root@.push('/')),
            forall|j: int|
                0 <= j < i ==> (#[trigger] out@[j])@ == relative_entry(
                    root@,
                    (found@[j].path@, found@[j].size, found@[j].mtime),
                ),
        decreases found@.len() - i,
    {
        let p = chars_of(found[i].path.as_str());
        let n = p.len();
        assert(crate::text::has_prefix(found@[i as int].path@, root@.push('/')));
        assert(r.len() + 1 <= n);
        let tail = crate::text::chars_of_range(p.as_slice(), r.len() + 1, p.len());
        assert(tail@ =~= p@.skip(root@.len() as int + 1));
        let rel = crate::text::replace_of(tail.as_slice(), back.as_slice(), slash.as_slice());
        out.push(SyncEntry { path: string_of(rel.as_slice()), size: found[i].size, mtime: found[i].mtime });
        i = i + 1;
    }
    out
}

} // verus!
