//! The lexicographic order of character sequences (the order of `String`),
//! and sorted sets of keys kept in it.

use vstd::prelude::*;

verus! {

/// `a` sorts strictly before `b`, comparing characters by code point and a
/// proper prefix first; this is the order of `str` and `String`.
pub open spec fn seq_lt(a: Seq<char>, b: Seq<char>) -> bool
    decreases a.len(),
{
    if a.len() == 0 {
        b.len() > 0
    } else if b.len() == 0 {
        false
    } else if a[0] < b[0] {
        true
    } else if a[0] == b[0] {
        seq_lt(a.drop_first(), b.drop_first())
    } else {
        false
    }
}

pub proof fn lemma_lt_irreflexive(a: Seq<char>)
    ensures
        !seq_lt(a, a),
    decreases a.len(),
{
    if a.len() > 0 {
        lemma_lt_irreflexive(a.drop_first());
    }
}

pub proof fn lemma_lt_transitive(a: Seq<char>, b: Seq<char>, c: Seq<char>)
    requires
        seq_lt(a, b),
        seq_lt(b, c),
    ensures
        seq_lt(a, c),
    decreases a.len(),
{
    if a.len() > 0 && b.len() > 0 && c.len() > 0 {
        if a[0] == b[0] && b[0] == c[0] {
            lemma_lt_transitive(a.drop_first(), b.drop_first(), c.drop_first());
        }
    }
}

pub proof fn lemma_lt_total(a: Seq<char>, b: Seq<char>)
    requires
        a != b,
    ensures
        seq_lt(a, b) || seq_lt(b, a),
    decreases a.len(),
{
    if a.len() > 0 && b.len() > 0 {
        if a[0] == b[0] {
            if a.drop_first() == b.drop_first() {
                assert(a =~= seq![a[0]] + a.drop_first());
                assert(b =~= seq![b[0]] + b.drop_first());
            }
            lemma_lt_total(a.drop_first(), b.drop_first());
        } else {
            assert(a[0] != b[0]);
        }
    } else if a.len() == 0 && b.len() == 0 {
        assert(a =~= b);
    }
}

pub proof fn lemma_lt_asymmetric(a: Seq<char>, b: Seq<char>)
    requires
        seq_lt(a, b),
    ensures
        !seq_lt(b, a),
{
    if seq_lt(b, a) {
        lemma_lt_transitive(a, b, a);
        lemma_lt_irreflexive(a);
    }
}

/// Every element of `ks` sorts strictly before the next ones.
pub open spec fn sorted_strict(ks: Seq<Seq<char>>) -> bool {
    forall|i: int, j: int| 0 <= i < j < ks.len() ==> seq_lt(#[trigger] ks[i], #[trigger] ks[j])
}

/// Two strictly sorted sequences with the same elements are the same.
pub proof fn lemma_sorted_unique(a: Seq<Seq<char>>, b: Seq<Seq<char>>)
    requires
        sorted_strict(a),
        sorted_strict(b),
        a.to_set() == b.to_set(),
    ensures
        a == b,
    decreases a.len(),
{
    if a.len() == 0 {
        if b.len() > 0 {
            assert(b.to_set().contains(b[0]));
            assert(!a.to_set().contains(b[0]));
        }
        assert(a =~= b);
    } else if b.len() == 0 {
        assert(a.to_set().contains(a[0]));
    } else {
        // The first elements are both the least element of the set.
        assert(a.to_set().contains(a[0]));
        assert(b.to_set().contains(b[0]));
        let ia = choose|i: int| 0 <= i < a.len() && a[i] == b[0];
        let ib = choose|i: int| 0 <= i < b.len() && b[i] == a[0];
        assert(b.contains(a[0]));
        assert(a.contains(b[0]));
        if a[0] != b[0] {
            assert(ia > 0);
            assert(ib > 0);
            assert(seq_lt(a[0], a[ia]));
            assert(seq_lt(b[0], b[ib]));
            lemma_lt_asymmetric(a[0], b[0]);
        }
        let ra = a.drop_first();
        let rb = b.drop_first();
        assert forall|x: Seq<char>| ra.to_set().contains(x) implies rb.to_set().contains(x) by {
            let i = choose|i: int| 0 <= i < ra.len() && ra[i] == x;
            assert(a[i + 1] == x);
            assert(a.to_set().contains(x));
            assert(b.contains(x));
            let j = choose|j: int| 0 <= j < b.len() && b[j] == x;
            if j == 0 {
                assert(seq_lt(a[0], a[i + 1]));
                lemma_lt_irreflexive(x);
            }
            assert(rb[j - 1] == x);
        }
        assert forall|x: Seq<char>| rb.to_set().contains(x) implies ra.to_set().contains(x) by {
            let i = choose|i: int| 0 <= i < rb.len() && rb[i] == x;
            assert(b[i + 1] == x);
            assert(b.to_set().contains(x));
            assert(a.contains(x));
            let j = choose|j: int| 0 <= j < a.len() && a[j] == x;
            if j == 0 {
                assert(seq_lt(b[0], b[i + 1]));
                lemma_lt_irreflexive(x);
            }
            assert(ra[j - 1] == x);
        }
        assert(ra.to_set() =~= rb.to_set());
        lemma_sorted_unique(ra, rb);
        assert(a =~= seq![a[0]] + ra);
        assert(b =~= seq![b[0]] + rb);
    }
}

/// Whether `a` sorts strictly before `b`.
pub fn less_than(a: &[char], b: &[char]) -> (r: bool)
    ensures
        r == seq_lt(a@, b@),
{
    let mut i: usize = 0;
    assert(a@.skip(0) =~= a@);
    assert(b@.skip(0) =~= b@);
    while i < a.len() && i < b.len() && a[i] == b[i]
        invariant
            i <= a@.len(),
            i <= b@.len(),
            seq_lt(a@, b@) == seq_lt(a@.skip(i as int), b@.skip(i as int)),
        decreases a@.len() - i,
    {
        assert(a@.skip(i as int).drop_first() =~= a@.skip(i + 1));
        assert(b@.skip(i as int).drop_first() =~= b@.skip(i + 1));
        i = i + 1;
    }
    if i == a.len() {
        i < b.len()
    } else if i == b.len() {
        false
    } else {
        a[i] < b[i]
    }
}

/// Whether `a` and `b` hold the same characters.
pub fn same_chars(a: &[char], b: &[char]) -> (r: bool)
    ensures
        r == (a@ == b@),
{
    if a.len() != b.len() {
        return false;
    }
    let mut i: usize = 0;
    while i < a.len()
        invariant
            a@.len() == b@.len(),
            i <= a@.len(),
            forall|k: int| 0 <= k < i ==> a@[k] == b@[k],
        decreases a@.len() - i,
    {
        if a[i] != b[i] {
            return false;
        }
        i = i + 1;
    }
    assert(a@ =~= b@);
    true
}

/// Adds `k` to the strictly sorted `keys`, unless it is there already.
pub fn insert_sorted(keys: &mut Vec<Vec<char>>, k: &[char])
    requires
        sorted_strict(crate::text::views(old(keys)@)),
    ensures
        sorted_strict(crate::text::views(final(keys)@)),
        crate::text::views(final(keys)@).to_set() == crate::text::views(old(keys)@).to_set().insert(
            k@,
        ),
{
    let ghost old_v = crate::text::views(keys@);
    let mut pos: usize = 0;
    while pos < keys.len() && less_than(keys[pos].as_slice(), k)
        invariant
            pos <= keys@.len(),
            crate::text::views(keys@) == old_v,
            sorted_strict(old_v),
            forall|m: int| 0 <= m < pos ==> seq_lt(#[trigger] old_v[m], k@),
        decreases keys@.len() - pos,
    {
        pos = pos + 1;
    }
    if pos < keys.len() && same_chars(keys[pos].as_slice(), k) {
        assert(old_v.to_set().contains(k@)) by {
            assert(old_v[pos as int] == k@);
        }
        assert(old_v.to_set().insert(k@) =~= old_v.to_set());
        return;
    }
    let mut copy: Vec<char> = Vec::new();
    let mut i: usize = 0;
    while i < k.len()
        invariant
            i <= k@.len(),
            copy@ == k@.take(i as int),
        decreases k@.len() - i,
    {
        copy.push(k[i]);
        i = i + 1;
        assert(copy@ =~= k@.take(i as int));
    }
    assert(copy@ =~= k@);
    proof {
        if pos < old_v.len() {
            assert(!seq_lt(old_v[pos as int], k@));
            assert(old_v[pos as int] != k@);
            lemma_lt_total(old_v[pos as int], k@);
        }
    }
    keys.insert(pos, copy);
    let ghost nv = crate::text::views(keys@);
    assert(nv =~= old_v.insert(pos as int, k@));
    assert forall|a: int, b: int| 0 <= a < b < nv.len() implies seq_lt(
        #[trigger] nv[a],
        #[trigger] nv[b],
    ) by {
        if b < pos {
        } else if b == pos {
        } else if a < pos {
            assert(nv[b] == old_v[b - 1]);
            if b - 1 > pos {
                assert(seq_lt(old_v[pos as int], old_v[b - 1]));
                lemma_lt_transitive(k@, old_v[pos as int], old_v[b - 1]);
            }
            lemma_lt_transitive(nv[a], k@, nv[b]);
        } else if a == pos {
            assert(nv[b] == old_v[b - 1]);
            if b - 1 > pos {
                assert(seq_lt(old_v[pos as int], old_v[b - 1]));
                lemma_lt_transitive(k@, old_v[pos as int], old_v[b - 1]);
            }
        } else {
            assert(nv[a] == old_v[a - 1]);
            assert(nv[b] == old_v[b - 1]);
        }
    }
    assert forall|x: Seq<char>| nv.to_set().contains(x) <==> old_v.to_set().insert(k@).contains(
        x,
    ) by {
        if nv.to_set().contains(x) {
            let j = choose|j: int| 0 <= j < nv.len() && nv[j] == x;
            if j < pos {
                assert(old_v[j] == x);
            } else if j > pos {
                assert(old_v[j - 1] == x);
            }
        }
        if old_v.to_set().contains(x) {
            let j = choose|j: int| 0 <= j < old_v.len() && old_v[j] == x;
            if j < pos {
                assert(nv[j] == x);
            } else {
                assert(nv[j + 1] == x);
            }
        }
        if x == k@ {
            assert(nv[pos as int] == x);
        }
    }
    assert(nv.to_set() =~= old_v.to_set().insert(k@));
}

/// A strictly sorted sequence holding the elements of `ks` and `x`.
proof fn lemma_insert_exists(ks: Seq<Seq<char>>, x: Seq<char>) -> (r: Seq<Seq<char>>)
    requires
        sorted_strict(ks),
    ensures
        sorted_strict(r),
        r.to_set() == ks.to_set().insert(x),
    decreases ks.len(),
{
    if ks.len() == 0 {
        let r = seq![x];
        assert forall|y: Seq<char>| r.to_set().contains(y) <==> ks.to_set().insert(x).contains(y) by {
            if y == x {
                assert(r[0] == y);
            }
        }
        assert(r.to_set() =~= ks.to_set().insert(x));
        r
    } else {
        let f = ks[0];
        let rest = ks.drop_first();
        assert(ks =~= seq![f] + rest);
        if f == x {
            assert(ks.to_set().contains(x));
            assert(ks.to_set().insert(x) =~= ks.to_set());
            ks
        } else if seq_lt(x, f) {
            let r = seq![x] + ks;
            assert forall|a: int, b: int| 0 <= a < b < r.len() implies seq_lt(
                #[trigger] r[a],
                #[trigger] r[b],
            ) by {
                if a == 0 {
                    if b > 1 {
                        assert(seq_lt(ks[0], ks[b - 1]));
                        lemma_lt_transitive(x, f, ks[b - 1]);
                    }
                } else {
                    assert(r[a] == ks[a - 1]);
                    assert(r[b] == ks[b - 1]);
                }
            }
            assert forall|y: Seq<char>| r.to_set().contains(y) <==> ks.to_set().insert(x).contains(
                y,
            ) by {
                if r.to_set().contains(y) {
                    let j = choose|j: int| 0 <= j < r.len() && r[j] == y;
                    if j > 0 {
                        assert(ks[j - 1] == y);
                    }
                }
                if ks.to_set().contains(y) {
                    let j = choose|j: int| 0 <= j < ks.len() && ks[j] == y;
                    assert(r[j + 1] == y);
                }
                if y == x {
                    assert(r[0] == y);
                }
            }
            assert(r.to_set() =~= ks.to_set().insert(x));
            r
        } else {
            lemma_lt_total(f, x);
            assert(sorted_strict(rest)) by {
                assert forall|a: int, b: int| 0 <= a < b < rest.len() implies seq_lt(
                    #[trigger] rest[a],
                    #[trigger] rest[b],
                ) by {
                    assert(rest[a] == ks[a + 1]);
                    assert(rest[b] == ks[b + 1]);
                }
            }
            let r2 = lemma_insert_exists(rest, x);
            let r = seq![f] + r2;
            assert forall|b: int| 0 <= b < r2.len() implies seq_lt(f, #[trigger] r2[b]) by {
                assert(r2.to_set().contains(r2[b]));
                if r2[b] != x {
                    assert(rest.to_set().contains(r2[b]));
                    let j = choose|j: int| 0 <= j < rest.len() && rest[j] == r2[b];
                    assert(ks[j + 1] == r2[b]);
                }
            }
            assert forall|a: int, b: int| 0 <= a < b < r.len() implies seq_lt(
                #[trigger] r[a],
                #[trigger] r[b],
            ) by {
                assert(r[b] == r2[b - 1]);
                if a > 0 {
                    assert(r[a] == r2[a - 1]);
                }
            }
            assert forall|y: Seq<char>| r.to_set().contains(y) <==> ks.to_set().insert(x).contains(
                y,
            ) by {
                if r.to_set().contains(y) {
                    let j = choose|j: int| 0 <= j < r.len() && r[j] == y;
                    if j > 0 {
                        assert(r2[j - 1] == y);
                        assert(r2.to_set().contains(y));
                        if y != x {
                            assert(rest.to_set().contains(y));
                            let m = choose|m: int| 0 <= m < rest.len() && rest[m] == y;
                            assert(ks[m + 1] == y);
                        }
                    } else {
                        assert(ks[0] == y);
                    }
                }
                if ks.to_set().contains(y) {
                    let j = choose|j: int| 0 <= j < ks.len() && ks[j] == y;
                    if j == 0 {
                        assert(r[0] == y);
                    } else {
                        assert(rest[j - 1] == y);
                        assert(rest.to_set().contains(y));
                        assert(r2.to_set().contains(y));
                        let m = choose|m: int| 0 <= m < r2.len() && r2[m] == y;
                        assert(r[m + 1] == y);
                    }
                }
                if y == x {
                    assert(r2.to_set().contains(y));
                    let m = choose|m: int| 0 <= m < r2.len() && r2[m] == y;
                    assert(r[m + 1] == y);
                }
            }
            assert(r.to_set() =~= ks.to_set().insert(x));
            r
        }
    }
}

/// Every finite set of strings can be listed in strictly increasing order.
pub proof fn lemma_sorted_exists(s: Set<Seq<char>>)
    requires
        s.finite(),
    ensures
        exists|ks: Seq<Seq<char>>| sorted_strict(ks) && ks.to_set() == s,
    decreases s.len(),
{
    if s.len() == 0 {
        let e = Seq::<Seq<char>>::empty();
        assert(s =~= Set::empty());
        assert(e.to_set() =~= Set::empty());
        assert(sorted_strict(e) && e.to_set() == s);
    } else {
        let x = s.choose();
        lemma_sorted_exists(s.remove(x));
        let ks = choose|ks: Seq<Seq<char>>| sorted_strict(ks) && ks.to_set() == s.remove(x);
        let r = lemma_insert_exists(ks, x);
        assert(s.remove(x).insert(x) =~= s);
        assert(sorted_strict(r) && r.to_set() == s);
    }
}

} // verus!
