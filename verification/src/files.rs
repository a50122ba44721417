//! Where a file received from the phone is written: a name that cannot
//! leave the download directory, and a free path in it.

use vstd::prelude::*;
use crate::text::{chars_of, decimal, push_char, push_decimal, split_chars, split_on, string_of, views};

verus! {

/// The components of a path that name something: the pieces between
/// slashes, without empty pieces and without `.`.
pub open spec fn named_components(ps: Seq<Seq<char>>) -> Seq<Seq<char>>
    decreases ps.len(),
{
    if ps.len() == 0 {
        seq![]
    } else {
        let r = named_components(ps.drop_last());
        let c = ps.last();
        if c.len() == 0 || c == seq!['.'] {
            r
        } else {
            r.push(c)
        }
    }
}

/// `Path::file_name`: the last component of the path, or `None` when there
/// is none or it is `..`.
pub open spec fn file_name(s: Seq<char>) -> Option<Seq<char>> {
    let c = named_components(split_on(s, '/'));
    if c.len() == 0 || c.last() == seq!['.', '.'] {
        None
    } else {
        Some(c.last())
    }
}

/// `s` without NUL characters and slashes.
pub open spec fn without_nul_slash(s: Seq<char>) -> Seq<char> {
    s.filter(|c: char| c != '\0' && c != '/')
}

/// The name a received file is saved under: the last component of the name
/// the phone sent, without NUL characters or slashes; `file` when that
/// leaves nothing usable (empty, `.` or `..`).
pub open spec fn spec_sanitize(name: Seq<char>) -> Seq<char> {
    let base = match file_name(name) {
        Some(b) => b,
        None => seq![],
    };
    let cleaned = without_nul_slash(base);
    if cleaned.len() == 0 || cleaned == seq!['.'] || cleaned == seq!['.', '.'] {
        seq!['f', 'i', 'l', 'e']
    } else {
        cleaned
    }
}

/// Whether `v` is exactly `.` or `..`.
fn is_dot_or_dotdot(v: &[char]) -> (r: (bool, bool))
    ensures
        r.0 == (v@ == seq!['.']),
        r.1 == (v@ == seq!['.', '.']),
{
    let one = v.len() == 1 && v[0] == '.';
    let two = v.len() == 2 && v[0] == '.' && v[1] == '.';
    proof {
        if v@.len() == 1 && v@[0] == '.' {
            assert(v@ =~= seq!['.']);
        }
        if v@.len() == 2 && v@[0] == '.' && v@[1] == '.' {
            assert(v@ =~= seq!['.', '.']);
        }
    }
    (one, two)
}

/// The name a received file is saved under (see `spec_sanitize`): it never
/// leads out of the download directory.
pub fn sanitize_name(name: &str) -> (r: String)
    ensures
        r@ == spec_sanitize(name@),
{
    let v = chars_of(name);
    let parts = split_chars(v.as_slice(), '/');
    let ghost pv = views(parts@);
    let mut last: Option<usize> = None;
    let mut i: usize = 0;
    assert(pv.take(0) =~= Seq::<Seq<char>>::empty());
    while i < parts.len()
        invariant
            i <= parts@.len(),
            pv == views(parts@),
            match last {
                Some(k) => k < i && named_components(pv.take(i as int)).len() > 0
                    && named_components(pv.take(i as int)).last() == pv[k as int],
                None => named_components(pv.take(i as int)).len() == 0,
            },
        decreases parts@.len() - i,
    {
        assert(pv.take(i + 1).drop_last() =~= pv.take(i as int));
        assert(pv.take(i + 1).last() == pv[i as int]);
        let (dot, _) = is_dot_or_dotdot(parts[i].as_slice());
        if parts[i].len() > 0 && !dot {
            last = Some(i);
        }
        i = i + 1;
    }
    assert(pv.take(parts@.len() as int) =~= pv);
    let base: Vec<char> = match last {
        Some(k) => {
            let (_, dotdot) = is_dot_or_dotdot(parts[k].as_slice());
            if dotdot {
                Vec::new()
            } else {
                crate::text::copy_chars(parts[k].as_slice())
            }
        },
        None => Vec::new(),
    };
    let ghost b = match file_name(name@) {
        Some(b) => b,
        None => seq![],
    };
    assert(base@ =~= b);
    let mut cleaned: Vec<char> = Vec::new();
    let mut j: usize = 0;
    while j < base.len()
        invariant
            j <= base@.len(),
            cleaned@ == without_nul_slash(base@.take(j as int)),
        decreases base@.len() - j,
    {
        let c = base[j];
        proof {
            assert(base@.take(j + 1) =~= base@.take(j as int).push(c));
            base@.take(j as int).lemma_filter_push(c, |c: char| c != '\0' && c != '/');
        }
        if c != '\0' && c != '/' {
            cleaned.push(c);
        }
        j = j + 1;
    }
    assert(base@.take(base@.len() as int) =~= base@);
    let (dot, dotdot) = is_dot_or_dotdot(cleaned.as_slice());
    if cleaned.len() == 0 || dot || dotdot {
        let r = string_of(&['f', 'i', 'l', 'e']);
        r
    } else {
        string_of(cleaned.as_slice())
    }
}

/// `PathBuf::join` of a directory and a name without slashes.
pub open spec fn join_path(dir: Seq<char>, name: Seq<char>) -> Seq<char> {
    if dir.len() == 0 || dir.last() == '/' {
        dir + name
    } else {
        dir + seq!['/'] + name
    }
}

/// The position of the last `.` in `s`, if any.
pub open spec fn last_dot(s: Seq<char>) -> Option<int>
    decreases s.len(),
{
    if s.len() == 0 {
        None
    } else if s.last() == '.' {
        Some(s.len() - 1)
    } else {
        last_dot(s.drop_last())
    }
}

/// The `k`-th name tried for `name`: the name itself first, then
/// `stem (k)` followed by the extension (the text from the last dot on, if
/// the name has a dot).
pub open spec fn candidate(name: Seq<char>, k: nat) -> Seq<char> {
    if k == 0 {
        name
    } else {
        let (stem, ext) = match last_dot(name) {
            Some(d) => (name.take(d), name.skip(d)),
            None => (name, seq![]),
        };
        stem + seq![' ', '('] + decimal(k) + seq![')'] + ext
    }
}

/// Where the last `.` of `v` stands.
fn find_last_dot(v: &[char]) -> (r: Option<usize>)
    ensures
        match r {
            Some(d) => last_dot(v@) == Some(d as int) && d < v@.len(),
            None => last_dot(v@) is None,
        },
{
    let mut j: usize = v.len();
    assert(v@.take(j as int) =~= v@);
    while j > 0
        invariant
            j <= v@.len(),
            last_dot(v@) == last_dot(v@.take(j as int)),
        decreases j,
    {
        assert(v@.take(j as int).last() == v@[j - 1]);
        if v[j - 1] == '.' {
            return Some(j - 1);
        }
        assert(v@.take(j as int).drop_last() =~= v@.take(j - 1));
        j = j - 1;
    }
    None
}

/// The `k`-th name tried for `name` (see `candidate`).
pub fn candidate_name(name: &str, k: u32) -> (r: String)
    ensures
        r@ == candidate(name@, k as nat),
{
    let v = chars_of(name);
    if k == 0 {
        return string_of(v.as_slice());
    }
    let dot = find_last_dot(v.as_slice());
    let (stem, ext) = match dot {
        Some(d) => (crate::text::chars_of_range(v.as_slice(), 0, d), crate::text::chars_of_range(
            v.as_slice(),
            d,
            v.len(),
        )),
        None => (crate::text::copy_chars(v.as_slice()), Vec::new()),
    };
    let mut s = string_of(stem.as_slice());
    push_char(&mut s, ' ');
    push_char(&mut s, '(');
    assert(s@ =~= stem@ + seq![' ', '(']);
    push_decimal(&mut s, k as u64);
    push_char(&mut s, ')');
    assert(s@ =~= stem@ + seq![' ', '('] + decimal(k as nat) + seq![')']);
    let e = string_of(ext.as_slice());
    let r = append_str(s, &e);
    proof {
        match dot {
            Some(d) => {
                assert(stem@ =~= name@.take(d as int));
                assert(ext@ =~= name@.skip(d as int));
            },
            None => {
                assert(ext@ =~= Seq::<char>::empty());
            },
        }
    }
    assert(r@ =~= candidate(name@, k as nat));
    r
}

/// `s` followed by the characters of `t`.
fn append_str(s: String, t: &String) -> (r: String)
    ensures
        r@ == s@ + t@,
{
    let v = chars_of(t.as_str());
    let mut r = s;
    let ghost start = r@;
    let mut i: usize = 0;
    while i < v.len()
        invariant
            i <= v@.len(),
            v@ == t@,
            r@ == start + v@.take(i as int),
        decreases v@.len() - i,
    {
        push_char(&mut r, v[i]);
        i = i + 1;
        assert(r@ =~= start + v@.take(i as int));
    }
    assert(v@.take(v@.len() as int) =~= v@);
    r
}

/// `dir` joined with `name` (which holds no slash).
pub fn join(dir: &str, name: &str) -> (r: String)
    ensures
        r@ == join_path(dir@, name@),
{
    let d = chars_of(dir);
    let mut s = string_of(d.as_slice());
    if d.len() > 0 && d[d.len() - 1] != '/' {
        push_char(&mut s, '/');
    }
    let n = string_of(chars_of(name).as_slice());
    append_str(s, &n)
}

/// The first free candidate in `taken` (where `taken[k]` tells whether the
/// path of candidate `k` exists), or 0 when every one of them is taken.
pub open spec fn first_free(taken: Seq<bool>) -> nat {
    first_free_from(taken, 0)
}

/// The first `k` from `from` on with `taken[k]` false, or 0 when there is
/// none.
pub open spec fn first_free_from(taken: Seq<bool>, from: int) -> nat
    decreases taken.len() - from,
{
    if from < 0 || from >= taken.len() {
        0
    } else if !taken[from] {
        from as nat
    } else {
        first_free_from(taken, from + 1)
    }
}

/// The path to save the file the phone calls `name` under, given which
/// candidate paths exist: `taken[k]` tells whether candidate `k` (the
/// sanitized name itself for 0, `stem (k).ext` after it) exists in `dir`.
/// The first free candidate is chosen, and the plain name when all of
/// them are taken: no existing file is overwritten while a candidate is
/// free.
pub fn pick_dest(dir: &str, name: &str, taken: &[bool]) -> (r: String)
    requires
        taken@.len() <= 10000,
    ensures
        r@ == join_path(dir@, candidate(spec_sanitize(name@), first_free(taken@))),
{
    let n = sanitize_name(name);
    let mut k: usize = 0;
    while k < taken.len()
        invariant
            k <= taken@.len() <= 10000,
            n@ == spec_sanitize(name@),
            first_free(taken@) == first_free_from(taken@, k as int),
        decreases taken@.len() - k,
    {
        if !taken[k] {
            assert(first_free_from(taken@, k as int) == k);
            let kk = k as u32;
            assert(kk == k);
            let c = candidate_name(n.as_str(), kk);
            return join(dir, c.as_str());
        }
        assert(first_free_from(taken@, k as int) == first_free_from(taken@, k + 1));
        k = k + 1;
    }
    assert(first_free_from(taken@, k as int) == 0);
    let c = candidate_name(n.as_str(), 0);
    join(dir, c.as_str())
}

/// `Path::exists` on `path`. What is on disk changes under the program's
/// feet, so nothing is stated of the answer.
#[verifier::external_body]
fn path_exists(path: &str) -> bool {
    std::path::Path::new(path).exists()
}

/// A path in `dir` to save the file the phone calls `name` under: the
/// sanitized name itself when nothing exists there, else the first
/// `stem (k).ext` (k from 1 to 9999) that is free, and the plain name again
/// when all of them are taken. The disk is asked about the candidates in
/// turn, up to the first free one, and `pick_dest` chooses on its answers.
pub fn unique_dest(dir: &str, name: &str) -> (r: String)
    ensures
        exists|taken: Seq<bool>|
            taken.len() <= 10000 && r@ == join_path(dir@, candidate(spec_sanitize(name@), first_free(taken))),
        (exists|taken: Seq<bool>|
            #![trigger first_free(taken)]
            taken.len() <= 10000 && (forall|i: int| 0 <= i < taken.len() - 1 ==> #[trigger] taken[i]) && (
            taken.len() == 10000 || (taken.len() > 0 && !taken[taken.len() - 1])) && r@ == join_path(
                dir@,
                candidate(spec_sanitize(name@), first_free(taken)),
            )),
{
    let n = sanitize_name(name);
    let mut taken: Vec<bool> = Vec::new();
    let mut k: u32 = 0;
    let mut free = false;
    while k < 10000 && !free
        invariant
            k <= 10000,
            taken@.len() == k,
            free == (k > 0 && !taken@[k - 1]),
            forall|i: int| 0 <= i < k - 1 ==> #[trigger] taken@[i],
        decreases 10000 - k,
    {
        let c = candidate_name(n.as_str(), k);
        let p = join(dir, c.as_str());
        let exists = path_exists(p.as_str());
        proof {
            if k > 0 {
                assert(taken@[k - 1]);
            }
        }
        taken.push(exists);
        free = !exists;
        k = k + 1;
    }
    let r = pick_dest(dir, name, taken.as_slice());
    assert(taken@.len() == 10000 || (taken@.len() > 0 && !taken@[taken@.len() - 1]));
    r
}

/// The first free candidate from `from` on is `j` when every candidate from
/// `from` up to `j` is taken and `j` is not; it is 0 when every candidate
/// from `from` on is taken.
proof fn lemma_first_free_from(taken: Seq<bool>, from: int, j: int)
    requires
        0 <= from,
    ensures
        from <= j < taken.len() && !taken[j] && (forall|i: int| from <= i < j ==> taken[i])
            ==> first_free_from(taken, from) == j,
        (forall|i: int| from <= i < taken.len() ==> taken[i]) ==> first_free_from(taken, from) == 0,
    decreases taken.len() - from,
{
    if from < taken.len() {
        lemma_first_free_from(taken, from + 1, j);
    }
}

/// The name chosen is the first free one. When the disk answered that the
/// candidates before `j` all exist and candidate `j` does not, candidate `j`
/// is chosen, so no existing file is overwritten while a candidate is free;
/// only when every candidate asked about exists is the plain name used.
pub proof fn lemma_first_free(taken: Seq<bool>, j: int)
    ensures
        0 <= j < taken.len() && !taken[j] && (forall|i: int| 0 <= i < j ==> taken[i]) ==> first_free(taken)
            == j,
        (forall|i: int| 0 <= i < taken.len() ==> taken[i]) ==> first_free(taken) == 0,
        first_free(taken) == 0 || (first_free(taken) < taken.len() && !taken[first_free(taken) as int]),
{
    lemma_first_free_from(taken, 0, j);
    lemma_first_free_hit(taken, 0);
}

/// What `first_free_from` finds, when it is not 0, is a free candidate.
proof fn lemma_first_free_hit(taken: Seq<bool>, from: int)
    requires
        0 <= from,
    ensures
        first_free_from(taken, from) == 0 || (from <= first_free_from(taken, from) < taken.len()
            && !taken[first_free_from(taken, from) as int]),
    decreases taken.len() - from,
{
    if from < taken.len() && taken[from] {
        lemma_first_free_hit(taken, from + 1);
    }
}

} // verus!

verus! {

/// The files offered to the phones, by the id the phone asks for them
/// with.
pub struct PendingFiles {
    entries: Vec<(String, String)>,
}

/// The map the entries describe: a later entry for an id replaces an
/// earlier one.
pub open spec fn as_map(s: Seq<(Seq<char>, Seq<char>)>) -> Map<Seq<char>, Seq<char>>
    decreases s.len(),
{
    if s.len() == 0 {
        Map::empty()
    } else {
        as_map(s.drop_last()).insert(s.last().0, s.last().1)
    }
}

/// The entries without those for `id`.
pub open spec fn drop_id(s: Seq<(Seq<char>, Seq<char>)>, id: Seq<char>) -> Seq<(Seq<char>, Seq<char>)>
    decreases s.len(),
{
    if s.len() == 0 {
        s
    } else if s.last().0 == id {
        drop_id(s.drop_last(), id)
    } else {
        drop_id(s.drop_last(), id).push(s.last())
    }
}

proof fn lemma_drop_id(s: Seq<(Seq<char>, Seq<char>)>, id: Seq<char>)
    ensures
        as_map(drop_id(s, id)) == as_map(s).remove(id),
    decreases s.len(),
{
    if s.len() == 0 {
        assert(as_map(s).remove(id) =~= Map::empty());
    } else {
        lemma_drop_id(s.drop_last(), id);
        if s.last().0 == id {
            assert(as_map(s).remove(id) =~= as_map(s.drop_last()).remove(id));
        } else {
            let r = drop_id(s.drop_last(), id);
            assert(r.push(s.last()).drop_last() =~= r);
            assert(as_map(s).remove(id) =~= as_map(s.drop_last()).remove(id).insert(s.last().0, s.last().1));
        }
    }
}

/// The plain values of the entries.
pub open spec fn pending_view(v: Seq<(String, String)>) -> Seq<(Seq<char>, Seq<char>)> {
    v.map_values(|e: (String, String)| (e.0@, e.1@))
}

/// The name a file is offered under: its last path component, or `file`.
pub open spec fn offered_name(path: Seq<char>) -> Seq<char> {
    match file_name(path) {
        Some(n) => n,
        None => seq!['f', 'i', 'l', 'e'],
    }
}

impl View for PendingFiles {
    type V = Map<Seq<char>, Seq<char>>;

    /// The path offered under each id.
    closed spec fn view(&self) -> Map<Seq<char>, Seq<char>> {
        as_map(pending_view(self.entries@))
    }
}

impl PendingFiles {
    /// Nothing offered.
    pub fn new() -> (p: Self)
        ensures
            p@ == Map::<Seq<char>, Seq<char>>::empty(),
    {
        PendingFiles { entries: Vec::new() }
    }

    /// Offers the file at `path`: a fresh id (8 random bytes in lowercase
    /// hexadecimal) now stands for it; returns the id and the name the
    /// phone is shown.
    pub fn offer(&mut self, path: &str) -> (r: (String, String))
        ensures
            r.0@.len() == 16,
            exists|b: Seq<u8>| b.len() == 8 && r.0@ == crate::identity::hex_of(b),
            r.1@ == offered_name(path@),
            final(self)@ == old(self)@.insert(r.0@, path@),
    {
        let b = crate::pairing::random_bytes(8);
        let id = crate::identity::hex_encode(b.as_slice());
        proof {
            crate::identity::lemma_hex_len(b@);
        }
        let name = name_of(path);
        let ghost before = pending_view(self.entries@);
        let e = (string_of(chars_of(id.as_str()).as_slice()), string_of(chars_of(path).as_slice()));
        self.entries.push(e);
        assert(pending_view(self.entries@) =~= before.push((id@, path@)));
        assert(pending_view(self.entries@).drop_last() =~= before);
        (id, name)
    }

    /// Takes back the file offered under `id`: its path, which is no
    /// longer offered.
    pub fn take(&mut self, id: &str) -> (r: Option<String>)
        ensures
            match r {
                Some(p) => old(self)@.contains_key(id@) && p@ == old(self)@[id@],
                None => !old(self)@.contains_key(id@),
            },
            final(self)@ == old(self)@.remove(id@),
    {
        let ghost sv = pending_view(self.entries@);
        let key = chars_of(id);
        let mut found: Option<String> = None;
        let mut kept: Vec<(String, String)> = Vec::new();
        let mut i: usize = 0;
        assert(sv.take(0) =~= Seq::<(Seq<char>, Seq<char>)>::empty());
        while i < self.entries.len()
            invariant
                i <= self.entries@.len(),
                key@ == id@,
                sv == pending_view(self.entries@),
                pending_view(kept@) == drop_id(sv.take(i as int), id@),
                match found {
                    Some(p) => as_map(sv.take(i as int)).contains_key(id@) && p@ == as_map(sv.take(i as int))[id@],
                    None => !as_map(sv.take(i as int)).contains_key(id@),
                },
            decreases self.entries@.len() - i,
        {
            assert(sv.take(i + 1).drop_last() =~= sv.take(i as int));
            assert(sv.take(i + 1).last() == sv[i as int]);
            let k = chars_of(self.entries[i].0.as_str());
            if crate::order::same_chars(k.as_slice(), key.as_slice()) {
                found = Some(string_of(chars_of(self.entries[i].1.as_str()).as_slice()));
            } else {
                let e = (
                    string_of(k.as_slice()),
                    string_of(chars_of(self.entries[i].1.as_str()).as_slice()),
                );
                let ghost before = pending_view(kept@);
                kept.push(e);
                assert(pending_view(kept@) =~= before.push(sv[i as int]));
            }
            i = i + 1;
        }
        assert(sv.take(sv.len() as int) =~= sv);
        proof {
            lemma_drop_id(sv, id@);
        }
        self.entries = kept;
        found
    }
}

/// The name a file is offered under (see `offered_name`).
fn name_of(path: &str) -> (n: String)
    ensures
        n@ == offered_name(path@),
{
    let v = chars_of(path);
    let parts = split_chars(v.as_slice(), '/');
    let ghost pv = views(parts@);
    let mut last: Option<usize> = None;
    let mut i: usize = 0;
    assert(pv.take(0) =~= Seq::<Seq<char>>::empty());
    while i < parts.len()
        invariant
            i <= parts@.len(),
            pv == views(parts@),
            match last {
                Some(k) => k < i && named_components(pv.take(i as int)).len() > 0
                    && named_components(pv.take(i as int)).last() == pv[k as int],
                None => named_components(pv.take(i as int)).len() == 0,
            },
        decreases parts@.len() - i,
    {
        assert(pv.take(i + 1).drop_last() =~= pv.take(i as int));
        assert(pv.take(i + 1).last() == pv[i as int]);
        let (dot, _) = is_dot_or_dotdot(parts[i].as_slice());
        if parts[i].len() > 0 && !dot {
            last = Some(i);
        }
        i = i + 1;
    }
    assert(pv.take(parts@.len() as int) =~= pv);
    match last {
        Some(k) => {
            let (_, dotdot) = is_dot_or_dotdot(parts[k].as_slice());
            if dotdot {
                string_of(&['f', 'i', 'l', 'e'])
            } else {
                string_of(parts[k].as_slice())
            }
        },
        None => string_of(&['f', 'i', 'l', 'e']),
    }
}

} // verus!

verus! {

/// A received file never lands outside the download directory: the name
/// it is saved under holds no slash and no NUL, and is neither empty nor
/// `.` nor `..`.
pub proof fn lemma_sanitized_name_is_plain(name: Seq<char>)
    ensures
        spec_sanitize(name).len() > 0,
        !spec_sanitize(name).contains('/'),
        !spec_sanitize(name).contains('\0'),
        spec_sanitize(name) != seq!['.'],
        spec_sanitize(name) != seq!['.', '.'],
{
    let base = match file_name(name) {
        Some(b) => b,
        None => seq![],
    };
    let cleaned = without_nul_slash(base);
    let f = |c: char| c != '\0' && c != '/';
    assert forall|i: int| 0 <= i < cleaned.len() implies f(#[trigger] cleaned[i]) by {
        base.filter_lemma(f);
    }
    let file = seq!['f', 'i', 'l', 'e'];
    if cleaned.len() == 0 || cleaned == seq!['.'] || cleaned == seq!['.', '.'] {
        assert(spec_sanitize(name) == file);
        assert(!file.contains('/')) by {
            assert forall|i: int| 0 <= i < file.len() implies file[i] != '/' by {}
        }
        assert(!file.contains('\0')) by {
            assert forall|i: int| 0 <= i < file.len() implies file[i] != '\0' by {}
        }
        assert(file != seq!['.']) by {
            assert(file.len() != 1);
        }
        assert(file != seq!['.', '.']) by {
            assert(file.len() != 2);
        }
    } else {
        assert(spec_sanitize(name) == cleaned);
    }
}

} // verus!

verus! {

/// The most bytes of a file read or written in one go.
pub const CHUNK_LEN: u64 = 65536;

/// How many bytes to ask the stream for when `remaining` are still due.
pub fn chunk_len(remaining: u64) -> (n: usize)
    ensures
        n == if remaining < CHUNK_LEN {
            remaining
        } else {
            CHUNK_LEN
        },
{
    if remaining < CHUNK_LEN {
        remaining as usize
    } else {
        65536usize
    }
}

/// After a read of `got` bytes with `remaining` due: how many are still
/// due, or, when the stream ended (`got` is 0) before all came, how many
/// are missing.
pub fn after_read(remaining: u64, got: usize) -> (r: Result<u64, u64>)
    requires
        remaining > 0,
        got <= remaining,
    ensures
        got == 0 ==> r == Err::<u64, u64>(remaining),
        got > 0 ==> r == Ok::<u64, u64>((remaining - got) as u64),
{
    if got == 0 {
        Err(remaining)
    } else {
        Ok(remaining - got as u64)
    }
}

} // verus!
