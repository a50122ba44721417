//! H.264 Annex B framing for the second screen: cutting the encoder's byte
//! stream into NAL units at their start codes, and gluing NAL units into
//! access units (one picture each, with its parameter sets in front).

use vstd::prelude::*;

verus! {

/// A three-byte start code `00 00 01` begins at `i`.
pub open spec fn sc_at(s: Seq<u8>, i: int) -> bool {
    0 <= i && i + 3 <= s.len() && s[i] == 0 && s[i + 1] == 0 && s[i + 2] == 1
}

/// The first position at or after `from` where a three-byte start code
/// begins.
pub open spec fn first_sc(s: Seq<u8>, from: int) -> Option<int>
    decreases s.len() - from,
{
    if from < 0 || from + 3 > s.len() {
        None
    } else if sc_at(s, from) {
        Some(from)
    } else {
        first_sc(s, from + 1)
    }
}

/// Where the first start code at or after `from` begins, counting the zero
/// byte in front of it when it is a four-byte start code `00 00 00 01` that
/// does not reach back before `from`.
pub open spec fn start_code(s: Seq<u8>, from: int) -> Option<int> {
    match first_sc(s, from) {
        Some(i) => Some(if i > from && s[i - 1] == 0 { i - 1 } else { i }),
        None => None,
    }
}

/// What `first_sc` finds is a start code, at or after `from`, with none
/// before it.
pub proof fn lemma_first_sc(s: Seq<u8>, from: int)
    requires
        0 <= from,
    ensures
        first_sc(s, from) matches Some(i) ==> from <= i && sc_at(s, i) && forall|m: int|
            from <= m < i ==> !sc_at(s, m),
        first_sc(s, from) is None ==> forall|m: int| from <= m ==> !sc_at(s, m),
    decreases s.len() - from,
{
    if from >= 0 && from + 3 <= s.len() && !sc_at(s, from) {
        lemma_first_sc(s, from + 1);
        assert forall|m: int| from <= m && first_sc(s, from) is None implies !sc_at(s, m) by {
            if m == from {
            }
        }
    }
}

/// What `start_code` finds lies at or after `from`, before the end.
pub proof fn lemma_start_code_range(s: Seq<u8>, from: int)
    requires
        0 <= from,
    ensures
        start_code(s, from) matches Some(j) ==> from <= j && j + 3 <= s.len(),
{
    lemma_first_sc(s, from);
}

/// The stream `s` cut at its start codes: the complete NAL units (each
/// running from one start code to the next) and the bytes still waiting for
/// the start code that will end them.
pub open spec fn split_all(s: Seq<u8>) -> (Seq<Seq<u8>>, Seq<u8>)
    decreases s.len(),
{
    match start_code(s, 0) {
        None => (seq![], s),
        Some(f) => match start_code(s, f + 3) {
            None => (seq![], s),
            Some(g) => {
                proof {
                    lemma_start_code_range(s, 0);
                    lemma_start_code_range(s, f + 3);
                }
                let r = split_all(s.skip(g));
                (seq![s.subrange(f, g)] + r.0, r.1)
            },
        },
    }
}

/// Appending bytes does not move a start code that was already found.
proof fn lemma_first_sc_extend(s: Seq<u8>, more: Seq<u8>, from: int)
    ensures
        first_sc(s, from) matches Some(i) ==> first_sc(s + more, from) == Some(i),
    decreases s.len() - from,
{
    if from >= 0 && from + 3 <= s.len() {
        assert(sc_at(s, from) == sc_at(s + more, from));
        if !sc_at(s, from) {
            lemma_first_sc_extend(s, more, from + 1);
        }
    }
}

/// Appending bytes does not move a start code that was already found.
proof fn lemma_start_code_extend(s: Seq<u8>, more: Seq<u8>, from: int)
    requires
        0 <= from,
    ensures
        start_code(s, from) matches Some(j) ==> start_code(s + more, from) == Some(j),
{
    lemma_first_sc_extend(s, more, from);
    lemma_first_sc(s, from);
    if first_sc(s, from) is Some {
        let i = first_sc(s, from).unwrap();
        if i > from {
            assert((s + more)[i - 1] == s[i - 1]);
        }
    }
}

/// Cutting does not depend on how the stream arrives: cutting `s` and then
/// the leftover bytes followed by `more` gives the NAL units of `s + more`,
/// in order, with the same leftover.
pub proof fn lemma_split_chunking(s: Seq<u8>, more: Seq<u8>)
    ensures
        split_all(s + more) == (
            split_all(s).0 + split_all(split_all(s).1 + more).0,
            split_all(split_all(s).1 + more).1,
        ),
    decreases s.len(),
{
    lemma_start_code_range(s, 0);
    match start_code(s, 0) {
        None => {
            assert(split_all(s).0 =~= Seq::<Seq<u8>>::empty());
            assert(split_all(s).0 + split_all(s + more).0 =~= split_all(s + more).0);
        },
        Some(f) => {
            lemma_start_code_range(s, f + 3);
            match start_code(s, f + 3) {
                None => {
                    assert(split_all(s).0 + split_all(s + more).0 =~= split_all(s + more).0);
                },
                Some(g) => {
                    lemma_start_code_extend(s, more, 0);
                    lemma_start_code_extend(s, more, f + 3);
                    assert((s + more).skip(g) =~= s.skip(g) + more);
                    assert((s + more).subrange(f, g) =~= s.subrange(f, g));
                    lemma_split_chunking(s.skip(g), more);
                    let r = split_all(s.skip(g));
                    assert(split_all(s).0 == seq![s.subrange(f, g)] + r.0);
                    assert(seq![s.subrange(f, g)] + (r.0 + split_all(r.1 + more).0) =~= (seq![
                        s.subrange(f, g),
                    ] + r.0) + split_all(r.1 + more).0);
                },
            }
        },
    }
}

/// The position `find_start_code` reports: see `start_code`.
pub fn find_start_code(buf: &[u8], from: usize) -> (r: Option<usize>)
    ensures
        r == (match start_code(buf@, from as int) {
            Some(j) => Some(j as usize),
            None => None::<usize>,
        }),
{
    let mut i: usize = from;
    while i <= buf.len() && buf.len() - i >= 3
        invariant
            from <= i,
            first_sc(buf@, from as int) == first_sc(buf@, i as int),
        decreases buf@.len() - i,
    {
        if buf[i] == 0 && buf[i + 1] == 0 && buf[i + 2] == 1 {
            proof {
                lemma_first_sc(buf@, from as int);
            }
            if i > from && buf[i - 1] == 0 {
                return Some(i - 1);
            } else {
                return Some(i);
            }
        }
        i = i + 1;
    }
    None
}

/// Where the NAL unit type byte of a unit that begins with a start code
/// stands: after a three-byte start code, or after a four-byte one.
pub open spec fn header_offset(nal: Seq<u8>) -> int {
    if nal.len() > 3 && nal[2] == 1 {
        3
    } else {
        4
    }
}

/// The NAL unit type: the low five bits of the header byte, 0 when the
/// unit is too short to have one.
pub open spec fn spec_nal_type(nal: Seq<u8>) -> u8 {
    let o = header_offset(nal);
    if o < nal.len() {
        (nal[o] % 32) as u8
    } else {
        0
    }
}

/// The NAL unit type of `nal` (see `spec_nal_type`).
pub fn nal_type(nal: &[u8]) -> (t: u8)
    ensures
        t == spec_nal_type(nal@),
{
    let offset: usize = if nal.len() > 3 && nal[2] == 1 {
        3
    } else {
        4
    };
    if offset < nal.len() {
        let b = nal[offset];
        assert(b & 0x1F == b % 32) by (bit_vector);
        b & 0x1F
    } else {
        0
    }
}

/// Types 1 to 5 carry picture data (VCL NAL units).
pub open spec fn spec_is_vcl(t: u8) -> bool {
    1 <= t <= 5
}

/// Whether NAL unit type `t` carries picture data.
pub fn is_vcl(t: u8) -> (b: bool)
    ensures
        b == spec_is_vcl(t),
{
    1 <= t && t <= 5
}

/// A slice starts a new picture when the first bit after its header byte
/// (`first_mb_in_slice == 0`) is set; a unit too short to tell counts as a
/// new picture.
pub open spec fn spec_starts_new_picture(nal: Seq<u8>) -> bool {
    let o = header_offset(nal);
    if o + 1 < nal.len() {
        nal[o + 1] >= 128
    } else {
        true
    }
}

/// Whether the slice in `nal` starts a new picture.
pub fn starts_new_picture(nal: &[u8]) -> (b: bool)
    ensures
        b == spec_starts_new_picture(nal@),
{
    let offset: usize = if nal.len() > 3 && nal[2] == 1 {
        3
    } else {
        4
    };
    if offset + 1 < nal.len() {
        let b = nal[offset + 1];
        assert((b & 0x80 != 0) == (b >= 128)) by (bit_vector);
        b & 0x80 != 0
    } else {
        true
    }
}

/// Appends the bytes of `data` to `v`.
fn extend_bytes(v: &mut Vec<u8>, data: &[u8])
    ensures
        final(v)@ == old(v)@ + data@,
{
    let ghost start = v@;
    let mut i: usize = 0;
    while i < data.len()
        invariant
            i <= data@.len(),
            v@ == start + data@.take(i as int),
        decreases data@.len() - i,
    {
        v.push(data[i]);
        i = i + 1;
        assert(v@ =~= start + data@.take(i as int));
    }
    assert(data@.take(data@.len() as int) =~= data@);
}

/// Cuts a byte stream into NAL units as it arrives.
pub struct AnnexBSplitter {
    buf: Vec<u8>,
}

impl View for AnnexBSplitter {
    type V = Seq<u8>;

    /// The bytes received and not yet handed out.
    closed spec fn view(&self) -> Seq<u8> {
        self.buf@
    }
}

impl AnnexBSplitter {
    /// A splitter that has received nothing.
    pub fn new() -> (s: Self)
        ensures
            s@ == Seq::<u8>::empty(),
    {
        AnnexBSplitter { buf: Vec::new() }
    }

    /// Takes in `data` and hands out every NAL unit whose end is now known,
    /// in stream order; the bytes after the last start code wait for the
    /// next call.
    pub fn push(&mut self, data: &[u8]) -> (out: Vec<Vec<u8>>)
        ensures
            out@.map_values(|n: Vec<u8>| n@) == split_all(old(self)@ + data@).0,
            final(self)@ == split_all(old(self)@ + data@).1,
    {
        extend_bytes(&mut self.buf, data);
        let ghost all = self.buf@;
        let mut out: Vec<Vec<u8>> = Vec::new();
        loop
            invariant
                split_all(all) == (
                    out@.map_values(|n: Vec<u8>| n@) + split_all(self.buf@).0,
                    split_all(self.buf@).1,
                ),
            ensures
                split_all(all) == (out@.map_values(|n: Vec<u8>| n@), self.buf@),
            decreases self.buf@.len(),
        {
            let ghost b = self.buf@;
            let first = match find_start_code(self.buf.as_slice(), 0) {
                Some(f) => f,
                None => {
                    assert(out@.map_values(|n: Vec<u8>| n@) + split_all(b).0 =~= out@.map_values(
                        |n: Vec<u8>| n@,
                    ));
                    break ;
                },
            };
            proof {
                lemma_start_code_range(b, 0);
            }
            let len = self.buf.len();
            assert(first + 3 <= len);
            let second = match find_start_code(self.buf.as_slice(), first + 3) {
                Some(g) => g,
                None => {
                    assert(out@.map_values(|n: Vec<u8>| n@) + split_all(b).0 =~= out@.map_values(
                        |n: Vec<u8>| n@,
                    ));
                    break ;
                },
            };
            proof {
                lemma_start_code_range(b, first + 3);
            }
            let rest = self.buf.split_off(second);
            let nal = self.buf.split_off(first);
            self.buf = rest;
            let ghost before = out@.map_values(|n: Vec<u8>| n@);
            out.push(nal);
            proof {
                assert(self.buf@ == b.skip(second as int));
                assert(nal@ == b.subrange(first as int, second as int));
                assert(out@.map_values(|n: Vec<u8>| n@) =~= before.push(nal@));
                let r = split_all(b.skip(second as int));
                assert(split_all(b).0 == seq![nal@] + r.0);
                assert(before + (seq![nal@] + r.0) =~= before.push(nal@) + r.0);
            }
        }
        out
    }

    /// At the end of the stream (or when it falls idle): hands out the unit
    /// that begins at the first start code still held, when more than its
    /// start code and one header byte arrived, and empties the splitter;
    /// otherwise hands out nothing and keeps its bytes.
    pub fn finish(&mut self) -> (tail: Option<Vec<u8>>)
        ensures
            match start_code(old(self)@, 0) {
                Some(f) => if old(self)@.len() > f + 4 {
                    (tail matches Some(t) && t@ == old(self)@.skip(f) && final(self)@
                        == Seq::<u8>::empty())
                } else {
                    tail is None && final(self)@ == old(self)@
                },
                None => tail is None && final(self)@ == old(self)@,
            },
    {
        let first = match find_start_code(self.buf.as_slice(), 0) {
            Some(f) => f,
            None => {
                return None;
            },
        };
        proof {
            lemma_start_code_range(self.buf@, 0);
        }
        if self.buf.len() - first > 4 {
            let tail = self.buf.split_off(first);
            self.buf.clear();
            Some(tail)
        } else {
            None
        }
    }
}

/// Groups NAL units into access units.
pub struct AuAssembler {
    pending: Vec<u8>,
    has_vcl: bool,
}

impl View for AuAssembler {
    type V = (Seq<u8>, bool);

    /// The bytes of the access unit being gathered, and whether it holds
    /// picture data yet.
    closed spec fn view(&self) -> (Seq<u8>, bool) {
        (self.pending@, self.has_vcl)
    }
}

/// Whether `nal` closes the access unit gathered so far: it does when that
/// unit holds picture data and `nal` is either the first slice of a new
/// picture or an SEI, sequence or picture parameter set or access unit
/// delimiter (types 6 to 9).
pub open spec fn closes_unit(has_vcl: bool, nal: Seq<u8>) -> bool {
    let t = spec_nal_type(nal);
    has_vcl && ((spec_is_vcl(t) && spec_starts_new_picture(nal)) || (6 <= t <= 9))
}

/// One step of the assembler: what it hands out for `nal`, and its next
/// state.
pub open spec fn au_step(st: (Seq<u8>, bool), nal: Seq<u8>) -> (Option<Seq<u8>>, (Seq<u8>, bool)) {
    let t = spec_nal_type(nal);
    if closes_unit(st.1, nal) {
        (Some(st.0), (nal, spec_is_vcl(t)))
    } else {
        (None, (st.0 + nal, st.1 || spec_is_vcl(t)))
    }
}

impl AuAssembler {
    /// An assembler holding nothing.
    pub fn new() -> (a: Self)
        ensures
            a@ == (Seq::<u8>::empty(), false),
    {
        AuAssembler { pending: Vec::new(), has_vcl: false }
    }

    /// Takes in one NAL unit; hands out the access unit it closes, if any
    /// (see `au_step`).
    pub fn push(&mut self, nal: Vec<u8>) -> (out: Option<Vec<u8>>)
        ensures
            (match out {
                Some(v) => Some(v@),
                None => None,
            }, final(self)@) == au_step(old(self)@, nal@),
    {
        let t = nal_type(nal.as_slice());
        let flush = self.has_vcl && ((is_vcl(t) && starts_new_picture(nal.as_slice())) || (6 <= t
            && t <= 9));
        let out = if flush {
            self.has_vcl = false;
            let mut unit: Vec<u8> = Vec::new();
            std::mem::swap(&mut unit, &mut self.pending);
            Some(unit)
        } else {
            None
        };
        self.has_vcl = self.has_vcl || is_vcl(t);
        extend_bytes(&mut self.pending, nal.as_slice());
        proof {
            if flush {
                assert(self.pending@ =~= nal@);
            }
        }
        out
    }

    /// At the end of the stream: hands out the access unit gathered so far
    /// when it holds picture data, and starts afresh; otherwise does
    /// nothing.
    pub fn finish(&mut self) -> (out: Option<Vec<u8>>)
        ensures
            old(self)@.1 ==> (out matches Some(v) && v@ == old(self)@.0 && final(self)@ == (
                Seq::<u8>::empty(),
                false,
            )),
            !old(self)@.1 ==> out is None && final(self)@ == old(self)@,
    {
        if self.has_vcl {
            self.has_vcl = false;
            let mut unit: Vec<u8> = Vec::new();
            std::mem::swap(&mut unit, &mut self.pending);
            Some(unit)
        } else {
            None
        }
    }
}

/// The bytes of a sequence of units, one after the other.
pub open spec fn concat(units: Seq<Seq<u8>>) -> Seq<u8>
    decreases units.len(),
{
    if units.len() == 0 {
        seq![]
    } else {
        concat(units.drop_last()) + units.last()
    }
}

/// Runs the assembler over `nals` from state `st`: the access units handed
/// out, in order, and the final state.
pub open spec fn assemble(st: (Seq<u8>, bool), nals: Seq<Seq<u8>>) -> (Seq<Seq<u8>>, (Seq<u8>, bool))
    decreases nals.len(),
{
    if nals.len() == 0 {
        (seq![], st)
    } else {
        let r = assemble(st, nals.drop_last());
        let s = au_step(r.1, nals.last());
        match s.0 {
            Some(u) => (r.0.push(u), s.1),
            None => (r.0, s.1),
        }
    }
}

/// The assembler neither loses nor repeats a byte: the access units it
/// hands out, followed by what it still holds, are exactly what it held at
/// the start followed by every NAL unit it was given, in order.
pub proof fn lemma_assemble_keeps_bytes(st: (Seq<u8>, bool), nals: Seq<Seq<u8>>)
    ensures
        concat(assemble(st, nals).0) + assemble(st, nals).1.0 == st.0 + concat(nals),
    decreases nals.len(),
{
    if nals.len() == 0 {
        assert(concat(assemble(st, nals).0) =~= Seq::<u8>::empty());
        assert(concat(nals) =~= Seq::<u8>::empty());
        assert(st.0 + Seq::<u8>::empty() =~= st.0);
        assert(Seq::<u8>::empty() + st.0 =~= st.0);
    } else {
        lemma_assemble_keeps_bytes(st, nals.drop_last());
        let r = assemble(st, nals.drop_last());
        let n = nals.last();
        let s = au_step(r.1, n);
        assert(concat(nals) == concat(nals.drop_last()) + n);
        match s.0 {
            Some(u) => {
                assert(r.0.push(u).drop_last() =~= r.0);
                assert(concat(r.0.push(u)) == concat(r.0) + u);
                assert(concat(r.0) + u + n =~= concat(r.0) + r.1.0 + n);
                assert(st.0 + (concat(nals.drop_last()) + n) =~= st.0 + concat(nals.drop_last())
                    + n);
            },
            None => {
                assert(concat(r.0) + (r.1.0 + n) =~= concat(r.0) + r.1.0 + n);
                assert(st.0 + (concat(nals.drop_last()) + n) =~= st.0 + concat(nals.drop_last())
                    + n);
            },
        }
    }
}

/// Every access unit the assembler hands out holds picture data: it only
/// closes a unit that does.
pub proof fn lemma_units_hold_pictures(st: (Seq<u8>, bool), nal: Seq<u8>)
    ensures
        au_step(st, nal).0 is Some ==> st.1,
        au_step(st, nal).1.1 == (spec_is_vcl(spec_nal_type(nal)) || (st.1 && !closes_unit(
            st.1,
            nal,
        ))),
{
}


/// What a fresh splitter hands out when the stream arrives in the chunks
/// `chunks`, one `push` each: the NAL units of every push, in order, and
/// the bytes it then holds.
pub open spec fn split_chunks(chunks: Seq<Seq<u8>>) -> (Seq<Seq<u8>>, Seq<u8>)
    decreases chunks.len(),
{
    if chunks.len() == 0 {
        (seq![], seq![])
    } else {
        let r = split_chunks(chunks.drop_last());
        let s = split_all(r.1 + chunks.last());
        (r.0 + s.0, s.1)
    }
}

/// However the stream is cut into chunks, a fresh splitter hands out the
/// same NAL units in the same order, and is left holding the same bytes
/// (so `finish` hands out the same last unit), as if the whole stream had
/// come in one piece.
pub proof fn lemma_split_any_chunks(chunks: Seq<Seq<u8>>)
    ensures
        split_chunks(chunks) == split_all(concat(chunks)),
    decreases chunks.len(),
{
    if chunks.len() == 0 {
        assert(start_code(Seq::<u8>::empty(), 0) is None) by {
            lemma_first_sc(Seq::<u8>::empty(), 0);
        }
        assert(split_all(concat(chunks)) == (Seq::<Seq<u8>>::empty(), Seq::<u8>::empty()));
    } else {
        let rest = chunks.drop_last();
        lemma_split_any_chunks(rest);
        lemma_split_chunking(concat(rest), chunks.last());
    }
}

/// Some NAL unit of `g` is a picture slice.
pub open spec fn has_vcl_nal(g: Seq<Seq<u8>>) -> bool {
    exists|k: int| 0 <= k < g.len() && spec_is_vcl(spec_nal_type(#[trigger] g[k]))
}

/// The assembler seen as grouping NAL units: for the group `g` gathered so
/// far and the next `nal`, the group it closes, if any, and the group it
/// then gathers.
pub open spec fn group_step(g: Seq<Seq<u8>>, nal: Seq<u8>) -> (Option<Seq<Seq<u8>>>, Seq<Seq<u8>>) {
    if closes_unit(has_vcl_nal(g), nal) {
        (Some(g), seq![nal])
    } else {
        (None, g.push(nal))
    }
}

/// The groups closed while the NAL units `nals` come in, from the group
/// `g`, in order, and the group then being gathered.
pub open spec fn group_all(g: Seq<Seq<u8>>, nals: Seq<Seq<u8>>) -> (Seq<Seq<Seq<u8>>>, Seq<Seq<u8>>)
    decreases nals.len(),
{
    if nals.len() == 0 {
        (seq![], g)
    } else {
        let r = group_all(g, nals.drop_last());
        let s = group_step(r.1, nals.last());
        match s.0 {
            Some(u) => (r.0.push(u), s.1),
            None => (r.0, s.1),
        }
    }
}

/// Each access unit the assembler hands out, over any number of pushes, is
/// a run of the NAL units it was given, one after the other, holding at
/// least one picture slice; and what it holds afterwards is the run still
/// open, which holds picture data (and so is what `finish` hands out)
/// exactly when that run has a picture slice. From a fresh assembler, `g`
/// is empty.
pub proof fn lemma_units_are_pictures(g: Seq<Seq<u8>>, nals: Seq<Seq<u8>>)
    ensures
        assemble((concat(g), has_vcl_nal(g)), nals).0 == group_all(g, nals).0.map_values(
            |u: Seq<Seq<u8>>| concat(u),
        ),
        assemble((concat(g), has_vcl_nal(g)), nals).1 == (
            concat(group_all(g, nals).1),
            has_vcl_nal(group_all(g, nals).1),
        ),
        forall|i: int|
            0 <= i < group_all(g, nals).0.len() ==> has_vcl_nal(#[trigger] group_all(g, nals).0[i]),
    decreases nals.len(),
{
    let st = (concat(g), has_vcl_nal(g));
    if nals.len() == 0 {
        assert(group_all(g, nals).0.map_values(|u: Seq<Seq<u8>>| concat(u)) =~= Seq::<Seq<u8>>::empty());
    } else {
        let rest = nals.drop_last();
        let n = nals.last();
        lemma_units_are_pictures(g, rest);
        let r = group_all(g, rest);
        let a = assemble(st, rest);
        let t = spec_nal_type(n);
        if closes_unit(has_vcl_nal(r.1), n) {
            assert(seq![n].drop_last() =~= Seq::<Seq<u8>>::empty());
            assert(concat(Seq::<Seq<u8>>::empty()) =~= Seq::<u8>::empty());
            assert(seq![n].last() == n);
            assert(Seq::<u8>::empty() + n =~= n);
            assert(concat(seq![n]) =~= n);
            if spec_is_vcl(t) {
                assert(spec_is_vcl(spec_nal_type(seq![n][0])));
            }
            assert(has_vcl_nal(seq![n]) == spec_is_vcl(t));
            assert(r.0.push(r.1).map_values(|u: Seq<Seq<u8>>| concat(u)) =~= a.0.push(concat(r.1)));
            let gs = group_all(g, nals).0;
            assert forall|i: int| 0 <= i < gs.len() implies has_vcl_nal(#[trigger] gs[i]) by {
                if i < r.0.len() {
                    assert(gs[i] == r.0[i]);
                }
            }
        } else {
            let h = r.1.push(n);
            assert(h.drop_last() =~= r.1);
            assert(concat(h) == concat(r.1) + n);
            if spec_is_vcl(t) {
                assert(spec_is_vcl(spec_nal_type(h[h.len() - 1])));
            }
            if has_vcl_nal(r.1) {
                let k = choose|k: int| 0 <= k < r.1.len() && spec_is_vcl(spec_nal_type(#[trigger] r.1[k]));
                assert(h[k] == r.1[k]);
            }
            if has_vcl_nal(h) {
                let k = choose|k: int| 0 <= k < h.len() && spec_is_vcl(spec_nal_type(#[trigger] h[k]));
                if k < r.1.len() {
                    assert(h[k] == r.1[k]);
                }
            }
            assert(has_vcl_nal(h) == (has_vcl_nal(r.1) || spec_is_vcl(t)));
        }
    }
}


/// How one NAL unit moves the assembler, by its type. Once picture data has
/// been gathered, an SEI, SPS, PPS or access unit delimiter (types 6 to 9)
/// ends the access unit: the bytes gathered are handed out whole, and the
/// new unit starts the next access unit, holding no picture data yet, so
/// parameter sets travel in front of the frame they belong to. Before any
/// picture data they are simply gathered. A slice that begins a new picture
/// likewise ends an access unit that holds picture data, while a slice that
/// continues the picture (or any unit of another type) is added to it.
pub proof fn lemma_unit_boundaries(b: Seq<u8>, nal: Seq<u8>)
    ensures
        6 <= spec_nal_type(nal) <= 9 ==> au_step((b, true), nal) == (Some(b), (nal, false)),
        6 <= spec_nal_type(nal) <= 9 ==> au_step((b, false), nal) == (None::<Seq<u8>>, (b + nal, false)),
        1 <= spec_nal_type(nal) <= 5 && spec_starts_new_picture(nal) ==> au_step((b, true), nal) == (
            Some(b),
            (nal, true),
        ),
        1 <= spec_nal_type(nal) <= 5 && !spec_starts_new_picture(nal) ==> au_step((b, true), nal) == (
            None::<Seq<u8>>,
            (b + nal, true),
        ),
        1 <= spec_nal_type(nal) <= 5 ==> au_step((b, false), nal) == (None::<Seq<u8>>, (b + nal, true)),
        (spec_nal_type(nal) == 0 || spec_nal_type(nal) >= 10) ==> au_step((b, true), nal) == (
            None::<Seq<u8>>,
            (b + nal, true),
        ),
{
}

} // verus!
