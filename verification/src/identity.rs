//! The PC's certificate identity and the store of trusted phones, each known
//! by the SHA-256 fingerprint of its certificate.

use vstd::prelude::*;
use sha2::{Digest, Sha256};
use crate::text::{chars_of, starts_with};
use crate::order::same_chars;

verus! {

/// The SHA-256 digest of `data` (what `sha2::Sha256::digest` computes).
pub uninterp spec fn sha256(data: Seq<u8>) -> Seq<u8>;

/// `Sha256::digest`: the digest of `data`, 32 bytes long.
#[verifier::external_body]
fn sha256_digest(data: &[u8]) -> (d: Vec<u8>)
    ensures
        d@ == sha256(data@),
        d@.len() == 32,
{
    Sha256::digest(data).to_vec()
}

/// The lowercase hexadecimal digit of `n` (0 to 15).
pub open spec fn hex_digit(n: int) -> char {
    if n < 10 {
        ((n + 48) as u8) as char
    } else {
        ((n + 87) as u8) as char
    }
}

/// Lowercase hexadecimal: two digits per byte, high nibble first.
pub open spec fn hex_of(b: Seq<u8>) -> Seq<char>
    decreases b.len(),
{
    if b.len() == 0 {
        seq![]
    } else {
        hex_of(b.drop_last()) + seq![hex_digit(b.last() as int / 16), hex_digit(b.last() as int % 16)]
    }
}

/// `hex::encode`: lowercase hexadecimal, two digits per byte, high nibble
/// first (its source encodes with the table `0123456789abcdef`).
#[verifier::external_body]
pub(crate) fn hex_encode(data: &[u8]) -> (s: String)
    ensures
        s@ == hex_of(data@),
{
    hex::encode(data)
}

/// The fingerprint of a DER certificate: its SHA-256 digest in lowercase
/// hexadecimal (64 characters).
pub open spec fn spec_fingerprint(cert_der: Seq<u8>) -> Seq<char> {
    hex_of(sha256(cert_der))
}

/// The fingerprint of a DER certificate: 64 lowercase hexadecimal digits.
pub fn fingerprint_of(cert_der: &[u8]) -> (fp: String)
    ensures
        fp@ == spec_fingerprint(cert_der@),
        fp@.len() == 64,
        forall|i: int| 0 <= i < fp@.len() ==> is_lower_hex(#[trigger] fp@[i]),
{
    let d = sha256_digest(cert_der);
    proof {
        lemma_fingerprint_len(cert_der@, d@);
        lemma_hex_digits(d@);
    }
    hex_encode(d.as_slice())
}

/// A lowercase hexadecimal digit: `0` to `9` or `a` to `f`.
pub open spec fn is_lower_hex(c: char) -> bool {
    (48 <= c as u32 <= 57) || (97 <= c as u32 <= 102)
}

/// Hexadecimal text holds lowercase hexadecimal digits only.
pub proof fn lemma_hex_digits(b: Seq<u8>)
    ensures
        forall|i: int| 0 <= i < hex_of(b).len() ==> is_lower_hex(#[trigger] hex_of(b)[i]),
    decreases b.len(),
{
    if b.len() > 0 {
        let d = b.drop_last();
        lemma_hex_digits(d);
        lemma_hex_len(d);
        let hi = b.last() as int / 16;
        let lo = b.last() as int % 16;
        assert(0 <= hi < 16 && 0 <= lo < 16);
        assert(is_lower_hex(hex_digit(hi)));
        assert(is_lower_hex(hex_digit(lo)));
        let h = hex_of(b);
        assert forall|i: int| 0 <= i < h.len() implies is_lower_hex(#[trigger] h[i]) by {
            if i < hex_of(d).len() {
                assert(h[i] == hex_of(d)[i]);
            }
        }
    }
}

/// Hexadecimal text is two characters per byte.
pub proof fn lemma_hex_len(b: Seq<u8>)
    ensures
        hex_of(b).len() == 2 * b.len(),
    decreases b.len(),
{
    if b.len() > 0 {
        lemma_hex_len(b.drop_last());
    }
}

/// A fingerprint is 64 characters long.
pub proof fn lemma_fingerprint_len(cert_der: Seq<u8>, d: Seq<u8>)
    requires
        d == sha256(cert_der),
        d.len() == 32,
    ensures
        spec_fingerprint(cert_der).len() == 64,
{
    lemma_hex_len(d);
}

/// This PC: its name and its self-signed certificate with the private key.
pub struct Identity {
    pub device_name: String,
    pub cert_der: Vec<u8>,
    pub key_der: Vec<u8>,
}

impl Identity {
    /// The fingerprint of this PC's certificate, as phones pin it: 64
    /// lowercase hexadecimal digits.
    pub fn fingerprint(&self) -> (fp: String)
        ensures
            fp@ == spec_fingerprint(self.cert_der@),
            fp@.len() == 64,
            forall|i: int| 0 <= i < fp@.len() ==> is_lower_hex(#[trigger] fp@[i]),
    {
        fingerprint_of(self.cert_der.as_slice())
    }
}

/// A paired phone.
#[derive(Debug, Clone)]
pub struct Peer {
    pub name: String,
    pub fingerprint: String,
}

impl View for Peer {
    type V = (Seq<char>, Seq<char>);

    open spec fn view(&self) -> (Seq<char>, Seq<char>) {
        (self.name@, self.fingerprint@)
    }
}

impl Peer {
    /// A copy of this peer.
    pub fn copied(&self) -> (p: Peer)
        ensures
            p@ == self@,
    {
        Peer { name: self.name.clone(), fingerprint: self.fingerprint.clone() }
    }
}

/// The phones this PC trusts, in the order they were paired.
#[derive(Debug, Clone)]
pub struct TrustedPeers {
    pub peers: Vec<Peer>,
}

impl View for TrustedPeers {
    type V = Seq<(Seq<char>, Seq<char>)>;

    open spec fn view(&self) -> Seq<(Seq<char>, Seq<char>)> {
        self.peers@.map_values(|p: Peer| p@)
    }
}

/// Some peer in `ps` has fingerprint `fp`.
pub open spec fn trusts(ps: Seq<(Seq<char>, Seq<char>)>, fp: Seq<char>) -> bool {
    exists|i: int| 0 <= i < ps.len() && ps[i].1 == fp
}

/// The first peer in `ps` whose fingerprint begins with `prefix`.
pub open spec fn first_prefixed(ps: Seq<(Seq<char>, Seq<char>)>, prefix: Seq<char>) -> Option<int>
    decreases ps.len(),
{
    if ps.len() == 0 {
        None
    } else if crate::text::has_prefix(ps[0].1, prefix) {
        Some(0)
    } else {
        match first_prefixed(ps.drop_first(), prefix) {
            Some(i) => Some(i + 1),
            None => None,
        }
    }
}

pub proof fn lemma_first_prefixed(ps: Seq<(Seq<char>, Seq<char>)>, prefix: Seq<char>)
    ensures
        first_prefixed(ps, prefix) matches Some(i) ==> 0 <= i < ps.len() && crate::text::has_prefix(
            ps[i].1,
            prefix,
        ) && forall|j: int| 0 <= j < i ==> !crate::text::has_prefix(#[trigger] ps[j].1, prefix),
        first_prefixed(ps, prefix) is None ==> forall|j: int|
            0 <= j < ps.len() ==> !crate::text::has_prefix(#[trigger] ps[j].1, prefix),
    decreases ps.len(),
{
    if ps.len() > 0 {
        lemma_first_prefixed(ps.drop_first(), prefix);
        assert forall|j: int| 1 <= j < ps.len() implies ps[j].1 == ps.drop_first()[j - 1].1 by {}
    }
}

impl TrustedPeers {
    /// No phone trusted yet.
    pub fn new() -> (t: Self)
        ensures
            t@ == Seq::<(Seq<char>, Seq<char>)>::empty(),
    {
        TrustedPeers { peers: Vec::new() }
    }

    /// Whether a phone with this exact fingerprint is trusted.
    pub fn is_trusted(&self, fingerprint: &str) -> (b: bool)
        ensures
            b == trusts(self@, fingerprint@),
    {
        let f = chars_of(fingerprint);
        let mut i: usize = 0;
        while i < self.peers.len()
            invariant
                i <= self.peers@.len(),
                f@ == fingerprint@,
                forall|j: int| 0 <= j < i ==> self@[j].1 != fingerprint@,
            decreases self.peers@.len() - i,
        {
            let g = chars_of(self.peers[i].fingerprint.as_str());
            if same_chars(g.as_slice(), f.as_slice()) {
                assert(self@[i as int].1 == fingerprint@);
                return true;
            }
            i = i + 1;
        }
        false
    }

    /// Trusts `peer`, unless a phone with its fingerprint is trusted
    /// already; says whether the list changed (and so needs saving).
    pub fn add(&mut self, peer: Peer) -> (changed: bool)
        ensures
            changed == !trusts(old(self)@, peer@.1),
            final(self)@ == if changed {
                old(self)@.push(peer@)
            } else {
                old(self)@
            },
    {
        if self.is_trusted(peer.fingerprint.as_str()) {
            false
        } else {
            let ghost v = peer@;
            self.peers.push(peer);
            assert(self@ =~= old(self)@.push(v));
            true
        }
    }

    /// Stops trusting the first phone whose fingerprint begins with
    /// `fingerprint` (the short form shown to the user works), and hands it
    /// back; `None` when no fingerprint matches.
    pub fn forget(&mut self, fingerprint: &str) -> (gone: Option<Peer>)
        ensures
            match first_prefixed(old(self)@, fingerprint@) {
                Some(i) => (gone matches Some(p) && p@ == old(self)@[i] && final(self)@ == old(
                    self,
                )@.remove(i)),
                None => gone is None && final(self)@ == old(self)@,
            },
    {
        proof {
            lemma_first_prefixed(self@, fingerprint@);
        }
        let f = chars_of(fingerprint);
        let mut i: usize = 0;
        while i < self.peers.len()
            invariant
                i <= self.peers@.len(),
                f@ == fingerprint@,
                self@ == old(self)@,
                forall|j: int| 0 <= j < i ==> !crate::text::has_prefix(#[trigger] self@[j].1, fingerprint@),
            decreases self.peers@.len() - i,
        {
            let g = chars_of(self.peers[i].fingerprint.as_str());
            if starts_with(g.as_slice(), f.as_slice()) {
                proof {
                    lemma_first_prefixed(self@, fingerprint@);
                    assert(crate::text::has_prefix(self@[i as int].1, fingerprint@));
                    let k = first_prefixed(self@, fingerprint@);
                    if k is None {
                        assert(false);
                    } else {
                        let kk = k.unwrap();
                        if kk < i {
                        } else if kk > i {
                            assert(!crate::text::has_prefix(self@[i as int].1, fingerprint@));
                        }
                    }
                }
                let p = self.peers.remove(i);
                assert(self@ =~= old(self)@.remove(i as int));
                return Some(p);
            }
            i = i + 1;
        }
        proof {
            lemma_first_prefixed(self@, fingerprint@);
        }
        None
    }
}

/// A phone just added is trusted, and so is every phone trusted before.
pub proof fn lemma_added_is_trusted(
    before: Seq<(Seq<char>, Seq<char>)>,
    after: Seq<(Seq<char>, Seq<char>)>,
    peer: (Seq<char>, Seq<char>),
    changed: bool,
)
    requires
        changed == !trusts(before, peer.1),
        after == if changed {
            before.push(peer)
        } else {
            before
        },
    ensures
        trusts(after, peer.1),
        forall|fp: Seq<char>| trusts(before, fp) ==> trusts(after, fp),
{
    if changed {
        assert(after[before.len() as int] == peer);
        assert forall|fp: Seq<char>| trusts(before, fp) implies trusts(after, fp) by {
            let i = choose|i: int| 0 <= i < before.len() && before[i].1 == fp;
            assert(after[i] == before[i]);
        }
    }
}

/// Forgetting a phone by its full fingerprint stops trusting it when the
/// fingerprints of the store are distinct.
pub proof fn lemma_forget_untrusts(
    before: Seq<(Seq<char>, Seq<char>)>,
    fp: Seq<char>,
)
    requires
        trusts(before, fp),
        forall|i: int, j: int|
            0 <= i < j < before.len() ==> #[trigger] before[i].1 != #[trigger] before[j].1,
        forall|i: int| 0 <= i < before.len() ==> (crate::text::has_prefix(#[trigger] before[i].1, fp)
            ==> before[i].1 == fp),
    ensures
        first_prefixed(before, fp) matches Some(i) && !trusts(before.remove(i), fp),
{
    lemma_first_prefixed(before, fp);
    let w = choose|i: int| 0 <= i < before.len() && before[i].1 == fp;
    assert(before[w].1.take(fp.len() as int) =~= fp);
    assert(crate::text::has_prefix(before[w].1, fp));
    let i = first_prefixed(before, fp).unwrap();
    assert(before[i].1 == fp);
    let after = before.remove(i);
    assert forall|k: int| 0 <= k < after.len() implies after[k].1 != fp by {
        if k < i {
            assert(after[k] == before[k]);
        } else {
            assert(after[k] == before[k + 1]);
        }
    }
}

} // verus!
