//! Pairing: the one-time token shown in the QR code, and the addresses the
//! QR code offers the phone.

use vstd::prelude::*;
use rand::RngCore;
use crate::identity::{hex_encode, hex_of};
use crate::text::{chars_of, has_prefix, starts_with, string_of};
use crate::order::same_chars;

verus! {

/// `n` bytes from the thread's random generator (`RngCore::fill_bytes` on
/// `rand::thread_rng()`). Only their number is stated: they are random.
#[verifier::external_body]
pub(crate) fn random_bytes(n: usize) -> (b: Vec<u8>)
    ensures
        b@.len() == n,
{
    let mut b = vec![0u8; n];
    rand::thread_rng().fill_bytes(&mut b);
    b
}

/// A fresh pairing token: 16 random bytes in lowercase hexadecimal.
pub fn new_token() -> (t: String)
    ensures
        exists|b: Seq<u8>| b.len() == 16 && t@ == hex_of(b),
        t@.len() == 32,
{
    let b = random_bytes(16);
    let t = hex_encode(b.as_slice());
    proof {
        crate::identity::lemma_hex_len(b@);
    }
    t
}

/// The name prefixes of interfaces a phone on the same Wi-Fi can never
/// reach: container bridges, virtual machine networks, VPN tunnels.
pub open spec fn virtual_prefixes() -> Seq<Seq<char>> {
    seq![
        "docker"@,
        "br-"@,
        "veth"@,
        "virbr"@,
        "vnet"@,
        "tun"@,
        "tap"@,
        "wg"@,
        "tailscale"@,
        "zt"@,
        "vmnet"@,
        "vboxnet"@,
        "lxcbr"@,
        "lxdbr"@,
        "podman"@,
        "cni"@,
        "flannel"@,
        "ppp"@,
    ]
}

/// The interface name begins with one of `virtual_prefixes`.
pub open spec fn spec_is_virtual(name: Seq<char>) -> bool {
    exists|i: int| 0 <= i < virtual_prefixes().len() && has_prefix(name, virtual_prefixes()[i])
}

/// The interfaces a phone can never reach, by the start of their name:
/// Docker and other bridges (`docker`, `br-`, `veth`), libvirt and VMware
/// and VirtualBox networks (`virbr`, `vnet`, `vmnet`, `vboxnet`), tunnels
/// and VPNs (`tun`, `tap`, `wg`, `tailscale`, `zt`, `ppp`), and container
/// networks (`lxcbr`, `lxdbr`, `podman`, `cni`, `flannel`). An interface is
/// virtual exactly when its name begins with one of these.
pub proof fn lemma_virtual_interfaces(name: Seq<char>)
    ensures
        spec_is_virtual(name) <==> (has_prefix(name, "docker"@) || has_prefix(name, "br-"@) || has_prefix(
            name,
            "veth"@,
        ) || has_prefix(name, "virbr"@) || has_prefix(name, "vnet"@) || has_prefix(name, "tun"@)
            || has_prefix(name, "tap"@) || has_prefix(name, "wg"@) || has_prefix(name, "tailscale"@)
            || has_prefix(name, "zt"@) || has_prefix(name, "vmnet"@) || has_prefix(name, "vboxnet"@)
            || has_prefix(name, "lxcbr"@) || has_prefix(name, "lxdbr"@) || has_prefix(name, "podman"@)
            || has_prefix(name, "cni"@) || has_prefix(name, "flannel"@) || has_prefix(name, "ppp"@)),
{
    let v = virtual_prefixes();
    assert(v[0] == "docker"@ && v[1] == "br-"@ && v[2] == "veth"@ && v[3] == "virbr"@ && v[4] == "vnet"@);
    assert(v[5] == "tun"@ && v[6] == "tap"@ && v[7] == "wg"@ && v[8] == "tailscale"@ && v[9] == "zt"@);
    assert(v[10] == "vmnet"@ && v[11] == "vboxnet"@ && v[12] == "lxcbr"@ && v[13] == "lxdbr"@);
    assert(v[14] == "podman"@ && v[15] == "cni"@ && v[16] == "flannel"@ && v[17] == "ppp"@);
    assert(v.len() == 18);
    if spec_is_virtual(name) {
        let i = choose|i: int| 0 <= i < v.len() && has_prefix(name, v[i]);
        assert(0 <= i < 18);
    }
    if has_prefix(name, "docker"@) { assert(has_prefix(name, v[0])); }
    if has_prefix(name, "br-"@) { assert(has_prefix(name, v[1])); }
    if has_prefix(name, "veth"@) { assert(has_prefix(name, v[2])); }
    if has_prefix(name, "virbr"@) { assert(has_prefix(name, v[3])); }
    if has_prefix(name, "vnet"@) { assert(has_prefix(name, v[4])); }
    if has_prefix(name, "tun"@) { assert(has_prefix(name, v[5])); }
    if has_prefix(name, "tap"@) { assert(has_prefix(name, v[6])); }
    if has_prefix(name, "wg"@) { assert(has_prefix(name, v[7])); }
    if has_prefix(name, "tailscale"@) { assert(has_prefix(name, v[8])); }
    if has_prefix(name, "zt"@) { assert(has_prefix(name, v[9])); }
    if has_prefix(name, "vmnet"@) { assert(has_prefix(name, v[10])); }
    if has_prefix(name, "vboxnet"@) { assert(has_prefix(name, v[11])); }
    if has_prefix(name, "lxcbr"@) { assert(has_prefix(name, v[12])); }
    if has_prefix(name, "lxdbr"@) { assert(has_prefix(name, v[13])); }
    if has_prefix(name, "podman"@) { assert(has_prefix(name, v[14])); }
    if has_prefix(name, "cni"@) { assert(has_prefix(name, v[15])); }
    if has_prefix(name, "flannel"@) { assert(has_prefix(name, v[16])); }
    if has_prefix(name, "ppp"@) { assert(has_prefix(name, v[17])); }
}

/// Whether the interface `name` is a container, VM or VPN interface.
pub fn is_virtual_interface(name: &str) -> (b: bool)
    ensures
        b == spec_is_virtual(name@),
{
    let ps: Vec<&str> = vec![
        "docker",
        "br-",
        "veth",
        "virbr",
        "vnet",
        "tun",
        "tap",
        "wg",
        "tailscale",
        "zt",
        "vmnet",
        "vboxnet",
        "lxcbr",
        "lxdbr",
        "podman",
        "cni",
        "flannel",
        "ppp",
    ];
    assert(ps@.map_values(|p: &str| p@) =~= virtual_prefixes());
    let n = chars_of(name);
    let mut i: usize = 0;
    while i < ps.len()
        invariant
            i <= ps@.len(),
            n@ == name@,
            ps@.map_values(|p: &str| p@) == virtual_prefixes(),
            forall|j: int| 0 <= j < i ==> !has_prefix(name@, #[trigger] virtual_prefixes()[j]),
        decreases ps@.len() - i,
    {
        let p = chars_of(ps[i]);
        assert(p@ == virtual_prefixes()[i as int]);
        if starts_with(n.as_slice(), p.as_slice()) {
            return true;
        }
        i = i + 1;
    }
    false
}

/// One address of one network interface, as the system lists it.
#[derive(Debug, Clone)]
pub struct InterfaceAddr {
    pub name: String,
    pub addr: String,
    pub is_loopback: bool,
    pub is_ipv4: bool,
}

impl View for InterfaceAddr {
    type V = (Seq<char>, Seq<char>, bool, bool);

    open spec fn view(&self) -> (Seq<char>, Seq<char>, bool, bool) {
        (self.name@, self.addr@, self.is_loopback, self.is_ipv4)
    }
}

/// An address a phone can reach: IPv4, not loopback, not on `lo` nor on a
/// virtual interface.
pub open spec fn reachable_addr(a: (Seq<char>, Seq<char>, bool, bool)) -> bool {
    a.0 != "lo"@ && !a.2 && a.3 && !spec_is_virtual(a.0)
}

/// The reachable addresses of `ifs`, each once, in the order first seen.
pub open spec fn reachable(ifs: Seq<(Seq<char>, Seq<char>, bool, bool)>) -> Seq<Seq<char>>
    decreases ifs.len(),
{
    if ifs.len() == 0 {
        seq![]
    } else {
        let r = reachable(ifs.drop_last());
        let a = ifs.last();
        if reachable_addr(a) && !r.contains(a.1) {
            r.push(a.1)
        } else {
            r
        }
    }
}

/// The first position of `x` in `s`.
pub open spec fn first_index(s: Seq<Seq<char>>, x: Seq<char>) -> Option<int>
    decreases s.len(),
{
    if s.len() == 0 {
        None
    } else if s[0] == x {
        Some(0)
    } else {
        match first_index(s.drop_first(), x) {
            Some(i) => Some(i + 1),
            None => None,
        }
    }
}

proof fn lemma_first_index(s: Seq<Seq<char>>, x: Seq<char>)
    ensures
        first_index(s, x) matches Some(i) ==> 0 <= i < s.len() && s[i] == x && forall|j: int|
            0 <= j < i ==> s[j] != x,
        first_index(s, x) is None ==> !s.contains(x),
    decreases s.len(),
{
    if s.len() > 0 {
        lemma_first_index(s.drop_first(), x);
        if first_index(s, x) is Some && s[0] != x {
            let i = first_index(s, x).unwrap();
            assert(s.drop_first()[i - 1] == s[i]);
            assert forall|j: int| 0 <= j < i implies s[j] != x by {
                if j > 0 {
                    assert(s.drop_first()[j - 1] == s[j]);
                }
            }
        }
        if first_index(s, x) is None {
            assert forall|j: int| 0 <= j < s.len() implies s[j] != x by {
                if j > 0 {
                    assert(s.drop_first()[j - 1] == s[j]);
                }
            }
        }
    }
}

/// The addresses the QR code offers: the reachable ones, the address of
/// the default route first when it is one of them (swapped with the one in
/// front), at most two.
pub open spec fn offered(ifs: Seq<(Seq<char>, Seq<char>, bool, bool)>, primary: Option<Seq<char>>) -> Seq<
    Seq<char>,
> {
    let r = reachable(ifs);
    let s = match primary {
        Some(p) => match first_index(r, p) {
            Some(i) => r.update(0, r[i]).update(i, r[0]),
            None => r,
        },
        None => r,
    };
    if s.len() > 2 {
        s.take(2)
    } else {
        s
    }
}

/// Whether `v` holds `x`.
fn position_of(v: &Vec<String>, x: &[char]) -> (r: Option<usize>)
    ensures
        match r {
            Some(i) => first_index(v@.map_values(|s: String| s@), x@) == Some(i as int),
            None => first_index(v@.map_values(|s: String| s@), x@) is None,
        },
{
    let ghost sv = v@.map_values(|s: String| s@);
    let mut i: usize = 0;
    proof {
        lemma_first_index(sv, x@);
    }
    while i < v.len()
        invariant
            i <= v@.len(),
            sv == v@.map_values(|s: String| s@),
            forall|j: int| 0 <= j < i ==> sv[j] != x@,
        decreases v@.len() - i,
    {
        let c = chars_of(v[i].as_str());
        if same_chars(c.as_slice(), x) {
            proof {
                lemma_first_index(sv, x@);
                let k = first_index(sv, x@);
                if k is None {
                    assert(sv.contains(x@)) by {
                        assert(sv[i as int] == x@);
                    }
                } else if k.unwrap() > i {
                    assert(sv[i as int] == x@);
                }
            }
            return Some(i);
        }
        i = i + 1;
    }
    proof {
        lemma_first_index(sv, x@);
        if first_index(sv, x@) is Some {
            let k = first_index(sv, x@).unwrap();
            assert(sv[k] == x@);
        }
    }
    None
}

/// The addresses to put in the QR code, from the interface list and the
/// address of the default route (see `offered`).
pub fn local_addresses(ifs: &[InterfaceAddr], primary: Option<&str>) -> (r: Vec<String>)
    ensures
        r@.map_values(|s: String| s@) == offered(
            ifs@.map_values(|a: InterfaceAddr| a@),
            match primary {
                Some(p) => Some(p@),
                None => None,
            },
        ),
{
    let ghost iv = ifs@.map_values(|a: InterfaceAddr| a@);
    let mut out: Vec<String> = Vec::new();
    let mut i: usize = 0;
    assert(iv.take(0) =~= Seq::<(Seq<char>, Seq<char>, bool, bool)>::empty());
    while i < ifs.len()
        invariant
            i <= ifs@.len(),
            iv == ifs@.map_values(|a: InterfaceAddr| a@),
            out@.map_values(|s: String| s@) == reachable(iv.take(i as int)),
        decreases ifs@.len() - i,
    {
        let a = &ifs[i];
        assert(iv.take(i + 1).drop_last() =~= iv.take(i as int));
        assert(iv.take(i + 1).last() == a@);
        let lo = same_chars(chars_of(a.name.as_str()).as_slice(), chars_of("lo").as_slice());
        if !lo && !a.is_loopback && a.is_ipv4 && !is_virtual_interface(a.name.as_str()) {
            let addr = chars_of(a.addr.as_str());
            match position_of(&out, addr.as_slice()) {
                Some(_) => {
                    proof {
                        lemma_first_index(out@.map_values(|s: String| s@), a@.1);
                    }
                },
                None => {
                    proof {
                        lemma_first_index(out@.map_values(|s: String| s@), a@.1);
                    }
                    let ghost before = out@.map_values(|s: String| s@);
                    let s = string_of(addr.as_slice());
                    out.push(s);
                    assert(out@.map_values(|s: String| s@) =~= before.push(a@.1));
                },
            }
        }
        i = i + 1;
    }
    assert(iv.take(ifs@.len() as int) =~= iv);
    let ghost r = out@.map_values(|s: String| s@);
    if let Some(p) = primary {
        let pc = chars_of(p);
        if let Some(pos) = position_of(&out, pc.as_slice()) {
            proof {
                lemma_first_index(r, p@);
            }
            if pos != 0 {
                let mut tmp = String::new();
                out.set_and_swap(pos, &mut tmp);
                out.set_and_swap(0, &mut tmp);
                out.set_and_swap(pos, &mut tmp);
            }
            assert(out@.map_values(|s: String| s@) =~= r.update(0, r[pos as int]).update(
                pos as int,
                r[0],
            ));
        }
    }
    let ghost s = out@.map_values(|s: String| s@);
    if out.len() > 2 {
        out.truncate(2);
        assert(out@.map_values(|s: String| s@) =~= s.take(2));
    }
    out
}

} // verus!
