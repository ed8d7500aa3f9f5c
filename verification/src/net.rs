//! IPv4 addresses and network prefixes.
//!
//! An address is held as a `u32` in network order (the first octet is the
//! most significant byte).

use vstd::prelude::*;

verus! {

/// The netmask of a prefix of length `len` (0 for a length of 0).
pub open spec fn spec_netmask(len: u8) -> u32 {
    if len == 0 {
        0u32
    } else if len >= 32 {
        0xffff_ffffu32
    } else {
        (0xffff_ffffu32 << ((32 - len) as u32)) as u32
    }
}

/// A network prefix: an address together with a prefix length of at most 32.
#[derive(Clone, Copy, Debug, PartialEq, Eq, Structural)]
pub struct Ipv4Net {
    pub addr: u32,
    pub prefix_len: u8,
}

impl Ipv4Net {
    /// A prefix is well formed when its length is at most 32.
    pub open spec fn wf(self) -> bool {
        self.prefix_len <= 32
    }

    /// The network address: the address with its host bits cleared.
    pub open spec fn spec_network(self) -> u32 {
        self.addr & spec_netmask(self.prefix_len)
    }

    /// Whether `a` lies inside this prefix.
    pub open spec fn spec_contains(self, a: u32) -> bool {
        (a & spec_netmask(self.prefix_len)) == self.spec_network()
    }

    /// Builds a prefix; `None` when the length exceeds 32.
    pub fn new(addr: u32, prefix_len: u8) -> (r: Option<Ipv4Net>)
        ensures
            prefix_len <= 32 <==> r is Some,
            r matches Some(n) ==> n.addr == addr && n.prefix_len == prefix_len,
    {
        if prefix_len > 32 {
            None
        } else {
            Some(Ipv4Net { addr, prefix_len })
        }
    }

    /// The netmask of this prefix.
    pub fn netmask(&self) -> (m: u32)
        ensures
            m == spec_netmask(self.prefix_len),
    {
        netmask_of(self.prefix_len)
    }

    /// The network address of this prefix.
    pub fn network(&self) -> (a: u32)
        ensures
            a == self.spec_network(),
    {
        self.addr & netmask_of(self.prefix_len)
    }

    /// The same prefix with the host bits of its address cleared.
    pub fn trunc(&self) -> (n: Ipv4Net)
        ensures
            n.addr == self.spec_network(),
            n.prefix_len == self.prefix_len,
    {
        Ipv4Net { addr: self.network(), prefix_len: self.prefix_len }
    }

    /// Whether `a` lies inside this prefix.
    pub fn contains(&self, a: u32) -> (b: bool)
        ensures
            b == self.spec_contains(a),
    {
        let m = netmask_of(self.prefix_len);
        (a & m) == (self.addr & m)
    }
}

/// The netmask of a prefix length.
pub fn netmask_of(len: u8) -> (m: u32)
    ensures
        m == spec_netmask(len),
{
    if len == 0 {
        0
    } else if len >= 32 {
        0xffff_ffff
    } else {
        0xffff_ffffu32 << ((32 - len) as u32)
    }
}

/// Whether `mask` is a contiguous netmask, and of which length.
pub open spec fn spec_mask_len(mask: u32) -> Option<u8> {
    if exists|l: u8| l <= 32 && spec_netmask(l) == mask {
        Some(choose|l: u8| l <= 32 && spec_netmask(l) == mask)
    } else {
        None
    }
}

/// Distinct prefix lengths have distinct netmasks.
pub proof fn lemma_netmask_injective(l1: u8, l2: u8)
    requires
        l1 <= 32,
        l2 <= 32,
        spec_netmask(l1) == spec_netmask(l2),
    ensures
        l1 == l2,
{
    assert(l1 <= 32 && l2 <= 32 && spec_netmask(l1) == spec_netmask(l2) ==> l1 == l2) by (bit_vector);
}

/// Builds a prefix from an address and a netmask; `None` when the netmask is
/// not a run of one bits followed by a run of zero bits.
pub fn with_netmask(addr: u32, mask: u32) -> (r: Option<Ipv4Net>)
    ensures
        r is Some <==> spec_mask_len(mask) is Some,
        r matches Some(n) ==> n.addr == addr && n.wf() && spec_netmask(n.prefix_len) == mask
            && n.prefix_len == spec_mask_len(mask)->0,
{
    proof {
        if spec_mask_len(mask) is Some {
            let l = choose|l: u8| l <= 32 && spec_netmask(l) == mask;
            assert(l <= 32 && spec_netmask(l) == mask);
        }
    }
    let mut l: u8 = 0;
    while l <= 32
        invariant
            l <= 33,
            forall|k: u8| k < l ==> spec_netmask(k) != mask,
        decreases 33 - l,
    {
        if netmask_of(l) == mask {
            proof {
                let c = choose|c: u8| c <= 32 && spec_netmask(c) == mask;
                lemma_netmask_injective(l, c);
            }
            return Some(Ipv4Net { addr, prefix_len: l });
        }
        l = l + 1;
    }
    None
}

} // verus!
