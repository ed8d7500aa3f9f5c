//! Routes, the forwarding table, longest-prefix matching and next-hop
//! resolution.

use vstd::prelude::*;
use crate::net::{Ipv4Net, spec_netmask};
use crate::table::{keys_unique, has_key, seq_to_map, lemma_map_index, lemma_map_update, lemma_map_push, lemma_map_remove};

verus! {

/// How a route was learned.
#[derive(Clone, Copy, Debug, PartialEq, Eq, Structural)]
pub enum RouteType {
    /// Learned through RIP.
    Rip,
    /// Configured statically (the default route, for instance).
    Static,
    /// A route to the network of one of our own interfaces.
    Local,
    /// A route to one of our own addresses.
    ToSelf,
}

/// Where a route sends a packet.
#[derive(Debug)]
pub enum ForwardingOption {
    /// On towards this address (resolved again through the table).
    Ip(u32),
    /// Out of the interface with this name.
    Inter(String),
    /// The packet is for this node.
    ToSelf,
}

impl ForwardingOption {
    /// A copy of this option.
    pub fn duplicate(&self) -> (r: ForwardingOption)
        ensures
            r == *self,
    {
        match self {
            ForwardingOption::Ip(a) => ForwardingOption::Ip(*a),
            ForwardingOption::Inter(s) => ForwardingOption::Inter(s.clone()),
            ForwardingOption::ToSelf => ForwardingOption::ToSelf,
        }
    }
}

/// An entry of the forwarding table.
#[derive(Debug)]
pub struct Route {
    pub rtype: RouteType,
    /// Number of hops; unknown (`None`) for static and to-self routes.
    pub cost: Option<u32>,
    pub next_hop: ForwardingOption,
    /// When the route was learned, in milliseconds on the caller's clock.
    pub creation_time: u64,
}

impl Route {
    /// A route learned at time `creation_time` (milliseconds).
    pub fn new(rtype: RouteType, cost: Option<u32>, next_hop: ForwardingOption, creation_time: u64) -> (r: Route)
        ensures
            r.rtype == rtype,
            r.cost == cost,
            r.next_hop == next_hop,
            r.creation_time == creation_time,
    {
        Route { rtype, cost, next_hop, creation_time }
    }

    /// A copy of this route.
    pub fn duplicate(&self) -> (r: Route)
        ensures
            r == *self,
    {
        Route {
            rtype: self.rtype,
            cost: self.cost,
            next_hop: self.next_hop.duplicate(),
            creation_time: self.creation_time,
        }
    }
}

/// Why a destination could not be routed.
#[derive(Clone, Copy, Debug, PartialEq, Eq, Structural)]
pub enum RouteError {
    /// The table is empty.
    NoPrefixes,
    /// No prefix of the table contains the address.
    NoMatch,
    /// Following next hops through the table comes back to a prefix already
    /// visited, so the address never resolves to an interface.
    Loop,
}

/// The index of the entry chosen by longest-prefix matching among the first
/// entries of `s`: the first entry with the greatest prefix length among the
/// entries that contain `a`.
pub open spec fn best_index(s: Seq<(Ipv4Net, Route)>, a: u32) -> Option<int>
    decreases s.len(),
{
    if s.len() == 0 {
        None
    } else {
        let b = best_index(s.drop_last(), a);
        let last = s.len() - 1;
        if s[last].0.spec_contains(a) && (b is None || s[b->0].0.prefix_len < s[last].0.prefix_len) {
            Some(last)
        } else {
            b
        }
    }
}

/// Resolution of destination `a` through the table, following next hops
/// that are addresses at most `fuel` times: the interface and next-hop
/// address to send on, `None` for a packet that is for this node, or why
/// the address does not resolve.
pub open spec fn resolve(s: Seq<(Ipv4Net, Route)>, a: u32, fuel: nat) -> Result<Option<(String, u32)>, RouteError>
    decreases fuel,
{
    if s.len() == 0 {
        Err(RouteError::NoPrefixes)
    } else {
        match best_index(s, a) {
            None => Err(RouteError::NoMatch),
            Some(i) => match s[i].1.next_hop {
                ForwardingOption::Inter(name) => Ok(Some((name, a))),
                ForwardingOption::ToSelf => Ok(None),
                ForwardingOption::Ip(next) => if fuel == 0 {
                    Err(RouteError::Loop)
                } else {
                    resolve(s, next, (fuel - 1) as nat)
                },
            },
        }
    }
}

/// The forwarding table: routes keyed by prefix, each prefix at most once.
#[derive(Debug)]
pub struct ForwardingTable {
    pub entries: Vec<(Ipv4Net, Route)>,
}

impl ForwardingTable {
    /// The entries in table order.
    pub open spec fn seq(&self) -> Seq<(Ipv4Net, Route)> {
        self.entries@
    }

    /// No prefix appears twice.
    pub open spec fn wf(&self) -> bool {
        keys_unique(self.entries@)
    }

    /// The table as a map from prefix to route.
    pub open spec fn view(&self) -> Map<Ipv4Net, Route> {
        seq_to_map(self.entries@)
    }

    /// An empty table.
    pub fn new() -> (t: ForwardingTable)
        ensures
            t.wf(),
            t.seq().len() == 0,
            t.view() == Map::<Ipv4Net, Route>::empty(),
    {
        let t = ForwardingTable { entries: Vec::new() };
        assert(t.view() =~= Map::<Ipv4Net, Route>::empty());
        t
    }

    /// Number of routes.
    pub fn len(&self) -> (n: usize)
        ensures
            n == self.seq().len(),
    {
        self.entries.len()
    }

    /// The position of `k` in the table, if it is there.
    pub fn find(&self, k: &Ipv4Net) -> (r: Option<usize>)
        requires
            self.wf(),
        ensures
            r is Some <==> has_key(self.seq(), *k),
            r matches Some(i) ==> i < self.seq().len() && self.seq()[i as int].0 == *k,
    {
        let mut i: usize = 0;
        while i < self.entries.len()
            invariant
                i <= self.entries@.len(),
                forall|j: int| 0 <= j < i ==> self.entries@[j].0 != *k,
            decreases self.entries@.len() - i,
        {
            if self.entries[i].0 == *k {
                return Some(i);
            }
            i = i + 1;
        }
        None
    }

    /// Whether the table has a route for `k`.
    pub fn contains_key(&self, k: &Ipv4Net) -> (b: bool)
        requires
            self.wf(),
        ensures
            b == self.view().contains_key(*k),
    {
        self.find(k).is_some()
    }

    /// The route for `k`, if any.
    pub fn get(&self, k: &Ipv4Net) -> (r: Option<&Route>)
        requires
            self.wf(),
        ensures
            r is Some <==> self.view().contains_key(*k),
            r matches Some(route) ==> *route == self.view()[*k],
    {
        match self.find(k) {
            Some(i) => {
                proof { lemma_map_index(self.entries@, i as int); }
                Some(&self.entries[i].1)
            },
            None => None,
        }
    }

    /// Sets the route for `k`, replacing any route it had.
    pub fn insert(&mut self, k: Ipv4Net, r: Route)
        requires
            old(self).wf(),
        ensures
            final(self).wf(),
            final(self).view() == old(self).view().insert(k, r),
    {
        let ghost rr = r;
        match self.find(&k) {
            Some(i) => {
                let ghost s0 = self.entries@;
                self.entries.set(i, (k, r));
                proof { lemma_map_update(s0, i as int, k, rr); }
            },
            None => {
                let ghost s0 = self.entries@;
                self.entries.push((k, r));
                proof { lemma_map_push(s0, k, rr); }
            },
        }
    }

    /// Removes the route for `k`, returning it.
    pub fn remove(&mut self, k: &Ipv4Net) -> (r: Option<Route>)
        requires
            old(self).wf(),
        ensures
            final(self).wf(),
            final(self).view() == old(self).view().remove(*k),
            r is Some <==> old(self).view().contains_key(*k),
            r matches Some(route) ==> route == old(self).view()[*k],
    {
        match self.find(k) {
            Some(i) => {
                let ghost s0 = self.entries@;
                proof { lemma_map_index(s0, i as int); }
                let (_, route) = self.entries.remove(i);
                proof { lemma_map_remove(s0, i as int); }
                Some(route)
            },
            None => {
                assert(self.view() =~= self.view().remove(*k));
                None
            },
        }
    }

    /// Longest-prefix matching: the first prefix with the greatest length
    /// among those that contain `a`.
    pub fn longest_prefix(&self, a: u32) -> (r: Result<Ipv4Net, RouteError>)
        ensures
            self.seq().len() == 0 ==> r == Err::<Ipv4Net, RouteError>(RouteError::NoPrefixes),
            self.seq().len() > 0 ==> match best_index(self.seq(), a) {
                None => r == Err::<Ipv4Net, RouteError>(RouteError::NoMatch),
                Some(i) => r == Ok::<Ipv4Net, RouteError>(self.seq()[i].0),
            },
    {
        if self.entries.len() < 1 {
            return Err(RouteError::NoPrefixes);
        }
        let mut best: Option<usize> = None;
        let mut i: usize = 0;
        while i < self.entries.len()
            invariant
                i <= self.entries@.len(),
                match best_index(self.entries@.take(i as int), a) {
                    None => best is None,
                    Some(j) => best == Some(j as usize),
                },
                best matches Some(b) ==> b < i,
            decreases self.entries@.len() - i,
        {
            proof {
                assert(self.entries@.take(i + 1).drop_last() =~= self.entries@.take(i as int));
                lemma_best_index_bounds(self.entries@.take(i as int), a);
                lemma_best_index_bounds(self.entries@.take(i + 1), a);
            }
            let p = self.entries[i].0;
            if p.contains(a) {
                match best {
                    Some(b) => {
                        if self.entries[b].0.prefix_len < p.prefix_len {
                            best = Some(i);
                        }
                    },
                    None => {
                        best = Some(i);
                    },
                }
            }
            i = i + 1;
        }
        proof {
            assert(self.entries@.take(i as int) =~= self.entries@);
            lemma_best_index_bounds(self.entries@, a);
        }
        match best {
            Some(b) => Ok(self.entries[b].0),
            None => Err(RouteError::NoMatch),
        }
    }
    /// Finds the interface and next-hop address for destination `a`,
    /// following routes whose next hop is an address until one names an
    /// interface (`Some`) or this node (`None`). A chain of more hops than
    /// there are routes must revisit a route and is reported as a loop.
    pub fn proper_interface(&self, a: u32) -> (r: Result<Option<(String, u32)>, RouteError>)
        requires
            self.wf(),
        ensures
            r == resolve(self.seq(), a, self.seq().len() as nat),
    {
        let n = self.entries.len();
        let mut fuel: usize = n;
        let mut dst = a;
        loop
            invariant
                fuel <= n,
                n == self.entries@.len(),
                self.wf(),
                resolve(self.seq(), a, n as nat) == resolve(self.seq(), dst, fuel as nat),
            decreases fuel,
        {
            let net = match self.longest_prefix(dst) {
                Ok(net) => net,
                Err(e) => { return Err(e); },
            };
            proof { lemma_best_index_bounds(self.seq(), dst); }
            let route = match self.get(&net) {
                Some(route) => route,
                None => { return Err(RouteError::NoMatch); },
            };
            proof {
                let i = best_index(self.seq(), dst)->0;
                lemma_map_index(self.seq(), i);
            }
            match &route.next_hop {
                ForwardingOption::Inter(name) => {
                    return Ok(Some((name.clone(), dst)));
                },
                ForwardingOption::ToSelf => {
                    return Ok(None);
                },
                ForwardingOption::Ip(next) => {
                    if fuel == 0 {
                        return Err(RouteError::Loop);
                    }
                    fuel = fuel - 1;
                    dst = *next;
                },
            }
        }
    }
}

/// Longest-prefix matching picks a prefix that contains the address and is
/// at least as long as every prefix of the table that contains it; when it
/// picks none, no prefix of the table contains the address.
pub proof fn lemma_longest_prefix_is_longest(s: Seq<(Ipv4Net, Route)>, a: u32)
    ensures
        best_index(s, a) is None ==> forall|j: int| 0 <= j < s.len() ==> !(#[trigger] s[j].0.spec_contains(a)),
        best_index(s, a) matches Some(i) ==> {
            &&& 0 <= i < s.len()
            &&& s[i].0.spec_contains(a)
            &&& forall|j: int| 0 <= j < s.len() && (#[trigger] s[j].0.spec_contains(a)) ==> s[j].0.prefix_len <= s[i].0.prefix_len
        },
    decreases s.len(),
{
    lemma_best_index_bounds(s, a);
    if s.len() > 0 {
        let t = s.drop_last();
        let last = s.len() - 1;
        lemma_longest_prefix_is_longest(t, a);
        lemma_best_index_bounds(t, a);
        assert forall|j: int| 0 <= j < s.len() && (#[trigger] s[j].0.spec_contains(a)) implies
            best_index(s, a) is Some && s[j].0.prefix_len <= s[best_index(s, a)->0].0.prefix_len by {
            if j < last {
                assert(t[j] == s[j]);
                assert(t[j].0.spec_contains(a));
            }
        }
    }
}

/// The index chosen by longest-prefix matching lies inside the sequence.
pub proof fn lemma_best_index_bounds(s: Seq<(Ipv4Net, Route)>, a: u32)
    ensures
        best_index(s, a) matches Some(i) ==> 0 <= i < s.len() && s[i].0.spec_contains(a),
    decreases s.len(),
{
    if s.len() > 0 {
        lemma_best_index_bounds(s.drop_last(), a);
    }
}

/// A table that routes an address's /32 prefix to this node delivers
/// packets for that address here: no well-formed prefix is longer, and the
/// only /32 prefix holding the address is its own.
pub proof fn lemma_self_route(s: Seq<(Ipv4Net, Route)>, a: u32, fuel: nat)
    requires
        keys_unique(s),
        forall|j: int| 0 <= j < s.len() ==> (#[trigger] s[j]).0.wf(),
        seq_to_map(s).contains_key(Ipv4Net { addr: a, prefix_len: 32 }),
        seq_to_map(s)[Ipv4Net { addr: a, prefix_len: 32 }].next_hop == ForwardingOption::ToSelf,
    ensures
        resolve(s, a, fuel) == Ok::<Option<(String, u32)>, RouteError>(None),
{
    let key = Ipv4Net { addr: a, prefix_len: 32 };
    let k = choose|k: int| 0 <= k < s.len() && s[k].0 == key;
    lemma_map_index(s, k);
    assert(spec_netmask(32) == 0xffff_ffffu32);
    assert((a & 0xffff_ffffu32) == a) by (bit_vector);
    assert(s[k].0.spec_contains(a));
    lemma_longest_prefix_is_longest(s, a);
    let i = best_index(s, a)->0;
    assert(s[i].0.prefix_len >= 32);
    assert(s[i].0.wf());
    assert(s[i].0.prefix_len == 32);
    let x = s[i].0.addr;
    assert((a & 0xffff_ffffu32) == (x & 0xffff_ffffu32));
    assert((x & 0xffff_ffffu32) == x) by (bit_vector);
    assert(s[i].0 == key);
    if i != k {
        assert(s[i].0 != s[k].0);
    }
}

} // verus!
