//! RIP messages: their wire format, poisoned reverse, and how an advertised
//! route updates the forwarding table.

use vstd::prelude::*;
use std::collections::HashMap;
use crate::bytes::{be16, be32, read16, read32, push_be16, push_be32, get_be16, get_be32,
    lemma_read16_be16, lemma_read32_be32, lemma_be16_read16, lemma_be32_read32};
use crate::net::{Ipv4Net, spec_netmask, spec_mask_len, with_netmask};
use crate::routing::{Route, RouteType, ForwardingOption, ForwardingTable};
use crate::table::{has_key, keys_unique};

verus! {

broadcast use vstd::std_specs::hash::group_hash_axioms;

/// The cost that marks a route as unreachable.
pub const INF: u32 = 16;

/// Neighbors that take part in RIP, with the routes learned from each.
pub type RipNeighbors = HashMap<u32, Vec<Route>>;

/// One route of a RIP message.
#[derive(Clone, Copy, Debug, PartialEq, Eq, Structural)]
pub struct RipRoute {
    pub cost: u32,
    /// Network address (for example 1.2.3.0).
    pub address: u32,
    /// Netmask (for example 255.255.255.0).
    pub mask: u32,
}

impl RipRoute {
    pub fn new(cost: u32, address: u32, mask: u32) -> (r: RipRoute)
        ensures
            r == (RipRoute { cost, address, mask }),
    {
        RipRoute { cost, address, mask }
    }
}

/// A RIP message: command 1 is a request, 2 a response.
#[derive(Debug)]
pub struct RipMsg {
    pub command: u16,
    pub num_entries: u16,
    pub routes: Vec<RipRoute>,
}

/// The content of a RIP message.
pub struct RipMsgView {
    pub command: u16,
    pub num_entries: u16,
    pub routes: Seq<RipRoute>,
}

impl View for RipMsg {
    type V = RipMsgView;

    open spec fn view(&self) -> RipMsgView {
        RipMsgView { command: self.command, num_entries: self.num_entries, routes: self.routes@ }
    }
}

impl RipMsg {
    pub fn new(command: u16, num_entries: u16, routes: Vec<RipRoute>) -> (m: RipMsg)
        ensures
            m@ == (RipMsgView { command, num_entries, routes: routes@ }),
    {
        RipMsg { command, num_entries, routes }
    }
}

/// The twelve bytes of one route: cost, address, mask.
pub open spec fn route_bytes(r: RipRoute) -> Seq<u8> {
    be32(r.cost) + be32(r.address) + be32(r.mask)
}

/// The bytes of a list of routes, one after the other.
pub open spec fn routes_bytes(rs: Seq<RipRoute>) -> Seq<u8>
    decreases rs.len(),
{
    if rs.len() == 0 {
        Seq::empty()
    } else {
        routes_bytes(rs.drop_last()) + route_bytes(rs.last())
    }
}

/// The wire form of a RIP message: command, number of entries, then every
/// route of the message.
pub open spec fn spec_serialize_rip(m: RipMsgView) -> Seq<u8> {
    be16(m.command) + be16(m.num_entries) + routes_bytes(m.routes)
}

/// The route whose bytes start at `off`.
pub open spec fn read_route(b: Seq<u8>, off: int) -> RipRoute {
    RipRoute { cost: read32(b, off), address: read32(b, off + 4), mask: read32(b, off + 8) }
}

/// Whether `b` is long enough for the header and the number of routes that
/// the header announces.
pub open spec fn rip_bytes_complete(b: Seq<u8>) -> bool {
    b.len() >= 4 && b.len() >= 4 + 12 * read16(b, 2)
}

/// The message that `b` holds.
pub open spec fn spec_deserialize_rip(b: Seq<u8>) -> RipMsgView {
    RipMsgView {
        command: read16(b, 0),
        num_entries: read16(b, 2),
        routes: Seq::new(read16(b, 2) as nat, |i: int| read_route(b, 4 + 12 * i)),
    }
}

proof fn lemma_routes_bytes_len(rs: Seq<RipRoute>)
    ensures
        routes_bytes(rs).len() == 12 * rs.len(),
    decreases rs.len(),
{
    if rs.len() > 0 {
        lemma_routes_bytes_len(rs.drop_last());
    }
}

proof fn lemma_routes_bytes_read(rs: Seq<RipRoute>, i: int)
    requires
        0 <= i < rs.len(),
    ensures
        routes_bytes(rs).len() == 12 * rs.len(),
        read_route(routes_bytes(rs), 12 * i) == rs[i],
    decreases rs.len(),
{
    lemma_routes_bytes_len(rs);
    let b = routes_bytes(rs);
    let t = rs.drop_last();
    lemma_routes_bytes_len(t);
    if i == rs.len() - 1 {
        let r = rs.last();
        let off = 12 * i;
        assert(b.subrange(off, off + 4) =~= be32(r.cost));
        assert(b.subrange(off + 4, off + 8) =~= be32(r.address));
        assert(b.subrange(off + 8, off + 12) =~= be32(r.mask));
        lemma_read32_be32(r.cost, b, off);
        lemma_read32_be32(r.address, b, off + 4);
        lemma_read32_be32(r.mask, b, off + 8);
    } else {
        lemma_routes_bytes_read(t, i);
        let bt = routes_bytes(t);
        assert forall|k: int| 0 <= k < bt.len() implies b[k] == bt[k] by {}
    }
}

/// The wire form of a message is 4 bytes plus 12 per route.
pub proof fn lemma_serialize_len(n: u16, rs: Seq<RipRoute>)
    ensures
        forall|c: u16| #[trigger] spec_serialize_rip(RipMsgView { command: c, num_entries: n, routes: rs }).len() == 4 + 12 * rs.len(),
{
    lemma_routes_bytes_len(rs);
}

/// Serializes a RIP message to bytes.
pub fn serialize_rip(rip_msg: RipMsg) -> (buf: Vec<u8>)
    ensures
        buf@ == spec_serialize_rip(rip_msg@),
{
    let mut buf: Vec<u8> = Vec::new();
    push_be16(&mut buf, rip_msg.command);
    push_be16(&mut buf, rip_msg.num_entries);
    let ghost head = buf@;
    let mut i: usize = 0;
    while i < rip_msg.routes.len()
        invariant
            i <= rip_msg.routes@.len(),
            head == be16(rip_msg.command) + be16(rip_msg.num_entries),
            buf@ == head + routes_bytes(rip_msg.routes@.take(i as int)),
        decreases rip_msg.routes@.len() - i,
    {
        let route = rip_msg.routes[i];
        push_be32(&mut buf, route.cost);
        push_be32(&mut buf, route.address);
        push_be32(&mut buf, route.mask);
        proof {
            assert(rip_msg.routes@.take(i + 1).drop_last() =~= rip_msg.routes@.take(i as int));
            assert(buf@ =~= head + routes_bytes(rip_msg.routes@.take(i + 1)));
        }
        i = i + 1;
    }
    proof { assert(rip_msg.routes@.take(i as int) =~= rip_msg.routes@); }
    buf
}

/// Reads a RIP message from bytes that hold at least as many routes as the
/// header announces.
pub fn deserialize_rip(buf: Vec<u8>) -> (m: RipMsg)
    requires
        rip_bytes_complete(buf@),
    ensures
        m@ == spec_deserialize_rip(buf@),
{
    let command = get_be16(buf.as_slice(), 0);
    let num_entries = get_be16(buf.as_slice(), 2);
    let mut routes: Vec<RipRoute> = Vec::new();
    let mut offset: usize = 4;
    let mut n: u16 = 0;
    while n < num_entries
        invariant
            num_entries == read16(buf@, 2),
            rip_bytes_complete(buf@),
            n <= num_entries,
            offset == 4 + 12 * n,
            routes@ == Seq::new(n as nat, |i: int| read_route(buf@, 4 + 12 * i)),
        decreases num_entries - n,
    {
        let cost = get_be32(buf.as_slice(), offset);
        let address = get_be32(buf.as_slice(), offset + 4);
        let mask = get_be32(buf.as_slice(), offset + 8);
        routes.push(RipRoute::new(cost, address, mask));
        offset = offset + 12;
        n = n + 1;
        proof {
            assert(routes@ =~= Seq::new(n as nat, |i: int| read_route(buf@, 4 + 12 * i)));
        }
    }
    let m = RipMsg::new(command, num_entries, routes);
    assert(m@.routes =~= spec_deserialize_rip(buf@).routes);
    m
}

/// Reading the bytes of a message whose entry count matches its routes
/// gives back the message.
pub proof fn lemma_rip_roundtrip(m: RipMsgView)
    requires
        m.num_entries == m.routes.len(),
    ensures
        rip_bytes_complete(spec_serialize_rip(m)),
        spec_deserialize_rip(spec_serialize_rip(m)) == m,
{
    let b = spec_serialize_rip(m);
    lemma_routes_bytes_len(m.routes);
    assert(b.subrange(0, 2) =~= be16(m.command));
    assert(b.subrange(2, 4) =~= be16(m.num_entries));
    lemma_read16_be16(m.command, b, 0);
    lemma_read16_be16(m.num_entries, b, 2);
    let d = spec_deserialize_rip(b);
    assert forall|i: int| 0 <= i < m.routes.len() implies d.routes[i] == m.routes[i] by {
        lemma_routes_bytes_read(m.routes, i);
        let rb = routes_bytes(m.routes);
        assert forall|k: int| 0 <= k < rb.len() implies b[4 + k] == rb[k] by {}
        assert(read32(b, 4 + 12 * i) == read32(rb, 12 * i));
        assert(read32(b, 4 + 12 * i + 4) == read32(rb, 12 * i + 4));
        assert(read32(b, 4 + 12 * i + 8) == read32(rb, 12 * i + 8));
    }
    assert(d.routes =~= m.routes);
}

proof fn lemma_routes_bytes_of_read(b: Seq<u8>, n: nat)
    requires
        b.len() >= 4 + 12 * n,
    ensures
        routes_bytes(Seq::new(n, |i: int| read_route(b, 4 + 12 * i))) == b.subrange(4, 4 + 12 * (n as int)),
    decreases n,
{
    let rs = Seq::new(n, |i: int| read_route(b, 4 + 12 * i));
    if n > 0 {
        let m = (n - 1) as nat;
        lemma_routes_bytes_of_read(b, m);
        assert(rs.drop_last() =~= Seq::new(m, |i: int| read_route(b, 4 + 12 * i)));
        let off: int = 4 + 12 * (m as int);
        lemma_be32_read32(b, off);
        lemma_be32_read32(b, off + 4);
        lemma_be32_read32(b, off + 8);
        assert(route_bytes(rs.last()) =~= b.subrange(off, off + 12));
        assert(b.subrange(4, off) + b.subrange(off, off + 12) =~= b.subrange(4, 4 + 12 * (n as int)));
    } else {
        assert(b.subrange(4, 4) =~= Seq::<u8>::empty());
    }
}

/// Writing out the message read from complete bytes gives back those bytes,
/// up to the end of the announced routes.
pub proof fn lemma_rip_bytes_roundtrip(b: Seq<u8>)
    requires
        rip_bytes_complete(b),
    ensures
        spec_serialize_rip(spec_deserialize_rip(b)) == b.subrange(0, 4 + 12 * read16(b, 2)),
{
    let n = read16(b, 2) as nat;
    lemma_be16_read16(b, 0);
    lemma_be16_read16(b, 2);
    lemma_routes_bytes_of_read(b, n);
    assert(b.subrange(0, 2) + b.subrange(2, 4) + b.subrange(4, 4 + 12 * (n as int)) =~= b.subrange(0, 4 + 12 * (n as int)));
}

/// Poisoned reverse: routes learned through `dst` or through a RIP neighbor
/// are advertised with infinite cost; local routes (cost 0) and all others
/// are advertised unchanged.
pub open spec fn spec_poison(r: RipRoute, neighbors: Set<u32>, dst: u32) -> RipRoute {
    if r.cost == 0 {
        r
    } else if r.address == dst || neighbors.contains(r.address) {
        RipRoute { cost: INF, address: r.address, mask: r.mask }
    } else {
        r
    }
}

/// Applies poisoned reverse to every route, keeping their order.
pub fn poison_routes(routes: Vec<RipRoute>, neighbor_routes: &RipNeighbors, dst: u32) -> (r: Vec<RipRoute>)
    ensures
        r@.len() == routes@.len(),
        forall|i: int| 0 <= i < routes@.len() ==> r@[i] == spec_poison(#[trigger] routes@[i], neighbor_routes@.dom(), dst),
{
    let mut ret_routes: Vec<RipRoute> = Vec::new();
    let mut i: usize = 0;
    while i < routes.len()
        invariant
            i <= routes@.len(),
            ret_routes@.len() == i,
            forall|j: int| 0 <= j < i ==> ret_routes@[j] == spec_poison(#[trigger] routes@[j], neighbor_routes@.dom(), dst),
        decreases routes@.len() - i,
    {
        let route = routes[i];
        if route.cost == 0 {
            ret_routes.push(route);
        } else if route.address == dst {
            ret_routes.push(RipRoute::new(INF, route.address, route.mask));
        } else if neighbor_routes.contains_key(&route.address) {
            ret_routes.push(RipRoute::new(INF, route.address, route.mask));
        } else {
            ret_routes.push(route);
        }
        i = i + 1;
    }
    ret_routes
}

} // verus!

verus! {

/// The prefix that an advertised route names: its address truncated to its
/// netmask.
pub open spec fn rip_net(rt: RipRoute) -> Ipv4Net {
    let l = spec_mask_len(rt.mask)->0;
    Ipv4Net { addr: rt.address & spec_netmask(l), prefix_len: l }
}

/// The route that an advertisement from `next_hop` becomes in the table.
pub open spec fn spec_rip_to_route(rt: RipRoute, next_hop: u32, now: u64) -> Route {
    Route {
        rtype: RouteType::Rip,
        cost: Some(rt.cost),
        next_hop: ForwardingOption::Ip(next_hop),
        creation_time: now,
    }
}

/// Whether an advertisement can be applied to a table: its netmask is
/// contiguous, its cost can be incremented, and the table holds no route
/// for its prefix that leads to this node or has no cost.
pub open spec fn rip_update_ok(m: Map<Ipv4Net, Route>, rt: RipRoute) -> bool {
    &&& spec_mask_len(rt.mask) is Some
    &&& rt.cost < u32::MAX
    &&& m.contains_key(rip_net(rt)) ==> {
        &&& !(m[rip_net(rt)].next_hop is ToSelf)
        &&& m[rip_net(rt)].cost is Some
    }
}

/// Whether the advertisement (with its cost already incremented) replaces
/// the route the table holds: when the table has none, when the new route is
/// cheaper, or when the old route goes through the advertised address.
pub open spec fn rip_replaces(m: Map<Ipv4Net, Route>, rt: RipRoute) -> bool {
    let net = rip_net(rt);
    !m.contains_key(net)
        || m[net].cost->0 > rt.cost
        || m[net].next_hop == ForwardingOption::Ip(rt.address)
}

/// Only a strictly cheaper advertisement (its cost already incremented)
/// displaces a route that the table holds with a cost, unless that route goes
/// through the advertised address: one that costs the same or more, from any
/// other neighbour, leaves the route where it is, so equal-cost routes do not
/// flap between neighbours. A cheaper one always replaces it.
pub proof fn lemma_only_cheaper_replaces(m: Map<Ipv4Net, Route>, rt: RipRoute)
    requires
        m.contains_key(rip_net(rt)),
        m[rip_net(rt)].cost is Some,
    ensures
        rt.cost >= m[rip_net(rt)].cost->0 && m[rip_net(rt)].next_hop != ForwardingOption::Ip(rt.address)
            ==> !rip_replaces(m, rt),
        rt.cost < m[rip_net(rt)].cost->0 ==> rip_replaces(m, rt),
{
}

/// The route a RIP advertisement becomes.
pub fn rip_to_route(rip_rt: &RipRoute, next_hop: u32, now: u64) -> (r: Route)
    ensures
        r == spec_rip_to_route(*rip_rt, next_hop, now),
{
    Route::new(RouteType::Rip, Some(rip_rt.cost), ForwardingOption::Ip(next_hop), now)
}

/// Updates the table with one advertised route, learned from `next_hop` at
/// time `now`: the route's cost goes up by one hop, then it replaces the
/// table's route for its prefix if `rip_replaces` says so. Returns the
/// prefix when the table changed.
pub fn route_update(rip_rt: &mut RipRoute, fwd_table: &mut ForwardingTable, next_hop: u32, now: u64) -> (r: Option<Ipv4Net>)
    requires
        old(fwd_table).wf(),
        rip_update_ok(old(fwd_table).view(), *old(rip_rt)),
    ensures
        final(fwd_table).wf(),
        *final(rip_rt) == (RipRoute { cost: (old(rip_rt).cost + 1) as u32, ..*old(rip_rt) }),
        rip_net(*final(rip_rt)) == rip_net(*old(rip_rt)),
        rip_replaces(old(fwd_table).view(), *final(rip_rt)) ==> {
            &&& final(fwd_table).view() == old(fwd_table).view().insert(rip_net(*old(rip_rt)), spec_rip_to_route(*final(rip_rt), next_hop, now))
            &&& r == Some(rip_net(*old(rip_rt)))
        },
        !rip_replaces(old(fwd_table).view(), *final(rip_rt)) ==> {
            &&& final(fwd_table).view() == old(fwd_table).view()
            &&& r is None
        },
        ({
            let net = rip_net(*old(rip_rt));
            let m = old(fwd_table).view();
            m.contains_key(net) && m[net].cost is Some && old(rip_rt).cost + 1 >= m[net].cost->0
                && m[net].next_hop != ForwardingOption::Ip(old(rip_rt).address)
                ==> final(fwd_table).view() == m && r is None
        }),
        ({
            let net = rip_net(*old(rip_rt));
            let m = old(fwd_table).view();
            m.contains_key(net) && m[net].cost is Some && old(rip_rt).cost + 1 < m[net].cost->0
                ==> r == Some(net) && final(fwd_table).view().contains_key(net)
                    && final(fwd_table).view()[net].cost == Some((old(rip_rt).cost + 1) as u32)
                    && final(fwd_table).view()[net].next_hop == ForwardingOption::Ip(next_hop)
        }),
{
    let net = match with_netmask(rip_rt.address, rip_rt.mask) {
        Some(n) => n.trunc(),
        None => { return None; },
    };
    rip_rt.cost = rip_rt.cost + 1;
    let replace = match fwd_table.get(&net) {
        Some(prev) => {
            match prev.cost {
                Some(cost) => {
                    if cost > rip_rt.cost {
                        true
                    } else {
                        match prev.next_hop {
                            ForwardingOption::Ip(a) => a == rip_rt.address,
                            _ => false,
                        }
                    }
                },
                None => false,
            }
        },
        None => true,
    };
    if replace {
        fwd_table.insert(net, rip_to_route(rip_rt, next_hop, now));
        Some(net)
    } else {
        None
    }
}

/// Whether a route is advertised over RIP (routes to this node and static
/// routes are not).
pub open spec fn advertised(r: Route) -> bool {
    r.rtype != RouteType::ToSelf && r.rtype != RouteType::Static
}

/// The RIP route that advertises a table entry.
pub open spec fn rip_entry(e: (Ipv4Net, Route)) -> RipRoute {
    RipRoute { cost: e.1.cost->0, address: e.0.addr, mask: spec_netmask(e.0.prefix_len) }
}

/// The RIP routes that advertise the entries of `s`, in order.
pub open spec fn rip_routes_of(s: Seq<(Ipv4Net, Route)>) -> Seq<RipRoute>
    decreases s.len(),
{
    if s.len() == 0 {
        Seq::empty()
    } else if advertised(s.last().1) {
        rip_routes_of(s.drop_last()).push(rip_entry(s.last()))
    } else {
        rip_routes_of(s.drop_last())
    }
}

/// Every advertised entry of `s` has a cost.
pub open spec fn advertised_have_cost(s: Seq<(Ipv4Net, Route)>) -> bool {
    forall|i: int| 0 <= i < s.len() && advertised(#[trigger] s[i].1) ==> s[i].1.cost is Some
}

/// The entries of `m` for the prefixes `nets`, each prefix once, in the
/// order of its first occurrence.
pub open spec fn entries_for(m: Map<Ipv4Net, Route>, nets: Seq<Ipv4Net>) -> Seq<(Ipv4Net, Route)>
    decreases nets.len(),
{
    if nets.len() == 0 {
        Seq::empty()
    } else if nets.drop_last().contains(nets.last()) {
        entries_for(m, nets.drop_last())
    } else {
        entries_for(m, nets.drop_last()).push((nets.last(), m[nets.last()]))
    }
}

/// The routes of a RIP response for entries `s`.
pub fn entries_to_rip(s: &Vec<(Ipv4Net, Route)>) -> (r: Vec<RipRoute>)
    requires
        advertised_have_cost(s@),
    ensures
        r@ == rip_routes_of(s@),
{
    let mut out: Vec<RipRoute> = Vec::new();
    let mut i: usize = 0;
    while i < s.len()
        invariant
            i <= s@.len(),
            advertised_have_cost(s@),
            out@ == rip_routes_of(s@.take(i as int)),
        decreases s@.len() - i,
    {
        proof { assert(s@.take(i + 1).drop_last() =~= s@.take(i as int)); }
        let net = s[i].0;
        let route = &s[i].1;
        match route.rtype {
            RouteType::ToSelf | RouteType::Static => {},
            _ => {
                let cost = match route.cost {
                    Some(c) => c,
                    None => 0,
                };
                out.push(RipRoute::new(cost, net.addr, net.netmask()));
            },
        }
        i = i + 1;
    }
    proof { assert(s@.take(i as int) =~= s@); }
    out
}

/// A RIP response advertising the table's routes: all of them when `nets`
/// is `None`, otherwise those for the given prefixes (each once). Routes to
/// this node and static routes are left out.
pub fn table_to_rip(table: &ForwardingTable, nets: Option<&Vec<Ipv4Net>>) -> (m: RipMsg)
    requires
        table.wf(),
        advertised_have_cost(table.seq()),
        nets matches Some(ns) ==> forall|i: int| 0 <= i < ns@.len() ==> table.view().contains_key(#[trigger] ns@[i]),
    ensures
        m@.command == 2,
        m@.num_entries == m@.routes.len() as u16,
        nets is None ==> m@.routes == rip_routes_of(table.seq()),
        nets matches Some(ns) ==> m@.routes == rip_routes_of(entries_for(table.view(), ns@)),
{
    let routes = match nets {
        None => entries_to_rip(&table.entries),
        Some(ns) => {
            let mut subset: Vec<(Ipv4Net, Route)> = Vec::new();
            let mut i: usize = 0;
            while i < ns.len()
                invariant
                    i <= ns@.len(),
                    table.wf(),
                    advertised_have_cost(table.seq()),
                    forall|j: int| 0 <= j < ns@.len() ==> table.view().contains_key(#[trigger] ns@[j]),
                    subset@ == entries_for(table.view(), ns@.take(i as int)),
                    forall|j: int| 0 <= j < subset@.len() ==> table.view().contains_key(#[trigger] subset@[j].0)
                        && subset@[j].1 == table.view()[subset@[j].0],
                decreases ns@.len() - i,
            {
                proof { assert(ns@.take(i + 1).drop_last() =~= ns@.take(i as int)); }
                let net = ns[i];
                let mut seen = false;
                let mut j: usize = 0;
                while j < i
                    invariant
                        j <= i,
                        i < ns@.len(),
                        seen <==> ns@.take(j as int).contains(net),
                    decreases i - j,
                {
                    proof {
                        let t0 = ns@.take(j as int);
                        let t1 = ns@.take(j + 1);
                        assert(t1 =~= t0.push(ns@[j as int]));
                        if t0.contains(net) {
                            let w = choose|w: int| 0 <= w < t0.len() && t0[w] == net;
                            assert(t1[w] == net);
                        }
                        if ns@[j as int] == net {
                            assert(t1[j as int] == net);
                        }
                        if t1.contains(net) && ns@[j as int] != net {
                            let w = choose|w: int| 0 <= w < t1.len() && t1[w] == net;
                            assert(t0[w] == net);
                        }
                    }
                    if ns[j] == net {
                        seen = true;
                    }
                    j = j + 1;
                }
                if !seen {
                    match table.get(&net) {
                        Some(route) => {
                            subset.push((net, route.duplicate()));
                        },
                        None => {},
                    }
                }
                i = i + 1;
            }
            proof {
                assert(ns@.take(i as int) =~= ns@);
                assert forall|j: int| 0 <= j < subset@.len() && advertised(#[trigger] subset@[j].1) implies subset@[j].1.cost is Some by {
                    let k = subset@[j].0;
                    let t = choose|t: int| 0 <= t < table.seq().len() && table.seq()[t].0 == k;
                    crate::table::lemma_map_index(table.seq(), t);
                }
            }
            entries_to_rip(&subset)
        },
    };
    let n = routes.len() as u16;
    RipMsg::new(2, n, routes)
}

/// Applies every route of a RIP response from `next_hop` to the table, in
/// order, incrementing each route's cost; returns the prefixes whose route
/// changed, or `None` when none did.
pub fn update_fwd_table(table: &mut ForwardingTable, rip_msg: &mut RipMsg, next_hop: u32, now: u64) -> (r: Option<Vec<Ipv4Net>>)
    requires
        old(table).wf(),
        forall|i: int| 0 <= i < old(rip_msg).routes@.len() ==> rip_update_ok(old(table).view(), #[trigger] old(rip_msg).routes@[i]),
    ensures
        final(table).wf(),
        final(table).view() == apply_updates(old(table).view(), old(rip_msg).routes@, next_hop, now),
        final(rip_msg)@.command == old(rip_msg)@.command,
        final(rip_msg)@.num_entries == old(rip_msg)@.num_entries,
        final(rip_msg)@.routes.len() == old(rip_msg)@.routes.len(),
        forall|i: int| 0 <= i < old(rip_msg).routes@.len() ==> #[trigger] final(rip_msg).routes@[i]
            == (RipRoute { cost: (old(rip_msg).routes@[i].cost + 1) as u32, ..old(rip_msg).routes@[i] }),
        r is None <==> changed_nets(old(table).view(), old(rip_msg).routes@, next_hop, now).len() == 0,
        r matches Some(v) ==> v@ == changed_nets(old(table).view(), old(rip_msg).routes@, next_hop, now),
{
    let ghost m0 = table.view();
    let ghost rs = rip_msg.routes@;
    let mut updated: Vec<Ipv4Net> = Vec::new();
    let mut i: usize = 0;
    while i < rip_msg.routes.len()
        invariant
            i <= rip_msg.routes@.len(),
            rip_msg.routes@.len() == rs.len(),
            rip_msg.command == old(rip_msg).command,
            rip_msg.num_entries == old(rip_msg).num_entries,
            table.wf(),
            forall|j: int| i <= j < rs.len() ==> rip_msg.routes@[j] == rs[j],
            forall|j: int| 0 <= j < i ==> #[trigger] rip_msg.routes@[j]
                == (RipRoute { cost: (rs[j].cost + 1) as u32, ..rs[j] }),
            forall|j: int| i <= j < rs.len() ==> rip_update_ok(table.view(), #[trigger] rs[j]),
            table.view() == apply_updates(m0, rs.take(i as int), next_hop, now),
            updated@ == changed_nets(m0, rs.take(i as int), next_hop, now),
        decreases rs.len() - i,
    {
        let mut rt = rip_msg.routes[i];
        assert(rt == rs[i as int]);
        assert(rip_update_ok(table.view(), rs[i as int]));
        let ghost before = table.view();
        let changed = route_update(&mut rt, table, next_hop, now);
        rip_msg.routes.set(i, rt);
        proof {
            assert(rs.take(i + 1).drop_last() =~= rs.take(i as int));
            assert forall|j: int| i + 1 <= j < rs.len() implies rip_update_ok(table.view(), #[trigger] rs[j]) by {
                assert(rip_update_ok(before, rs[j]));
            }
        }
        match changed {
            Some(net) => { updated.push(net); },
            None => {},
        }
        i = i + 1;
    }
    proof { assert(rs.take(i as int) =~= rs); }
    if updated.len() == 0 {
        None
    } else {
        Some(updated)
    }
}

/// An advertised route with its cost incremented by one hop.
pub open spec fn bump(rt: RipRoute) -> RipRoute {
    RipRoute { cost: (rt.cost + 1) as u32, ..rt }
}

/// The table after applying the advertisements `rs` from `next_hop`, in order.
pub open spec fn apply_updates(m: Map<Ipv4Net, Route>, rs: Seq<RipRoute>, next_hop: u32, now: u64) -> Map<Ipv4Net, Route>
    decreases rs.len(),
{
    if rs.len() == 0 {
        m
    } else {
        let prev = apply_updates(m, rs.drop_last(), next_hop, now);
        let rt = bump(rs.last());
        if rip_replaces(prev, rt) {
            prev.insert(rip_net(rt), spec_rip_to_route(rt, next_hop, now))
        } else {
            prev
        }
    }
}

/// The prefixes whose route changed while applying the advertisements `rs`.
pub open spec fn changed_nets(m: Map<Ipv4Net, Route>, rs: Seq<RipRoute>, next_hop: u32, now: u64) -> Seq<Ipv4Net>
    decreases rs.len(),
{
    if rs.len() == 0 {
        Seq::empty()
    } else {
        let prev = apply_updates(m, rs.drop_last(), next_hop, now);
        let rt = bump(rs.last());
        if rip_replaces(prev, rt) {
            changed_nets(m, rs.drop_last(), next_hop, now).push(rip_net(rt))
        } else {
            changed_nets(m, rs.drop_last(), next_hop, now)
        }
    }
}

/// The addresses of the RIP neighbors, each once, in the map's order.
pub fn neighbor_addrs(n: &RipNeighbors) -> (v: Vec<u32>)
    ensures
        v@.to_set() == n@.dom(),
        v@.no_duplicates(),
        v@.len() == n@.dom().len(),
{
    let mut v: Vec<u32> = Vec::new();
    for k in it: n.keys()
        invariant
            v@.len() == it.index(),
            forall|i: int| 0 <= i < v@.len() ==> v@[i] == *it.seq()[i],
    {
        v.push(*k);
    }
    proof {
        let ks = vstd::std_specs::iter::IteratorSpec::remaining(&vstd::std_specs::hash::spec_keys_iter(n));
        assert(v@ =~= ks.unref());
    }
    v
}

/// Every advertised route that the map holds has a cost.
pub open spec fn map_costs(m: Map<Ipv4Net, Route>) -> bool {
    forall|k: Ipv4Net| #[trigger] m.contains_key(k) && advertised(m[k]) ==> m[k].cost is Some
}

/// A table's entries have costs where advertised exactly when its map does.
pub proof fn lemma_costs_seq_map(s: Seq<(Ipv4Net, Route)>)
    requires
        keys_unique(s),
    ensures
        advertised_have_cost(s) <==> map_costs(crate::table::seq_to_map(s)),
{
    let m = crate::table::seq_to_map(s);
    if advertised_have_cost(s) {
        assert forall|k: Ipv4Net| #[trigger] m.contains_key(k) && advertised(m[k]) implies m[k].cost is Some by {
            let i = choose|i: int| 0 <= i < s.len() && s[i].0 == k;
            crate::table::lemma_map_index(s, i);
        }
    }
    if map_costs(m) {
        assert forall|i: int| 0 <= i < s.len() && advertised(#[trigger] s[i].1) implies s[i].1.cost is Some by {
            crate::table::lemma_map_index(s, i);
        }
    }
}

/// Applying RIP advertisements keeps every advertised route costed.
pub proof fn lemma_apply_updates_costs(m: Map<Ipv4Net, Route>, rs: Seq<RipRoute>, next_hop: u32, now: u64)
    requires
        map_costs(m),
    ensures
        map_costs(apply_updates(m, rs, next_hop, now)),
    decreases rs.len(),
{
    if rs.len() > 0 {
        lemma_apply_updates_costs(m, rs.drop_last(), next_hop, now);
    }
}

/// Applying RIP advertisements never removes a prefix, and every prefix it
/// reports as changed is in the resulting table.
pub proof fn lemma_changed_in_table(m: Map<Ipv4Net, Route>, rs: Seq<RipRoute>, next_hop: u32, now: u64)
    ensures
        m.dom().subset_of(apply_updates(m, rs, next_hop, now).dom()),
        forall|i: int| 0 <= i < changed_nets(m, rs, next_hop, now).len()
            ==> apply_updates(m, rs, next_hop, now).contains_key(#[trigger] changed_nets(m, rs, next_hop, now)[i]),
        changed_nets(m, rs, next_hop, now).len() <= rs.len(),
    decreases rs.len(),
{
    if rs.len() > 0 {
        lemma_changed_in_table(m, rs.drop_last(), next_hop, now);
    }
}

/// A RIP message has at most one route per entry.
pub proof fn lemma_rip_routes_len(s: Seq<(Ipv4Net, Route)>)
    ensures
        rip_routes_of(s).len() <= s.len(),
    decreases s.len(),
{
    if s.len() > 0 {
        lemma_rip_routes_len(s.drop_last());
    }
}

/// There are at most as many entries as prefixes asked for.
pub proof fn lemma_entries_for_len(m: Map<Ipv4Net, Route>, nets: Seq<Ipv4Net>)
    ensures
        entries_for(m, nets).len() <= nets.len(),
    decreases nets.len(),
{
    if nets.len() > 0 {
        lemma_entries_for_len(m, nets.drop_last());
    }
}

/// Whether `buf` holds at least as many routes as its header announces (see
/// `deserialize_rip`).
pub fn rip_bytes_ok(buf: &Vec<u8>) -> (b: bool)
    ensures
        b == rip_bytes_complete(buf@),
{
    if buf.len() < 4 {
        return false;
    }
    let n = get_be16(buf.as_slice(), 2);
    (buf.len() as u64) >= 4 + 12 * (n as u64)
}

/// Whether advertisement `rt` can be applied to `table` (see
/// `rip_update_ok`).
pub fn rip_update_check(table: &ForwardingTable, rt: &RipRoute) -> (b: bool)
    requires
        table.wf(),
    ensures
        b == rip_update_ok(table.view(), *rt),
{
    let net = match with_netmask(rt.address, rt.mask) {
        Some(n) => n.trunc(),
        None => { return false; },
    };
    if rt.cost == u32::MAX {
        return false;
    }
    match table.get(&net) {
        None => true,
        Some(route) => {
            let to_self = match route.next_hop {
                ForwardingOption::ToSelf => true,
                _ => false,
            };
            !to_self && route.cost.is_some()
        },
    }
}

/// Whether every advertisement of `routes` can be applied to `table`.
pub fn rip_updates_check(table: &ForwardingTable, routes: &Vec<RipRoute>) -> (b: bool)
    requires
        table.wf(),
    ensures
        b == forall|i: int| 0 <= i < routes@.len() ==> rip_update_ok(table.view(), #[trigger] routes@[i]),
{
    let mut i: usize = 0;
    while i < routes.len()
        invariant
            table.wf(),
            i <= routes@.len(),
            forall|j: int| 0 <= j < i ==> rip_update_ok(table.view(), #[trigger] routes@[j]),
        decreases routes@.len() - i,
    {
        if !rip_update_check(table, &routes[i]) {
            return false;
        }
        i = i + 1;
    }
    true
}

} // verus!
