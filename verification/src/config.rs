//! A node's configuration (its interfaces, their neighbors, static routes,
//! routing mode and RIP neighbors) and the start of a node from it: the
//! interface records, the forwarding table, and the host or router side.

use vstd::prelude::*;
use std::collections::HashMap;
use crate::net::Ipv4Net;
use crate::routing::{ForwardingTable, ForwardingOption, Route, RouteType, RouteError, resolve, lemma_self_route};
use crate::interfaces::{InterfaceTable, InterfaceRep, Interface, InterfaceStatus};
use crate::rip::{RipNeighbors, advertised, advertised_have_cost, map_costs, lemma_costs_seq_map};
use crate::daemon::{HostIpDaemon, RouterIpDaemon};
use crate::backend::{Backend, HostBackend, RouterBackend};

verus! {

/// How a node routes: a host (no routing), a router with static routes
/// only, or a RIP router.
#[derive(Clone, Copy, Debug, PartialEq, Eq, Structural)]
pub enum RoutingType {
    NoRouting,
    Static,
    Rip,
}

/// One interface of the configuration.
#[derive(Debug)]
pub struct InterfaceConfig {
    pub name: String,
    pub assigned_prefix: Ipv4Net,
    pub assigned_ip: u32,
    pub udp_addr: u32,
    pub udp_port: u16,
}

/// One neighbor of the configuration, reached through an interface.
#[derive(Debug)]
pub struct NeighborConfig {
    pub dest_addr: u32,
    pub udp_addr: u32,
    pub udp_port: u16,
    pub interface_name: String,
}

/// A node's configuration.
#[derive(Debug)]
pub struct IPConfig {
    pub interfaces: Vec<InterfaceConfig>,
    pub neighbors: Vec<NeighborConfig>,
    pub routing_mode: RoutingType,
    /// Static routes: prefix and next-hop address.
    pub static_routes: Vec<(Ipv4Net, u32)>,
    pub rip_neighbors: Option<Vec<u32>>,
}

/// The neighbors reached through interface `name`: the address and UDP port
/// of every neighbor that names it, in order.
pub open spec fn neighbors_of(ns: Seq<NeighborConfig>, name: Seq<char>) -> Seq<(u32, u16)>
    decreases ns.len(),
{
    if ns.len() == 0 {
        Seq::empty()
    } else if ns.last().interface_name@ == name {
        neighbors_of(ns.drop_last(), name).push((ns.last().dest_addr, ns.last().udp_port))
    } else {
        neighbors_of(ns.drop_last(), name)
    }
}

/// The neighbors reached through interface `name` (see `neighbors_of`).
pub fn neighbors_for(neighbors: &Vec<NeighborConfig>, name: &String) -> (v: Vec<(u32, u16)>)
    ensures
        v@ == neighbors_of(neighbors@, name@),
{
    let mut v: Vec<(u32, u16)> = Vec::new();
    let mut i: usize = 0;
    while i < neighbors.len()
        invariant
            i <= neighbors@.len(),
            v@ == neighbors_of(neighbors@.take(i as int), name@),
        decreases neighbors@.len() - i,
    {
        proof {
            assert(neighbors@.take(i + 1).drop_last() =~= neighbors@.take(i as int));
            assert(neighbors@.take(i + 1).last() == neighbors@[i as int]);
        }
        if neighbors[i].interface_name == *name {
            v.push((neighbors[i].dest_addr, neighbors[i].udp_port));
        }
        i = i + 1;
    }
    proof { assert(neighbors@.take(i as int) =~= neighbors@); }
    v
}

/// The record a node keeps of a configured interface.
pub open spec fn rep_of(c: InterfaceConfig, ns: Seq<NeighborConfig>) -> (Seq<char>, Ipv4Net, u32, InterfaceStatus, Seq<(u32, u16)>) {
    (c.name@, c.assigned_prefix, c.assigned_ip, InterfaceStatus::Up, neighbors_of(ns, c.name@))
}

/// The fields of an interface record.
pub open spec fn rep_fields(r: InterfaceRep) -> (Seq<char>, Ipv4Net, u32, InterfaceStatus, Seq<(u32, u16)>) {
    (r.name@, r.v_net, r.v_ip, r.status, r.neighbors@)
}

/// Whether interface `inter` is the one made from configuration `c`: up,
/// with the configured name, addresses and port, and the neighbors that
/// name it.
pub open spec fn made_from(inter: Interface, c: InterfaceConfig, ns: Seq<NeighborConfig>) -> bool {
    &&& inter.name@ == c.name@
    &&& inter.v_ip == c.assigned_ip
    &&& inter.v_net == c.assigned_prefix
    &&& inter.udp_port == c.udp_port
    &&& inter.neighbors@ == neighbors_of(ns, c.name@)
    &&& inter.status == InterfaceStatus::Up
}

/// Whether no later configuration has the name of configuration `i`.
pub open spec fn last_with_name(cs: Seq<InterfaceConfig>, i: int) -> bool {
    forall|j: int| i < j < cs.len() ==> (#[trigger] cs[j]).name@ != cs[i].name@
}

/// Whether some configuration is named `n`.
pub open spec fn configured(cs: Seq<InterfaceConfig>, n: Seq<char>) -> bool {
    exists|i: int| 0 <= i < cs.len() && (#[trigger] cs[i]).name@ == n
}

/// Whether interface records `t` are those made from configurations `cs`
/// (with neighbors `ns`): one record per configured name, that of the last
/// configuration with the name.
pub open spec fn reps_from(t: InterfaceTable, cs: Seq<InterfaceConfig>, ns: Seq<NeighborConfig>) -> bool {
    &&& t.wf()
    &&& forall|n: Seq<char>| #[trigger] t.has(n) <==> configured(cs, n)
    &&& forall|i: int| 0 <= i < cs.len() && last_with_name(cs, i)
            ==> rep_fields(t.rep(#[trigger] cs[i].name@)) == rep_of(cs[i], ns)
}

/// Recording one more configuration `c` keeps the records those made from
/// the configurations so far.
pub proof fn lemma_reps_from_push(t0: InterfaceTable, t1: InterfaceTable, cs: Seq<InterfaceConfig>, c: InterfaceConfig, ns: Seq<NeighborConfig>)
    requires
        reps_from(t0, cs, ns),
        t1.wf(),
        t1.has(c.name@),
        rep_fields(t1.rep(c.name@)) == rep_of(c, ns),
        forall|n: Seq<char>| n != c.name@ ==> #[trigger] t1.has(n) == t0.has(n),
        forall|n: Seq<char>| n != c.name@ && t0.has(n) ==> #[trigger] t1.rep(n) == t0.rep(n),
    ensures
        reps_from(t1, cs.push(c), ns),
{
    let cs1 = cs.push(c);
    let i = cs.len() as int;
    assert(cs1[i] == c);
    assert forall|n: Seq<char>| #[trigger] t1.has(n) <==> configured(cs1, n) by {
        if n == c.name@ {
            assert(cs1[i].name@ == n);
        } else {
            if configured(cs, n) {
                let j = choose|j: int| 0 <= j < cs.len() && (#[trigger] cs[j]).name@ == n;
                assert(cs1[j] == cs[j]);
            }
            if configured(cs1, n) {
                let j = choose|j: int| 0 <= j < cs1.len() && (#[trigger] cs1[j]).name@ == n;
                assert(j < i);
                assert(cs1[j] == cs[j]);
            }
        }
    }
    assert forall|k: int| 0 <= k < cs1.len() && last_with_name(cs1, k)
        implies rep_fields(t1.rep(#[trigger] cs1[k].name@)) == rep_of(cs1[k], ns) by {
        if k < i {
            assert(cs1[k] == cs[k]);
            assert(cs[k].name@ != c.name@);
            assert forall|j: int| k < j < cs.len() implies (#[trigger] cs[j]).name@ != cs[k].name@ by {
                assert(cs1[j] == cs[j]);
            }
            assert(last_with_name(cs, k));
            assert(t0.has(cs[k].name@)) by {
                assert(configured(cs, cs[k].name@));
            }
        }
    }
}

/// Makes the interfaces of a configuration: for each configured interface,
/// an interface (up, with the neighbors that name it) and the node's record
/// of it. The records are keyed by name; for a name configured twice the
/// later configuration is the one recorded.
pub fn init_interfaces(interfaces: Vec<InterfaceConfig>, neighbors: Vec<NeighborConfig>) -> (r: (InterfaceTable, Vec<Interface>))
    ensures
        reps_from(r.0, interfaces@, neighbors@),
        r.1@.len() == interfaces@.len(),
        forall|i: int| 0 <= i < interfaces@.len() ==> made_from(#[trigger] r.1@[i], interfaces@[i], neighbors@),
{
    let mut table = InterfaceTable::new();
    let mut made: Vec<Interface> = Vec::new();
    let mut i: usize = 0;
    proof {
        assert forall|n: Seq<char>| #[trigger] table.has(n) <==> configured(interfaces@.take(0), n) by {}
    }
    while i < interfaces.len()
        invariant
            i <= interfaces@.len(),
            made@.len() == i,
            forall|k: int| 0 <= k < i ==> made_from(#[trigger] made@[k], interfaces@[k], neighbors@),
            reps_from(table, interfaces@.take(i as int), neighbors@),
        decreases interfaces@.len() - i,
    {
        let c = &interfaces[i];
        let inter_neighbors = neighbors_for(&neighbors, &c.name);
        let rep_neighbors = neighbors_for(&neighbors, &c.name);
        let ghost t0 = table;
        let rep = InterfaceRep::new(c.name.clone(), c.assigned_prefix, c.assigned_ip, rep_neighbors);
        let inter = Interface::new(c.name.clone(), c.assigned_ip, c.assigned_prefix, c.udp_port, inter_neighbors);
        let ghost made0 = made@;
        table.insert(rep);
        made.push(inter);
        proof {
            let ci = interfaces@[i as int];
            assert(made_from(made@[i as int], ci, neighbors@));
            assert forall|k: int| 0 <= k < i + 1 implies made_from(#[trigger] made@[k], interfaces@[k], neighbors@) by {
                if k < i {
                    assert(made@[k] == made0[k]);
                }
            }
            assert(interfaces@.take(i + 1) =~= interfaces@.take(i as int).push(ci));
            lemma_reps_from_push(t0, table, interfaces@.take(i as int), ci, neighbors@);
        }
        i = i + 1;
    }
    proof { assert(interfaces@.take(i as int) =~= interfaces@); }
    (table, made)
}

/// Adds a static route for every configured one, learned at `now`.
pub fn add_static_routes(fwd_table: &mut ForwardingTable, static_routes: Vec<(Ipv4Net, u32)>, now: u64)
    requires
        old(fwd_table).wf(),
    ensures
        final(fwd_table).wf(),
        final(fwd_table).view() == static_routes_added(old(fwd_table).view(), static_routes@, now),
{
    let mut i: usize = 0;
    while i < static_routes.len()
        invariant
            fwd_table.wf(),
            i <= static_routes@.len(),
            fwd_table.view() == static_routes_added(old(fwd_table).view(), static_routes@.take(i as int), now),
        decreases static_routes@.len() - i,
    {
        proof {
            assert(static_routes@.take(i + 1).drop_last() =~= static_routes@.take(i as int));
        }
        let (net, addr) = static_routes[i];
        fwd_table.insert(net, Route::new(RouteType::Static, None, ForwardingOption::Ip(addr), now));
        i = i + 1;
    }
    proof { assert(static_routes@.take(i as int) =~= static_routes@); }
}

/// The table after adding static routes `rs`, in order.
pub open spec fn static_routes_added(m: Map<Ipv4Net, Route>, rs: Seq<(Ipv4Net, u32)>, now: u64) -> Map<Ipv4Net, Route>
    decreases rs.len(),
{
    if rs.len() == 0 {
        m
    } else {
        static_routes_added(m, rs.drop_last(), now).insert(rs.last().0, Route {
            rtype: RouteType::Static,
            cost: None,
            next_hop: ForwardingOption::Ip(rs.last().1),
            creation_time: now,
        })
    }
}

/// The table after adding, for each interface record of `reps` in order, a
/// local route (cost 0) to its prefix through it.
pub open spec fn local_routes_added(m: Map<Ipv4Net, Route>, reps: Seq<InterfaceRep>, now: u64) -> Map<Ipv4Net, Route>
    decreases reps.len(),
{
    if reps.len() == 0 {
        m
    } else {
        local_routes_added(m, reps.drop_last(), now).insert(reps.last().v_net, Route {
            rtype: RouteType::Local,
            cost: Some(0),
            next_hop: ForwardingOption::Inter(reps.last().name),
            creation_time: now,
        })
    }
}

/// The table after adding, for each interface record of `reps` in order, a
/// route to this node for its address (a /32 prefix).
pub open spec fn toself_routes_added(m: Map<Ipv4Net, Route>, reps: Seq<InterfaceRep>, now: u64) -> Map<Ipv4Net, Route>
    decreases reps.len(),
{
    if reps.len() == 0 {
        m
    } else {
        toself_routes_added(m, reps.drop_last(), now).insert(Ipv4Net { addr: reps.last().v_ip, prefix_len: 32 }, Route {
            rtype: RouteType::ToSelf,
            cost: None,
            next_hop: ForwardingOption::ToSelf,
            creation_time: now,
        })
    }
}

/// Adds a local route through each interface to its prefix.
pub fn add_local_routes(fwd_table: &mut ForwardingTable, interface_reps: &InterfaceTable, now: u64)
    requires
        old(fwd_table).wf(),
    ensures
        final(fwd_table).wf(),
        final(fwd_table).view() == local_routes_added(old(fwd_table).view(), interface_reps.seq(), now),
{
    let mut i: usize = 0;
    while i < interface_reps.reps.len()
        invariant
            fwd_table.wf(),
            i <= interface_reps.seq().len(),
            fwd_table.view() == local_routes_added(old(fwd_table).view(), interface_reps.seq().take(i as int), now),
        decreases interface_reps.seq().len() - i,
    {
        proof {
            assert(interface_reps.seq().take(i + 1).drop_last() =~= interface_reps.seq().take(i as int));
        }
        let rep = &interface_reps.reps[i];
        fwd_table.insert(rep.v_net, Route::new(RouteType::Local, Some(0), ForwardingOption::Inter(rep.name.clone()), now));
        i = i + 1;
    }
    proof { assert(interface_reps.seq().take(i as int) =~= interface_reps.seq()); }
}

/// Adds a route to this node for the address of each interface.
pub fn add_toself_routes(fwd_table: &mut ForwardingTable, interface_reps: &InterfaceTable, now: u64)
    requires
        old(fwd_table).wf(),
    ensures
        final(fwd_table).wf(),
        final(fwd_table).view() == toself_routes_added(old(fwd_table).view(), interface_reps.seq(), now),
{
    let mut i: usize = 0;
    while i < interface_reps.reps.len()
        invariant
            fwd_table.wf(),
            i <= interface_reps.seq().len(),
            fwd_table.view() == toself_routes_added(old(fwd_table).view(), interface_reps.seq().take(i as int), now),
        decreases interface_reps.seq().len() - i,
    {
        proof {
            assert(interface_reps.seq().take(i + 1).drop_last() =~= interface_reps.seq().take(i as int));
        }
        let self_addr = match Ipv4Net::new(interface_reps.reps[i].v_ip, 32) {
            Some(n) => n,
            None => {
                assert(false);
                Ipv4Net { addr: 0, prefix_len: 0 }
            },
        };
        fwd_table.insert(self_addr, Route::new(RouteType::ToSelf, None, ForwardingOption::ToSelf, now));
        i = i + 1;
    }
    proof { assert(interface_reps.seq().take(i as int) =~= interface_reps.seq()); }
}

/// Records each RIP neighbor, with no routes learned from it yet.
pub fn add_rip_neighbors(rip_table: &mut RipNeighbors, rip_neighbors: Vec<u32>)
    ensures
        final(rip_table)@.dom() == old(rip_table)@.dom().union(rip_neighbors@.to_set()),
        forall|a: u32| #[trigger] rip_neighbors@.contains(a) ==> final(rip_table)@[a]@.len() == 0,
        forall|a: u32| !rip_neighbors@.contains(a) && #[trigger] old(rip_table)@.contains_key(a)
            ==> final(rip_table)@[a] == old(rip_table)@[a],
{
    let mut i: usize = 0;
    while i < rip_neighbors.len()
        invariant
            i <= rip_neighbors@.len(),
            rip_table@.dom() == old(rip_table)@.dom().union(rip_neighbors@.take(i as int).to_set()),
            forall|a: u32| #[trigger] rip_neighbors@.take(i as int).contains(a) ==> rip_table@[a]@.len() == 0,
            forall|a: u32| !rip_neighbors@.take(i as int).contains(a) && #[trigger] old(rip_table)@.contains_key(a)
                ==> rip_table@[a] == old(rip_table)@[a],
        decreases rip_neighbors@.len() - i,
    {
        let a = rip_neighbors[i];
        rip_table.insert(a, Vec::new());
        proof {
            let t0 = rip_neighbors@.take(i as int);
            let t1 = rip_neighbors@.take(i + 1);
            assert(t1 =~= t0.push(a));
            t0.lemma_push_to_set_commute(a);
            assert forall|b: u32| t1.contains(b) <==> t0.contains(b) || b == a by {
                if t1.contains(b) {
                    let j = choose|j: int| 0 <= j < t1.len() && t1[j] == b;
                    if j < t0.len() {
                        assert(t0[j] == b);
                    }
                }
                if t0.contains(b) {
                    let j = choose|j: int| 0 <= j < t0.len() && t0[j] == b;
                    assert(t1[j] == b);
                }
                if b == a {
                    assert(t1[i as int] == b);
                }
            }
            assert(rip_table@.dom() =~= old(rip_table)@.dom().union(t1.to_set()));
        }
        i = i + 1;
    }
    proof { assert(rip_neighbors@.take(i as int) =~= rip_neighbors@); }
}

/// Adding static routes keeps every advertised route costed: static
/// routes are not advertised.
proof fn lemma_static_costs(m: Map<Ipv4Net, Route>, rs: Seq<(Ipv4Net, u32)>, now: u64)
    requires
        map_costs(m),
    ensures
        map_costs(static_routes_added(m, rs, now)),
    decreases rs.len(),
{
    if rs.len() > 0 {
        lemma_static_costs(m, rs.drop_last(), now);
    }
}

/// Adding local routes keeps every advertised route costed: they cost 0.
proof fn lemma_local_costs(m: Map<Ipv4Net, Route>, reps: Seq<InterfaceRep>, now: u64)
    requires
        map_costs(m),
    ensures
        map_costs(local_routes_added(m, reps, now)),
    decreases reps.len(),
{
    if reps.len() > 0 {
        lemma_local_costs(m, reps.drop_last(), now);
    }
}

/// Adding routes to this node keeps every advertised route costed: they
/// are not advertised.
proof fn lemma_toself_costs(m: Map<Ipv4Net, Route>, reps: Seq<InterfaceRep>, now: u64)
    requires
        map_costs(m),
    ensures
        map_costs(toself_routes_added(m, reps, now)),
    decreases reps.len(),
{
    if reps.len() > 0 {
        lemma_toself_costs(m, reps.drop_last(), now);
    }
}

/// The forwarding table a node starts with: the static routes, then a local
/// route for each interface, then a route to this node for each interface
/// address.
pub open spec fn initial_table(static_routes: Seq<(Ipv4Net, u32)>, reps: Seq<InterfaceRep>, now: u64) -> Map<Ipv4Net, Route> {
    toself_routes_added(
        local_routes_added(static_routes_added(Map::empty(), static_routes, now), reps, now),
        reps,
        now,
    )
}

/// Whether the interface records and forwarding table are those a node
/// starts with for configuration `c` at time `now`.
pub open spec fn started_from(c: IPConfig, reps: InterfaceTable, fwd: ForwardingTable, now: u64) -> bool {
    &&& reps_from(reps, c.interfaces@, c.neighbors@)
    &&& fwd.wf()
    &&& fwd.view() == initial_table(c.static_routes@, reps.seq(), now)
}

/// The RIP neighbors a router starts with: those configured, with no routes
/// learned from any of them.
pub open spec fn rip_started_from(c: IPConfig, n: Map<u32, Vec<Route>>) -> bool {
    let configured_neighbors = match c.rip_neighbors {
        Some(v) => v@,
        None => Seq::empty(),
    };
    &&& n.dom() == configured_neighbors.to_set()
    &&& forall|a: u32| #[trigger] n.contains_key(a) ==> n[a]@.len() == 0
}

/// Starts a node from its configuration at time `now`: its interfaces,
/// and a host (static routing) or a RIP router over the interface records
/// and the forwarding table made from the configuration. A host needs an
/// interface named `if0`, whose address becomes its own.
pub fn initialize(config_info: IPConfig, now: u64) -> (r: (Backend, Vec<Interface>))
    requires
        config_info.routing_mode != RoutingType::NoRouting,
        config_info.routing_mode == RoutingType::Static ==> configured(config_info.interfaces@, "if0"@),
    ensures
        r.1@.len() == config_info.interfaces@.len(),
        forall|i: int| 0 <= i < config_info.interfaces@.len()
            ==> made_from(#[trigger] r.1@[i], config_info.interfaces@[i], config_info.neighbors@),
        match r.0 {
            Backend::Host(b) => {
                &&& config_info.routing_mode == RoutingType::Static
                &&& b.wf()
                &&& started_from(config_info, b.ip_daemon.interface_reps, b.ip_daemon.forwarding_table, now)
                &&& b.local_ip == b.ip_daemon.interface_reps.rep("if0"@).v_ip
                &&& b.socket_manager.socket_table.view() == Map::<crate::conn_socket::SocketId, crate::sockets::SocketEntry>::empty()
                &&& b.socket_manager.listener_table@ == Map::<u16, crate::sockets::ListenerEntry>::empty()
                &&& b.socket_manager.sid_assigner.next_sid == 0
            },
            Backend::Router(b) => {
                &&& config_info.routing_mode == RoutingType::Rip
                &&& b.ip_daemon.wf()
                &&& started_from(config_info, b.ip_daemon.interface_reps, b.ip_daemon.forwarding_table, now)
                &&& rip_started_from(config_info, b.ip_daemon.rip_neighbors@)
            },
        },
{
    let ghost cfg = config_info;
    let IPConfig { interfaces, neighbors, routing_mode, static_routes, rip_neighbors } = config_info;
    let (interface_reps, made) = init_interfaces(interfaces, neighbors);
    let mut forwarding_table = ForwardingTable::new();
    add_static_routes(&mut forwarding_table, static_routes, now);
    add_local_routes(&mut forwarding_table, &interface_reps, now);
    add_toself_routes(&mut forwarding_table, &interface_reps, now);
    proof {
        assert(forwarding_table.view() == initial_table(cfg.static_routes@, interface_reps.seq(), now));
    }
    match routing_mode {
        RoutingType::Rip => {
            let mut rip_table: RipNeighbors = HashMap::new();
            let configured_neighbors = match rip_neighbors {
                Some(v) => v,
                None => Vec::new(),
            };
            let ghost cn = configured_neighbors@;
            add_rip_neighbors(&mut rip_table, configured_neighbors);
            proof {
                let m0 = Map::<Ipv4Net, Route>::empty();
                lemma_static_costs(m0, cfg.static_routes@, now);
                lemma_local_costs(static_routes_added(m0, cfg.static_routes@, now), interface_reps.seq(), now);
                lemma_toself_costs(
                    local_routes_added(static_routes_added(m0, cfg.static_routes@, now), interface_reps.seq(), now),
                    interface_reps.seq(),
                    now,
                );
                lemma_costs_seq_map(forwarding_table.seq());
                assert(rip_table@.dom() =~= cn.to_set());
                assert forall|a: u32| #[trigger] rip_table@.contains_key(a) implies rip_table@[a]@.len() == 0 by {
                    assert(cn.to_set().contains(a));
                }
            }
            let ipdaemon = RouterIpDaemon::new(interface_reps, forwarding_table, rip_table);
            (Backend::Router(RouterBackend::new(ipdaemon)), made)
        },
        RoutingType::Static => {
            let ipdaemon = HostIpDaemon::new(interface_reps, forwarding_table);
            (Backend::Host(HostBackend::new(ipdaemon)), made)
        },
        RoutingType::NoRouting => {
            assert(false);
            (Backend::Host(HostBackend::new(HostIpDaemon::new(interface_reps, forwarding_table))), made)
        },
    }
}

/// After the routes to this node are added, the /32 prefix of each
/// interface address leads to this node.
pub proof fn lemma_toself_routes_added(m: Map<Ipv4Net, Route>, reps: Seq<InterfaceRep>, now: u64, i: int)
    requires
        0 <= i < reps.len(),
    ensures
        toself_routes_added(m, reps, now).contains_key(Ipv4Net { addr: reps[i].v_ip, prefix_len: 32 }),
        toself_routes_added(m, reps, now)[Ipv4Net { addr: reps[i].v_ip, prefix_len: 32 }].next_hop == ForwardingOption::ToSelf,
    decreases reps.len(),
{
    if i < reps.len() - 1 {
        lemma_toself_routes_added(m, reps.drop_last(), now, i);
        assert(reps.drop_last()[i] == reps[i]);
    }
}

/// A node started from its configuration delivers to itself every packet
/// for the address of one of its interfaces (when the table's prefixes are
/// well formed).
pub proof fn lemma_started_delivers_own(c: IPConfig, reps: InterfaceTable, fwd: ForwardingTable, now: u64, i: int, fuel: nat)
    requires
        started_from(c, reps, fwd, now),
        forall|j: int| 0 <= j < fwd.seq().len() ==> (#[trigger] fwd.seq()[j]).0.wf(),
        0 <= i < reps.seq().len(),
    ensures
        resolve(fwd.seq(), reps.seq()[i].v_ip, fuel) == Ok::<Option<(String, u32)>, RouteError>(None),
{
    lemma_toself_routes_added(
        local_routes_added(static_routes_added(Map::empty(), c.static_routes@, now), reps.seq(), now),
        reps.seq(),
        now,
        i,
    );
    lemma_self_route(fwd.seq(), reps.seq()[i].v_ip, fuel);
}

} // verus!
