//! A node of the IP network on its own: its interfaces, interface records,
//! forwarding table and RIP neighbors, and what it does with commands,
//! packets and the passage of time.

use vstd::prelude::*;
use crate::net::Ipv4Net;
use crate::routing::{ForwardingTable, ForwardingOption, Route, RouteError, resolve, best_index};
use crate::table::{keys_unique, seq_to_map, lemma_map_index};
use crate::interfaces::{Interface, InterfaceTable, InterfaceRep, InterfaceStatus, InterCmd, name_index};
use crate::rip::{RipNeighbors, RipMsg, RipMsgView, advertised_have_cost, rip_routes_of, neighbor_addrs, serialize_rip,
    spec_serialize_rip, table_to_rip, rip_bytes_complete, spec_deserialize_rip, deserialize_rip, rip_update_ok,
    apply_updates, update_fwd_table, lemma_costs_seq_map, lemma_apply_updates_costs, rip_bytes_ok, rip_updates_check};
use crate::ipv4::{Packet, PacketBasis, IpHeaderView, PROTOCOL_TEST, PROTOCOL_RIP, spec_packet_valid, spec_hop, copy_prefix};
use crate::daemon::{Forward, forward_packet, poison_table, remove_nets, poison_expired, expired_nets, lemma_expired_nets,
    lemma_poison_resolve, lemma_poison_then_remove, poison_entry};
use crate::backend::{LrRow, lr_rows, lr_rows_spec, row_fields};
use crate::routing::RouteType;
use crate::config::{IPConfig, InterfaceConfig, NeighborConfig, RoutingType, neighbors_for, neighbors_of, made_from,
    reps_from, lemma_reps_from_push, rep_fields, rep_of};
use std::collections::HashMap;
use crate::text::{parse_addr, spec_parse_addr};

verus! {

/// Whether a node routes for others.
#[derive(Clone, Copy, Debug, PartialEq, Eq, Structural)]
pub enum NodeType {
    Router,
    Host,
}

/// A command typed at a node's prompt.
#[derive(Debug)]
pub enum CmdType {
    /// List the interfaces.
    Li,
    /// List the neighbors.
    Ln,
    /// List the routes.
    Lr,
    /// Enable the named interface.
    Up(String),
    /// Disable the named interface.
    Down(String),
    /// Send a test packet: address, message.
    Send(String, String),
}

/// Whether every route of `s` that leads out of an interface names an
/// interface the node has.
pub open spec fn inter_routes_known(reps: InterfaceTable, s: Seq<(Ipv4Net, Route)>) -> bool {
    forall|i: int| 0 <= i < s.len() ==> match (#[trigger] s[i]).1.next_hop {
        ForwardingOption::Inter(n) => reps.has(n@),
        _ => true,
    }
}

/// A node: whether it routes, its interfaces (handed out when it starts),
/// its records of them, its forwarding table and its RIP neighbors with the
/// routes learned from each.
#[derive(Debug)]
pub struct Node {
    pub n_type: NodeType,
    pub interfaces: Vec<Interface>,
    pub interface_reps: InterfaceTable,
    pub forwarding_table: ForwardingTable,
    pub rip_neighbors: RipNeighbors,
}

/// Resolution only ever yields an interface that a route of the table names.
pub proof fn lemma_resolve_names_route(s: Seq<(Ipv4Net, Route)>, a: u32, fuel: nat)
    ensures
        resolve(s, a, fuel) matches Ok(Some((name, _))) ==> exists|i: int| 0 <= i < s.len()
            && (#[trigger] s[i]).1.next_hop == ForwardingOption::Inter(name),
    decreases fuel,
{
    crate::routing::lemma_best_index_bounds(s, a);
    if s.len() > 0 {
        match best_index(s, a) {
            None => {},
            Some(i) => match s[i].1.next_hop {
                ForwardingOption::Ip(next) => {
                    if fuel > 0 {
                        lemma_resolve_names_route(s, next, (fuel - 1) as nat);
                    }
                },
                _ => {},
            },
        }
    }
}

/// Changing the status of one interface record keeps the set of names.
proof fn lemma_status_keeps_names(t0: InterfaceTable, t1: InterfaceTable, i: int, status: InterfaceStatus)
    requires
        0 <= i < t0.seq().len(),
        t1.seq() == t0.seq().update(i, InterfaceRep { status, ..t0.seq()[i] }),
    ensures
        forall|n: Seq<char>| #[trigger] t1.has(n) == t0.has(n),
{
    assert forall|n: Seq<char>| #[trigger] t1.has(n) == t0.has(n) by {
        if t0.has(n) {
            let k = choose|k: int| 0 <= k < t0.seq().len() && #[trigger] t0.seq()[k].name@ == n;
            assert(t1.seq()[k].name@ == n);
        }
        if t1.has(n) {
            let k = choose|k: int| 0 <= k < t1.seq().len() && #[trigger] t1.seq()[k].name@ == n;
            assert(t0.seq()[k].name@ == n);
        }
    }
}

impl Node {
    pub fn new(
        n_type: NodeType,
        interfaces: Vec<Interface>,
        interface_reps: InterfaceTable,
        forwarding_table: ForwardingTable,
        rip_neighbors: RipNeighbors,
    ) -> (n: Node)
        ensures
            n.n_type == n_type,
            n.interfaces == interfaces,
            n.interface_reps == interface_reps,
            n.forwarding_table == forwarding_table,
            n.rip_neighbors == rip_neighbors,
    {
        Node { n_type, interfaces, interface_reps, forwarding_table, rip_neighbors }
    }

    /// The records have distinct names, the table distinct prefixes, every
    /// advertised route a cost, and every route out of an interface names
    /// one of the node's interfaces.
    pub open spec fn wf(&self) -> bool {
        &&& self.interface_reps.wf()
        &&& self.forwarding_table.wf()
        &&& advertised_have_cost(self.forwarding_table.seq())
        &&& inter_routes_known(self.interface_reps, self.forwarding_table.seq())
    }

    /// Sets the status of interface `inter`; whether it changed (then the
    /// interface itself must be told to switch).
    fn set_status(&mut self, inter: &String, status: InterfaceStatus) -> (changed: bool)
        requires
            old(self).wf(),
            old(self).interface_reps.has(inter@),
        ensures
            final(self).wf(),
            changed == (old(self).interface_reps.rep(inter@).status != status),
            final(self).interface_reps.has(inter@),
            final(self).interface_reps.rep(inter@).status == status,
            forall|n: Seq<char>| #[trigger] final(self).interface_reps.has(n) == old(self).interface_reps.has(n),
            final(self).forwarding_table == old(self).forwarding_table,
            final(self).rip_neighbors == old(self).rip_neighbors,
            final(self).n_type == old(self).n_type,
            final(self).interfaces == old(self).interfaces,
    {
        let r = self.interface_reps.set_status(inter, status);
        proof {
            crate::backend::lemma_status_set(old(self).interface_reps, self.interface_reps, inter@, status, r);
            let i = name_index(old(self).interface_reps.seq(), inter@)->0;
            lemma_status_keeps_names(old(self).interface_reps, self.interface_reps, i, status);
            assert forall|k: int| 0 <= k < self.forwarding_table.seq().len() implies match (#[trigger] self.forwarding_table.seq()[k]).1.next_hop {
                ForwardingOption::Inter(n) => self.interface_reps.has(n@),
                _ => true,
            } by {
                match self.forwarding_table.seq()[k].1.next_hop {
                    ForwardingOption::Inter(n) => { assert(old(self).interface_reps.has(n@)); },
                    _ => {},
                }
            }
        }
        match r {
            Some(c) => c,
            None => false,
        }
    }

    /// Enables interface `inter`: true when it was down, so that the
    /// interface must be told to switch.
    pub fn up(&mut self, inter: &String) -> (toggle: bool)
        requires
            old(self).wf(),
            old(self).interface_reps.has(inter@),
        ensures
            final(self).wf(),
            toggle == (old(self).interface_reps.rep(inter@).status == InterfaceStatus::Down),
            final(self).interface_reps.has(inter@),
            final(self).interface_reps.rep(inter@).status == InterfaceStatus::Up,
            forall|n: Seq<char>| #[trigger] final(self).interface_reps.has(n) == old(self).interface_reps.has(n),
            final(self).forwarding_table == old(self).forwarding_table,
            final(self).rip_neighbors == old(self).rip_neighbors,
            final(self).n_type == old(self).n_type,
    {
        self.set_status(inter, InterfaceStatus::Up)
    }

    /// Disables interface `inter`: true when it was up, so that the
    /// interface must be told to switch.
    pub fn down(&mut self, inter: &String) -> (toggle: bool)
        requires
            old(self).wf(),
            old(self).interface_reps.has(inter@),
        ensures
            final(self).wf(),
            toggle == (old(self).interface_reps.rep(inter@).status == InterfaceStatus::Up),
            final(self).interface_reps.has(inter@),
            final(self).interface_reps.rep(inter@).status == InterfaceStatus::Down,
            forall|n: Seq<char>| #[trigger] final(self).interface_reps.has(n) == old(self).interface_reps.has(n),
            final(self).forwarding_table == old(self).forwarding_table,
            final(self).rip_neighbors == old(self).rip_neighbors,
            final(self).n_type == old(self).n_type,
    {
        self.set_status(inter, InterfaceStatus::Down)
    }
}

/// Where table `t` sends packets for `dst`: the interface and next hop,
/// when the address resolves to one.
pub open spec fn out_for(t: ForwardingTable, dst: u32) -> Option<(String, u32)> {
    match resolve(t.seq(), dst, t.seq().len() as nat) {
        Ok(Some(x)) => Some(x),
        _ => None,
    }
}

/// Whether `c`, handed to interface `name`, builds and sends a packet to
/// `dst` with payload `msg` (a test packet when `test`, else a RIP packet)
/// through next hop `hop`.
pub open spec fn builds(name: String, c: (String, InterCmd), dst: u32, msg: Seq<u8>, test: bool, hop: u32) -> bool {
    &&& c.0 == name
    &&& c.1 matches InterCmd::BuildSend(pb, h, t)
    &&& pb.dst_ip == dst
    &&& pb.prot_num == (if test { PROTOCOL_TEST } else { PROTOCOL_RIP })
    &&& pb.msg@ == msg
    &&& h == hop
    &&& t == test
}

/// Whether command `c` sends `msg` to `dst` the way table `t` resolves it.
pub open spec fn sends_to(t: ForwardingTable, c: (String, InterCmd), dst: u32, msg: Seq<u8>, test: bool) -> bool {
    out_for(t, dst) matches Some((name, hop)) && builds(name, c, dst, msg, test, hop)
}

/// The bytes of a RIP request.
pub open spec fn rip_request_bytes() -> Seq<u8> {
    spec_serialize_rip(RipMsgView { command: 1, num_entries: 0, routes: Seq::empty() })
}

/// The bytes of a RIP response advertising the routes of the entries `s`.
pub open spec fn rip_response_bytes(s: Seq<(Ipv4Net, Route)>) -> Seq<u8> {
    let rs = rip_routes_of(s);
    spec_serialize_rip(RipMsgView { command: 2, num_entries: rs.len() as u16, routes: rs })
}

impl Node {
    /// Whether packets to `dst` leave through an interface.
    pub open spec fn sendable(&self, dst: u32) -> bool {
        out_for(self.forwarding_table, dst) is Some
    }

    /// Whether `dst` is reached directly: it resolves to an interface with
    /// itself as next hop.
    pub open spec fn direct(&self, dst: u32) -> bool {
        out_for(self.forwarding_table, dst) matches Some((_, hop)) && hop == dst
    }

    /// The interface named by a resolution is one of the node's.
    proof fn lemma_out_known(&self, dst: u32)
        requires
            self.wf(),
            self.sendable(dst),
        ensures
            self.interface_reps.has((out_for(self.forwarding_table, dst)->0).0@),
    {
        let s = self.forwarding_table.seq();
        lemma_resolve_names_route(s, dst, s.len() as nat);
        let name = (out_for(self.forwarding_table, dst)->0).0;
        let i = choose|i: int| 0 <= i < s.len() && (#[trigger] s[i]).1.next_hop == ForwardingOption::Inter(name);
        assert(match s[i].1.next_hop {
            ForwardingOption::Inter(n) => self.interface_reps.has(n@),
            _ => true,
        });
    }

    /// The command that has interface `name` send `msg` to `dst`: a test
    /// packet when `msg_type`, else a RIP packet.
    fn send_to(&self, dst: u32, msg: Vec<u8>, msg_type: bool) -> (r: (String, InterCmd))
        requires
            self.wf(),
            self.sendable(dst),
        ensures
            sends_to(self.forwarding_table, r, dst, msg@, msg_type),
            self.interface_reps.has(r.0@),
    {
        proof { self.lemma_out_known(dst); }
        let (name, next_hop) = match self.forwarding_table.proper_interface(dst) {
            Ok(Some(x)) => x,
            _ => {
                assert(false);
                return (String::new(), InterCmd::ToggleStatus);
            },
        };
        let prot_num = if msg_type { PROTOCOL_TEST } else { PROTOCOL_RIP };
        (name, InterCmd::BuildSend(PacketBasis { dst_ip: dst, prot_num, msg }, next_hop, msg_type))
    }

    /// Sends `msg` to the address written in `addr`: the interface to hand
    /// the command to, and the command. A test packet when `msg_type`, else
    /// a RIP packet.
    pub fn send(&self, addr: &String, msg: Vec<u8>, msg_type: bool) -> (r: (String, InterCmd))
        requires
            self.wf(),
            spec_parse_addr(addr@) matches Some(dst) && self.sendable(dst),
        ensures
            sends_to(self.forwarding_table, r, spec_parse_addr(addr@)->0, msg@, msg_type),
            self.interface_reps.has(r.0@),
    {
        let dst = match parse_addr(addr.as_str()) {
            Some(a) => a,
            None => {
                assert(false);
                0
            },
        };
        self.send_to(dst, msg, msg_type)
    }

    /// A RIP response for neighbor `dst`, advertising every route of the
    /// table but routes to this node and static routes.
    pub fn table_to_rip(&self, dst: u32) -> (m: RipMsg)
        requires
            self.wf(),
            self.direct(dst),
        ensures
            m@.command == 2,
            m@.routes == rip_routes_of(self.forwarding_table.seq()),
            m@.num_entries == m@.routes.len() as u16,
    {
        table_to_rip(&self.forwarding_table, None)
    }

    /// Sends neighbor `dst` a RIP request (`command` 1) or a RIP response
    /// with all the routes (`command` 2).
    pub fn send_rip(&self, dst: u32, command: u16) -> (r: (String, InterCmd))
        requires
            self.wf(),
            command == 1 || command == 2,
            self.sendable(dst),
            command == 2 ==> self.direct(dst),
        ensures
            command == 1 ==> sends_to(self.forwarding_table, r, dst, rip_request_bytes(), false),
            command == 2 ==> sends_to(self.forwarding_table, r, dst, rip_response_bytes(self.forwarding_table.seq()), false),
            self.interface_reps.has(r.0@),
    {
        if command == 1 {
            let rip_req_msg = RipMsg::new(1, 0, Vec::new());
            proof { assert(rip_req_msg@ == RipMsgView { command: 1, num_entries: 0, routes: Seq::<crate::rip::RipRoute>::empty() }); }
            let ser_req_rip = serialize_rip(rip_req_msg);
            self.send_to(dst, ser_req_rip, false)
        } else {
            let rip_resp_msg = self.table_to_rip(dst);
            let ser_resp_rip = serialize_rip(rip_resp_msg);
            self.send_to(dst, ser_resp_rip, false)
        }
    }

    /// Sends neighbor `dst` a RIP request.
    pub fn rip_request(&self, dst: u32) -> (r: (String, InterCmd))
        requires
            self.wf(),
            self.sendable(dst),
        ensures
            sends_to(self.forwarding_table, r, dst, rip_request_bytes(), false),
            self.interface_reps.has(r.0@),
    {
        self.send_rip(dst, 1)
    }

    /// Whether every RIP neighbor is reached directly.
    pub open spec fn neighbors_direct(&self) -> bool {
        forall|a: u32| #[trigger] self.rip_neighbors@.contains_key(a) ==> self.direct(a)
    }

    /// Whether `dst` is reached directly (see `direct`).
    pub fn direct_check(&self, dst: u32) -> (b: bool)
        requires
            self.wf(),
        ensures
            b == self.direct(dst),
    {
        match self.forwarding_table.proper_interface(dst) {
            Ok(Some((_, hop))) => hop == dst,
            _ => false,
        }
    }

    /// Whether every RIP neighbor is reached directly (see
    /// `neighbors_direct`); `neighbors_sendable` is then true as well.
    pub fn neighbors_direct_check(&self) -> (b: bool)
        requires
            self.wf(),
        ensures
            b == self.neighbors_direct(),
            b ==> forall|a: u32| #[trigger] self.rip_neighbors@.contains_key(a) ==> self.sendable(a),
    {
        let keys = neighbor_addrs(&self.rip_neighbors);
        let mut i: usize = 0;
        while i < keys.len()
            invariant
                self.wf(),
                keys@.to_set() == self.rip_neighbors@.dom(),
                i <= keys@.len(),
                forall|j: int| 0 <= j < i ==> self.direct(#[trigger] keys@[j]),
            decreases keys@.len() - i,
        {
            if !self.direct_check(keys[i]) {
                proof {
                    assert(keys@.to_set().contains(keys@[i as int]));
                }
                return false;
            }
            i = i + 1;
        }
        proof {
            assert forall|a: u32| #[trigger] self.rip_neighbors@.contains_key(a) implies self.direct(a) by {
                assert(keys@.to_set().contains(a));
                let j = choose|j: int| 0 <= j < keys@.len() && keys@[j] == a;
                assert(self.direct(keys@[j]));
            }
        }
        true
    }

    /// Sends every RIP neighbor a RIP response with all the routes.
    pub fn rip_broadcast(&self) -> (out: Vec<(String, InterCmd)>)
        requires
            self.wf(),
            self.neighbors_direct(),
        ensures
            to_each(*self, out@, rip_response_bytes(self.forwarding_table.seq())),
    {
        let keys = neighbor_addrs(&self.rip_neighbors);
        let mut out: Vec<(String, InterCmd)> = Vec::new();
        let mut i: usize = 0;
        while i < keys.len()
            invariant
                self.wf(),
                self.neighbors_direct(),
                keys@.to_set() == self.rip_neighbors@.dom(),
                i <= keys@.len(),
                out@.len() == i,
                forall|j: int| 0 <= j < i ==> sends_to(self.forwarding_table, #[trigger] out@[j], keys@[j], rip_response_bytes(self.forwarding_table.seq()), false),
            decreases keys@.len() - i,
        {
            proof {
                assert(keys@.to_set().contains(keys@[i as int]));
                assert(self.rip_neighbors@.contains_key(keys@[i as int]));
            }
            let c = self.send_rip(keys[i], 2);
            out.push(c);
            i = i + 1;
        }
        proof {
            assert(keys@.to_set() == self.rip_neighbors@.dom() && keys@.no_duplicates() && out@.len() == keys@.len());
        }
        out
    }

    /// Sends every RIP neighbor a RIP request.
    pub fn request_all(&self) -> (out: Vec<(String, InterCmd)>)
        requires
            self.wf(),
            forall|a: u32| #[trigger] self.rip_neighbors@.contains_key(a) ==> self.sendable(a),
        ensures
            to_each(*self, out@, rip_request_bytes()),
    {
        let keys = neighbor_addrs(&self.rip_neighbors);
        let mut out: Vec<(String, InterCmd)> = Vec::new();
        let mut i: usize = 0;
        while i < keys.len()
            invariant
                self.wf(),
                forall|a: u32| #[trigger] self.rip_neighbors@.contains_key(a) ==> self.sendable(a),
                keys@.to_set() == self.rip_neighbors@.dom(),
                i <= keys@.len(),
                out@.len() == i,
                forall|j: int| 0 <= j < i ==> sends_to(self.forwarding_table, #[trigger] out@[j], keys@[j], rip_request_bytes(), false),
            decreases keys@.len() - i,
        {
            proof {
                assert(keys@.to_set().contains(keys@[i as int]));
                assert(self.rip_neighbors@.contains_key(keys@[i as int]));
            }
            let c = self.rip_request(keys[i]);
            out.push(c);
            i = i + 1;
        }
        proof {
            assert(keys@.to_set() == self.rip_neighbors@.dom() && keys@.no_duplicates() && out@.len() == keys@.len());
        }
        out
    }
}

/// Whether `out` sends `msg` as a RIP packet to each RIP neighbor of `n`
/// once, in some order of the neighbors.
pub open spec fn to_each(n: Node, out: Seq<(String, InterCmd)>, msg: Seq<u8>) -> bool {
    exists|addrs: Seq<u32>| {
        &&& #[trigger] addrs.to_set() == n.rip_neighbors@.dom()
        &&& addrs.no_duplicates()
        &&& out.len() == addrs.len()
        &&& forall|i: int| 0 <= i < addrs.len() ==> sends_to(n.forwarding_table, #[trigger] out[i], addrs[i], msg, false)
    }
}

/// Whether every route of `m` that leads out of an interface names an
/// interface of `reps`.
pub open spec fn map_inter_known(reps: InterfaceTable, m: Map<Ipv4Net, Route>) -> bool {
    forall|k: Ipv4Net| #[trigger] m.contains_key(k) ==> match m[k].next_hop {
        ForwardingOption::Inter(n) => reps.has(n@),
        _ => true,
    }
}

/// The entries name known interfaces exactly when their map does.
proof fn lemma_inter_known_seq_map(reps: InterfaceTable, s: Seq<(Ipv4Net, Route)>)
    requires
        keys_unique(s),
    ensures
        inter_routes_known(reps, s) <==> map_inter_known(reps, seq_to_map(s)),
{
    let m = seq_to_map(s);
    if inter_routes_known(reps, s) {
        assert forall|k: Ipv4Net| #[trigger] m.contains_key(k) implies match m[k].next_hop {
            ForwardingOption::Inter(n) => reps.has(n@),
            _ => true,
        } by {
            let i = choose|i: int| 0 <= i < s.len() && s[i].0 == k;
            lemma_map_index(s, i);
            assert(match s[i].1.next_hop {
                ForwardingOption::Inter(n) => reps.has(n@),
                _ => true,
            });
        }
    }
    if map_inter_known(reps, m) {
        assert forall|i: int| 0 <= i < s.len() implies match (#[trigger] s[i]).1.next_hop {
            ForwardingOption::Inter(n) => reps.has(n@),
            _ => true,
        } by {
            lemma_map_index(s, i);
            assert(m.contains_key(s[i].0));
        }
    }
}

/// RIP updates only add routes through addresses, so every route out of an
/// interface still names a known one.
proof fn lemma_apply_updates_inter_known(reps: InterfaceTable, m: Map<Ipv4Net, Route>, rs: Seq<crate::rip::RipRoute>, hop: u32, now: u64)
    requires
        map_inter_known(reps, m),
    ensures
        map_inter_known(reps, apply_updates(m, rs, hop, now)),
    decreases rs.len(),
{
    if rs.len() > 0 {
        lemma_apply_updates_inter_known(reps, m, rs.drop_last(), hop, now);
    }
}

/// What a node does with a packet for itself.
#[derive(Debug)]
pub enum Delivery {
    /// A test packet, to be shown to the user.
    Test(Packet),
    /// The answer to a RIP request: hand this command to this interface.
    RipReply(String, InterCmd),
    /// A RIP response was applied to the forwarding table.
    RipApplied,
}

/// What a node does with a packet that reached it.
#[derive(Debug)]
pub enum NodeStep {
    /// Its time to live is out or its checksum is wrong.
    Dropped,
    /// Hand this command (send the packet on) to this interface.
    Forward(String, InterCmd),
    /// It is for this node.
    Delivered(Delivery),
}

/// Whether node `n` can take a packet for itself with header `h` and
/// payload `data`: a test packet, or a whole RIP message that is a request
/// from a neighbor the node reaches directly or a response whose routes can
/// all be applied.
pub open spec fn processable(n: Node, h: IpHeaderView, data: Seq<u8>) -> bool {
    ||| h.protocol == PROTOCOL_TEST
    ||| h.protocol == PROTOCOL_RIP && rip_bytes_complete(data) && {
        let m = spec_deserialize_rip(data);
        ||| m.command == 1 && n.direct(h.source)
        ||| m.command == 2 && forall|i: int| 0 <= i < m.routes.len()
                ==> rip_update_ok(n.forwarding_table.view(), #[trigger] m.routes[i])
    }
}

/// Whether node `n` can take a packet with header `h` and payload `data`
/// from an interface: when the packet is valid and for this node, it is one
/// that the node can take for itself (after its hop).
pub open spec fn forwardable(n: Node, h: IpHeaderView, data: Seq<u8>) -> bool {
    spec_packet_valid(h) && resolve(n.forwarding_table.seq(), h.destination, n.forwarding_table.seq().len() as nat) == Ok::<Option<(String, u32)>, RouteError>(None)
        ==> processable(n, spec_hop(h), data)
}

impl Node {
    /// Applies the routes of a RIP response from `next_hop`, received at
    /// time `now`, to the forwarding table.
    pub fn update_fwd_table(&mut self, rip_msg: &mut RipMsg, next_hop: u32, now: u64)
        requires
            old(self).wf(),
            forall|i: int| 0 <= i < old(rip_msg).routes@.len()
                ==> rip_update_ok(old(self).forwarding_table.view(), #[trigger] old(rip_msg).routes@[i]),
        ensures
            final(self).wf(),
            final(self).forwarding_table.view() == apply_updates(old(self).forwarding_table.view(), old(rip_msg).routes@, next_hop, now),
            final(self).interface_reps == old(self).interface_reps,
            final(self).rip_neighbors == old(self).rip_neighbors,
            final(self).n_type == old(self).n_type,
            final(self).interfaces == old(self).interfaces,
    {
        proof {
            lemma_costs_seq_map(self.forwarding_table.seq());
            lemma_inter_known_seq_map(self.interface_reps, self.forwarding_table.seq());
        }
        let _ = update_fwd_table(&mut self.forwarding_table, rip_msg, next_hop, now);
        proof {
            lemma_apply_updates_costs(old(self).forwarding_table.view(), old(rip_msg).routes@, next_hop, now);
            lemma_apply_updates_inter_known(self.interface_reps, old(self).forwarding_table.view(), old(rip_msg).routes@, next_hop, now);
            lemma_costs_seq_map(self.forwarding_table.seq());
            lemma_inter_known_seq_map(self.interface_reps, self.forwarding_table.seq());
        }
    }

    /// Takes a packet for this node, received at time `now`: a test packet
    /// is handed back to be shown; a RIP request is answered with all the
    /// routes; a RIP response updates the forwarding table.
    pub fn process_packet(&mut self, pack: Packet, now: u64) -> (r: Delivery)
        requires
            old(self).wf(),
            processable(*old(self), pack.header@, pack.data@),
        ensures
            final(self).wf(),
            final(self).interface_reps == old(self).interface_reps,
            final(self).rip_neighbors == old(self).rip_neighbors,
            final(self).n_type == old(self).n_type,
            final(self).interfaces == old(self).interfaces,
            pack.header@.protocol == PROTOCOL_TEST ==> (r matches Delivery::Test(p) && p == pack)
                && final(self).forwarding_table == old(self).forwarding_table,
            pack.header@.protocol != PROTOCOL_TEST ==> ({
                let m = spec_deserialize_rip(pack.data@);
                &&& m.command == 1 ==> (r matches Delivery::RipReply(name, c)
                    && sends_to(old(self).forwarding_table, (name, c), pack.header@.source,
                        rip_response_bytes(old(self).forwarding_table.seq()), false))
                    && final(self).forwarding_table == old(self).forwarding_table
                &&& m.command == 2 ==> r is RipApplied && final(self).forwarding_table.view()
                    == apply_updates(old(self).forwarding_table.view(), m.routes, pack.header@.source, now)
            }),
    {
        if pack.header.protocol == PROTOCOL_TEST {
            return Delivery::Test(pack);
        }
        let src = pack.header.source;
        let ghost d = pack.data@;
        let mut rip_msg = deserialize_rip(pack.data);
        proof {
            assert(rip_msg.routes@ == spec_deserialize_rip(d).routes);
        }
        if rip_msg.command == 1 {
            let (name, c) = self.send_rip(src, 2);
            Delivery::RipReply(name, c)
        } else {
            self.update_fwd_table(&mut rip_msg, src, now);
            Delivery::RipApplied
        }
    }

    /// Whether this node can take a packet for itself (see `processable`).
    pub fn processable_check(&self, h: &crate::ipv4::IpHeader, data: &Vec<u8>) -> (b: bool)
        requires
            self.wf(),
        ensures
            b == processable(*self, h@, data@),
    {
        if h.protocol == PROTOCOL_TEST {
            return true;
        }
        if h.protocol != PROTOCOL_RIP || !rip_bytes_ok(data) {
            return false;
        }
        let copy = copy_prefix(data, data.len());
        proof { assert(copy@ =~= data@); }
        let m = deserialize_rip(copy);
        proof {
            assert(m@ == spec_deserialize_rip(data@));
            assert(m.routes@ == spec_deserialize_rip(data@).routes);
            assert(m.command == spec_deserialize_rip(data@).command);
        }
        if m.command == 1 {
            match self.forwarding_table.proper_interface(h.source) {
                Ok(Some((_, hop))) => hop == h.source,
                _ => false,
            }
        } else if m.command == 2 {
            rip_updates_check(&self.forwarding_table, &m.routes)
        } else {
            false
        }
    }

    /// Takes a packet from an interface at time `now`: a packet whose time
    /// to live is out or whose checksum is wrong is dropped; otherwise it
    /// takes one hop and goes on out of the interface its destination
    /// resolves to, or, for this node, is taken here (see
    /// `process_packet`). A destination without a route is an error.
    pub fn forward_packet(&mut self, pack: Packet, now: u64) -> (r: Result<NodeStep, RouteError>)
        requires
            old(self).wf(),
            pack.header@.wf(),
            forwardable(*old(self), pack.header@, pack.data@),
        ensures
            final(self).wf(),
            final(self).interface_reps == old(self).interface_reps,
            final(self).rip_neighbors == old(self).rip_neighbors,
            !spec_packet_valid(pack.header@) ==> (r matches Ok(NodeStep::Dropped)) && *final(self) == *old(self),
            spec_packet_valid(pack.header@) ==> match resolve(old(self).forwarding_table.seq(), pack.header.destination,
                old(self).forwarding_table.seq().len() as nat) {
                Err(e) => r == Err::<NodeStep, RouteError>(e) && *final(self) == *old(self),
                Ok(Some((name, hop))) => (r matches Ok(NodeStep::Forward(n, InterCmd::Send(p, h)))
                    && n == name && h == hop && p.header@ == spec_hop(pack.header@) && p.data@ == pack.data@)
                    && old(self).interface_reps.has(name@) && *final(self) == *old(self),
                Ok(None) => r matches Ok(NodeStep::Delivered(_)),
            },
    {
        let ghost s = self.forwarding_table.seq();
        match forward_packet(&self.forwarding_table, pack) {
            Err(e) => Err(e),
            Ok(Forward::Drop) => Ok(NodeStep::Dropped),
            Ok(Forward::Send(name, hop, p)) => {
                proof {
                    lemma_resolve_names_route(s, pack.header.destination, s.len() as nat);
                    let i = choose|i: int| 0 <= i < s.len() && (#[trigger] s[i]).1.next_hop == ForwardingOption::Inter(name);
                    assert(match s[i].1.next_hop {
                        ForwardingOption::Inter(n) => self.interface_reps.has(n@),
                        _ => true,
                    });
                }
                Ok(NodeStep::Forward(name, InterCmd::Send(p, hop)))
            },
            Ok(Forward::Local(p)) => Ok(NodeStep::Delivered(self.process_packet(p, now))),
        }
    }

    /// Whether this node can take a packet from an interface (see
    /// `forwardable`).
    pub fn forwardable_check(&self, pack: &Packet) -> (b: bool)
        requires
            self.wf(),
            pack.header@.wf(),
        ensures
            b == forwardable(*self, pack.header@, pack.data@),
    {
        if !crate::ipv4::packet_valid(pack) {
            return true;
        }
        match self.forwarding_table.proper_interface(pack.header.destination) {
            Ok(None) => {},
            _ => { return true; },
        }
        let hopped = crate::ipv4::update_pack(pack.duplicate());
        self.processable_check(&hopped.header, &hopped.data)
    }

    /// The route listing (see `lr_rows`).
    pub fn lr(&self) -> (rows: Vec<LrRow>)
        ensures
            rows@.map_values(|x: LrRow| row_fields(x)) == lr_rows_spec(self.forwarding_table.seq()),
    {
        lr_rows(&self.forwarding_table)
    }

    /// One check of the forwarding table at time `now` (milliseconds):
    /// every route learned over RIP that has expired gets cost 16; when any
    /// has, every RIP neighbor gets a RIP response with the table (the
    /// expired routes poisoned), and then the expired routes leave the
    /// table.
    pub fn run_table_check(&mut self, now: u64) -> (out: Vec<(String, InterCmd)>)
        requires
            old(self).wf(),
            old(self).neighbors_direct(),
        ensures
            final(self).wf(),
            final(self).interface_reps == old(self).interface_reps,
            final(self).rip_neighbors == old(self).rip_neighbors,
            final(self).n_type == old(self).n_type,
            ({
                let s = old(self).forwarding_table.seq();
                let exp = expired_nets(s, now);
                &&& exp.len() == 0 ==> out@.len() == 0 && final(self).forwarding_table.view() == old(self).forwarding_table.view()
                &&& exp.len() > 0 ==> {
                    &&& to_each(*old(self), out@, rip_response_bytes(poison_expired(s, now)))
                    &&& final(self).forwarding_table.view() == old(self).forwarding_table.view().remove_keys(exp.to_set())
                }
            }),
    {
        let ghost s0 = self.forwarding_table.seq();
        proof { lemma_expired_nets(s0, now); }
        let to_remove = poison_table(&mut self.forwarding_table, now);
        let ghost ps = poison_expired(s0, now);
        let n = self.forwarding_table.entries.len();
        proof {
            assert forall|k: int| 0 <= k < ps.len() implies match (#[trigger] ps[k]).1.next_hop {
                ForwardingOption::Inter(x) => self.interface_reps.has(x@),
                _ => true,
            } by {
                assert(ps[k] == poison_entry(s0[k], now));
                assert(match s0[k].1.next_hop {
                    ForwardingOption::Inter(x) => self.interface_reps.has(x@),
                    _ => true,
                });
            }
        }
        if to_remove.len() == 0 {
            proof {
                assert forall|j: int| 0 <= j < n implies #[trigger] ps[j] == s0[j] by {
                    assert(!expired_nets(s0, now).contains(s0[j].0));
                }
                assert(ps =~= s0);
            }
            return Vec::new();
        }
        proof {
            assert forall|a: u32| #[trigger] self.rip_neighbors@.contains_key(a) implies self.direct(a) by {
                lemma_poison_resolve(s0, now, a, n as nat);
                assert(old(self).direct(a));
            }
        }
        let out = self.rip_broadcast();
        proof {
            let data = rip_response_bytes(ps);
            let addrs = choose|addrs: Seq<u32>| {
                &&& #[trigger] addrs.to_set() == self.rip_neighbors@.dom()
                &&& addrs.no_duplicates()
                &&& out@.len() == addrs.len()
                &&& forall|k: int| 0 <= k < addrs.len() ==> sends_to(self.forwarding_table, #[trigger] out@[k], addrs[k], data, false)
            };
            assert forall|k: int| 0 <= k < addrs.len() implies sends_to(old(self).forwarding_table, #[trigger] out@[k], addrs[k], data, false) by {
                lemma_poison_resolve(s0, now, addrs[k], n as nat);
                assert(sends_to(self.forwarding_table, out@[k], addrs[k], data, false));
            }
            assert(addrs.to_set() == old(self).rip_neighbors@.dom() && addrs.no_duplicates() && out@.len() == addrs.len());
        }
        proof { lemma_inter_known_seq_map(self.interface_reps, self.forwarding_table.seq()); }
        remove_nets(&mut self.forwarding_table, &to_remove);
        proof {
            lemma_poison_then_remove(s0, now);
            lemma_inter_known_seq_map(self.interface_reps, self.forwarding_table.seq());
        }
        out
    }
}

/// Whether some neighbor in `nb` has an address in `net`.
pub open spec fn neighbor_in(nb: Seq<(u32, u16)>, net: Ipv4Net) -> bool {
    exists|j: int| 0 <= j < nb.len() && net.spec_contains(#[trigger] nb[j].0)
}

/// Whether configuration `rem[p]` of `cs` has a neighbor in `net`.
pub open spec fn fits_at(cs: Seq<InterfaceConfig>, ns: Seq<NeighborConfig>, rem: Seq<usize>, net: Ipv4Net, p: int) -> bool {
    neighbor_in(neighbors_of(ns, cs[rem[p] as int].name@), net)
}

/// The first position `p` of `rem` whose configuration has a neighbor in
/// `net`.
pub open spec fn first_fit(cs: Seq<InterfaceConfig>, ns: Seq<NeighborConfig>, rem: Seq<usize>, net: Ipv4Net) -> Option<int> {
    if exists|p: int| 0 <= p < rem.len() && #[trigger] fits_at(cs, ns, rem, net, p)
        && forall|q: int| 0 <= q < p ==> !fits_at(cs, ns, rem, net, q) {
        Some(choose|p: int| 0 <= p < rem.len() && #[trigger] fits_at(cs, ns, rem, net, p)
            && forall|q: int| 0 <= q < p ==> !fits_at(cs, ns, rem, net, q))
    } else {
        None
    }
}

/// The first fitting position is the one found by looking at each in turn.
proof fn lemma_first_fit(cs: Seq<InterfaceConfig>, ns: Seq<NeighborConfig>, rem: Seq<usize>, net: Ipv4Net, p: int)
    requires
        0 <= p <= rem.len(),
        forall|q: int| 0 <= q < p ==> !fits_at(cs, ns, rem, net, q),
        p < rem.len() ==> fits_at(cs, ns, rem, net, p),
    ensures
        p < rem.len() ==> first_fit(cs, ns, rem, net) == Some(p),
        p == rem.len() ==> first_fit(cs, ns, rem, net) is None,
{
    if p < rem.len() {
        let c = choose|c: int| 0 <= c < rem.len() && #[trigger] fits_at(cs, ns, rem, net, c)
            && forall|q: int| 0 <= q < c ==> !fits_at(cs, ns, rem, net, q);
        if c < p {
            assert(!fits_at(cs, ns, rem, net, c));
        }
        if c > p {
            assert(!fits_at(cs, ns, rem, net, p));
        }
    }
}

/// The local route a static route becomes when it goes out of interface
/// `name`.
pub open spec fn local_route(name: String, now: u64) -> Route {
    Route { rtype: RouteType::Local, cost: Some(0), next_hop: ForwardingOption::Inter(name), creation_time: now }
}

/// A router's interfaces are those its static routes lead out of: for each
/// static route in turn, the first still unassigned configuration (in
/// configuration order) with a neighbor in the route's prefix is taken, and
/// the prefix becomes a local route out of it. The unassigned
/// configurations, the taken ones in order, and the routes so far.
pub open spec fn assign(cs: Seq<InterfaceConfig>, ns: Seq<NeighborConfig>, routes: Seq<(Ipv4Net, u32)>, now: u64)
    -> (Seq<usize>, Seq<usize>, Map<Ipv4Net, Route>)
    decreases routes.len(),
{
    if routes.len() == 0 {
        (Seq::new(cs.len(), |i: int| i as usize), Seq::empty(), Map::empty())
    } else {
        let prev = assign(cs, ns, routes.drop_last(), now);
        let net = routes.last().0;
        match first_fit(cs, ns, prev.0, net) {
            None => prev,
            Some(p) => {
                let k = prev.0[p];
                (prev.0.remove(p), prev.1.push(k), prev.2.insert(net, local_route(cs[k as int].name, now)))
            },
        }
    }
}

/// The configurations at positions `ks` of `cs`.
pub open spec fn picked(cs: Seq<InterfaceConfig>, ks: Seq<usize>) -> Seq<InterfaceConfig> {
    ks.map_values(|k: usize| cs[k as int])
}

/// The table after adding a route to this node for the address of each of
/// the configurations `cs`, in order.
pub open spec fn toself_for(m: Map<Ipv4Net, Route>, cs: Seq<InterfaceConfig>, now: u64) -> Map<Ipv4Net, Route>
    decreases cs.len(),
{
    if cs.len() == 0 {
        m
    } else {
        toself_for(m, cs.drop_last(), now).insert(Ipv4Net { addr: cs.last().assigned_ip, prefix_len: 32 }, Route {
            rtype: RouteType::ToSelf,
            cost: None,
            next_hop: ForwardingOption::ToSelf,
            creation_time: now,
        })
    }
}

/// The router a host on interface `c` sends other traffic to: the first
/// neighbor configured on that interface (the host's own address when it
/// has none).
pub open spec fn host_gateway(c: InterfaceConfig, ns: Seq<NeighborConfig>) -> u32 {
    let nb = neighbors_of(ns, c.name@);
    if nb.len() > 0 { nb[0].0 } else { c.assigned_ip }
}

/// A host's table: a local route out of its interface `c`, a default route
/// back to its router (see `host_gateway`), and a route to itself.
pub open spec fn host_table(c: InterfaceConfig, ns: Seq<NeighborConfig>, now: u64) -> Map<Ipv4Net, Route> {
    Map::<Ipv4Net, Route>::empty()
        .insert(c.assigned_prefix, local_route(c.name, now))
        .insert(Ipv4Net { addr: 0, prefix_len: 0 }, Route {
            rtype: RouteType::Static,
            cost: None,
            next_hop: ForwardingOption::Ip(host_gateway(c, ns)),
            creation_time: now,
        })
        .insert(Ipv4Net { addr: c.assigned_ip, prefix_len: 32 }, Route {
            rtype: RouteType::ToSelf,
            cost: None,
            next_hop: ForwardingOption::ToSelf,
            creation_time: now,
        })
}

/// Whether some neighbor in `nb` has an address in `net`.
fn any_neighbor_in(nb: &Vec<(u32, u16)>, net: &Ipv4Net) -> (b: bool)
    ensures
        b == neighbor_in(nb@, *net),
{
    let mut j: usize = 0;
    while j < nb.len()
        invariant
            j <= nb@.len(),
            forall|q: int| 0 <= q < j ==> !net.spec_contains(#[trigger] nb@[q].0),
        decreases nb@.len() - j,
    {
        if net.contains(nb[j].0) {
            assert(net.spec_contains(nb@[j as int].0));
            return true;
        }
        j = j + 1;
    }
    false
}

/// Adding routes to this node keeps advertised routes costed and routes out
/// of interfaces naming known ones.
proof fn lemma_toself_for_keeps(reps: InterfaceTable, m: Map<Ipv4Net, Route>, cs: Seq<InterfaceConfig>, now: u64)
    requires
        crate::rip::map_costs(m),
        map_inter_known(reps, m),
    ensures
        crate::rip::map_costs(toself_for(m, cs, now)),
        map_inter_known(reps, toself_for(m, cs, now)),
    decreases cs.len(),
{
    if cs.len() > 0 {
        lemma_toself_for_keeps(reps, m, cs.drop_last(), now);
    }
}

/// The record made from configuration `c`.
fn rep_from(c: &InterfaceConfig, neighbors: &Vec<NeighborConfig>) -> (r: InterfaceRep)
    ensures
        rep_fields(r) == rep_of(*c, neighbors@),
        r.name == c.name,
{
    InterfaceRep::new(c.name.clone(), c.assigned_prefix, c.assigned_ip, neighbors_for(neighbors, &c.name))
}

/// The interface made from configuration `c`.
fn interface_from(c: &InterfaceConfig, neighbors: &Vec<NeighborConfig>) -> (i: Interface)
    ensures
        made_from(i, *c, neighbors@),
{
    Interface::new(c.name.clone(), c.assigned_ip, c.assigned_prefix, c.udp_port, neighbors_for(neighbors, &c.name))
}

/// Starts a node from its configuration at time `now`. A host (no routing)
/// keeps its first interface, with a local route out of it, a default
/// route back to its router (the interface's first neighbor) and a route to
/// itself. A router with
/// static routes keeps the interfaces its static routes lead out of (see
/// `assign`), and a route to itself for each. RIP routing is not offered
/// here.
pub fn initialize(config_info: IPConfig, now: u64) -> (n: Node)
    requires
        config_info.routing_mode != RoutingType::Rip,
        config_info.routing_mode == RoutingType::NoRouting ==> config_info.interfaces@.len() > 0,
    ensures
        n.wf(),
        n.rip_neighbors@ == Map::<u32, Vec<Route>>::empty(),
        config_info.routing_mode == RoutingType::NoRouting ==> {
            let c = config_info.interfaces@[0];
            &&& n.n_type == NodeType::Host
            &&& n.interfaces@.len() == 1
            &&& made_from(n.interfaces@[0], c, config_info.neighbors@)
            &&& reps_from(n.interface_reps, seq![c], config_info.neighbors@)
            &&& n.forwarding_table.view() == host_table(c, config_info.neighbors@, now)
        },
        config_info.routing_mode == RoutingType::Static ==> {
            let cs = config_info.interfaces@;
            let ns = config_info.neighbors@;
            let a = assign(cs, ns, config_info.static_routes@, now);
            &&& n.n_type == NodeType::Router
            &&& n.interfaces@.len() == a.1.len()
            &&& forall|i: int| 0 <= i < a.1.len() ==> made_from(#[trigger] n.interfaces@[i], cs[a.1[i] as int], ns)
            &&& reps_from(n.interface_reps, picked(cs, a.1), ns)
            &&& n.forwarding_table.view() == toself_for(a.2, picked(cs, a.1), now)
        },
{
    let ghost cfg = config_info;
    let IPConfig { interfaces, neighbors, routing_mode, static_routes, rip_neighbors } = config_info;
    let ghost cs = interfaces@;
    let ghost ns = neighbors@;
    let mut reps = InterfaceTable::new();
    let mut made: Vec<Interface> = Vec::new();
    let mut table = ForwardingTable::new();
    if routing_mode == RoutingType::NoRouting {
        let c = &interfaces[0];
        let inter = interface_from(c, &neighbors);
        let rep = rep_from(c, &neighbors);
        let ghost t0 = reps;
        reps.insert(rep);
        proof {
            assert forall|x: Seq<char>| #[trigger] t0.has(x) <==> crate::config::configured(Seq::<InterfaceConfig>::empty(), x) by {}
            lemma_reps_from_push(t0, reps, Seq::empty(), cs[0], ns);
            assert(Seq::<InterfaceConfig>::empty().push(cs[0]) =~= seq![cs[0]]);
        }
        table.insert(c.assigned_prefix, Route::new(RouteType::Local, Some(0), ForwardingOption::Inter(c.name.clone()), now));
        let default_net = match Ipv4Net::new(0, 0) { Some(x) => x, None => { assert(false); c.assigned_prefix } };
        let nb = neighbors_for(&neighbors, &c.name);
        let gateway = if nb.len() > 0 { nb[0].0 } else { c.assigned_ip };
        table.insert(default_net, Route::new(RouteType::Static, None, ForwardingOption::Ip(gateway), now));
        let self_net = match Ipv4Net::new(c.assigned_ip, 32) { Some(x) => x, None => { assert(false); c.assigned_prefix } };
        table.insert(self_net, Route::new(RouteType::ToSelf, None, ForwardingOption::ToSelf, now));
        made.push(inter);
        proof {
            assert(table.view() == host_table(cs[0], ns, now));
            lemma_costs_seq_map(table.seq());
            lemma_inter_known_seq_map(reps, table.seq());
            let m = table.view();
            assert(map_inter_known(reps, m)) by {
                assert forall|k: Ipv4Net| #[trigger] m.contains_key(k) implies match m[k].next_hop {
                    ForwardingOption::Inter(x) => reps.has(x@),
                    _ => true,
                } by {}
            }
        }
        return Node::new(NodeType::Host, made, reps, table, HashMap::new());
    }
    let mut rem: Vec<usize> = Vec::new();
    let mut i: usize = 0;
    while i < interfaces.len()
        invariant
            i <= interfaces@.len(),
            rem@ == Seq::new(i as nat, |j: int| j as usize),
        decreases interfaces@.len() - i,
    {
        rem.push(i);
        proof { assert(rem@ =~= Seq::new((i + 1) as nat, |j: int| j as usize)); }
        i = i + 1;
    }
    let mut chosen: Vec<usize> = Vec::new();
    let mut r: usize = 0;
    proof {
        assert forall|x: Seq<char>| #[trigger] reps.has(x) <==> crate::config::configured(picked(cs, chosen@), x) by {}
        assert(picked(cs, chosen@) =~= Seq::empty());
    }
    while r < static_routes.len()
        invariant
            cs == interfaces@,
            ns == neighbors@,
            routing_mode == RoutingType::Static,
            r <= static_routes@.len(),
            (rem@, chosen@, table.view()) == assign(cs, ns, static_routes@.take(r as int), now),
            forall|j: int| 0 <= j < rem@.len() ==> (#[trigger] rem@[j]) < cs.len(),
            forall|j: int| 0 <= j < chosen@.len() ==> (#[trigger] chosen@[j]) < cs.len(),
            table.wf(),
            advertised_have_cost(table.seq()),
            map_inter_known(reps, table.view()),
            reps_from(reps, picked(cs, chosen@), ns),
            made@.len() == chosen@.len(),
            forall|j: int| 0 <= j < chosen@.len() ==> made_from(#[trigger] made@[j], cs[chosen@[j] as int], ns),
        decreases static_routes@.len() - r,
    {
        let net = static_routes[r].0;
        let ghost rem0 = rem@;
        proof {
            assert(static_routes@.take(r + 1).drop_last() =~= static_routes@.take(r as int));
            assert(static_routes@.take(r + 1).last() == static_routes@[r as int]);
        }
        let mut p: usize = 0;
        let mut found = false;
        while p < rem.len()
            invariant_except_break
                !found,
            invariant
                rem@ == rem0,
                forall|j: int| 0 <= j < rem@.len() ==> (#[trigger] rem@[j]) < cs.len(),
                cs == interfaces@,
                ns == neighbors@,
                p <= rem@.len(),
                forall|q: int| 0 <= q < p ==> !fits_at(cs, ns, rem0, net, q),
            ensures
                rem@ == rem0,
                p <= rem@.len(),
                forall|q: int| 0 <= q < p ==> !fits_at(cs, ns, rem0, net, q),
                found ==> p < rem@.len() && fits_at(cs, ns, rem0, net, p as int),
                !found ==> p == rem@.len(),
            decreases rem@.len() - p,
        {
            let k = rem[p];
            let nb = neighbors_for(&neighbors, &interfaces[k].name);
            if any_neighbor_in(&nb, &net) {
                found = true;
                proof { assert(fits_at(cs, ns, rem0, net, p as int)); }
                break;
            }
            p = p + 1;
        }
        proof { lemma_first_fit(cs, ns, rem0, net, p as int); }
        if found {
            let k = rem.remove(p);
            let c = &interfaces[k];
            let ghost t0 = reps;
            let ghost ch0 = chosen@;
            let ghost m0 = table.view();
            proof { lemma_costs_seq_map(table.seq()); }
            table.insert(net, Route::new(RouteType::Local, Some(0), ForwardingOption::Inter(c.name.clone()), now));
            reps.insert(rep_from(c, &neighbors));
            chosen.push(k);
            let ghost made0 = made@;
            made.push(interface_from(c, &neighbors));
            proof {
                lemma_costs_seq_map(table.seq());
                assert(picked(cs, chosen@) =~= picked(cs, ch0).push(cs[k as int]));
                lemma_reps_from_push(t0, reps, picked(cs, ch0), cs[k as int], ns);
                let m = table.view();
                assert forall|x: Ipv4Net| #[trigger] m.contains_key(x) implies match m[x].next_hop {
                    ForwardingOption::Inter(y) => reps.has(y@),
                    _ => true,
                } by {
                    if x != net {
                        match m0[x].next_hop {
                            ForwardingOption::Inter(y) => {
                                assert(t0.has(y@));
                                if y@ != cs[k as int].name@ {
                                    assert(reps.has(y@) == t0.has(y@));
                                }
                            },
                            _ => {},
                        }
                    }
                }
                assert forall|j: int| 0 <= j < chosen@.len() implies made_from(#[trigger] made@[j], cs[chosen@[j] as int], ns) by {
                    if j < ch0.len() {
                        assert(made@[j] == made0[j]);
                    }
                }
                assert forall|j: int| 0 <= j < rem@.len() implies (#[trigger] rem@[j]) < cs.len() by {
                    if j < p { assert(rem@[j] == rem0[j]); } else { assert(rem@[j] == rem0[j + 1]); }
                }
            }
        }
        r = r + 1;
    }
    proof { assert(static_routes@.take(r as int) =~= static_routes@); }
    let ghost m_assigned = table.view();
    let ghost pk = picked(cs, chosen@);
    proof { lemma_costs_seq_map(table.seq()); }
    let mut j: usize = 0;
    while j < chosen.len()
        invariant
            cs == interfaces@,
            pk == picked(cs, chosen@),
            forall|q: int| 0 <= q < chosen@.len() ==> (#[trigger] chosen@[q]) < cs.len(),
            j <= chosen@.len(),
            table.wf(),
            table.view() == toself_for(m_assigned, pk.take(j as int), now),
        decreases chosen@.len() - j,
    {
        proof {
            assert(pk.take(j + 1).drop_last() =~= pk.take(j as int));
            assert(pk.take(j + 1).last() == cs[chosen@[j as int] as int]);
        }
        let ip = interfaces[chosen[j]].assigned_ip;
        let self_net = match Ipv4Net::new(ip, 32) { Some(x) => x, None => { assert(false); Ipv4Net { addr: 0, prefix_len: 0 } } };
        table.insert(self_net, Route::new(RouteType::ToSelf, None, ForwardingOption::ToSelf, now));
        j = j + 1;
    }
    proof {
        assert(pk.take(j as int) =~= pk);
        lemma_toself_for_keeps(reps, m_assigned, pk, now);
        lemma_costs_seq_map(table.seq());
        lemma_inter_known_seq_map(reps, table.seq());
    }
    Node::new(NodeType::Router, made, reps, table, HashMap::new())
}

/// After the routes to this node are added, the /32 prefix of the address
/// of each configuration leads to this node.
proof fn lemma_toself_for_has(m: Map<Ipv4Net, Route>, cs: Seq<InterfaceConfig>, now: u64, i: int)
    requires
        0 <= i < cs.len(),
    ensures
        toself_for(m, cs, now).contains_key(Ipv4Net { addr: cs[i].assigned_ip, prefix_len: 32 }),
        toself_for(m, cs, now)[Ipv4Net { addr: cs[i].assigned_ip, prefix_len: 32 }].next_hop == ForwardingOption::ToSelf,
    decreases cs.len(),
{
    if i < cs.len() - 1 {
        lemma_toself_for_has(m, cs.drop_last(), now, i);
        assert(cs.drop_last()[i] == cs[i]);
    }
}

/// A host started from interface configuration `c` delivers to itself the
/// packets for its own address (when its table's prefixes are well formed).
pub proof fn lemma_host_delivers_own(c: InterfaceConfig, ns: Seq<NeighborConfig>, now: u64, s: Seq<(Ipv4Net, Route)>, fuel: nat)
    requires
        keys_unique(s),
        forall|j: int| 0 <= j < s.len() ==> (#[trigger] s[j]).0.wf(),
        seq_to_map(s) == host_table(c, ns, now),
    ensures
        resolve(s, c.assigned_ip, fuel) == Ok::<Option<(String, u32)>, RouteError>(None),
{
    crate::routing::lemma_self_route(s, c.assigned_ip, fuel);
}

/// A router started with interfaces `cs` delivers to itself the packets
/// for the address of each of them (when its table's prefixes are well
/// formed).
pub proof fn lemma_router_delivers_own(m: Map<Ipv4Net, Route>, cs: Seq<InterfaceConfig>, now: u64,
    s: Seq<(Ipv4Net, Route)>, i: int, fuel: nat)
    requires
        keys_unique(s),
        forall|j: int| 0 <= j < s.len() ==> (#[trigger] s[j]).0.wf(),
        seq_to_map(s) == toself_for(m, cs, now),
        0 <= i < cs.len(),
    ensures
        resolve(s, cs[i].assigned_ip, fuel) == Ok::<Option<(String, u32)>, RouteError>(None),
{
    lemma_toself_for_has(m, cs, now, i);
    crate::routing::lemma_self_route(s, cs[i].assigned_ip, fuel);
}

} // verus!
