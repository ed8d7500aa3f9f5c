//! The IP layer of a node: where a packet goes (out of an interface, to the
//! node itself, or nowhere), the packets a node builds, and for routers the
//! RIP exchange (requests, responses, triggered updates, route expiry).

use vstd::prelude::*;
use crate::net::Ipv4Net;
use crate::routing::{ForwardingTable, ForwardingOption, Route, RouteType, RouteError, resolve, best_index};
use crate::table::{keys_unique, has_key, seq_to_map};
use crate::ipv4::{Packet, PacketBasis, IpHeaderView, build_packet, spec_built_header, payload_len_ok, packet_valid,
    spec_packet_valid, update_pack, spec_hop, PROTOCOL_TEST, PROTOCOL_TCP, PROTOCOL_RIP};
use crate::interfaces::InterfaceTable;
use crate::rip::{RipMsg, RipNeighbors, serialize_rip, spec_serialize_rip, table_to_rip, rip_routes_of, entries_for,
    advertised_have_cost, neighbor_addrs, update_fwd_table, deserialize_rip, spec_deserialize_rip, rip_bytes_complete,
    rip_update_ok, apply_updates, changed_nets, lemma_costs_seq_map, lemma_apply_updates_costs, lemma_changed_in_table,
    lemma_entries_for_len, lemma_rip_routes_len};
use crate::rng::random_range;

verus! {

/// Where a packet goes.
#[derive(Debug)]
pub enum Forward {
    /// Out of the interface with this name, to this next hop.
    Send(String, u32, Packet),
    /// To this node itself.
    Local(Packet),
    /// Nowhere: it is dropped.
    Drop,
}

/// Whether `r` sends a packet with this header and payload out of
/// interface `name` to `hop`.
pub open spec fn sends(r: Forward, name: String, hop: u32, h: IpHeaderView, data: Seq<u8>) -> bool {
    r matches Forward::Send(n, x, p) && n == name && x == hop && p.header@ == h && p.data@ == data
}

/// Whether `r` keeps a packet with this header and payload at this node.
pub open spec fn keeps(r: Forward, h: IpHeaderView, data: Seq<u8>) -> bool {
    r matches Forward::Local(p) && p.header@ == h && p.data@ == data
}

/// Where the routing of destination `dst` through `table` sends a packet
/// with this header and payload.
pub open spec fn routed(table: ForwardingTable, dst: u32, r: Forward, h: IpHeaderView, data: Seq<u8>) -> bool {
    match resolve(table.seq(), dst, table.seq().len() as nat) {
        Ok(Some((name, hop))) => sends(r, name, hop, h, data),
        Ok(None) => keeps(r, h, data),
        Err(_) => r is Drop,
    }
}

/// Sends a packet that this node built: out of the interface the table
/// gives for its destination, to this node itself, or nowhere when the
/// destination has no route.
pub fn route_packet(table: &ForwardingTable, pack: Packet) -> (r: Forward)
    requires
        table.wf(),
    ensures
        routed(*table, pack.header.destination, r, pack.header@, pack.data@),
{
    match table.proper_interface(pack.header.destination) {
        Ok(Some((name, hop))) => Forward::Send(name, hop, pack),
        Ok(None) => Forward::Local(pack),
        Err(_) => Forward::Drop,
    }
}

/// Forwards a packet that arrived on an interface: a packet whose time to
/// live is out or whose checksum is wrong is dropped; otherwise it takes one
/// hop (time to live decremented, checksum redone) and goes where the table
/// gives for its destination. A destination without route is an error.
pub fn forward_packet(table: &ForwardingTable, pack: Packet) -> (r: Result<Forward, RouteError>)
    requires
        table.wf(),
        pack.header@.wf(),
    ensures
        !spec_packet_valid(pack.header@) ==> r matches Ok(Forward::Drop),
        spec_packet_valid(pack.header@) ==> match resolve(table.seq(), pack.header.destination, table.seq().len() as nat) {
            Err(e) => r == Err::<Forward, RouteError>(e),
            Ok(Some((name, hop))) => r matches Ok(f) && sends(f, name, hop, spec_hop(pack.header@), pack.data@),
            Ok(None) => r matches Ok(f) && keeps(f, spec_hop(pack.header@), pack.data@),
        },
{
    if !packet_valid(&pack) {
        return Ok(Forward::Drop);
    }
    let pack = update_pack(pack);
    match table.proper_interface(pack.header.destination) {
        Ok(Some((name, hop))) => Ok(Forward::Send(name, hop, pack)),
        Ok(None) => Ok(Forward::Local(pack)),
        Err(e) => Err(e),
    }
}

/// Whether a packet to `dst` can be built: the destination routes, to an
/// interface the node has, or to the node itself when it has interfaces.
pub open spec fn routable(reps: InterfaceTable, table: ForwardingTable, dst: u32) -> bool {
    match resolve(table.seq(), dst, table.seq().len() as nat) {
        Ok(Some((name, _))) => reps.has(name@),
        Ok(None) => reps.seq().len() > 0,
        Err(_) => false,
    }
}

/// The source address of a packet to `dst` that interface `name` sends:
/// the address of its prefix.
pub open spec fn source_for(reps: InterfaceTable, name: String) -> u32 {
    reps.rep(name@).v_net.addr
}

/// Builds a packet carrying `pb`. Its source is the address of the interface
/// its destination routes to; for a destination that is this node, the
/// address of an interface picked at random.
pub fn build_from(reps: &InterfaceTable, table: &ForwardingTable, pb: PacketBasis) -> (p: Packet)
    requires
        reps.wf(),
        table.wf(),
        payload_len_ok(pb.msg@.len()),
        routable(*reps, *table, pb.dst_ip),
    ensures
        p.data@ == pb.msg@,
        p.header@.wf(),
        match resolve(table.seq(), pb.dst_ip, table.seq().len() as nat) {
            Ok(Some((name, _))) => p.header@ == spec_built_header(source_for(*reps, name), pb.dst_ip, pb.prot_num, pb.msg@.len()),
            _ => exists|i: int| 0 <= i < reps.seq().len()
                && p.header@ == spec_built_header(#[trigger] reps.seq()[i].v_net.addr, pb.dst_ip, pb.prot_num, pb.msg@.len()),
        },
{
    let src_ip = match table.proper_interface(pb.dst_ip) {
        Ok(Some((inter, _))) => {
            let i = match reps.find(&inter) {
                Some(i) => i,
                None => 0,
            };
            reps.reps[i].v_net.addr
        },
        _ => {
            let n = reps.reps.len();
            let m: u32 = if n > 0xffff_ffff { 0xffff_ffff } else { n as u32 };
            let k = random_range(0, m) as usize;
            reps.reps[k].v_net.addr
        },
    };
    build_packet(pb, src_ip)
}

/// The IP layer of a host.
#[derive(Debug)]
pub struct HostIpDaemon {
    pub interface_reps: InterfaceTable,
    pub forwarding_table: ForwardingTable,
}

impl HostIpDaemon {
    pub open spec fn wf(&self) -> bool {
        self.interface_reps.wf() && self.forwarding_table.wf()
    }

    pub fn new(interface_reps: InterfaceTable, forwarding_table: ForwardingTable) -> (d: HostIpDaemon)
        ensures
            d.interface_reps == interface_reps,
            d.forwarding_table == forwarding_table,
    {
        HostIpDaemon { interface_reps, forwarding_table }
    }

    /// Builds a packet carrying `pb` (see `build_from`).
    pub fn build(&self, pb: PacketBasis) -> (p: Packet)
        requires
            self.wf(),
            payload_len_ok(pb.msg@.len()),
            routable(self.interface_reps, self.forwarding_table, pb.dst_ip),
        ensures
            p.data@ == pb.msg@,
            p.header@.wf(),
            match resolve(self.forwarding_table.seq(), pb.dst_ip, self.forwarding_table.seq().len() as nat) {
                Ok(Some((name, _))) => p.header@ == spec_built_header(source_for(self.interface_reps, name), pb.dst_ip,
                    pb.prot_num, pb.msg@.len()),
                _ => exists|i: int| 0 <= i < self.interface_reps.seq().len()
                    && p.header@ == spec_built_header(#[trigger] self.interface_reps.seq()[i].v_net.addr, pb.dst_ip,
                        pb.prot_num, pb.msg@.len()),
            },
    {
        build_from(&self.interface_reps, &self.forwarding_table, pb)
    }

    /// Sends a packet this host built (see `route_packet`).
    pub fn send(&self, pack: Packet) -> (r: Forward)
        requires
            self.wf(),
        ensures
            routed(self.forwarding_table, pack.header.destination, r, pack.header@, pack.data@),
    {
        route_packet(&self.forwarding_table, pack)
    }

    /// Forwards a packet from an interface (see `forward_packet`).
    pub fn forward_packet(&self, pack: Packet) -> (r: Result<Forward, RouteError>)
        requires
            self.wf(),
            pack.header@.wf(),
        ensures
            !spec_packet_valid(pack.header@) ==> r matches Ok(Forward::Drop),
            spec_packet_valid(pack.header@) ==> match resolve(self.forwarding_table.seq(), pack.header.destination,
                self.forwarding_table.seq().len() as nat) {
                Err(e) => r == Err::<Forward, RouteError>(e),
                Ok(Some((name, hop))) => r matches Ok(f) && sends(f, name, hop, spec_hop(pack.header@), pack.data@),
                Ok(None) => r matches Ok(f) && keeps(f, spec_hop(pack.header@), pack.data@),
            },
    {
        forward_packet(&self.forwarding_table, pack)
    }

    /// Whether a packet to `dst` can be built (`routable`).
    pub fn routable_check(&self, dst: u32) -> (b: bool)
        requires
            self.wf(),
        ensures
            b == routable(self.interface_reps, self.forwarding_table, dst),
    {
        match self.forwarding_table.proper_interface(dst) {
            Ok(Some((name, _))) => self.interface_reps.find(&name).is_some(),
            Ok(None) => self.interface_reps.reps.len() > 0,
            Err(_) => false,
        }
    }

    /// Whether a host takes packets of this protocol for itself: test
    /// packets and TCP, both handed to the host's application side.
    pub fn local_protocols(protocol: u8) -> (b: bool)
        ensures
            b == (protocol == PROTOCOL_TEST || protocol == PROTOCOL_TCP),
    {
        protocol == PROTOCOL_TEST || protocol == PROTOCOL_TCP
    }
}

/// The largest payload a node builds a packet for.
pub open spec fn fits(len: nat) -> bool {
    len <= 65515
}

/// A payload that fits has a length the total length field can hold.
pub proof fn lemma_fits_len_ok(len: nat)
    requires
        fits(len),
    ensures
        payload_len_ok(len),
{
    assert((len as u16) as int == len);
}

/// The routes of a RIP response from `table`: all advertised routes, or
/// those for the prefixes `nets`.
pub open spec fn response_routes(table: ForwardingTable, nets: Option<Seq<Ipv4Net>>) -> Seq<crate::rip::RipRoute> {
    match nets {
        None => rip_routes_of(table.seq()),
        Some(ns) => rip_routes_of(entries_for(table.view(), ns)),
    }
}

/// The bytes of the RIP response with routes `rs`.
pub open spec fn response_bytes(rs: Seq<crate::rip::RipRoute>) -> Seq<u8> {
    spec_serialize_rip(crate::rip::RipMsgView { command: 2, num_entries: rs.len() as u16, routes: rs })
}

/// The bytes of a RIP request.
pub open spec fn request_bytes() -> Seq<u8> {
    spec_serialize_rip(crate::rip::RipMsgView { command: 1, num_entries: 0, routes: Seq::empty() })
}

/// Where a RIP packet with payload `data` that router tables `reps` and
/// `table` build for `dst` goes.
pub open spec fn rip_out(reps: InterfaceTable, table: ForwardingTable, dst: u32, r: Forward, data: Seq<u8>) -> bool {
    match resolve(table.seq(), dst, table.seq().len() as nat) {
        Ok(Some((name, hop))) => sends(r, name, hop, spec_built_header(source_for(reps, name), dst, PROTOCOL_RIP, data.len()), data),
        Ok(None) => r matches Forward::Local(p) && p.data@ == data && p.header@.destination == dst
            && p.header@.protocol == PROTOCOL_RIP,
        Err(_) => r is Drop,
    }
}

/// The IP layer of a router, with its RIP neighbors.
#[derive(Debug)]
pub struct RouterIpDaemon {
    pub interface_reps: InterfaceTable,
    pub forwarding_table: ForwardingTable,
    pub rip_neighbors: RipNeighbors,
}

impl RouterIpDaemon {
    /// The tables are consistent and every route a router advertises has a
    /// cost.
    pub open spec fn wf(&self) -> bool {
        &&& self.interface_reps.wf()
        &&& self.forwarding_table.wf()
        &&& advertised_have_cost(self.forwarding_table.seq())
    }

    /// Whether every RIP neighbor can be sent to.
    pub open spec fn neighbors_routable(&self) -> bool {
        forall|a: u32| #[trigger] self.rip_neighbors@.contains_key(a)
            ==> routable(self.interface_reps, self.forwarding_table, a)
    }

    pub fn new(interface_reps: InterfaceTable, forwarding_table: ForwardingTable, rip_neighbors: RipNeighbors) -> (d: RouterIpDaemon)
        ensures
            d.interface_reps == interface_reps,
            d.forwarding_table == forwarding_table,
            d.rip_neighbors == rip_neighbors,
    {
        RouterIpDaemon { interface_reps, forwarding_table, rip_neighbors }
    }

    /// Builds a packet carrying `pb` (see `build_from`).
    pub fn build(&self, pb: PacketBasis) -> (p: Packet)
        requires
            self.wf(),
            payload_len_ok(pb.msg@.len()),
            routable(self.interface_reps, self.forwarding_table, pb.dst_ip),
        ensures
            p.data@ == pb.msg@,
            p.header@.wf(),
            match resolve(self.forwarding_table.seq(), pb.dst_ip, self.forwarding_table.seq().len() as nat) {
                Ok(Some((name, _))) => p.header@ == spec_built_header(source_for(self.interface_reps, name), pb.dst_ip,
                    pb.prot_num, pb.msg@.len()),
                _ => exists|i: int| 0 <= i < self.interface_reps.seq().len()
                    && p.header@ == spec_built_header(#[trigger] self.interface_reps.seq()[i].v_net.addr, pb.dst_ip,
                        pb.prot_num, pb.msg@.len()),
            },
    {
        build_from(&self.interface_reps, &self.forwarding_table, pb)
    }

    /// Whether a router takes packets of this protocol for itself: RIP
    /// only.
    pub fn local_protocols(protocol: u8) -> (b: bool)
        ensures
            b == (protocol == PROTOCOL_RIP),
    {
        protocol == PROTOCOL_RIP
    }

    /// Sends a packet this router built (see `route_packet`).
    pub fn send(&self, pack: Packet) -> (r: Forward)
        requires
            self.forwarding_table.wf(),
        ensures
            routed(self.forwarding_table, pack.header.destination, r, pack.header@, pack.data@),
    {
        route_packet(&self.forwarding_table, pack)
    }

    /// Forwards a packet from an interface (see `forward_packet`).
    pub fn forward_packet(&self, pack: Packet) -> (r: Result<Forward, RouteError>)
        requires
            self.forwarding_table.wf(),
            pack.header@.wf(),
        ensures
            !spec_packet_valid(pack.header@) ==> r matches Ok(Forward::Drop),
            spec_packet_valid(pack.header@) ==> match resolve(self.forwarding_table.seq(), pack.header.destination,
                self.forwarding_table.seq().len() as nat) {
                Err(e) => r == Err::<Forward, RouteError>(e),
                Ok(Some((name, hop))) => r matches Ok(f) && sends(f, name, hop, spec_hop(pack.header@), pack.data@),
                Ok(None) => r matches Ok(f) && keeps(f, spec_hop(pack.header@), pack.data@),
            },
    {
        forward_packet(&self.forwarding_table, pack)
    }

    /// Packages RIP message bytes for `dst` and sends them.
    fn send_rip_bytes(&self, dst: u32, msg: Vec<u8>) -> (r: Forward)
        requires
            self.wf(),
            routable(self.interface_reps, self.forwarding_table, dst),
            fits(msg@.len()),
        ensures
            rip_out(self.interface_reps, self.forwarding_table, dst, r, msg@),
    {
        proof { lemma_fits_len_ok(msg@.len()); }
        let pack = build_from(&self.interface_reps, &self.forwarding_table,
            PacketBasis { dst_ip: dst, prot_num: PROTOCOL_RIP, msg });
        route_packet(&self.forwarding_table, pack)
    }

    /// Puts a RIP message in a packet for `dst`.
    pub fn package_rmsg(&self, rmsg: RipMsg, dst: u32) -> (p: Packet)
        requires
            self.wf(),
            routable(self.interface_reps, self.forwarding_table, dst),
            fits(spec_serialize_rip(rmsg@).len()),
        ensures
            p.data@ == spec_serialize_rip(rmsg@),
            p.header@.destination == dst,
            p.header@.protocol == PROTOCOL_RIP,
            resolve(self.forwarding_table.seq(), dst, self.forwarding_table.seq().len() as nat) matches Ok(Some((name, _)))
                ==> p.header@ == spec_built_header(source_for(self.interface_reps, name), dst, PROTOCOL_RIP, p.data@.len()),
    {
        let msg = serialize_rip(rmsg);
        proof { lemma_fits_len_ok(msg@.len()); }
        build_from(&self.interface_reps, &self.forwarding_table, PacketBasis { dst_ip: dst, prot_num: PROTOCOL_RIP, msg })
    }

    /// Sends `dst` a RIP response with the router's routes: all of them, or
    /// those for the prefixes `nets`.
    pub fn rip_respond(&self, dst: u32, nets: Option<&Vec<Ipv4Net>>) -> (r: Forward)
        requires
            self.wf(),
            routable(self.interface_reps, self.forwarding_table, dst),
            nets matches Some(ns) ==> forall|i: int| 0 <= i < ns@.len() ==> self.forwarding_table.view().contains_key(#[trigger] ns@[i]),
            fits(4 + 12 * response_routes(self.forwarding_table, match nets { Some(ns) => Some(ns@), None => None }).len()),
        ensures
            rip_out(self.interface_reps, self.forwarding_table, dst, r,
                response_bytes(response_routes(self.forwarding_table, match nets { Some(ns) => Some(ns@), None => None }))),
    {
        let msg = table_to_rip(&self.forwarding_table, nets);
        let ghost rs = msg@.routes;
        let bytes = serialize_rip(msg);
        proof {
            crate::rip::lemma_serialize_len(rs.len() as u16, rs);
            assert(rs.len() <= 5459);
            assert(rs.len() as u16 == rs.len());
        }
        self.send_rip_bytes(dst, bytes)
    }

    /// Sends `dst` a RIP request.
    pub fn rip_request(&self, dst: u32) -> (r: Forward)
        requires
            self.wf(),
            routable(self.interface_reps, self.forwarding_table, dst),
        ensures
            rip_out(self.interface_reps, self.forwarding_table, dst, r, request_bytes()),
    {
        let msg = RipMsg::new(1, 0, Vec::new());
        proof { assert(msg@ == crate::rip::RipMsgView { command: 1, num_entries: 0, routes: Seq::empty() }); }
        let bytes = serialize_rip(msg);
        proof { crate::rip::lemma_serialize_len(0, Seq::empty()); }
        self.send_rip_bytes(dst, bytes)
    }
}

/// Whether `out` holds one RIP packet with payload `data` for each RIP
/// neighbor of `d`, in some order of the neighbors.
pub open spec fn to_each_neighbor(d: RouterIpDaemon, out: Seq<Forward>, data: Seq<u8>) -> bool {
    exists|addrs: Seq<u32>| {
        &&& #[trigger] addrs.to_set() == d.rip_neighbors@.dom()
        &&& addrs.no_duplicates()
        &&& out.len() == addrs.len()
        &&& forall|i: int| 0 <= i < addrs.len() ==> rip_out(d.interface_reps, d.forwarding_table, addrs[i], #[trigger] out[i], data)
    }
}

impl RouterIpDaemon {
    /// Sends a RIP request to every neighbor.
    pub fn request_all(&self) -> (out: Vec<Forward>)
        requires
            self.wf(),
            self.neighbors_routable(),
        ensures
            to_each_neighbor(*self, out@, request_bytes()),
    {
        let keys = neighbor_addrs(&self.rip_neighbors);
        let mut out: Vec<Forward> = Vec::new();
        let mut i: usize = 0;
        while i < keys.len()
            invariant
                self.wf(),
                self.neighbors_routable(),
                keys@.to_set() == self.rip_neighbors@.dom(),
                i <= keys@.len(),
                out@.len() == i,
                forall|j: int| 0 <= j < i ==> rip_out(self.interface_reps, self.forwarding_table, keys@[j], #[trigger] out@[j], request_bytes()),
            decreases keys@.len() - i,
        {
            proof {
                assert(keys@.to_set().contains(keys@[i as int]));
                assert(self.rip_neighbors@.contains_key(keys@[i as int]));
            }
            let f = self.rip_request(keys[i]);
            out.push(f);
            i = i + 1;
        }
        proof {
            assert(keys@.to_set() == self.rip_neighbors@.dom() && keys@.no_duplicates() && out@.len() == keys@.len());
        }
        out
    }

    /// Sends every neighbor a RIP response with all the router's routes.
    pub fn rip_broadcast(&self) -> (out: Vec<Forward>)
        requires
            self.wf(),
            self.neighbors_routable(),
            fits(4 + 12 * rip_routes_of(self.forwarding_table.seq()).len()),
        ensures
            to_each_neighbor(*self, out@, response_bytes(response_routes(self.forwarding_table, None))),
    {
        let keys = neighbor_addrs(&self.rip_neighbors);
        let mut out: Vec<Forward> = Vec::new();
        let mut i: usize = 0;
        while i < keys.len()
            invariant
                self.wf(),
                self.neighbors_routable(),
                fits(4 + 12 * rip_routes_of(self.forwarding_table.seq()).len()),
                keys@.to_set() == self.rip_neighbors@.dom(),
                i <= keys@.len(),
                out@.len() == i,
                forall|j: int| 0 <= j < i ==> rip_out(self.interface_reps, self.forwarding_table, keys@[j], #[trigger] out@[j],
                    response_bytes(response_routes(self.forwarding_table, None))),
            decreases keys@.len() - i,
        {
            proof {
                assert(keys@.to_set().contains(keys@[i as int]));
                assert(self.rip_neighbors@.contains_key(keys@[i as int]));
            }
            let f = self.rip_respond(keys[i], None);
            out.push(f);
            i = i + 1;
        }
        proof {
            assert(keys@.to_set() == self.rip_neighbors@.dom() && keys@.no_duplicates() && out@.len() == keys@.len());
        }
        out
    }

    /// After an update changed the routes for some prefixes, sends every
    /// neighbor a RIP response with those routes; nothing when nothing
    /// changed.
    pub fn triggered_update(&self, changed_routes: Option<Vec<Ipv4Net>>) -> (out: Vec<Forward>)
        requires
            self.wf(),
            self.neighbors_routable(),
            changed_routes matches Some(c) ==> {
                &&& forall|i: int| 0 <= i < c@.len() ==> self.forwarding_table.view().contains_key(#[trigger] c@[i])
                &&& fits(4 + 12 * response_routes(self.forwarding_table, Some(c@)).len())
            },
        ensures
            changed_routes is None ==> out@.len() == 0,
            changed_routes matches Some(c) ==> to_each_neighbor(*self, out@,
                response_bytes(response_routes(self.forwarding_table, Some(c@)))),
    {
        let changed = match changed_routes {
            Some(c) => c,
            None => {
                return Vec::new();
            },
        };
        let keys = neighbor_addrs(&self.rip_neighbors);
        let mut out: Vec<Forward> = Vec::new();
        let mut i: usize = 0;
        while i < keys.len()
            invariant
                self.wf(),
                self.neighbors_routable(),
                forall|j: int| 0 <= j < changed@.len() ==> self.forwarding_table.view().contains_key(#[trigger] changed@[j]),
                fits(4 + 12 * response_routes(self.forwarding_table, Some(changed@)).len()),
                keys@.to_set() == self.rip_neighbors@.dom(),
                i <= keys@.len(),
                out@.len() == i,
                forall|j: int| 0 <= j < i ==> rip_out(self.interface_reps, self.forwarding_table, keys@[j], #[trigger] out@[j],
                    response_bytes(response_routes(self.forwarding_table, Some(changed@)))),
            decreases keys@.len() - i,
        {
            proof {
                assert(keys@.to_set().contains(keys@[i as int]));
                assert(self.rip_neighbors@.contains_key(keys@[i as int]));
            }
            let f = self.rip_respond(keys[i], Some(&changed));
            out.push(f);
            i = i + 1;
        }
        proof {
            assert(keys@.to_set() == self.rip_neighbors@.dom() && keys@.no_duplicates() && out@.len() == keys@.len());
        }
        out
    }
}

impl RouterIpDaemon {
    /// Whether a packet to `dst` can be built (`routable`).
    pub fn routable_check(&self, dst: u32) -> (b: bool)
        requires
            self.wf(),
        ensures
            b == routable(self.interface_reps, self.forwarding_table, dst),
    {
        match self.forwarding_table.proper_interface(dst) {
            Ok(Some((name, _))) => self.interface_reps.find(&name).is_some(),
            Ok(None) => self.interface_reps.len() > 0,
            Err(_) => false,
        }
    }

    /// Whether every RIP neighbor can be sent to (`neighbors_routable`).
    pub fn neighbors_routable_check(&self) -> (b: bool)
        requires
            self.wf(),
        ensures
            b == self.neighbors_routable(),
    {
        let keys = neighbor_addrs(&self.rip_neighbors);
        let mut i: usize = 0;
        while i < keys.len()
            invariant
                self.wf(),
                keys@.to_set() == self.rip_neighbors@.dom(),
                i <= keys@.len(),
                forall|j: int| 0 <= j < i ==> routable(self.interface_reps, self.forwarding_table, #[trigger] keys@[j]),
            decreases keys@.len() - i,
        {
            if !self.routable_check(keys[i]) {
                proof {
                    assert(keys@.to_set().contains(keys@[i as int]));
                }
                return false;
            }
            i = i + 1;
        }
        proof {
            assert forall|a: u32| #[trigger] self.rip_neighbors@.contains_key(a)
                implies routable(self.interface_reps, self.forwarding_table, a) by {
                assert(keys@.to_set().contains(a));
                let j = choose|j: int| 0 <= j < keys@.len() && keys@[j] == a;
                assert(routable(self.interface_reps, self.forwarding_table, keys@[j]));
            }
        }
        true
    }

    /// Whether a RIP response with all the routes fits in a packet.
    pub fn broadcast_fits(&self) -> (b: bool)
        requires
            self.wf(),
        ensures
            b == fits(4 + 12 * rip_routes_of(self.forwarding_table.seq()).len()),
    {
        let rs = crate::rip::entries_to_rip(&self.forwarding_table.entries);
        rs.len() <= 5459
    }

    /// Whether this router can take RIP packet `pack` (see
    /// `process_rip_packet`): a whole message that is a request from an
    /// address it can answer with all its routes, or a response whose routes
    /// fit in a packet and can all be applied.
    pub fn rip_packet_ok(&self, pack: &Packet) -> (b: bool)
        requires
            self.wf(),
        ensures
            b == (rip_bytes_complete(pack.data@) && ({
                let m = spec_deserialize_rip(pack.data@);
                &&& m.command == 1 || m.command == 2
                &&& m.command == 1 ==> routable(self.interface_reps, self.forwarding_table, pack.header.source)
                    && fits(4 + 12 * rip_routes_of(self.forwarding_table.seq()).len())
                &&& m.command == 2 ==> fits(4 + 12 * m.routes.len())
                    && forall|i: int| 0 <= i < m.routes.len() ==> rip_update_ok(self.forwarding_table.view(), #[trigger] m.routes[i])
            })),
    {
        if !crate::rip::rip_bytes_ok(&pack.data) {
            return false;
        }
        let copy = crate::ipv4::copy_prefix(&pack.data, pack.data.len());
        proof { assert(copy@ =~= pack.data@); }
        let m = deserialize_rip(copy);
        proof {
            assert(m.routes@ == spec_deserialize_rip(pack.data@).routes);
            assert(m.command == spec_deserialize_rip(pack.data@).command);
        }
        if m.command == 1 {
            self.routable_check(pack.header.source) && self.broadcast_fits()
        } else if m.command == 2 {
            m.routes.len() <= 5459 && crate::rip::rip_updates_check(&self.forwarding_table, &m.routes)
        } else {
            false
        }
    }

    /// Applies the routes of a RIP response from `next_hop`, received at
    /// time `now`, to the forwarding table (see `rip::update_fwd_table`).
    pub fn update_fwd_table(&mut self, rip_msg: &mut RipMsg, next_hop: u32, now: u64) -> (r: Option<Vec<Ipv4Net>>)
        requires
            old(self).wf(),
            forall|i: int| 0 <= i < old(rip_msg).routes@.len()
                ==> rip_update_ok(old(self).forwarding_table.view(), #[trigger] old(rip_msg).routes@[i]),
        ensures
            final(self).wf(),
            final(self).interface_reps == old(self).interface_reps,
            final(self).rip_neighbors == old(self).rip_neighbors,
            final(self).forwarding_table.view() == apply_updates(old(self).forwarding_table.view(), old(rip_msg).routes@, next_hop, now),
            r is None <==> changed_nets(old(self).forwarding_table.view(), old(rip_msg).routes@, next_hop, now).len() == 0,
            r matches Some(v) ==> v@ == changed_nets(old(self).forwarding_table.view(), old(rip_msg).routes@, next_hop, now),
    {
        proof { lemma_costs_seq_map(self.forwarding_table.seq()); }
        let r = update_fwd_table(&mut self.forwarding_table, rip_msg, next_hop, now);
        proof {
            lemma_apply_updates_costs(old(self).forwarding_table.view(), old(rip_msg).routes@, next_hop, now);
            lemma_costs_seq_map(self.forwarding_table.seq());
        }
        r
    }

    /// A RIP packet for this router, received at time `now`: a request is
    /// answered with all the router's routes; a response updates the table,
    /// and the routes that changed are sent to every neighbor. `None` when,
    /// after the update, some neighbor can no longer be sent to (no packet
    /// can be built for it).
    pub fn process_rip_packet(&mut self, pack: Packet, now: u64) -> (r: Option<Vec<Forward>>)
        requires
            old(self).wf(),
            rip_bytes_complete(pack.data@),
            ({
                let m = spec_deserialize_rip(pack.data@);
                &&& m.command == 1 || m.command == 2
                &&& m.command == 1 ==> routable(old(self).interface_reps, old(self).forwarding_table, pack.header.source)
                    && fits(4 + 12 * rip_routes_of(old(self).forwarding_table.seq()).len())
                &&& m.command == 2 ==> fits(4 + 12 * m.routes.len())
                    && forall|i: int| 0 <= i < m.routes.len() ==> rip_update_ok(old(self).forwarding_table.view(), #[trigger] m.routes[i])
            }),
        ensures
            final(self).wf(),
            final(self).interface_reps == old(self).interface_reps,
            final(self).rip_neighbors == old(self).rip_neighbors,
            ({
                let m = spec_deserialize_rip(pack.data@);
                let src = pack.header.source;
                &&& m.command == 1 ==> {
                    &&& final(self).forwarding_table == old(self).forwarding_table
                    &&& r matches Some(out) && out@.len() == 1 && rip_out(old(self).interface_reps, old(self).forwarding_table,
                        src, out@[0], response_bytes(response_routes(old(self).forwarding_table, None)))
                }
                &&& m.command == 2 ==> {
                    let ch = changed_nets(old(self).forwarding_table.view(), m.routes, src, now);
                    &&& final(self).forwarding_table.view() == apply_updates(old(self).forwarding_table.view(), m.routes, src, now)
                    &&& r is None <==> !final(self).neighbors_routable()
                    &&& r matches Some(out) ==> {
                        &&& ch.len() == 0 ==> out@.len() == 0
                        &&& ch.len() > 0 ==> to_each_neighbor(*final(self), out@,
                            response_bytes(response_routes(final(self).forwarding_table, Some(ch))))
                    }
                }
            }),
    {
        let src = pack.header.source;
        let mut rip_msg = deserialize_rip(pack.data);
        if rip_msg.command == 1 {
            let f = self.rip_respond(src, None);
            let mut out: Vec<Forward> = Vec::new();
            out.push(f);
            return Some(out);
        }
        let ghost m0 = self.forwarding_table.view();
        let ghost rs = rip_msg.routes@;
        let changed = self.update_fwd_table(&mut rip_msg, src, now);
        proof {
            lemma_changed_in_table(m0, rs, src, now);
            let ch = changed_nets(m0, rs, src, now);
            lemma_entries_for_len(self.forwarding_table.view(), ch);
            lemma_rip_routes_len(entries_for(self.forwarding_table.view(), ch));
        }
        if !self.neighbors_routable_check() {
            return None;
        }
        Some(self.triggered_update(changed))
    }
}

/// Milliseconds after which a route learned over RIP and not refreshed
/// expires.
pub const ROUTE_TIMEOUT: u64 = 12000;

/// Whether route `r` has expired at time `now` (milliseconds): it was
/// learned over RIP at least `ROUTE_TIMEOUT` ago.
pub open spec fn expired(r: Route, now: u64) -> bool {
    r.rtype == RouteType::Rip && crate::retransmission::elapsed(now, r.creation_time) >= ROUTE_TIMEOUT
}

/// The entry with its route poisoned (cost 16) when it has expired.
pub open spec fn poison_entry(e: (Ipv4Net, Route), now: u64) -> (Ipv4Net, Route) {
    if expired(e.1, now) {
        (e.0, Route { cost: Some(crate::rip::INF), ..e.1 })
    } else {
        e
    }
}

/// The entries with every expired route poisoned.
pub open spec fn poison_expired(s: Seq<(Ipv4Net, Route)>, now: u64) -> Seq<(Ipv4Net, Route)> {
    Seq::new(s.len(), |i: int| poison_entry(s[i], now))
}

/// The prefixes of the expired routes, in table order.
pub open spec fn expired_nets(s: Seq<(Ipv4Net, Route)>, now: u64) -> Seq<Ipv4Net>
    decreases s.len(),
{
    if s.len() == 0 {
        Seq::empty()
    } else if expired(s.last().1, now) {
        expired_nets(s.drop_last(), now).push(s.last().0)
    } else {
        expired_nets(s.drop_last(), now)
    }
}

/// A prefix is among the expired ones exactly when its route expired.
pub proof fn lemma_expired_nets(s: Seq<(Ipv4Net, Route)>, now: u64)
    requires
        keys_unique(s),
    ensures
        forall|i: int| 0 <= i < s.len() ==> (expired_nets(s, now).contains(#[trigger] s[i].0) <==> expired(s[i].1, now)),
        forall|k: Ipv4Net| #[trigger] expired_nets(s, now).contains(k) ==> has_key(s, k),
    decreases s.len(),
{
    if s.len() > 0 {
        let t = s.drop_last();
        let last = s[s.len() - 1];
        let p = expired_nets(t, now);
        let e = expired_nets(s, now);
        assert(keys_unique(t));
        lemma_expired_nets(t, now);
        assert(!has_key(t, last.0)) by {
            if has_key(t, last.0) {
                let j = choose|j: int| 0 <= j < t.len() && t[j].0 == last.0;
                assert(s[j].0 == s[s.len() - 1].0);
            }
        }
        assert forall|y: Ipv4Net| e.contains(y) <==> (p.contains(y) || (expired(last.1, now) && y == last.0)) by {
            if expired(last.1, now) {
                assert(e == p.push(last.0));
                if e.contains(y) {
                    let j = choose|j: int| 0 <= j < e.len() && e[j] == y;
                    if j < p.len() {
                        assert(p[j] == y);
                    }
                }
                if p.contains(y) {
                    let j = choose|j: int| 0 <= j < p.len() && p[j] == y;
                    assert(e[j] == y);
                }
                if y == last.0 {
                    assert(e[p.len() as int] == y);
                }
            } else {
                assert(e == p);
            }
        }
        assert forall|i: int| 0 <= i < s.len() implies (expired_nets(s, now).contains(#[trigger] s[i].0) <==> expired(s[i].1, now)) by {
            if i < s.len() - 1 {
                assert(s[i] == t[i]);
                assert(s[i].0 != last.0);
            } else {
                if p.contains(last.0) {
                    assert(has_key(t, last.0));
                }
            }
        }
        assert forall|k: Ipv4Net| #[trigger] expired_nets(s, now).contains(k) implies has_key(s, k) by {
            if p.contains(k) {
                assert(has_key(t, k));
                let j = choose|j: int| 0 <= j < t.len() && t[j].0 == k;
                assert(s[j].0 == k);
            } else {
                assert(s[s.len() - 1].0 == k);
            }
        }
    }
}

/// Poisoning changes no prefix and no next hop, so longest-prefix matching
/// picks the same entry.
pub proof fn lemma_poison_best_index(s: Seq<(Ipv4Net, Route)>, now: u64, a: u32)
    ensures
        best_index(poison_expired(s, now), a) == best_index(s, a),
    decreases s.len(),
{
    if s.len() > 0 {
        let ps = poison_expired(s, now);
        assert(ps.drop_last() =~= poison_expired(s.drop_last(), now));
        lemma_poison_best_index(s.drop_last(), now, a);
        crate::routing::lemma_best_index_bounds(s.drop_last(), a);
        assert(forall|i: int| 0 <= i < s.len() ==> #[trigger] ps[i].0 == s[i].0);
    }
}

/// Poisoning does not change where a destination resolves.
pub proof fn lemma_poison_resolve(s: Seq<(Ipv4Net, Route)>, now: u64, a: u32, fuel: nat)
    ensures
        resolve(poison_expired(s, now), a, fuel) == resolve(s, a, fuel),
    decreases fuel,
{
    lemma_poison_best_index(s, now, a);
    crate::routing::lemma_best_index_bounds(s, a);
    if fuel > 0 {
        match best_index(s, a) {
            Some(i) => match s[i].1.next_hop {
                ForwardingOption::Ip(next) => {
                    lemma_poison_resolve(s, now, next, (fuel - 1) as nat);
                },
                _ => {},
            },
            None => {},
        }
    }
}

/// Poisoning advertises the same number of routes.
pub proof fn lemma_poison_rip_len(s: Seq<(Ipv4Net, Route)>, now: u64)
    ensures
        rip_routes_of(poison_expired(s, now)).len() == rip_routes_of(s).len(),
    decreases s.len(),
{
    if s.len() > 0 {
        assert(poison_expired(s, now).drop_last() =~= poison_expired(s.drop_last(), now));
        lemma_poison_rip_len(s.drop_last(), now);
    }
}

/// Poisons every expired route of the table at time `now` (cost 16); the
/// prefixes of those routes, in table order.
pub fn poison_table(table: &mut ForwardingTable, now: u64) -> (exp: Vec<Ipv4Net>)
    requires
        old(table).wf(),
    ensures
        final(table).wf(),
        final(table).seq() == poison_expired(old(table).seq(), now),
        exp@ == expired_nets(old(table).seq(), now),
        advertised_have_cost(old(table).seq()) ==> advertised_have_cost(final(table).seq()),
{
    let ghost s0 = table.seq();
    let mut to_remove: Vec<Ipv4Net> = Vec::new();
    let n = table.entries.len();
    let mut i: usize = 0;
    while i < n
        invariant
            n == s0.len(),
            i <= n,
            table.entries@.len() == n,
            forall|j: int| 0 <= j < i ==> #[trigger] table.entries@[j] == poison_entry(s0[j], now),
            forall|j: int| i <= j < n ==> #[trigger] table.entries@[j] == s0[j],
            to_remove@ == expired_nets(s0.take(i as int), now),
        decreases n - i,
    {
        proof {
            assert(s0.take(i + 1).drop_last() =~= s0.take(i as int));
            assert(s0.take(i + 1).last() == s0[i as int]);
        }
        let net = table.entries[i].0;
        let ct = table.entries[i].1.creation_time;
        let is_exp = match table.entries[i].1.rtype {
            RouteType::Rip => now >= ct && now - ct >= ROUTE_TIMEOUT,
            _ => false,
        };
        if is_exp {
            let mut r = table.entries[i].1.duplicate();
            r.cost = Some(crate::rip::INF);
            table.entries.set(i, (net, r));
            to_remove.push(net);
        }
        i = i + 1;
    }
    let ghost ps = poison_expired(s0, now);
    proof {
        assert(table.entries@ =~= ps);
        assert(s0.take(n as int) =~= s0);
        assert(keys_unique(ps)) by {
            assert(forall|j: int| 0 <= j < n ==> #[trigger] ps[j].0 == s0[j].0);
        }
        if advertised_have_cost(s0) {
            assert forall|j: int| 0 <= j < ps.len() && crate::rip::advertised(#[trigger] ps[j].1) implies ps[j].1.cost is Some by {
                assert(ps[j] == poison_entry(s0[j], now));
            }
        }
    }
    to_remove
}

/// Removes the routes for the prefixes `nets`.
pub fn remove_nets(table: &mut ForwardingTable, nets: &Vec<Ipv4Net>)
    requires
        old(table).wf(),
    ensures
        final(table).wf(),
        final(table).view() == old(table).view().remove_keys(nets@.to_set()),
        advertised_have_cost(old(table).seq()) ==> advertised_have_cost(final(table).seq()),
{
    let ghost m1 = table.view();
    let ghost costed = advertised_have_cost(table.seq());
    let mut k: usize = 0;
    while k < nets.len()
        invariant
            table.wf(),
            costed ==> advertised_have_cost(table.seq()),
            costed == advertised_have_cost(old(table).seq()),
            k <= nets@.len(),
            table.view() == m1.remove_keys(nets@.take(k as int).to_set()),
            m1 == old(table).view(),
        decreases nets@.len() - k,
    {
        proof { lemma_costs_seq_map(table.seq()); }
        let _ = table.remove(&nets[k]);
        proof {
            lemma_costs_seq_map(table.seq());
            assert(nets@.take(k + 1).to_set() =~= nets@.take(k as int).to_set().insert(nets@[k as int])) by {
                assert(nets@.take(k + 1) =~= nets@.take(k as int).push(nets@[k as int]));
                nets@.take(k as int).lemma_push_to_set_commute(nets@[k as int]);
            }
            assert(table.view() =~= m1.remove_keys(nets@.take(k + 1).to_set()));
        }
        k = k + 1;
    }
    proof { assert(nets@.take(k as int) =~= nets@); }
}

/// Removing the expired prefixes from the poisoned table leaves what
/// removing them from the table itself leaves.
pub proof fn lemma_poison_then_remove(s0: Seq<(Ipv4Net, Route)>, now: u64)
    requires
        keys_unique(s0),
    ensures
        seq_to_map(poison_expired(s0, now)).remove_keys(expired_nets(s0, now).to_set())
            == seq_to_map(s0).remove_keys(expired_nets(s0, now).to_set()),
{
    let ps = poison_expired(s0, now);
    let exp = expired_nets(s0, now);
    let m0 = seq_to_map(s0);
    let m1 = seq_to_map(ps);
    lemma_expired_nets(s0, now);
    assert(keys_unique(ps)) by {
        assert(forall|j: int| 0 <= j < ps.len() ==> #[trigger] ps[j].0 == s0[j].0);
    }
    assert forall|x: Ipv4Net| #[trigger] m1.remove_keys(exp.to_set()).contains_key(x)
        <==> m0.remove_keys(exp.to_set()).contains_key(x) by {
        if has_key(ps, x) {
            let j = choose|j: int| 0 <= j < ps.len() && ps[j].0 == x;
            assert(s0[j].0 == x);
        }
        if has_key(s0, x) {
            let j = choose|j: int| 0 <= j < s0.len() && s0[j].0 == x;
            assert(ps[j].0 == x);
        }
    }
    assert forall|x: Ipv4Net| #[trigger] m0.remove_keys(exp.to_set()).contains_key(x)
        implies m1.remove_keys(exp.to_set())[x] == m0.remove_keys(exp.to_set())[x] by {
        let j = choose|j: int| 0 <= j < s0.len() && s0[j].0 == x;
        crate::table::lemma_map_index(s0, j);
        crate::table::lemma_map_index(ps, j);
        assert(!exp.contains(s0[j].0));
    }
    assert(m1.remove_keys(exp.to_set()) =~= m0.remove_keys(exp.to_set()));
}

impl RouterIpDaemon {
    /// One check of the forwarding table at time `now` (milliseconds): every
    /// route learned over RIP that has expired gets cost 16; when any has,
    /// every neighbor gets a RIP response with the table (the expired routes
    /// poisoned), and then the expired routes leave the table.
    pub fn run_table_check(&mut self, now: u64) -> (out: Vec<Forward>)
        requires
            old(self).wf(),
            old(self).neighbors_routable(),
            fits(4 + 12 * rip_routes_of(old(self).forwarding_table.seq()).len()),
        ensures
            final(self).wf(),
            final(self).interface_reps == old(self).interface_reps,
            final(self).rip_neighbors == old(self).rip_neighbors,
            ({
                let s = old(self).forwarding_table.seq();
                let exp = expired_nets(s, now);
                &&& exp.len() == 0 ==> out@.len() == 0 && final(self).forwarding_table.view() == old(self).forwarding_table.view()
                &&& exp.len() > 0 ==> {
                    &&& to_each_neighbor(*old(self), out@, response_bytes(rip_routes_of(poison_expired(s, now))))
                    &&& final(self).forwarding_table.view() == old(self).forwarding_table.view().remove_keys(exp.to_set())
                }
            }),
    {
        let ghost s0 = self.forwarding_table.seq();
        proof { lemma_expired_nets(s0, now); }
        let to_remove = poison_table(&mut self.forwarding_table, now);
        let ghost ps = poison_expired(s0, now);
        let n = self.forwarding_table.entries.len();
        if to_remove.len() == 0 {
            proof {
                assert forall|j: int| 0 <= j < n implies #[trigger] ps[j] == s0[j] by {
                    assert(!expired_nets(s0, now).contains(s0[j].0));
                }
                assert(ps =~= s0);
            }
            return Vec::new();
        }
        proof {
            lemma_poison_rip_len(s0, now);
            assert forall|a: u32| #[trigger] self.rip_neighbors@.contains_key(a)
                implies routable(self.interface_reps, self.forwarding_table, a) by {
                lemma_poison_resolve(s0, now, a, n as nat);
                assert(routable(old(self).interface_reps, old(self).forwarding_table, a));
            }
        }
        let out = self.rip_broadcast();
        proof {
            let data = response_bytes(rip_routes_of(ps));
            let addrs = choose|addrs: Seq<u32>| {
                &&& #[trigger] addrs.to_set() == self.rip_neighbors@.dom()
                &&& addrs.no_duplicates()
                &&& out@.len() == addrs.len()
                &&& forall|k: int| 0 <= k < addrs.len() ==> rip_out(self.interface_reps, self.forwarding_table, addrs[k], #[trigger] out@[k], data)
            };
            assert forall|k: int| 0 <= k < addrs.len() implies rip_out(old(self).interface_reps, old(self).forwarding_table,
                addrs[k], #[trigger] out@[k], data) by {
                lemma_poison_resolve(s0, now, addrs[k], n as nat);
                assert(rip_out(self.interface_reps, self.forwarding_table, addrs[k], out@[k], data));
            }
            assert(addrs.to_set() == old(self).rip_neighbors@.dom() && addrs.no_duplicates() && out@.len() == addrs.len());
        }
        remove_nets(&mut self.forwarding_table, &to_remove);
        proof { lemma_poison_then_remove(s0, now); }
        out
    }
}

} // verus!
