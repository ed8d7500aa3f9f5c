//! A node's interfaces: the node's record of each (name, prefix, address,
//! status, neighbors), the table of those records, and the interface itself
//! (what it does with a command from the node and with a datagram from the
//! link).

use vstd::prelude::*;
use crate::net::Ipv4Net;
use crate::ipv4::{IpHeader, IpHeaderView, Packet, PacketBasis, build_packet, payload_len_ok, spec_built_header,
    checked_packet_from_bytes, spec_packet_from_bytes, packet_bytes_ok, spec_parse_ipv4, PROTOCOL_TEST, PROTOCOL_RIP};
use crate::ipv4::{write_header, with_checksum, spec_packet_valid};

verus! {

/// Whether an interface is up.
#[derive(Clone, Copy, Debug, PartialEq, Eq, Structural)]
pub enum InterfaceStatus {
    Up,
    Down,
}

/// The node's record of one of its interfaces.
#[derive(Debug)]
pub struct InterfaceRep {
    pub name: String,
    pub v_net: Ipv4Net,
    pub v_ip: u32,
    pub status: InterfaceStatus,
    /// Neighbors on the link: (virtual address, UDP port).
    pub neighbors: Vec<(u32, u16)>,
}

impl InterfaceRep {
    /// A record for an interface that starts up.
    pub fn new(name: String, v_net: Ipv4Net, v_ip: u32, neighbors: Vec<(u32, u16)>) -> (r: InterfaceRep)
        ensures
            r.name == name,
            r.v_net == v_net,
            r.v_ip == v_ip,
            r.status == InterfaceStatus::Up,
            r.neighbors == neighbors,
    {
        InterfaceRep { name, v_net, v_ip, status: InterfaceStatus::Up, neighbors }
    }
}

/// What the node tells an interface.
#[derive(Debug)]
pub enum InterCmd {
    /// Build a packet from this basis and send it to this next hop; the
    /// flag says whether it is a test packet (else a RIP packet).
    BuildSend(PacketBasis, u32, bool),
    /// Send this packet to this next hop.
    Send(Packet, u32),
    /// Switch between up and down.
    ToggleStatus,
}

/// Whether no two records of `s` have the same name.
pub open spec fn names_unique(s: Seq<InterfaceRep>) -> bool {
    forall|i: int, j: int| 0 <= i < s.len() && 0 <= j < s.len() && i != j ==> s[i].name@ != s[j].name@
}

/// The position of the record named `name` in `s`.
pub open spec fn name_index(s: Seq<InterfaceRep>, name: Seq<char>) -> Option<int> {
    if exists|i: int| 0 <= i < s.len() && #[trigger] s[i].name@ == name {
        Some(choose|i: int| 0 <= i < s.len() && #[trigger] s[i].name@ == name)
    } else {
        None
    }
}

/// The node's interface records, by name, in the order they were added.
#[derive(Debug)]
pub struct InterfaceTable {
    pub reps: Vec<InterfaceRep>,
}

impl InterfaceTable {
    pub open spec fn seq(&self) -> Seq<InterfaceRep> {
        self.reps@
    }

    /// No name appears twice.
    pub open spec fn wf(&self) -> bool {
        names_unique(self.reps@)
    }

    /// Whether a record is named `name`.
    pub open spec fn has(&self, name: Seq<char>) -> bool {
        name_index(self.reps@, name) is Some
    }

    /// The record named `name`.
    pub open spec fn rep(&self, name: Seq<char>) -> InterfaceRep {
        self.reps@[name_index(self.reps@, name)->0]
    }

    pub fn new() -> (t: InterfaceTable)
        ensures
            t.wf(),
            t.seq().len() == 0,
    {
        InterfaceTable { reps: Vec::new() }
    }

    /// Number of interfaces.
    pub fn len(&self) -> (n: usize)
        ensures
            n == self.seq().len(),
    {
        self.reps.len()
    }

    /// The position of the record named `name`.
    pub fn find(&self, name: &String) -> (r: Option<usize>)
        requires
            self.wf(),
        ensures
            r == match name_index(self.seq(), name@) {
                Some(i) => Some(i as usize),
                None => None::<usize>,
            },
            r matches Some(i) ==> i < self.seq().len() && self.seq()[i as int].name@ == name@,
    {
        let mut i: usize = 0;
        while i < self.reps.len()
            invariant
                names_unique(self.reps@),
                i <= self.reps@.len(),
                forall|j: int| 0 <= j < i ==> (#[trigger] self.reps@[j]).name@ != name@,
            decreases self.reps@.len() - i,
        {
            if self.reps[i].name == *name {
                proof {
                    let w = choose|k: int| 0 <= k < self.reps@.len() && #[trigger] self.reps@[k].name@ == name@;
                    if w != i {
                        assert(self.reps@[w].name@ != self.reps@[i as int].name@);
                    }
                }
                return Some(i);
            }
            i = i + 1;
        }
        None
    }

    /// Adds a record, replacing the one with the same name.
    pub fn insert(&mut self, rep: InterfaceRep)
        requires
            old(self).wf(),
        ensures
            final(self).wf(),
            final(self).has(rep.name@),
            final(self).rep(rep.name@) == rep,
            forall|n: Seq<char>| n != rep.name@ ==> #[trigger] final(self).has(n) == old(self).has(n),
            forall|n: Seq<char>| n != rep.name@ && old(self).has(n) ==> #[trigger] final(self).rep(n) == old(self).rep(n),
    {
        let ghost r = rep;
        let ghost s0 = self.reps@;
        let ghost mut idx: int = 0;
        match self.find(&rep.name) {
            Some(i) => {
                self.reps.set(i, rep);
                proof { idx = i as int; }
            },
            None => {
                self.reps.push(rep);
                proof { idx = s0.len() as int; }
            },
        }
        proof {
            let s1 = self.reps@;
            assert(s1[idx] == r);
            assert(forall|j: int| 0 <= j < s1.len() && j != idx ==> j < s0.len() && #[trigger] s1[j] == s0[j]);
            assert(forall|j: int| 0 <= j < s0.len() && j != idx ==> #[trigger] s0[j].name@ != r.name@) by {
                if idx < s0.len() {
                    assert(s0[idx].name@ == r.name@);
                } else {
                    assert(name_index(s0, r.name@) is None);
                }
            }
            assert forall|a: int, b: int| 0 <= a < s1.len() && 0 <= b < s1.len() && a != b implies s1[a].name@ != s1[b].name@ by {
                if a != idx && b != idx {
                    assert(s1[a] == s0[a] && s1[b] == s0[b]);
                } else if a == idx {
                    assert(s1[b] == s0[b]);
                } else {
                    assert(s1[a] == s0[a]);
                }
            }
            assert(name_index(s1, r.name@) == Some(idx)) by {
                let k = choose|k: int| 0 <= k < s1.len() && #[trigger] s1[k].name@ == r.name@;
                assert(s1[idx].name@ == r.name@);
                if k != idx {
                    assert(s1[k].name@ != s1[idx].name@);
                }
            }
            assert forall|n: Seq<char>| n != r.name@ implies (self.has(n) == old(self).has(n))
                && (old(self).has(n) ==> self.rep(n) == old(self).rep(n)) by {
                if old(self).has(n) {
                    let j = choose|j: int| 0 <= j < s0.len() && #[trigger] s0[j].name@ == n;
                    assert(j != idx);
                    assert(s1[j] == s0[j]);
                    let k = choose|k: int| 0 <= k < s1.len() && #[trigger] s1[k].name@ == n;
                    assert(k != idx);
                    assert(s1[k] == s0[k]);
                    if k != j {
                        assert(s0[k].name@ != s0[j].name@);
                    }
                }
                if self.has(n) {
                    let j = choose|j: int| 0 <= j < s1.len() && #[trigger] s1[j].name@ == n;
                    assert(j != idx);
                    assert(s1[j] == s0[j]);
                }
            }
            assert(r.name@ == rep.name@);
        }
    }

    /// The address of the interface named `name`.
    pub fn v_ip_of(&self, name: &String) -> (r: Option<u32>)
        requires
            self.wf(),
        ensures
            r is Some <==> self.has(name@),
            r matches Some(a) ==> a == self.rep(name@).v_ip,
    {
        match self.find(name) {
            Some(i) => Some(self.reps[i].v_ip),
            None => None,
        }
    }

    /// Sets the status of the interface named `name`. The result says
    /// whether the interface must be told to switch (its status changed);
    /// `None` when there is no such interface.
    pub fn set_status(&mut self, name: &String, status: InterfaceStatus) -> (r: Option<bool>)
        requires
            old(self).wf(),
        ensures
            final(self).wf(),
            r is Some <==> old(self).has(name@),
            r is None ==> final(self).seq() == old(self).seq(),
            r matches Some(changed) ==> {
                let i = name_index(old(self).seq(), name@)->0;
                &&& changed == (old(self).seq()[i].status != status)
                &&& final(self).seq() == old(self).seq().update(i, InterfaceRep { status, ..old(self).seq()[i] })
            },
    {
        match self.find(name) {
            Some(i) => {
                if self.reps[i].status == status {
                    Some(false)
                } else {
                    let mut rep = self.reps.remove(i);
                    let ghost s0 = old(self).reps@;
                    rep.status = status;
                    self.reps.insert(i, rep);
                    proof {
                        assert(self.reps@ =~= s0.update(i as int, InterfaceRep { status, ..s0[i as int] }));
                        assert forall|a: int, b: int| 0 <= a < self.reps@.len() && 0 <= b < self.reps@.len() && a != b
                            implies self.reps@[a].name@ != self.reps@[b].name@ by {
                            assert(self.reps@[a].name == s0[a].name);
                            assert(self.reps@[b].name == s0[b].name);
                        }
                    }
                    Some(true)
                }
            },
            None => None,
        }
    }
}

/// What an interface does with a command or a datagram.
#[derive(Debug)]
pub enum InterfaceAction {
    /// Send these bytes to this UDP port.
    Transmit(Vec<u8>, u16),
    /// Pass this packet to the node.
    Deliver(Packet),
    /// The status was switched.
    Toggled,
    /// Nothing to do (the interface is down, or the data is not a packet).
    Dropped,
    /// The next hop is not a neighbor on this link, or the packet's header
    /// does not fit the 20 bytes written for it.
    Failed,
}

/// What the node's link layer puts on the wire for a packet: the header (its
/// checksum recomputed), then the payload.
pub open spec fn frame_bytes(h: IpHeaderView, data: Seq<u8>) -> Seq<u8> {
    crate::ipv4::ipv4_wire_bytes(h) + data
}

/// Whether `bytes` read back as the packet with header `h` and payload
/// `data`: the header as written (its checksum recomputed) and the payload
/// after it; and, for a valid header whose total length counts the payload,
/// exactly that packet, as an interface takes it in (see `try_recv`).
pub open spec fn frame_reads_back(bytes: Seq<u8>, h: IpHeaderView, data: Seq<u8>) -> bool {
    &&& spec_parse_ipv4(bytes) == Some((with_checksum(h), data))
    &&& spec_packet_valid(h) && h.total_len == 20 + data.len() ==> {
        &&& packet_bytes_ok(bytes)
        &&& spec_packet_from_bytes(bytes) == Some((h, data))
    }
}

/// One interface: its addresses and neighbors, and whether it is up.
#[derive(Debug)]
pub struct Interface {
    pub name: String,
    pub v_ip: u32,
    pub v_net: Ipv4Net,
    pub udp_port: u16,
    /// Neighbors on the link: (virtual address, UDP port).
    pub neighbors: Vec<(u32, u16)>,
    pub status: InterfaceStatus,
}

/// The UDP port of the first neighbor with address `a`.
pub open spec fn neighbor_port(n: Seq<(u32, u16)>, a: u32) -> Option<u16>
    decreases n.len(),
{
    if n.len() == 0 {
        None
    } else if n[0].0 == a {
        Some(n[0].1)
    } else {
        neighbor_port(n.drop_first(), a)
    }
}

impl Interface {
    /// An interface that starts up.
    pub fn new(name: String, v_ip: u32, v_net: Ipv4Net, udp_port: u16, neighbors: Vec<(u32, u16)>) -> (i: Interface)
        ensures
            i.name == name,
            i.v_ip == v_ip,
            i.v_net == v_net,
            i.udp_port == udp_port,
            i.neighbors == neighbors,
            i.status == InterfaceStatus::Up,
    {
        Interface { name, v_ip, v_net, udp_port, neighbors, status: InterfaceStatus::Up }
    }

    /// Switches between up and down.
    pub fn toggle_status(&mut self)
        ensures
            final(self).status == (if old(self).status == InterfaceStatus::Up { InterfaceStatus::Down } else { InterfaceStatus::Up }),
            final(self).name == old(self).name,
            final(self).v_ip == old(self).v_ip,
            final(self).v_net == old(self).v_net,
            final(self).udp_port == old(self).udp_port,
            final(self).neighbors == old(self).neighbors,
    {
        self.status = match self.status {
            InterfaceStatus::Up => InterfaceStatus::Down,
            InterfaceStatus::Down => InterfaceStatus::Up,
        };
    }

    /// Builds a packet from this interface's address: a test packet when
    /// `msg_type` is set, else a RIP packet.
    pub fn build(&self, pb: PacketBasis, msg_type: bool) -> (p: Packet)
        requires
            payload_len_ok(pb.msg@.len()),
        ensures
            p.header@ == spec_built_header(self.v_ip, pb.dst_ip, if msg_type { PROTOCOL_TEST } else { PROTOCOL_RIP }, pb.msg@.len()),
            p.data@ == pb.msg@,
            spec_packet_valid(p.header@),
    {
        let prot_num = if msg_type { PROTOCOL_TEST } else { PROTOCOL_RIP };
        build_packet(PacketBasis { dst_ip: pb.dst_ip, prot_num, msg: pb.msg }, self.v_ip)
    }

    /// The UDP port of neighbor `a`.
    pub fn neighbor(&self, a: u32) -> (r: Option<u16>)
        ensures
            r == neighbor_port(self.neighbors@, a),
    {
        let mut i: usize = 0;
        proof { assert(self.neighbors@.skip(0) =~= self.neighbors@); }
        while i < self.neighbors.len()
            invariant
                i <= self.neighbors@.len(),
                neighbor_port(self.neighbors@, a) == neighbor_port(self.neighbors@.skip(i as int), a),
            decreases self.neighbors@.len() - i,
        {
            proof {
                assert(self.neighbors@.skip(i as int).drop_first() =~= self.neighbors@.skip(i + 1));
            }
            if self.neighbors[i].0 == a {
                return Some(self.neighbors[i].1);
            }
            i = i + 1;
        }
        None
    }

    /// The datagram that sends `pack` to next hop `next_hop`, and the port
    /// to send it to.
    pub fn send(&self, pack: Packet, next_hop: u32) -> (r: InterfaceAction)
        requires
            pack.header@.wf(),
        ensures
            match neighbor_port(self.neighbors@, next_hop) {
                None => r is Failed,
                Some(port) => if pack.header.options@.len() == 0 {
                    r matches InterfaceAction::Transmit(bytes, p) && p == port
                        && bytes@ == frame_bytes(pack.header@, pack.data@)
                } else {
                    r is Failed
                },
            },
            r matches InterfaceAction::Transmit(bytes, _) ==> frame_reads_back(bytes@, pack.header@, pack.data@),
    {
        let port = match self.neighbor(next_hop) {
            Some(p) => p,
            None => {
                return InterfaceAction::Failed;
            },
        };
        if pack.header.options.len() != 0 {
            return InterfaceAction::Failed;
        }
        let mut message = write_header(&pack.header);
        let ghost head = message@;
        let mut i: usize = 0;
        while i < pack.data.len()
            invariant
                i <= pack.data@.len(),
                message@ == head + pack.data@.take(i as int),
            decreases pack.data@.len() - i,
        {
            message.push(pack.data[i]);
            i = i + 1;
            proof { assert(message@ =~= head + pack.data@.take(i as int)); }
        }
        proof {
            assert(pack.data@.take(i as int) =~= pack.data@);
            assert(spec_parse_ipv4(head + pack.data@) == Some((with_checksum(pack.header@), pack.data@)));
            if spec_packet_valid(pack.header@) && pack.header@.total_len == 20 + pack.data@.len() {
                assert(with_checksum(pack.header@) == pack.header@);
                assert(pack.data@.take(pack.header@.total_len - 20) =~= pack.data@);
            }
        }
        InterfaceAction::Transmit(message, port)
    }

    /// What the interface does with a command from the node: while up it
    /// builds (for `BuildSend`) and sends packets; a toggle always switches
    /// its status; while down, packets are dropped.
    pub fn node_cmd(&mut self, cmd: InterCmd) -> (r: InterfaceAction)
        ensures
            (cmd is ToggleStatus) ==> r is Toggled
                && final(self).status == (if old(self).status == InterfaceStatus::Up { InterfaceStatus::Down } else { InterfaceStatus::Up }),
            !(cmd is ToggleStatus) ==> final(self).status == old(self).status,
            !(cmd is ToggleStatus) && old(self).status == InterfaceStatus::Down ==> r is Dropped,
            old(self).status == InterfaceStatus::Up ==> match cmd {
                InterCmd::Send(pack, hop) => if !pack.header@.wf() {
                    r is Failed
                } else {
                    match neighbor_port(old(self).neighbors@, hop) {
                        None => r is Failed,
                        Some(port) => if pack.header.options@.len() == 0 {
                            r matches InterfaceAction::Transmit(bytes, p) && p == port
                                && bytes@ == frame_bytes(pack.header@, pack.data@)
                                && frame_reads_back(bytes@, pack.header@, pack.data@)
                        } else {
                            r is Failed
                        },
                    }
                },
                InterCmd::BuildSend(pb, hop, t) => if !payload_len_ok(pb.msg@.len()) {
                    r is Failed
                } else {
                    let h = spec_built_header(old(self).v_ip, pb.dst_ip, if t { PROTOCOL_TEST } else { PROTOCOL_RIP }, pb.msg@.len());
                    match neighbor_port(old(self).neighbors@, hop) {
                        None => r is Failed,
                        Some(port) => r matches InterfaceAction::Transmit(bytes, p) && p == port
                            && bytes@ == frame_bytes(h, pb.msg@)
                            && frame_reads_back(bytes@, h, pb.msg@) && spec_packet_valid(h),
                    }
                },
                InterCmd::ToggleStatus => true,
            },
            final(self).neighbors == old(self).neighbors,
            final(self).v_ip == old(self).v_ip,
    {
        match cmd {
            InterCmd::ToggleStatus => {
                self.toggle_status();
                InterfaceAction::Toggled
            },
            InterCmd::BuildSend(pb, next_hop, msg_type) => {
                if self.status == InterfaceStatus::Down {
                    return InterfaceAction::Dropped;
                }
                if (pb.msg.len() as u16) as usize + 20 > 65535 {
                    return InterfaceAction::Failed;
                }
                let pack = self.build(pb, msg_type);
                self.send(pack, next_hop)
            },
            InterCmd::Send(pack, next_hop) => {
                if self.status == InterfaceStatus::Down {
                    return InterfaceAction::Dropped;
                }
                if !header_fits(&pack.header) {
                    return InterfaceAction::Failed;
                }
                self.send(pack, next_hop)
            },
        }
    }

    /// What the interface does with a datagram from the link: while up, a
    /// datagram that holds a whole packet goes to the node; anything else is
    /// dropped.
    pub fn try_recv(&self, datagram: &[u8]) -> (r: InterfaceAction)
        ensures
            self.status == InterfaceStatus::Up && spec_parse_ipv4(datagram@) is Some && packet_bytes_ok(datagram@) ==> {
                r matches InterfaceAction::Deliver(p)
                    && spec_packet_from_bytes(datagram@) == Some((p.header@, p.data@))
            },
            !(self.status == InterfaceStatus::Up && spec_parse_ipv4(datagram@) is Some && packet_bytes_ok(datagram@)) ==> r is Dropped,
    {
        if self.status == InterfaceStatus::Down {
            return InterfaceAction::Dropped;
        }
        match checked_packet_from_bytes(datagram) {
            Some(p) => InterfaceAction::Deliver(p),
            None => InterfaceAction::Dropped,
        }
    }
}

/// Whether the header's fields fit their widths on the wire.
pub fn header_fits(h: &IpHeader) -> (b: bool)
    ensures
        b == h@.wf(),
{
    h.dscp < 64 && h.ecn < 4 && h.fragment_offset < 8192 && h.options.len() <= 40 && h.options.len() % 4 == 0
}

} // verus!
