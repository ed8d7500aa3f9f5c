//! Hands each TCP segment a host receives to the socket it is for: the
//! connection with the same four addresses and ports, or else a listener
//! on the destination port when the segment is a bare SYN.

use vstd::prelude::*;
use crate::tcp::{TcpPacket, TcpHeaderView, TcpState, spec_parse_tcp, tcp_from_payload, is_syn, spec_header_flags};
use crate::ipv4::{IpHeader, Packet, PROTOCOL_TCP};
use crate::table::has_key;
use crate::conn_socket::{SocketId, SocketEvent, SocketEventView, events, spec_next_state};
use crate::conn_handlers::{checksum_ok, handle_pre};
use crate::sockets::{SocketTable, SocketEntry, ConnectionEntry, SocketManager, entry_wf, listener_recv_effect};

verus! {

/// Whether entry `e` is the connection of a segment from `src_ip`:`src_port`
/// to `dst_ip`:`dst_port`.
pub open spec fn conn_match(e: SocketEntry, src_ip: u32, dst_ip: u32, src_port: u16, dst_port: u16) -> bool {
    match e {
        SocketEntry::Connection(c) => c.dst_addr.ip == src_ip && c.src_addr.ip == dst_ip
            && c.dst_addr.port == src_port && c.src_addr.port == dst_port,
        SocketEntry::Listener(_) => false,
    }
}

/// Whether entry `e` is a listener that takes a segment to `dst_port`
/// (`syn` says whether the segment is a bare SYN).
pub open spec fn listener_match(e: SocketEntry, dst_port: u16, syn: bool) -> bool {
    match e {
        SocketEntry::Listener(l) => l.port == dst_port && syn,
        SocketEntry::Connection(_) => false,
    }
}

/// The position of the last listener in `s` that takes a segment to
/// `dst_port`.
pub open spec fn last_listener(s: Seq<(SocketId, SocketEntry)>, dst_port: u16, syn: bool) -> Option<int>
    decreases s.len(),
{
    if s.len() == 0 {
        None
    } else if listener_match(s.last().1, dst_port, syn) {
        Some(s.len() - 1)
    } else {
        last_listener(s.drop_last(), dst_port, syn)
    }
}

/// Whether a header is a bare SYN (no other flag, NS, ECE and CWR included).
pub open spec fn spec_is_syn(h: TcpHeaderView) -> bool {
    h.syn && !(h.ns || h.fin || h.rst || h.psh || h.ack || h.urg || h.ece || h.cwr)
}

/// Whether position `i` holds the first connection of `s` with the given
/// ends.
pub open spec fn is_first_conn(s: Seq<(SocketId, SocketEntry)>, i: int, src_ip: u32, dst_ip: u32, src_port: u16, dst_port: u16) -> bool {
    &&& 0 <= i < s.len()
    &&& conn_match(s[i].1, src_ip, dst_ip, src_port, dst_port)
    &&& forall|j: int| 0 <= j < i ==> !conn_match(#[trigger] s[j].1, src_ip, dst_ip, src_port, dst_port)
}

/// The socket a segment is for: the first connection in table order with
/// the segment's ends, else the last listener on its destination port (for
/// a bare SYN), else none.
pub open spec fn spec_proper_socket(s: Seq<(SocketId, SocketEntry)>, src_ip: u32, dst_ip: u32, h: TcpHeaderView) -> Option<SocketId> {
    if exists|i: int| #[trigger] is_first_conn(s, i, src_ip, dst_ip, h.source_port, h.destination_port) {
        let i = choose|i: int| #[trigger] is_first_conn(s, i, src_ip, dst_ip, h.source_port, h.destination_port);
        Some(s[i].0)
    } else {
        match last_listener(s, h.destination_port, spec_is_syn(h)) {
            Some(k) => Some(s[k].0),
            None => None,
        }
    }
}

/// What became of a received TCP segment.
#[derive(Debug)]
pub enum TcpDelivery {
    /// The packet did not hold a TCP segment.
    Malformed,
    /// No socket takes it; it is dropped.
    NoSocket,
    /// The connection socket with this id took it.
    Connection(SocketId),
    /// The listener took it; with an id when a waiting `accept1` gets that
    /// connection.
    Listener(Option<SocketId>),
    /// The socket with this id cannot take it (it would fail on it).
    Refused(SocketId),
}

/// Finds the socket for each segment and hands the segment to it.
#[derive(Debug)]
pub struct IpHandler {}

impl IpHandler {
    pub fn new() -> (h: IpHandler) {
        IpHandler {}
    }

    /// The socket that a segment from the IP packet with header `ip_head`
    /// is for (see `spec_proper_socket`).
    pub fn proper_socket(&self, ip_head: &IpHeader, tcp_pack: &TcpPacket, socket_table: &SocketTable) -> (r: Option<SocketId>)
        requires
            socket_table.wf(),
        ensures
            r == spec_proper_socket(socket_table.seq(), ip_head.source, ip_head.destination, tcp_pack.header@),
    {
        let src_ip = ip_head.source;
        let dst_ip = ip_head.destination;
        let src_port = tcp_pack.header.source_port;
        let dst_port = tcp_pack.header.destination_port;
        let syn = is_syn(&tcp_pack.header);
        let ghost s = socket_table.seq();
        let ghost h = tcp_pack.header@;
        let mut listener_id: Option<SocketId> = None;
        let mut i: usize = 0;
        while i < socket_table.entries.len()
            invariant
                s == socket_table.seq(),
                h == tcp_pack.header@,
                src_ip == ip_head.source,
                dst_ip == ip_head.destination,
                syn == spec_is_syn(h),
                src_port == h.source_port,
                dst_port == h.destination_port,
                i <= s.len(),
                forall|j: int| 0 <= j < i ==> !conn_match(#[trigger] s[j].1, src_ip, dst_ip, src_port, dst_port),
                listener_id == (match last_listener(s.take(i as int), dst_port, syn) {
                    Some(k) => Some(s[k].0),
                    None => None::<SocketId>,
                }),
            decreases s.len() - i,
        {
            let ghost t0 = s.take(i as int);
            let ghost t1 = s.take(i + 1);
            proof {
                assert(t1.drop_last() =~= t0);
                assert(t1.last() == s[i as int]);
            }
            match &socket_table.entries[i].1 {
                SocketEntry::Connection(ent) => {
                    if ent.dst_addr.ip == src_ip && ent.src_addr.ip == dst_ip && ent.dst_addr.port == src_port
                        && ent.src_addr.port == dst_port {
                        proof {
                            let ii = i as int;
                            assert(is_first_conn(s, ii, src_ip, dst_ip, h.source_port, h.destination_port));
                            let w = choose|k: int| #[trigger] is_first_conn(s, k, src_ip, dst_ip, h.source_port, h.destination_port);
                            if w < ii {
                                assert(!conn_match(s[w].1, src_ip, dst_ip, h.source_port, h.destination_port));
                            }
                            if w > ii {
                                assert(!conn_match(s[ii].1, src_ip, dst_ip, h.source_port, h.destination_port));
                            }
                            assert(w == ii);
                        }
                        return Some(socket_table.entries[i].0);
                    }
                },
                SocketEntry::Listener(ent) => {
                    if ent.port == dst_port && syn {
                        listener_id = Some(socket_table.entries[i].0);
                    }
                },
            }
            i = i + 1;
        }
        proof {
            assert(s.take(s.len() as int) =~= s);
            assert forall|k: int| !is_first_conn(s, k, src_ip, dst_ip, h.source_port, h.destination_port) by {
                if 0 <= k < s.len() {
                    assert(!conn_match(s[k].1, src_ip, dst_ip, src_port, dst_port));
                }
            }
        }
        listener_id
    }
}

/// A listener position found by `last_listener` is a listener of `s` on the
/// port.
pub proof fn lemma_last_listener_bounds(s: Seq<(SocketId, SocketEntry)>, dst_port: u16, syn: bool)
    ensures
        last_listener(s, dst_port, syn) matches Some(k) ==> 0 <= k < s.len() && listener_match(s[k].1, dst_port, syn),
    decreases s.len(),
{
    if s.len() > 0 {
        lemma_last_listener_bounds(s.drop_last(), dst_port, syn);
    }
}

/// The socket a segment is for is in the table, and it is a connection
/// exactly when some connection has the segment's ends.
pub proof fn lemma_proper_socket_in_table(s: Seq<(SocketId, SocketEntry)>, src_ip: u32, dst_ip: u32, h: TcpHeaderView)
    ensures
        spec_proper_socket(s, src_ip, dst_ip, h) matches Some(sid) ==> has_key(s, sid),
{
    lemma_last_listener_bounds(s, h.destination_port, spec_is_syn(h));
    if exists|i: int| #[trigger] is_first_conn(s, i, src_ip, dst_ip, h.source_port, h.destination_port) {
        let i = choose|i: int| #[trigger] is_first_conn(s, i, src_ip, dst_ip, h.source_port, h.destination_port);
        assert(s[i].0 == s[i].0);
    } else {
        match last_listener(s, h.destination_port, spec_is_syn(h)) {
            Some(k) => { assert(s[k].0 == s[k].0); },
            None => {},
        }
    }
}

/// Nothing the socket manager holds changed, and no event was added.
pub open spec fn manager_unchanged(m0: SocketManager, m1: SocketManager, ev0: Seq<SocketEventView>, ev1: Seq<SocketEventView>) -> bool {
    &&& m1.socket_table.view() =~= m0.socket_table.view()
    &&& m1.listener_table@ =~= m0.listener_table@
    &&& m1.sid_assigner == m0.sid_assigner
    &&& ev1 =~= ev0
}

/// What `handle_tcp_packet` does with the packet from `src` to `dst` whose
/// payload is `data` and whose protocol is `prot`.
pub open spec fn tcp_delivery_effect(m0: SocketManager, m1: SocketManager, src: u32, dst: u32, prot: u8, data: Seq<u8>,
    r: TcpDelivery, ev0: Seq<SocketEventView>, ev1: Seq<SocketEventView>) -> bool {
    let t0 = m0.socket_table.view();
    match spec_parse_tcp(data) {
        None => r is Malformed && manager_unchanged(m0, m1, ev0, ev1),
        Some((h, p)) => match spec_proper_socket(m0.socket_table.seq(), src, dst, h) {
            None => r is NoSocket && manager_unchanged(m0, m1, ev0, ev1),
            Some(sid) => match t0[sid] {
                SocketEntry::Connection(c) => if handle_pre(c.sock, h, p, src, dst) {
                    &&& r == TcpDelivery::Connection(sid)
                    &&& m1.socket_table.view().dom() =~= t0.dom()
                    &&& forall|k: SocketId| k != sid && #[trigger] t0.contains_key(k) ==> m1.socket_table.view()[k] == t0[k]
                    &&& m1.socket_table.view()[sid] matches SocketEntry::Connection(c2)
                        && c2.sock.sid == c.sock.sid && c2.sock.src_addr == c.sock.src_addr && c2.sock.dst_addr == c.sock.dst_addr
                        && c2.sock.state == if checksum_ok(h, p, src, dst) {
                            spec_next_state(c.sock.state, spec_header_flags(h), p.len() == 0, h.acknowledgment_number == c.sock.seq_num)
                        } else {
                            c.sock.state
                        }
                    &&& m1.listener_table@ =~= m0.listener_table@
                    &&& m1.sid_assigner == m0.sid_assigner
                } else {
                    r == TcpDelivery::Refused(sid) && manager_unchanged(m0, m1, ev0, ev1)
                },
                SocketEntry::Listener(l) => if m0.listener_table@.contains_key(l.port) && data.len() <= 65535 {
                    if prot == PROTOCOL_TCP {
                        r matches TcpDelivery::Listener(x) && listener_recv_effect(m0, m1, l.port, src, dst, h, x, ev0, ev1)
                    } else {
                        r == TcpDelivery::Listener(None) && manager_unchanged(m0, m1, ev0, ev1)
                    }
                } else {
                    r == TcpDelivery::Refused(sid) && manager_unchanged(m0, m1, ev0, ev1)
                },
            },
        },
    }
}

impl IpHandler {
    /// Hands the TCP segment that `pack` carries to its socket at time `now`
    /// (see `tcp_delivery_effect`): a connection socket handles it, a
    /// listener makes a connection for it; a segment that the socket cannot
    /// take is refused, and one for no socket is dropped.
    pub fn handle_tcp_packet(&self, manager: &mut SocketManager, pack: Packet, now: u64, out: &mut Vec<SocketEvent>) -> (r: TcpDelivery)
        requires
            old(manager).wf(),
        ensures
            final(manager).wf(),
            tcp_delivery_effect(*old(manager), *final(manager), pack.header.source, pack.header.destination,
                pack.header.protocol, pack.data@, r, events(old(out)@), events(final(out)@)),
    {
        let tpack = match tcp_from_payload(pack.data.as_slice()) {
            Some(t) => t,
            None => {
                return TcpDelivery::Malformed;
            },
        };
        let target = self.proper_socket(&pack.header, &tpack, &manager.socket_table);
        proof {
            lemma_proper_socket_in_table(manager.socket_table.seq(), pack.header.source, pack.header.destination, tpack.header@);
        }
        let sid = match target {
            Some(s) => s,
            None => {
                return TcpDelivery::NoSocket;
            },
        };
        proof { assert(manager.socket_table.view().contains_key(sid)); }
        let port: Option<u16> = match manager.socket_table.get(sid) {
            Some(SocketEntry::Listener(l)) => Some(l.port),
            _ => None,
        };
        match port {
            None => {
                let ghost t0 = manager.socket_table.view();
                let taken = manager.socket_table.remove(sid);
                match taken {
                    Some(SocketEntry::Connection(mut ent)) => {
                        if ent.sock.handle_acceptable(&tpack, &pack.header) {
                            ent.sock.handle_packet(tpack, &pack.header, now, out);
                            let ent2 = ConnectionEntry { src_addr: ent.sock.src_addr, dst_addr: ent.sock.dst_addr, sock: ent.sock };
                            manager.socket_table.insert(sid, SocketEntry::Connection(ent2));
                            proof { assert(manager.socket_table.view().dom() =~= t0.dom()); }
                            TcpDelivery::Connection(sid)
                        } else {
                            manager.socket_table.insert(sid, SocketEntry::Connection(ent));
                            proof { assert(manager.socket_table.view() =~= t0); }
                            TcpDelivery::Refused(sid)
                        }
                    },
                    Some(other) => {
                        manager.socket_table.insert(sid, other);
                        TcpDelivery::Refused(sid)
                    },
                    None => TcpDelivery::Refused(sid),
                }
            },
            Some(p) => {
                if manager.listener_table.contains_key(&p) && pack.data.len() <= 65535 {
                    let x = manager.handle_incoming(pack, p, now, out);
                    TcpDelivery::Listener(x)
                } else {
                    TcpDelivery::Refused(sid)
                }
            },
        }
    }
}

} // verus!
