//! The application side of a node. A host offers the socket interface
//! (listen, accept, connect, send, receive, close) over its socket manager;
//! hosts and routers both list their routes and switch interfaces up and
//! down.

use vstd::prelude::*;
use crate::tcp::{TcpState, TcpAddress};
use crate::routing::{ForwardingTable, ForwardingOption, RouteType, Route};
use crate::net::Ipv4Net;
use crate::interfaces::{InterfaceTable, InterfaceStatus};
use crate::buffers::{SendBufView, spec_recv_read};
use crate::circ::BUFFER_CAPACITY;
use crate::conn_socket::{ConnectionSocket, SocketId, SocketEvent, SocketEventView, SocketError, events, send_event,
    closed_on_our_side, seg_header};
use crate::retransmission::RetrSegmentView;
use crate::sockets::{SocketManager, table_full, port_in_use, first_free, SocketTable, SocketEntry, ConnectionEntry, PendingConn, ListenEntry, conn_entry,
    entry_wf, listen_effect, accept_effect, accept1_effect};
use crate::table::has_key;
use crate::rng::random_range;
use crate::daemon::{HostIpDaemon, RouterIpDaemon};
use crate::tcp::SYN;

verus! {

/// The connection socket with id `sid` in table `t`, if there is one.
pub open spec fn conn_at(t: SocketTable, sid: SocketId) -> Option<ConnectionSocket> {
    if t.view().contains_key(sid) {
        match t.view()[sid] {
            SocketEntry::Connection(c) => Some(c.sock),
            SocketEntry::Listener(_) => None,
        }
    } else {
        None
    }
}

/// Whether `e` is a connection whose far end is `ip`:`port`.
pub open spec fn conn_to(e: SocketEntry, ip: u32, port: u16) -> bool {
    match e {
        SocketEntry::Connection(c) => c.dst_addr.ip == ip && c.dst_addr.port == port,
        SocketEntry::Listener(_) => false,
    }
}

/// A host's side of the node.
#[derive(Debug)]
pub struct HostBackend {
    /// The host's IP layer, with its interface records and forwarding table.
    pub ip_daemon: HostIpDaemon,
    pub socket_manager: SocketManager,
    /// The host's address (that of its interface `if0`).
    pub local_ip: u32,
}

/// Whether host `b1` keeps socket `sid` and holds every other socket of
/// host `b0` unchanged, and no more.
pub open spec fn others_kept(b0: HostBackend, b1: HostBackend, sid: SocketId) -> bool {
    let t0 = b0.socket_manager.socket_table.view();
    let t1 = b1.socket_manager.socket_table.view();
    &&& t1.dom() == t0.dom()
    &&& forall|k: SocketId| k != sid && #[trigger] t0.contains_key(k) ==> t1[k] == t0[k]
}

/// Whether host `b1` has the IP layer, address, listeners and id assigner
/// of host `b0`.
pub open spec fn rest_kept(b0: HostBackend, b1: HostBackend) -> bool {
    &&& b1.ip_daemon == b0.ip_daemon
    &&& b1.local_ip == b0.local_ip
    &&& b1.socket_manager.listener_table@ == b0.socket_manager.listener_table@
    &&& b1.socket_manager.sid_assigner == b0.socket_manager.sid_assigner
}

/// What `tcp_send` of `data` on socket `sid` does to host `b0` (giving
/// `b1`) and returns: refused for a socket that is not a connection or was
/// closed on this side; otherwise as much of `data` as fits goes into the
/// send buffer and the rest is returned.
pub open spec fn send_effect(b0: HostBackend, b1: HostBackend, sid: SocketId, data: Seq<u8>, r: Result<Vec<u8>, SocketError>) -> bool {
    match conn_at(b0.socket_manager.socket_table, sid) {
        None => r == Err::<Vec<u8>, SocketError>(SocketError::NoSuchSocket) && b1 == b0,
        Some(s0) => if closed_on_our_side(s0.state) {
            r == Err::<Vec<u8>, SocketError>(SocketError::SendNotAllowed)
                && b1.socket_manager.socket_table.view() == b0.socket_manager.socket_table.view()
                && rest_kept(b0, b1)
        } else {
            let space = BUFFER_CAPACITY - s0.write_buf.view().data.len();
            let k = if data.len() < space { data.len() as int } else { space };
            &&& r matches Ok(rest) && rest@ == data.skip(k)
            &&& conn_at(b1.socket_manager.socket_table, sid) matches Some(s1)
                && s1.write_buf.view() == (SendBufView { data: s0.write_buf.view().data + data.take(k), ..s0.write_buf.view() })
                && s1.state == s0.state && s1.seq_num == s0.seq_num && s1.read_buf == s0.read_buf
            &&& others_kept(b0, b1, sid)
            &&& rest_kept(b0, b1)
        },
    }
}

/// What `tcp_recieve` of up to `bytes` bytes on socket `sid` does to host
/// `b0` (giving `b1`) and returns: refused for a socket that is not a
/// connection, one closed on this side, or one with nothing to read; else
/// the bytes read from the receive buffer.
pub open spec fn recv_effect(b0: HostBackend, b1: HostBackend, sid: SocketId, bytes: u16, r: Result<Vec<u8>, SocketError>) -> bool {
    match conn_at(b0.socket_manager.socket_table, sid) {
        None => r == Err::<Vec<u8>, SocketError>(SocketError::NoSuchSocket) && b1 == b0,
        Some(s0) => {
            let allowed = !closed_on_our_side(s0.state)
                && (s0.read_buf.final_seq is None || s0.read_buf.view().data.len() > 0);
            let (d, v1) = spec_recv_read(s0.read_buf.view(), bytes);
            &&& !allowed ==> r == Err::<Vec<u8>, SocketError>(SocketError::ReceiveNotAllowed)
            &&& allowed && d.len() == 0 ==> r == Err::<Vec<u8>, SocketError>(SocketError::ReceiveNotAllowed)
            &&& allowed && d.len() > 0 ==> (r matches Ok(v) && v@ == d)
            &&& conn_at(b1.socket_manager.socket_table, sid) matches Some(s1)
                && s1.state == s0.state
                && (allowed ==> s1.read_buf.view() == v1)
                && (!allowed ==> s1.read_buf == s0.read_buf)
            &&& others_kept(b0, b1, sid)
            &&& rest_kept(b0, b1)
        },
    }
}

/// What `close` of socket `sid` does to host `b0` (giving `b1`, and the
/// events `out0` becoming `out1`) and returns: a connection that is
/// established or waiting to close sends its FIN and moves on; a listener
/// leaves both tables; no socket `sid` is an error.
pub open spec fn close_effect(b0: HostBackend, b1: HostBackend, sid: SocketId, out0: Seq<SocketEvent>, out1: Seq<SocketEvent>,
    r: Result<bool, SocketError>) -> bool {
    &&& !b0.socket_manager.socket_table.view().contains_key(sid) ==> {
        &&& r == Err::<bool, SocketError>(SocketError::NoSuchSocket)
        &&& b1 == b0
        &&& events(out1) == events(out0)
    }
    &&& b0.socket_manager.socket_table.view().contains_key(sid) ==> match b0.socket_manager.socket_table.view()[sid] {
        SocketEntry::Connection(c) => {
            let started = c.sock.state == TcpState::Established || c.sock.state == TcpState::CloseWait;
            &&& r == Ok::<bool, SocketError>(started)
            &&& conn_at(b1.socket_manager.socket_table, sid) matches Some(s1)
                && s1.state == (if c.sock.state == TcpState::Established {
                    TcpState::FinWait1
                } else if c.sock.state == TcpState::CloseWait {
                    TcpState::LastAck
                } else {
                    c.sock.state
                })
            &&& started ==> events(out1) == events(out0).push(send_event(c.sock.dst_addr,
                c.sock.next_header(crate::tcp::FINACK, Seq::empty()), Seq::empty()))
            &&& !started ==> events(out1) == events(out0)
            &&& others_kept(b0, b1, sid)
            &&& rest_kept(b0, b1)
        },
        SocketEntry::Listener(l) => {
            &&& r == Ok::<bool, SocketError>(true)
            &&& b1.socket_manager.listener_table@ == b0.socket_manager.listener_table@.remove(l.port)
            &&& b1.socket_manager.socket_table.view() == b0.socket_manager.socket_table.view().remove(sid)
            &&& b1.ip_daemon == b0.ip_daemon
            &&& b1.local_ip == b0.local_ip
            &&& b1.socket_manager.sid_assigner == b0.socket_manager.sid_assigner
            &&& events(out1) == events(out0)
        },
    }
}

/// Once `close` has been called on this side of a connection, sending is
/// refused: in FIN-WAIT-1, FIN-WAIT-2, TIME-WAIT, LAST-ACK and CLOSED,
/// `tcp_send` gives `SendNotAllowed` and leaves the socket table as it was.
pub proof fn lemma_send_refused_once_closing(b0: HostBackend, b1: HostBackend, sid: SocketId, data: Seq<u8>,
    r: Result<Vec<u8>, SocketError>)
    requires
        conn_at(b0.socket_manager.socket_table, sid) matches Some(s) && (s.state == TcpState::FinWait1
            || s.state == TcpState::FinWait2 || s.state == TcpState::TimeWait || s.state == TcpState::LastAck
            || s.state == TcpState::Closed),
        send_effect(b0, b1, sid, data, r),
    ensures
        r == Err::<Vec<u8>, SocketError>(SocketError::SendNotAllowed),
        b1.socket_manager.socket_table.view() == b0.socket_manager.socket_table.view(),
{
}

/// A send right after a connection's `close` has started closing it is
/// refused and changes nothing: whether the close came from ESTABLISHED or,
/// after the peer's FIN, from CLOSE-WAIT.
pub proof fn lemma_send_refused_after_close(b0: HostBackend, b1: HostBackend, b2: HostBackend, sid: SocketId,
    out0: Seq<SocketEvent>, out1: Seq<SocketEvent>, data: Seq<u8>, r: Result<Vec<u8>, SocketError>)
    requires
        conn_at(b0.socket_manager.socket_table, sid) is Some,
        close_effect(b0, b1, sid, out0, out1, Ok(true)),
        send_effect(b1, b2, sid, data, r),
    ensures
        r == Err::<Vec<u8>, SocketError>(SocketError::SendNotAllowed),
        b2.socket_manager.socket_table.view() == b1.socket_manager.socket_table.view(),
{
}

/// One line of the socket listing.
#[derive(Clone, Copy, Debug, PartialEq, Eq, Structural)]
pub enum LsRow {
    /// A connection: its id, its two ends and its state.
    Conn { sid: SocketId, src: TcpAddress, dst: TcpAddress, state: TcpState },
    /// A listener: its id, its port and its state.
    Listen { sid: SocketId, port: u16, state: TcpState },
}

/// The listing line of table entry `e`.
pub open spec fn ls_row(e: (SocketId, SocketEntry)) -> LsRow {
    match e.1 {
        SocketEntry::Connection(c) => LsRow::Conn { sid: e.0, src: c.src_addr, dst: c.dst_addr, state: c.sock.state },
        SocketEntry::Listener(l) => LsRow::Listen { sid: e.0, port: l.port, state: l.state },
    }
}

/// The socket listing: one line per socket, in table order.
pub fn ls_rows(t: &SocketTable) -> (rows: Vec<LsRow>)
    ensures
        rows@ == t.seq().map_values(|e: (SocketId, SocketEntry)| ls_row(e)),
{
    let mut rows: Vec<LsRow> = Vec::new();
    let mut i: usize = 0;
    while i < t.entries.len()
        invariant
            i <= t.seq().len(),
            rows@ == t.seq().take(i as int).map_values(|e: (SocketId, SocketEntry)| ls_row(e)),
        decreases t.seq().len() - i,
    {
        let sid = t.entries[i].0;
        let row = match &t.entries[i].1 {
            SocketEntry::Connection(c) => LsRow::Conn { sid, src: c.src_addr, dst: c.dst_addr, state: c.sock.state },
            SocketEntry::Listener(l) => LsRow::Listen { sid, port: l.port, state: l.state },
        };
        rows.push(row);
        i = i + 1;
        proof {
            assert(t.seq().take(i as int).map_values(|e: (SocketId, SocketEntry)| ls_row(e))
                =~= t.seq().take(i - 1).map_values(|e: (SocketId, SocketEntry)| ls_row(e)).push(ls_row(t.seq()[i - 1])));
        }
    }
    proof { assert(t.seq().take(i as int) =~= t.seq()); }
    rows
}

/// What `connect` to `ip`:`port` at time `now` does to host `b0` (giving
/// `b1`, and the events `out0` becoming `out1`) when the new socket gets id
/// `sid`: the first id free from the assigner's next one on; a local port
/// no socket uses; state SYN-SENT; one event sending the SYN (initial
/// sequence number, no acknowledgement, the full window), which is the one
/// segment of the retransmission queue; every other socket unchanged.
pub open spec fn connect_effect(b0: HostBackend, b1: HostBackend, ip: u32, port: u16, now: u64,
    out0: Seq<SocketEvent>, out1: Seq<SocketEvent>, sid: SocketId) -> bool {
    &&& sid == first_free(b0.socket_manager.socket_table.view(), b0.socket_manager.sid_assigner.next_sid, 0)
    &&& !b0.socket_manager.socket_table.view().contains_key(sid)
    &&& b1.socket_manager.sid_assigner.next_sid == sid.wrapping_add(1)
    &&& b1.socket_manager.listener_table@ == b0.socket_manager.listener_table@
    &&& b1.socket_manager.socket_table.view().dom() == b0.socket_manager.socket_table.view().dom().insert(sid)
    &&& forall|k: SocketId| k != sid && #[trigger] b0.socket_manager.socket_table.view().contains_key(k)
            ==> b1.socket_manager.socket_table.view()[k] == b0.socket_manager.socket_table.view()[k]
    &&& conn_at(b1.socket_manager.socket_table, sid) matches Some(s) && {
            let isn = s.write_buf.view().our_init_seq;
            let syn = seg_header(s.src_addr, s.dst_addr, isn, 0, BUFFER_CAPACITY as u16, SYN, Seq::empty());
            &&& s.state == TcpState::SynSent
            &&& s.sid == sid
            &&& s.src_addr.ip == b0.local_ip
            &&& s.src_addr.port < 65535
            &&& !port_in_use(b0.socket_manager.socket_table, s.src_addr.port)
            &&& s.dst_addr == (TcpAddress { ip, port })
            &&& s.seq_num == isn.wrapping_add(1)
            &&& s.ack_num == 0
            &&& events(out1) == events(out0).push(send_event(TcpAddress { ip, port }, syn, Seq::empty()))
            &&& s.write_buf.retr_queue.segs() == seq![RetrSegmentView {
                seq_num: isn,
                payload: Seq::empty(),
                flags: SYN,
                time_of_send: now,
                checksum: syn.checksum,
                retransmission_count: 0,
            }]
        }
    &&& b1.local_ip == b0.local_ip
}

impl HostBackend {
    pub open spec fn wf(&self) -> bool {
        &&& self.ip_daemon.wf()
        &&& self.socket_manager.wf()
    }

    /// A host with no sockets over IP layer `ip_daemon`; its address is that
    /// of interface `if0`.
    pub fn new(ip_daemon: HostIpDaemon) -> (b: HostBackend)
        requires
            ip_daemon.wf(),
            ip_daemon.interface_reps.has("if0"@),
        ensures
            b.wf(),
            b.ip_daemon == ip_daemon,
            b.local_ip == ip_daemon.interface_reps.rep("if0"@).v_ip,
            b.socket_manager.socket_table.view() == Map::<SocketId, SocketEntry>::empty(),
            b.socket_manager.listener_table@ == Map::<u16, crate::sockets::ListenerEntry>::empty(),
            b.socket_manager.sid_assigner.next_sid == 0,
    {
        let name = "if0".to_owned();
        let local_ip = match ip_daemon.interface_reps.v_ip_of(&name) {
            Some(a) => a,
            None => 0,
        };
        HostBackend { ip_daemon, socket_manager: SocketManager::new(), local_ip }
    }

    /// The socket table.
    pub fn socket_table(&self) -> (t: &SocketTable)
        ensures
            *t == self.socket_manager.socket_table,
    {
        &self.socket_manager.socket_table
    }

    /// Opens a listener on `port` (see `SocketManager::listen`); the socket
    /// table must have a free id (see `SocketTable::has_free_id`).
    pub fn listen(&mut self, port: u16) -> (sid: SocketId)
        requires
            old(self).wf(),
            !table_full(old(self).socket_manager.socket_table.view()),
        ensures
            final(self).wf(),
            listen_effect(old(self).socket_manager, final(self).socket_manager, port, sid),
            final(self).ip_daemon == old(self).ip_daemon,
            final(self).local_ip == old(self).local_ip,
    {
        self.socket_manager.listen(port)
    }

    /// Accepts connections on `port` (see `SocketManager::accept`).
    pub fn accept(&mut self, port: u16)
        requires
            old(self).wf(),
        ensures
            final(self).wf(),
            accept_effect(old(self).socket_manager, final(self).socket_manager, port),
            final(self).ip_daemon == old(self).ip_daemon,
            final(self).local_ip == old(self).local_ip,
    {
        self.socket_manager.accept(port)
    }

    /// Accepts one connection on `port` (see `SocketManager::accept1`): the
    /// id of a connection that was pending, or `Some(None)` when the caller
    /// is to wait for the next one.
    pub fn accept1(&mut self, port: u16) -> (r: Option<Option<SocketId>>)
        requires
            old(self).wf(),
        ensures
            final(self).wf(),
            accept1_effect(old(self).socket_manager, final(self).socket_manager, port, r),
    {
        self.socket_manager.accept1(port)
    }

    /// An address on this host with a port below 65535 that no socket uses
    /// as its local port: random ports are drawn until one is unused (after
    /// 65536 draws the ports are tried in order).
    fn unused_tcp_addr(&self) -> (a: TcpAddress)
        requires
            self.wf(),
            exists|p: u16| p < 65535 && !(#[trigger] port_in_use(self.socket_manager.socket_table, p)),
        ensures
            a.ip == self.local_ip,
            a.port < 65535,
            !port_in_use(self.socket_manager.socket_table, a.port),
    {
        let table = &self.socket_manager.socket_table;
        let mut tries: u32 = 0;
        while tries < 0x1_0000
            invariant
                *table == self.socket_manager.socket_table,
            decreases 0x1_0000 - tries,
        {
            let port = random_range(0, 65535) as u16;
            if !table.port_used(port) {
                return TcpAddress::new(self.local_ip, port);
            }
            tries = tries + 1;
        }
        let mut p: u16 = 0;
        while p < 65535
            invariant
                *table == self.socket_manager.socket_table,
                p <= 65535,
                forall|q: u16| q < p ==> #[trigger] port_in_use(*table, q),
                exists|q: u16| q < 65535 && !(#[trigger] port_in_use(*table, q)),
            decreases 65535 - p,
        {
            if !table.port_used(p) {
                return TcpAddress::new(self.local_ip, p);
            }
            p = p + 1;
        }
        proof {
            let q = choose|q: u16| q < 65535 && !(#[trigger] port_in_use(*table, q));
            assert(port_in_use(*table, q));
        }
        TcpAddress::new(self.local_ip, 0)
    }

    /// Whether some port below 65535 is used by no socket as its local
    /// port, so that `connect` can pick one.
    pub fn has_free_port(&self) -> (b: bool)
        requires
            self.wf(),
        ensures
            b == exists|p: u16| p < 65535 && !(#[trigger] port_in_use(self.socket_manager.socket_table, p)),
    {
        let table = &self.socket_manager.socket_table;
        let mut p: u16 = 0;
        while p < 65535
            invariant
                *table == self.socket_manager.socket_table,
                p <= 65535,
                forall|q: u16| q < p ==> #[trigger] port_in_use(*table, q),
            decreases 65535 - p,
        {
            if !table.port_used(p) {
                return true;
            }
            p = p + 1;
        }
        false
    }

    /// Whether the socket table has a free id (see `SocketTable::has_free_id`).
    pub fn has_free_id(&self) -> (b: bool)
        requires
            self.wf(),
        ensures
            b == !table_full(self.socket_manager.socket_table.view()),
    {
        self.socket_manager.socket_table.has_free_id()
    }

    /// Opens a connection to `ip`:`port` at time `now`: a socket from a
    /// local port no socket uses gets a fresh id (see
    /// `SocketManager::next_free_sid`) and sends its SYN, which also joins
    /// its retransmission queue.
    pub fn connect(&mut self, ip: u32, port: u16, now: u64, out: &mut Vec<SocketEvent>) -> (sid: SocketId)
        requires
            old(self).wf(),
            exists|p: u16| p < 65535 && !(#[trigger] port_in_use(old(self).socket_manager.socket_table, p)),
            !table_full(old(self).socket_manager.socket_table.view()),
        ensures
            final(self).wf(),
            connect_effect(*old(self), *final(self), ip, port, now, old(out)@, final(out)@, sid),
    {
        let src_addr = self.unused_tcp_addr();
        let dst_addr = TcpAddress::new(ip, port);
        let sock = ConnectionSocket::new(TcpState::AwaitingRun, src_addr, dst_addr);
        let sid = match self.socket_manager.next_free_sid() {
            Some(s) => s,
            None => {
                assert(false);
                0
            },
        };
        let mut sock = sock;
        sock.set_sid(sid);
        proof { assert(sock.write_buf.retr_queue.segs() =~= Seq::<RetrSegmentView>::empty()); }
        sock.first_syn(now, out);
        let ent = ConnectionEntry { src_addr: sock.src_addr, dst_addr: sock.dst_addr, sock };
        self.socket_manager.socket_table.insert(sid, SocketEntry::Connection(ent));
        proof {
            assert(self.socket_manager.socket_table.view().dom() =~= old(self).socket_manager.socket_table.view().dom().insert(sid));
            assert forall|p: u16| #[trigger] self.socket_manager.listener_table@.contains_key(p)
                implies self.socket_manager.listener_table@[p].wf() by {
                assert(old(self).socket_manager.listener_table@.contains_key(p));
            }
        }
        sid
    }

    /// The id of the first connection in the table whose far end is
    /// `dst_ip`:`port`.
    pub fn find_conn_socket(socket_table: &SocketTable, dst_ip: u32, port: u16) -> (r: Option<SocketId>)
        requires
            socket_table.wf(),
        ensures
            r is None <==> forall|i: int| 0 <= i < socket_table.seq().len()
                ==> !conn_to(#[trigger] socket_table.seq()[i].1, dst_ip, port),
            r matches Some(sid) ==> exists|i: int| 0 <= i < socket_table.seq().len()
                && socket_table.seq()[i].0 == sid && conn_to(#[trigger] socket_table.seq()[i].1, dst_ip, port)
                && forall|j: int| 0 <= j < i ==> !conn_to(#[trigger] socket_table.seq()[j].1, dst_ip, port),
    {
        let mut i: usize = 0;
        while i < socket_table.entries.len()
            invariant
                i <= socket_table.seq().len(),
                forall|j: int| 0 <= j < i ==> !conn_to(#[trigger] socket_table.seq()[j].1, dst_ip, port),
            decreases socket_table.seq().len() - i,
        {
            match &socket_table.entries[i].1 {
                SocketEntry::Connection(ent) => {
                    if ent.dst_addr.ip == dst_ip && ent.dst_addr.port == port {
                        proof { assert(conn_to(socket_table.seq()[i as int].1, dst_ip, port)); }
                        return Some(socket_table.entries[i].0);
                    }
                },
                SocketEntry::Listener(_) => {},
            }
            i = i + 1;
        }
        None
    }

    /// Takes the connection socket with id `sid` out of the table.
    fn take_conn(&mut self, sid: SocketId) -> (r: Option<ConnectionSocket>)
        requires
            old(self).wf(),
        ensures
            final(self).wf(),
            r == conn_at(old(self).socket_manager.socket_table, sid),
            r is Some ==> final(self).socket_manager.socket_table.view() == old(self).socket_manager.socket_table.view().remove(sid),
            r is None ==> *final(self) == *old(self),
            r matches Some(s) ==> s.wf(),
            final(self).ip_daemon == old(self).ip_daemon,
            final(self).local_ip == old(self).local_ip,
            final(self).socket_manager.listener_table == old(self).socket_manager.listener_table,
            final(self).socket_manager.sid_assigner == old(self).socket_manager.sid_assigner,
    {
        let is_conn = match self.socket_manager.socket_table.get(sid) {
            Some(SocketEntry::Connection(_)) => true,
            _ => false,
        };
        if !is_conn {
            return None;
        }
        match self.socket_manager.socket_table.remove(sid) {
            Some(SocketEntry::Connection(ent)) => Some(ent.sock),
            _ => {
                assert(false);
                None
            },
        }
    }

    /// Puts connection socket `sock` into the table under id `sid`.
    fn put_conn(&mut self, sid: SocketId, sock: ConnectionSocket)
        requires
            old(self).wf(),
            sock.wf(),
        ensures
            final(self).wf(),
            final(self).socket_manager.socket_table.view() == old(self).socket_manager.socket_table.view().insert(sid, conn_entry(sock)),
            final(self).ip_daemon == old(self).ip_daemon,
            final(self).local_ip == old(self).local_ip,
            final(self).socket_manager.listener_table == old(self).socket_manager.listener_table,
            final(self).socket_manager.sid_assigner == old(self).socket_manager.sid_assigner,
    {
        let ent = ConnectionEntry { src_addr: sock.src_addr, dst_addr: sock.dst_addr, sock };
        self.socket_manager.socket_table.insert(sid, SocketEntry::Connection(ent));
    }

    /// Writes `data` into the send buffer of connection `sid`, as much as
    /// fits; the rest is returned (the caller waits for room and sends it
    /// next). Fails when `sid` is not a connection, or when the socket was
    /// closed on this side.
    pub fn tcp_send(&mut self, sid: SocketId, data: Vec<u8>) -> (r: Result<Vec<u8>, SocketError>)
        requires
            old(self).wf(),
        ensures
            final(self).wf(),
            send_effect(*old(self), *final(self), sid, data@, r),
    {
        let ghost t0 = self.socket_manager.socket_table.view();
        let mut sock = match self.take_conn(sid) {
            Some(s) => s,
            None => {
                return Err(SocketError::NoSuchSocket);
            },
        };
        if !sock.send_allowed() {
            self.put_conn(sid, sock);
            proof { assert(self.socket_manager.socket_table.view() =~= t0); }
            return Err(SocketError::SendNotAllowed);
        }
        let rest = sock.write_buf.fill_with(data);
        self.put_conn(sid, sock);
        proof { assert(self.socket_manager.socket_table.view().dom() =~= t0.dom()); }
        Ok(rest)
    }

    /// Takes up to `bytes` received bytes from connection `sid` (see
    /// `ConnectionSocket::receive`); fails when `sid` is not a connection.
    pub fn tcp_recieve(&mut self, sid: SocketId, bytes: u16) -> (r: Result<Vec<u8>, SocketError>)
        requires
            old(self).wf(),
        ensures
            final(self).wf(),
            recv_effect(*old(self), *final(self), sid, bytes, r),
    {
        let ghost t0 = self.socket_manager.socket_table.view();
        let mut sock = match self.take_conn(sid) {
            Some(s) => s,
            None => {
                return Err(SocketError::NoSuchSocket);
            },
        };
        let r = sock.receive(bytes);
        self.put_conn(sid, sock);
        proof { assert(self.socket_manager.socket_table.view().dom() =~= t0.dom()); }
        r
    }

    /// Closes socket `sid` at time `now`. A connection starts closing (see
    /// `ConnectionSocket::close`; the caller waits until everything sent is
    /// acknowledged) and the result says whether it did; a listener leaves
    /// the socket table and the listener table. Fails when there is no
    /// socket `sid`.
    pub fn close(&mut self, sid: SocketId, now: u64, out: &mut Vec<SocketEvent>) -> (r: Result<bool, SocketError>)
        requires
            old(self).wf(),
        ensures
            final(self).wf(),
            close_effect(*old(self), *final(self), sid, old(out)@, final(out)@, r),
    {
        let ghost t0 = self.socket_manager.socket_table.view();
        let listener: Option<ListenEntry> = match self.socket_manager.socket_table.get(sid) {
            None => {
                return Err(SocketError::NoSuchSocket);
            },
            Some(SocketEntry::Listener(ent)) => Some(*ent),
            Some(SocketEntry::Connection(_)) => None,
        };
        match listener {
            Some(ent) => {
                let _ = self.socket_manager.socket_table.remove(sid);
                self.socket_manager.listener_close(&ent);
                Ok(true)
            },
            None => {
                let mut sock = match self.take_conn(sid) {
                    Some(s) => s,
                    None => {
                        return Err(SocketError::NoSuchSocket);
                    },
                };
                let started = sock.close(now, out);
                self.put_conn(sid, sock);
                proof { assert(self.socket_manager.socket_table.view().dom() =~= t0.dom()); }
                Ok(started)
            },
        }
    }

    /// Drops socket `sid` from the table once it has closed.
    pub fn check_closed(&mut self, sid: SocketId)
        requires
            old(self).wf(),
            old(self).socket_manager.socket_table.view().contains_key(sid),
        ensures
            final(self).wf(),
            final(self).socket_manager.socket_table.view() == old(self).socket_manager.socket_table.view().remove(sid),
            final(self).socket_manager.listener_table == old(self).socket_manager.listener_table,
    {
        let _ = self.socket_manager.socket_table.remove(sid);
    }
}

/// A line of the route listing: how the route was learned, its prefix, its
/// next hop and its cost.
#[derive(Debug)]
pub struct LrRow {
    pub rtype: RouteType,
    pub net: Ipv4Net,
    pub next_hop: ForwardingOption,
    pub cost: Option<u32>,
}

/// Whether a route is listed: routes to this node are not.
pub open spec fn listed(r: Route) -> bool {
    r.rtype != RouteType::ToSelf && !(r.next_hop is ToSelf)
}

/// The route listing of a table: one line per listed route, in table order.
pub open spec fn lr_rows_spec(s: Seq<(Ipv4Net, Route)>) -> Seq<(RouteType, Ipv4Net, ForwardingOption, Option<u32>)>
    decreases s.len(),
{
    if s.len() == 0 {
        Seq::empty()
    } else {
        let prev = lr_rows_spec(s.drop_last());
        let e = s.last();
        if listed(e.1) {
            prev.push((e.1.rtype, e.0, e.1.next_hop, e.1.cost))
        } else {
            prev
        }
    }
}

/// The fields of a listing line.
pub open spec fn row_fields(x: LrRow) -> (RouteType, Ipv4Net, ForwardingOption, Option<u32>) {
    (x.rtype, x.net, x.next_hop, x.cost)
}

/// The route listing of `table` (see `lr_rows_spec`).
pub fn lr_rows(table: &ForwardingTable) -> (rows: Vec<LrRow>)
    ensures
        rows@.map_values(|x: LrRow| row_fields(x)) == lr_rows_spec(table.seq()),
{
    let mut rows: Vec<LrRow> = Vec::new();
    let mut i: usize = 0;
    while i < table.entries.len()
        invariant
            i <= table.seq().len(),
            rows@.map_values(|x: LrRow| row_fields(x)) == lr_rows_spec(table.seq().take(i as int)),
        decreases table.seq().len() - i,
    {
        let ghost s = table.seq();
        proof {
            assert(s.take(i + 1).drop_last() =~= s.take(i as int));
            assert(s.take(i + 1).last() == s[i as int]);
        }
        let net = table.entries[i].0;
        let route = &table.entries[i].1;
        let skip = match route.next_hop {
            ForwardingOption::ToSelf => true,
            _ => match route.rtype {
                RouteType::ToSelf => true,
                _ => false,
            },
        };
        if !skip {
            let ghost r0 = rows@;
            let row = LrRow { rtype: route.rtype, net, next_hop: route.next_hop.duplicate(), cost: route.cost };
            rows.push(row);
            proof {
                assert(rows@.map_values(|x: LrRow| row_fields(x)) =~= r0.map_values(|x: LrRow| row_fields(x)).push(row_fields(row)));
            }
        }
        i = i + 1;
    }
    proof { assert(table.seq().take(i as int) =~= table.seq()); }
    rows
}

/// Where line `k` of the listing of `s` comes from: a listed entry of `s`
/// whose type, prefix, next hop and cost it shows.
proof fn lemma_lr_row_source(s: Seq<(Ipv4Net, Route)>, k: int)
    requires
        0 <= k < lr_rows_spec(s).len(),
    ensures
        exists|i: int| 0 <= i < s.len() && listed(s[i].1)
            && lr_rows_spec(s)[k] == (s[i].1.rtype, s[i].0, s[i].1.next_hop, s[i].1.cost),
    decreases s.len(),
{
    let prev = lr_rows_spec(s.drop_last());
    if k < prev.len() {
        lemma_lr_row_source(s.drop_last(), k);
        let i = choose|i: int| 0 <= i < s.drop_last().len() && listed(s.drop_last()[i].1)
            && prev[k] == (s.drop_last()[i].1.rtype, s.drop_last()[i].0, s.drop_last()[i].1.next_hop, s.drop_last()[i].1.cost);
        assert(s[i] == s.drop_last()[i]);
    } else {
        let i = s.len() - 1;
        assert(s[i] == s.last());
    }
}

/// Every line of the route listing shows a route of the table as the table
/// holds it: the table maps the line's prefix to a listed route of the
/// line's type, next hop and cost.
pub proof fn lemma_lr_rows_show_table(t: ForwardingTable, rows: Seq<LrRow>, k: int)
    requires
        t.wf(),
        rows.map_values(|x: LrRow| row_fields(x)) == lr_rows_spec(t.seq()),
        0 <= k < rows.len(),
    ensures
        t.view().contains_key(rows[k].net),
        listed(t.view()[rows[k].net]),
        rows[k].rtype == t.view()[rows[k].net].rtype,
        rows[k].next_hop == t.view()[rows[k].net].next_hop,
        rows[k].cost == t.view()[rows[k].net].cost,
{
    let s = t.seq();
    assert(rows.map_values(|x: LrRow| row_fields(x))[k] == row_fields(rows[k]));
    lemma_lr_row_source(s, k);
    let i = choose|i: int| 0 <= i < s.len() && listed(s[i].1)
        && lr_rows_spec(s)[k] == (s[i].1.rtype, s[i].0, s[i].1.next_hop, s[i].1.cost);
    crate::table::lemma_map_index(s, i);
}

/// In the socket listing, the line of a connection shows the socket's own
/// (local) address as `src` and its peer's address as `dst`, with the
/// socket's id and state.
pub proof fn lemma_ls_rows_local_then_remote(t: SocketTable, rows: Seq<LsRow>, k: int)
    requires
        t.wf(),
        rows == t.seq().map_values(|e: (SocketId, SocketEntry)| ls_row(e)),
        0 <= k < rows.len(),
    ensures
        rows[k] matches LsRow::Conn { sid, src, dst, state } ==> (conn_at(t, sid) matches Some(s)
            && s.src_addr == src && s.dst_addr == dst && s.state == state),
        conn_at(t, t.seq()[k].0) is Some ==> rows[k] is Conn,
{
    let s = t.seq();
    assert(rows[k] == ls_row(s[k]));
    crate::table::lemma_map_index(s, k);
    assert(entry_wf(s[k].1));
}

/// After `connect` to `ip:port` gives socket `sid`, the socket listing shows
/// `sid` as a SYN-SENT connection from this host's address to `ip:port`.
pub proof fn lemma_ls_after_connect(b0: HostBackend, b1: HostBackend, ip: u32, port: u16, now: u64,
    out0: Seq<SocketEvent>, out1: Seq<SocketEvent>, sid: SocketId, rows: Seq<LsRow>, k: int)
    requires
        b1.wf(),
        connect_effect(b0, b1, ip, port, now, out0, out1, sid),
        rows == b1.socket_manager.socket_table.seq().map_values(|e: (SocketId, SocketEntry)| ls_row(e)),
        0 <= k < rows.len(),
        b1.socket_manager.socket_table.seq()[k].0 == sid,
    ensures
        rows[k] matches LsRow::Conn { sid: s2, src, dst, state } && s2 == sid && src.ip == b0.local_ip
            && dst == (TcpAddress { ip, port }) && state == TcpState::SynSent,
{
    lemma_ls_rows_local_then_remote(b1.socket_manager.socket_table, rows, k);
}

/// What a node's application side offers on both kinds of node: the route
/// listing, and switching interfaces up and down.
pub trait VnodeBackend {
    /// The node's interface records.
    spec fn spec_interfaces(&self) -> InterfaceTable;

    /// The node's forwarding table.
    spec fn spec_table(&self) -> ForwardingTable;

    fn interface_reps(&self) -> (t: &InterfaceTable)
        ensures
            *t == self.spec_interfaces();

    fn forwarding_table(&self) -> (t: &ForwardingTable)
        ensures
            *t == self.spec_table();

    /// Sets the status of interface `inter` (see `InterfaceTable::set_status`).
    fn set_interface_status(&mut self, inter: &String, status: InterfaceStatus) -> (r: Option<bool>)
        requires
            old(self).spec_interfaces().wf(),
        ensures
            final(self).spec_interfaces().wf(),
            final(self).spec_table() == old(self).spec_table(),
            r is Some <==> old(self).spec_interfaces().has(inter@),
            r is None ==> final(self).spec_interfaces().seq() == old(self).spec_interfaces().seq(),
            r matches Some(changed) ==> {
                let t0 = old(self).spec_interfaces().seq();
                let i = crate::interfaces::name_index(t0, inter@)->0;
                &&& changed == (t0[i].status != status)
                &&& final(self).spec_interfaces().seq() == t0.update(i, crate::interfaces::InterfaceRep { status, ..t0[i] })
            };

    /// The route listing.
    fn lr(&self) -> (rows: Vec<LrRow>)
        ensures
            rows@.map_values(|x: LrRow| row_fields(x)) == lr_rows_spec(self.spec_table().seq()),
    {
        lr_rows(self.forwarding_table())
    }

    /// Brings interface `inter` up: `Some(true)` when it was down (the
    /// interface must be told), `Some(false)` when it was up already, `None`
    /// when there is no such interface.
    fn up(&mut self, inter: &String) -> (r: Option<bool>)
        requires
            old(self).spec_interfaces().wf(),
        ensures
            final(self).spec_interfaces().wf(),
            r is Some <==> old(self).spec_interfaces().has(inter@),
            r matches Some(changed) ==> changed == (old(self).spec_interfaces().rep(inter@).status == InterfaceStatus::Down),
            r is Some ==> final(self).spec_interfaces().has(inter@)
                && final(self).spec_interfaces().rep(inter@).status == InterfaceStatus::Up,
    {
        let r = self.set_interface_status(inter, InterfaceStatus::Up);
        proof { lemma_status_set(old(self).spec_interfaces(), self.spec_interfaces(), inter@, InterfaceStatus::Up, r); }
        r
    }

    /// Takes interface `inter` down (as `up`, the other way).
    fn down(&mut self, inter: &String) -> (r: Option<bool>)
        requires
            old(self).spec_interfaces().wf(),
        ensures
            final(self).spec_interfaces().wf(),
            r is Some <==> old(self).spec_interfaces().has(inter@),
            r matches Some(changed) ==> changed == (old(self).spec_interfaces().rep(inter@).status == InterfaceStatus::Up),
            r is Some ==> final(self).spec_interfaces().has(inter@)
                && final(self).spec_interfaces().rep(inter@).status == InterfaceStatus::Down,
    {
        let r = self.set_interface_status(inter, InterfaceStatus::Down);
        proof { lemma_status_set(old(self).spec_interfaces(), self.spec_interfaces(), inter@, InterfaceStatus::Down, r); }
        r
    }
}

/// After `set_status` the interface has the new status.
pub proof fn lemma_status_set(t0: InterfaceTable, t1: InterfaceTable, name: Seq<char>, status: InterfaceStatus, r: Option<bool>)
    requires
        t0.wf(),
        t1.wf(),
        r is Some <==> t0.has(name),
        r matches Some(changed) ==> {
            let i = crate::interfaces::name_index(t0.seq(), name)->0;
            &&& changed == (t0.seq()[i].status != status)
            &&& t1.seq() == t0.seq().update(i, crate::interfaces::InterfaceRep { status, ..t0.seq()[i] })
        },
    ensures
        r matches Some(changed) ==> changed == (t0.rep(name).status != status),
        r is Some ==> t1.has(name) && t1.rep(name).status == status,
{
    if r is Some {
        let s0 = t0.seq();
        let s1 = t1.seq();
        let i = crate::interfaces::name_index(s0, name)->0;
        assert(0 <= i < s0.len() && s0[i].name@ == name);
        assert(s1[i].name@ == name);
        let k = choose|k: int| 0 <= k < s1.len() && #[trigger] s1[k].name@ == name;
        if k != i {
            assert(s1[k].name@ != s1[i].name@);
        }
    }
}

impl VnodeBackend for HostBackend {
    open spec fn spec_interfaces(&self) -> InterfaceTable {
        self.ip_daemon.interface_reps
    }

    open spec fn spec_table(&self) -> ForwardingTable {
        self.ip_daemon.forwarding_table
    }

    fn interface_reps(&self) -> (t: &InterfaceTable) {
        &self.ip_daemon.interface_reps
    }

    fn forwarding_table(&self) -> (t: &ForwardingTable) {
        &self.ip_daemon.forwarding_table
    }

    fn set_interface_status(&mut self, inter: &String, status: InterfaceStatus) -> (r: Option<bool>) {
        self.ip_daemon.interface_reps.set_status(inter, status)
    }
}

/// A router's side of the node: no sockets, only its IP layer.
#[derive(Debug)]
pub struct RouterBackend {
    pub ip_daemon: RouterIpDaemon,
}

impl RouterBackend {
    pub fn new(ip_daemon: RouterIpDaemon) -> (b: RouterBackend)
        ensures
            b.ip_daemon == ip_daemon,
    {
        RouterBackend { ip_daemon }
    }
}

impl VnodeBackend for RouterBackend {
    open spec fn spec_interfaces(&self) -> InterfaceTable {
        self.ip_daemon.interface_reps
    }

    open spec fn spec_table(&self) -> ForwardingTable {
        self.ip_daemon.forwarding_table
    }

    fn interface_reps(&self) -> (t: &InterfaceTable) {
        &self.ip_daemon.interface_reps
    }

    fn forwarding_table(&self) -> (t: &ForwardingTable) {
        &self.ip_daemon.forwarding_table
    }

    fn set_interface_status(&mut self, inter: &String, status: InterfaceStatus) -> (r: Option<bool>) {
        self.ip_daemon.interface_reps.set_status(inter, status)
    }
}

/// A node's application side: that of a host or of a router.
#[derive(Debug)]
pub enum Backend {
    Host(HostBackend),
    Router(RouterBackend),
}

} // verus!
