//! The socket table (listener and connection sockets by id), listeners with
//! their pending connections, and the socket manager that creates a
//! connection socket for each SYN a listener receives.

use vstd::prelude::*;
use std::collections::HashMap;
use crate::tcp::{TcpState, TcpAddress, TcpPacket, TcpHeaderView, spec_header_flags, has_only_flags, SYN, RST,
    spec_parse_tcp, tcp_from_payload};
use crate::ipv4::{IpHeader, Packet, PROTOCOL_TCP};
use crate::conn_socket::{ConnectionSocket, SocketId, SocketEvent, SocketEventView, events, send_event, seg_header};
use crate::table::{keys_unique, has_key, seq_to_map, lemma_map_index, lemma_map_update, lemma_map_push,
    lemma_map_remove};

verus! {

/// Hands out socket ids in increasing order (wrapping after the largest).
#[derive(Debug)]
pub struct SidAssigner {
    pub next_sid: SocketId,
}

impl SidAssigner {
    pub fn new() -> (s: SidAssigner)
        ensures
            s.next_sid == 0,
    {
        SidAssigner { next_sid: 0 }
    }

    /// The next id.
    pub fn assign_sid(&mut self) -> (sid: SocketId)
        ensures
            sid == old(self).next_sid,
            final(self).next_sid == old(self).next_sid.wrapping_add(1),
    {
        let sid = self.next_sid;
        self.next_sid = sid.wrapping_add(1);
        sid
    }
}

/// Ids count up from 0 and do not repeat: the ids that successive calls of
/// `assign_sid` hand out from a new assigner (each returns the next id and
/// moves it on by one) are 0, 1, 2, ... for the first 65536 calls.
pub proof fn lemma_ids_count_up(ns: Seq<SocketId>)
    requires
        ns.len() <= 0x1_0000,
        ns.len() > 0 ==> ns[0] == 0,
        forall|i: int| 0 <= i < ns.len() - 1 ==> ns[i + 1] == (#[trigger] ns[i]).wrapping_add(1),
    ensures
        forall|i: int| 0 <= i < ns.len() ==> #[trigger] ns[i] == i,
        forall|i: int, j: int| 0 <= i < j < ns.len() ==> ns[i] != ns[j],
    decreases ns.len(),
{
    if ns.len() > 1 {
        let init = ns.drop_last();
        assert forall|i: int| 0 <= i < init.len() - 1 implies init[i + 1] == (#[trigger] init[i]).wrapping_add(1) by {
            assert(init[i] == ns[i] && init[i + 1] == ns[i + 1]);
        }
        lemma_ids_count_up(init);
        let k = ns.len() - 2;
        assert(ns[k] == init[k]);
        assert(ns[k + 1] == ns[k].wrapping_add(1));
        assert forall|i: int| 0 <= i < ns.len() implies #[trigger] ns[i] == i by {
            if i < ns.len() - 1 {
                assert(ns[i] == init[i]);
            }
        }
    }
}

/// The socket-table entry of a listener.
#[derive(Clone, Copy, Debug, PartialEq, Eq, Structural)]
pub struct ListenEntry {
    pub port: u16,
    pub state: TcpState,
}

impl ListenEntry {
    /// A listener on `port`.
    pub fn new(port: u16) -> (e: ListenEntry)
        ensures
            e == (ListenEntry { port, state: TcpState::Listening }),
    {
        ListenEntry { port, state: TcpState::Listening }
    }
}

/// The socket-table entry of a connection: its two ends and the socket.
#[derive(Debug)]
pub struct ConnectionEntry {
    pub src_addr: TcpAddress,
    pub dst_addr: TcpAddress,
    pub sock: ConnectionSocket,
}

/// An entry of the socket table.
#[derive(Debug)]
pub enum SocketEntry {
    Connection(ConnectionEntry),
    Listener(ListenEntry),
}

/// A connection entry holds a consistent socket whose ends it repeats.
pub open spec fn entry_wf(e: SocketEntry) -> bool {
    match e {
        SocketEntry::Connection(c) => c.sock.wf() && c.src_addr == c.sock.src_addr && c.dst_addr == c.sock.dst_addr,
        SocketEntry::Listener(_) => true,
    }
}

/// The entry that holds connection socket `sock`.
pub open spec fn conn_entry(sock: ConnectionSocket) -> SocketEntry {
    SocketEntry::Connection(ConnectionEntry { src_addr: sock.src_addr, dst_addr: sock.dst_addr, sock })
}

/// Whether entry `e` uses `port` as its local port: a connection from that
/// port or a listener on it.
pub open spec fn uses_port(e: SocketEntry, port: u16) -> bool {
    match e {
        SocketEntry::Connection(c) => c.src_addr.port == port,
        SocketEntry::Listener(l) => l.port == port,
    }
}

/// Whether some socket of table `t` uses `port` as its local port.
pub open spec fn port_in_use(t: SocketTable, port: u16) -> bool {
    exists|i: int| 0 <= i < t.seq().len() && uses_port(#[trigger] t.seq()[i].1, port)
}

/// Whether table `t` holds every id.
pub open spec fn table_full(t: Map<SocketId, SocketEntry>) -> bool {
    forall|k: SocketId| #[trigger] t.contains_key(k)
}

/// The id `j` places after `start`, counting on from 65535 to 0.
pub open spec fn id_after(start: SocketId, j: int) -> SocketId {
    ((start + j) % 0x1_0000) as u16
}

/// The first id from `id_after(start, k)` on that table `t` does not hold
/// (`start` when it holds them all).
pub open spec fn first_free(t: Map<SocketId, SocketEntry>, start: SocketId, k: nat) -> SocketId
    decreases 0x1_0000 - k,
{
    if k >= 0x1_0000 {
        start
    } else if !t.contains_key(id_after(start, k as int)) {
        id_after(start, k as int)
    } else {
        first_free(t, start, k + 1)
    }
}

/// When table `t` holds every id counted from `start`, it holds every id.
proof fn lemma_all_taken(t: Map<SocketId, SocketEntry>, start: SocketId)
    requires
        forall|j: int| 0 <= j < 0x1_0000 ==> t.contains_key(#[trigger] id_after(start, j)),
    ensures
        table_full(t),
{
    assert forall|x: SocketId| #[trigger] t.contains_key(x) by {
        let j: int = if x >= start { x - start } else { x + 0x1_0000 - start };
        assert(id_after(start, j) == x);
    }
}

/// A table that does not hold every id does not hold the first free one.
pub proof fn lemma_first_free(t: Map<SocketId, SocketEntry>, start: SocketId, k: nat)
    requires
        !table_full(t),
        k <= 0x1_0000,
        forall|j: int| 0 <= j < k ==> t.contains_key(#[trigger] id_after(start, j)),
    ensures
        !t.contains_key(first_free(t, start, k)),
    decreases 0x1_0000 - k,
{
    if k == 0x1_0000 {
        lemma_all_taken(t, start);
    } else if t.contains_key(id_after(start, k as int)) {
        lemma_first_free(t, start, k + 1);
    }
}

/// Starting the pending connections `p` in order, each under the first id
/// from `next` on that table `t` does not hold, for as long as an id is
/// free: the table after, the next id to hand out after, and how many were
/// started.
pub open spec fn start_pending(t: Map<SocketId, SocketEntry>, next: SocketId, p: Seq<PendingConn>)
    -> (Map<SocketId, SocketEntry>, SocketId, nat)
    decreases p.len(),
{
    if p.len() == 0 || table_full(t) {
        (t, next, 0)
    } else {
        let sid = first_free(t, next, 0);
        let r = start_pending(t.insert(sid, conn_entry(ConnectionSocket { sid, ..p[0].sock })),
            sid.wrapping_add(1), p.drop_first());
        (r.0, r.1, r.2 + 1)
    }
}

/// The sockets of a node by id, each id at most once.
#[derive(Debug)]
pub struct SocketTable {
    pub entries: Vec<(SocketId, SocketEntry)>,
}

impl SocketTable {
    /// The entries in table order.
    pub open spec fn seq(&self) -> Seq<(SocketId, SocketEntry)> {
        self.entries@
    }

    /// No id appears twice and every entry is consistent.
    pub open spec fn wf(&self) -> bool {
        &&& keys_unique(self.entries@)
        &&& forall|i: int| 0 <= i < self.entries@.len() ==> entry_wf(#[trigger] self.entries@[i].1)
    }

    /// The table as a map from id to entry.
    pub open spec fn view(&self) -> Map<SocketId, SocketEntry> {
        seq_to_map(self.entries@)
    }

    /// An empty table.
    pub fn new() -> (t: SocketTable)
        ensures
            t.wf(),
            t.seq().len() == 0,
            t.view() == Map::<SocketId, SocketEntry>::empty(),
    {
        let t = SocketTable { entries: Vec::new() };
        assert(t.view() =~= Map::<SocketId, SocketEntry>::empty());
        t
    }

    /// Number of sockets.
    pub fn len(&self) -> (n: usize)
        ensures
            n == self.seq().len(),
    {
        self.entries.len()
    }

    /// The position of `sid` in the table, if it is there.
    fn find(&self, sid: SocketId) -> (r: Option<usize>)
        requires
            self.wf(),
        ensures
            r is Some <==> has_key(self.seq(), sid),
            r matches Some(i) ==> i < self.seq().len() && self.seq()[i as int].0 == sid,
    {
        let mut i: usize = 0;
        while i < self.entries.len()
            invariant
                i <= self.entries@.len(),
                forall|j: int| 0 <= j < i ==> self.entries@[j].0 != sid,
            decreases self.entries@.len() - i,
        {
            if self.entries[i].0 == sid {
                return Some(i);
            }
            i = i + 1;
        }
        None
    }

    /// Whether some socket of the table uses `port` as its local port.
    pub fn port_used(&self, port: u16) -> (b: bool)
        ensures
            b == port_in_use(*self, port),
    {
        let mut i: usize = 0;
        while i < self.entries.len()
            invariant
                i <= self.entries@.len(),
                forall|j: int| 0 <= j < i ==> !uses_port(#[trigger] self.entries@[j].1, port),
            decreases self.entries@.len() - i,
        {
            let used = match &self.entries[i].1 {
                SocketEntry::Connection(c) => c.src_addr.port == port,
                SocketEntry::Listener(l) => l.port == port,
            };
            if used {
                assert(uses_port(self.seq()[i as int].1, port));
                return true;
            }
            i = i + 1;
        }
        false
    }

    /// Whether some id is not in the table.
    pub fn has_free_id(&self) -> (b: bool)
        requires
            self.wf(),
        ensures
            b == !table_full(self.view()),
    {
        let mut k: u32 = 0;
        while k < 0x1_0000
            invariant
                self.wf(),
                k <= 0x1_0000,
                forall|j: SocketId| j < k ==> #[trigger] self.view().contains_key(j),
            decreases 0x1_0000 - k,
        {
            if !self.contains_key(k as u16) {
                return true;
            }
            k = k + 1;
        }
        false
    }

    /// Whether the table has a socket with id `sid`.
    pub fn contains_key(&self, sid: SocketId) -> (b: bool)
        requires
            self.wf(),
        ensures
            b == self.view().contains_key(sid),
    {
        self.find(sid).is_some()
    }

    /// The entry with id `sid`, if any.
    pub fn get(&self, sid: SocketId) -> (r: Option<&SocketEntry>)
        requires
            self.wf(),
        ensures
            r is Some <==> self.view().contains_key(sid),
            r matches Some(e) ==> *e == self.view()[sid],
    {
        match self.find(sid) {
            Some(i) => {
                proof { lemma_map_index(self.entries@, i as int); }
                Some(&self.entries[i].1)
            },
            None => None,
        }
    }

    /// Sets the entry with id `sid`, replacing any it had.
    pub fn insert(&mut self, sid: SocketId, e: SocketEntry)
        requires
            old(self).wf(),
            entry_wf(e),
        ensures
            final(self).wf(),
            final(self).view() == old(self).view().insert(sid, e),
            final(self).seq().len() == old(self).seq().len() + (if old(self).view().contains_key(sid) { 0int } else { 1int }),
    {
        let ghost ee = e;
        match self.find(sid) {
            Some(i) => {
                let ghost s0 = self.entries@;
                self.entries.set(i, (sid, e));
                proof {
                    lemma_map_update(s0, i as int, sid, ee);
                    assert forall|j: int| 0 <= j < self.entries@.len() implies entry_wf(#[trigger] self.entries@[j].1) by {
                        if j != i {
                            assert(self.entries@[j] == s0[j]);
                        }
                    }
                }
            },
            None => {
                let ghost s0 = self.entries@;
                self.entries.push((sid, e));
                proof {
                    lemma_map_push(s0, sid, ee);
                    assert forall|j: int| 0 <= j < self.entries@.len() implies entry_wf(#[trigger] self.entries@[j].1) by {
                        if j < s0.len() {
                            assert(self.entries@[j] == s0[j]);
                        }
                    }
                }
            },
        }
    }

    /// Removes the entry with id `sid`, returning it.
    pub fn remove(&mut self, sid: SocketId) -> (r: Option<SocketEntry>)
        requires
            old(self).wf(),
        ensures
            final(self).wf(),
            final(self).view() == old(self).view().remove(sid),
            r is Some <==> old(self).view().contains_key(sid),
            r matches Some(e) ==> e == old(self).view()[sid] && entry_wf(e),
    {
        match self.find(sid) {
            Some(i) => {
                let ghost s0 = self.entries@;
                proof { lemma_map_index(s0, i as int); }
                let (_, e) = self.entries.remove(i);
                proof {
                    lemma_map_remove(s0, i as int);
                    assert(entry_wf(s0[i as int].1));
                    assert forall|j: int| 0 <= j < self.entries@.len() implies entry_wf(#[trigger] self.entries@[j].1) by {
                        if j < i {
                            assert(self.entries@[j] == s0[j]);
                        } else {
                            assert(self.entries@[j] == s0[j + 1]);
                        }
                    }
                }
                Some(e)
            },
            None => {
                assert(self.view() =~= self.view().remove(sid));
                None
            },
        }
    }
}

/// A connection that arrived at a listener while it was not accepting.
#[derive(Debug)]
pub struct PendingConn {
    pub sock: ConnectionSocket,
}

impl PendingConn {
    pub fn new(sock: ConnectionSocket) -> (p: PendingConn)
        ensures
            p.sock == sock,
    {
        PendingConn { sock }
    }

    /// Starts the connection: it gets id `sid` and its entry in the table.
    pub fn start(self, socket_table: &mut SocketTable, sid: SocketId)
        requires
            old(socket_table).wf(),
            self.sock.wf(),
        ensures
            final(socket_table).wf(),
            final(socket_table).view() == old(socket_table).view().insert(sid,
                conn_entry(ConnectionSocket { sid, ..self.sock })),
    {
        let mut sock = self.sock;
        sock.set_sid(sid);
        let ent = ConnectionEntry { src_addr: sock.src_addr, dst_addr: sock.dst_addr, sock };
        socket_table.insert(sid, SocketEntry::Connection(ent));
    }
}

/// A listener's state: whether it accepts connections now, the connections
/// that arrived while it did not, and whether an `accept1` waits for the
/// next connection.
#[derive(Debug)]
pub struct ListenerEntry {
    pub accepting: bool,
    pub pending_connections: Vec<PendingConn>,
    pub awaiting_accept: bool,
}

impl ListenerEntry {
    /// Every pending socket is consistent.
    pub open spec fn wf(&self) -> bool {
        forall|i: int| 0 <= i < self.pending_connections@.len() ==> (#[trigger] self.pending_connections@[i]).sock.wf()
    }

    /// A listener that does not accept yet, with nothing pending.
    pub fn new() -> (e: ListenerEntry)
        ensures
            e.wf(),
            !e.accepting,
            e.pending_connections@.len() == 0,
            !e.awaiting_accept,
    {
        ListenerEntry { accepting: false, pending_connections: Vec::new(), awaiting_accept: false }
    }
}

/// The socket table, the listeners by port, and the id assigner.
#[derive(Debug)]
pub struct SocketManager {
    pub socket_table: SocketTable,
    pub listener_table: HashMap<u16, ListenerEntry>,
    pub sid_assigner: SidAssigner,
}

/// The connection socket made for an incoming SYN that arrived in an IP
/// packet from `ip_src` to `ip_dst`, from port `src_port` to port `dst_port`.
pub open spec fn incoming_ends(ip_src: u32, ip_dst: u32, src_port: u16, dst_port: u16) -> (TcpAddress, TcpAddress) {
    (TcpAddress { ip: ip_dst, port: dst_port }, TcpAddress { ip: ip_src, port: src_port })
}

/// What `listen` does: manager `m0` becomes `m1` and the listener gets id
/// `sid`, the first id from the assigner's next one on that the table does
/// not hold.
pub open spec fn listen_effect(m0: SocketManager, m1: SocketManager, port: u16, sid: SocketId) -> bool {
    &&& sid == first_free(m0.socket_table.view(), m0.sid_assigner.next_sid, 0)
    &&& !m0.socket_table.view().contains_key(sid)
    &&& m1.socket_table.view() =~= m0.socket_table.view().insert(sid,
        SocketEntry::Listener(ListenEntry { port, state: TcpState::Listening }))
    &&& m1.listener_table@ =~= m0.listener_table@.insert(port, m1.listener_table@[port])
    &&& !m1.listener_table@[port].accepting
    &&& m1.listener_table@[port].pending_connections@.len() == 0
    &&& !m1.listener_table@[port].awaiting_accept
    &&& m1.sid_assigner.next_sid == sid.wrapping_add(1)
}

/// What `accept` does on `port`: manager `m0` becomes `m1`. The pending
/// connections are started in order, each under its own id (see
/// `start_pending`); any left when every id is taken stay pending.
pub open spec fn accept_effect(m0: SocketManager, m1: SocketManager, port: u16) -> bool {
    &&& !m0.listener_table@.contains_key(port) ==> {
        &&& m1.socket_table.view() =~= m0.socket_table.view()
        &&& m1.listener_table@ =~= m0.listener_table@
        &&& m1.sid_assigner.next_sid == m0.sid_assigner.next_sid
    }
    &&& m0.listener_table@.contains_key(port) ==> {
        let l0 = m0.listener_table@[port];
        let p = l0.pending_connections@;
        let st = start_pending(m0.socket_table.view(), m0.sid_assigner.next_sid, p);
        &&& m1.listener_table@ =~= m0.listener_table@.insert(port, m1.listener_table@[port])
        &&& m1.listener_table@[port].accepting
        &&& m1.listener_table@[port].pending_connections@ == p.skip(st.2 as int)
        &&& m1.listener_table@[port].awaiting_accept == l0.awaiting_accept
        &&& m1.sid_assigner.next_sid == st.1
        &&& m1.socket_table.view() == st.0
    }
}

/// What `accept1` does on `port`: manager `m0` becomes `m1` and the result
/// is `r`.
pub open spec fn accept1_effect(m0: SocketManager, m1: SocketManager, port: u16, r: Option<Option<SocketId>>) -> bool {
    &&& r is None <==> !m0.listener_table@.contains_key(port)
    &&& r is None ==> {
        &&& m1.socket_table.view() =~= m0.socket_table.view()
        &&& m1.listener_table@ =~= m0.listener_table@
        &&& m1.sid_assigner.next_sid == m0.sid_assigner.next_sid
    }
    &&& r is Some ==> {
        let l0 = m0.listener_table@[port];
        let p = l0.pending_connections@;
        let full = table_full(m0.socket_table.view());
        let sid = first_free(m0.socket_table.view(), m0.sid_assigner.next_sid, 0);
        let l1 = m1.listener_table@[port];
        &&& m1.listener_table@ =~= m0.listener_table@.insert(port, l1)
        &&& p.len() > 0 && full ==> {
            &&& r == Some(None::<SocketId>)
            &&& m1.sid_assigner.next_sid == m0.sid_assigner.next_sid
            &&& m1.socket_table.view() =~= m0.socket_table.view()
            &&& l1 == l0
        }
        &&& p.len() > 0 && !full ==> {
            &&& r == Some(Some(sid))
            &&& !m0.socket_table.view().contains_key(sid)
            &&& m1.sid_assigner.next_sid == sid.wrapping_add(1)
            &&& m1.socket_table.view() =~= m0.socket_table.view().insert(sid,
                conn_entry(ConnectionSocket { sid, ..p[0].sock }))
            &&& l1.pending_connections@ =~= p.skip(1)
            &&& l1.accepting == l0.accepting
            &&& l1.awaiting_accept == l0.awaiting_accept
        }
        &&& p.len() == 0 ==> {
            &&& r == Some(None::<SocketId>)
            &&& m1.sid_assigner.next_sid == m0.sid_assigner.next_sid
            &&& m1.socket_table.view() =~= m0.socket_table.view()
            &&& l1.pending_connections@.len() == 0
            &&& l1.accepting
            &&& l1.awaiting_accept
        }
    }
}

/// What `listener_recv` does with a segment with header `h` that came in an
/// IP packet from `ip_src` to `ip_dst`: manager `m0` becomes `m1`, the
/// result is `r`, and the events `ev0` become `ev1`.
pub open spec fn listener_recv_effect(m0: SocketManager, m1: SocketManager, port: u16, ip_src: u32, ip_dst: u32,
    h: TcpHeaderView, r: Option<SocketId>, ev0: Seq<SocketEventView>, ev1: Seq<SocketEventView>) -> bool {
    let l0 = m0.listener_table@[port];
    let l1 = m1.listener_table@[port];
    let (src, dst) = incoming_ends(ip_src, ip_dst, h.source_port, h.destination_port);
    let next = m0.sid_assigner.next_sid;
    let starts = l0.accepting && !table_full(m0.socket_table.view());
    let sid = first_free(m0.socket_table.view(), next, 0);
    &&& spec_header_flags(h) != SYN ==> {
        &&& r is None
        &&& m1.socket_table.view() =~= m0.socket_table.view()
        &&& m1.listener_table@ =~= m0.listener_table@
        &&& m1.sid_assigner.next_sid == next
        &&& ev1 =~= ev0
    }
    &&& spec_header_flags(h) == SYN ==> {
        &&& m1.listener_table@ =~= m0.listener_table@.insert(port, l1)
        &&& !starts ==> {
            &&& r is None
            &&& m1.socket_table.view() =~= m0.socket_table.view()
            &&& m1.sid_assigner.next_sid == next
            &&& l1.pending_connections@.len() == l0.pending_connections@.len() + 1
            &&& l1.pending_connections@.drop_last() =~= l0.pending_connections@
            &&& l1.pending_connections@.last().sock.state == TcpState::Initialized
            &&& l1.pending_connections@.last().sock.src_addr == src
            &&& l1.pending_connections@.last().sock.dst_addr == dst
            &&& l1.accepting == l0.accepting && l1.awaiting_accept == l0.awaiting_accept
            &&& ev1 =~= ev0
        }
        &&& starts ==> {
            &&& !m0.socket_table.view().contains_key(sid)
            &&& m1.sid_assigner.next_sid == sid.wrapping_add(1)
            &&& m1.socket_table.view().dom() =~= m0.socket_table.view().dom().insert(sid)
            &&& forall|k: SocketId| k != sid && #[trigger] m0.socket_table.view().contains_key(k)
                ==> m1.socket_table.view()[k] == m0.socket_table.view()[k]
            &&& m1.socket_table.view()[sid] matches SocketEntry::Connection(c)
                && c.sock.sid == sid && c.sock.src_addr == src && c.sock.dst_addr == dst
                && (c.sock.state == TcpState::SynRecvd || c.sock.state == TcpState::Initialized)
            &&& r == (if l0.awaiting_accept { Some(sid) } else { None })
            &&& l1.accepting == !l0.awaiting_accept
            &&& !l1.awaiting_accept
            &&& l1.pending_connections@ =~= l0.pending_connections@
        }
    }
}

impl SocketManager {
    /// The table and every listener are consistent.
    pub open spec fn wf(&self) -> bool {
        &&& self.socket_table.wf()
        &&& forall|p: u16| #[trigger] self.listener_table@.contains_key(p) ==> self.listener_table@[p].wf()
    }

    /// No sockets and no listeners.
    pub fn new() -> (m: SocketManager)
        ensures
            m.wf(),
            m.socket_table.view() == Map::<SocketId, SocketEntry>::empty(),
            m.listener_table@ == Map::<u16, ListenerEntry>::empty(),
            m.sid_assigner.next_sid == 0,
    {
        SocketManager { socket_table: SocketTable::new(), listener_table: HashMap::new(), sid_assigner: SidAssigner::new() }
    }

    /// Hands out the first id from the assigner's next one on that the
    /// table does not hold, and moves the assigner past it; `None`, with
    /// nothing changed, when the table holds every id.
    pub fn next_free_sid(&mut self) -> (r: Option<SocketId>)
        requires
            old(self).socket_table.wf(),
        ensures
            final(self).socket_table == old(self).socket_table,
            final(self).listener_table == old(self).listener_table,
            r is None <==> table_full(old(self).socket_table.view()),
            r is None ==> final(self).sid_assigner.next_sid == old(self).sid_assigner.next_sid,
            r matches Some(sid) ==> {
                &&& sid == first_free(old(self).socket_table.view(), old(self).sid_assigner.next_sid, 0)
                &&& !old(self).socket_table.view().contains_key(sid)
                &&& final(self).sid_assigner.next_sid == sid.wrapping_add(1)
            },
    {
        let start = self.sid_assigner.next_sid;
        let ghost t = self.socket_table.view();
        let mut k: u32 = 0;
        while k < 0x1_0000
            invariant
                k <= 0x1_0000,
                self.sid_assigner.next_sid == start,
                start == old(self).sid_assigner.next_sid,
                self.socket_table == old(self).socket_table,
                self.listener_table == old(self).listener_table,
                t == self.socket_table.view(),
                self.socket_table.wf(),
                forall|j: int| 0 <= j < k ==> t.contains_key(#[trigger] id_after(start, j)),
                first_free(t, start, 0) == first_free(t, start, k as nat),
            decreases 0x1_0000 - k,
        {
            let id: u16 = ((start as u32 + k) % 0x1_0000) as u16;
            assert(id == id_after(start, k as int));
            if !self.socket_table.contains_key(id) {
                self.sid_assigner.next_sid = id.wrapping_add(1);
                return Some(id);
            }
            k = k + 1;
        }
        proof { lemma_all_taken(t, start); }
        None
    }

    /// Opens a listener on `port` (not accepting yet) and gives it an entry
    /// in the socket table under a fresh id (see `next_free_sid`); the table
    /// must not hold every id already.
    pub fn listen(&mut self, port: u16) -> (sid: SocketId)
        requires
            old(self).wf(),
            !table_full(old(self).socket_table.view()),
        ensures
            final(self).wf(),
            listen_effect(*old(self), *final(self), port, sid),
    {
        let sid = match self.next_free_sid() {
            Some(s) => s,
            None => {
                assert(false);
                0
            },
        };
        self.listener_table.insert(port, ListenerEntry::new());
        self.socket_table.insert(sid, SocketEntry::Listener(ListenEntry::new(port)));
        proof {
            assert forall|p: u16| #[trigger] self.listener_table@.contains_key(p) implies self.listener_table@[p].wf() by {
                if p != port {
                    assert(old(self).listener_table@.contains_key(p));
                }
            }
        }
        sid
    }

    /// Makes the listener on `port` accept connections, and starts the
    /// pending ones in order, each under its own fresh id (see
    /// `start_pending`); should every id be taken, the rest stay pending.
    /// Without a listener on `port` nothing happens.
    pub fn accept(&mut self, port: u16)
        requires
            old(self).wf(),
        ensures
            final(self).wf(),
            accept_effect(*old(self), *final(self), port),
    {
        let removed = self.listener_table.remove(&port);
        match removed {
            Some(mut listener) => {
                proof { assert(old(self).listener_table@.contains_key(port)); }
                listener.accepting = true;
                let mut pending: Vec<PendingConn> = Vec::new();
                std::mem::swap(&mut pending, &mut listener.pending_connections);
                let ghost p0 = pending@;
                let ghost st = start_pending(old(self).socket_table.view(), old(self).sid_assigner.next_sid, p0);
                let ghost l0 = old(self).listener_table@[port];
                let total = pending.len();
                let mut k: usize = 0;
                let mut full = false;
                while !full && pending.len() > 0
                    invariant
                        self.socket_table.wf(),
                        self.listener_table@ == old(self).listener_table@.remove(port),
                        listener.accepting,
                        listener.pending_connections@.len() == 0,
                        listener.awaiting_accept == l0.awaiting_accept,
                        pending@ == p0.skip(k as int),
                        k <= p0.len(),
                        p0.len() == total,
                        forall|i: int| 0 <= i < p0.len() ==> (#[trigger] p0[i]).sock.wf(),
                        full ==> table_full(self.socket_table.view()),
                        ({
                            let r = start_pending(self.socket_table.view(), self.sid_assigner.next_sid, pending@);
                            st == (r.0, r.1, (r.2 + k) as nat)
                        }),
                    decreases pending@.len(), if full { 0int } else { 1int },
                {
                    assert(pending@.len() == p0.len() - k);
                    match self.next_free_sid() {
                        Some(sid) => {
                            let pd = pending.remove(0);
                            proof {
                                assert(pd == p0[k as int]);
                                assert(pending@ =~= p0.skip(k as int).drop_first());
                            }
                            pd.start(&mut self.socket_table, sid);
                            k = k + 1;
                            proof {
                                assert(pending@ =~= p0.skip(k as int));
                            }
                        },
                        None => {
                            full = true;
                        },
                    }
                }
                proof {
                    assert(start_pending(self.socket_table.view(), self.sid_assigner.next_sid, pending@).2 == 0);
                }
                listener.pending_connections = pending;
                self.listener_table.insert(port, listener);
                proof {
                    assert forall|p: u16| #[trigger] self.listener_table@.contains_key(p) implies self.listener_table@[p].wf() by {
                        if p != port {
                            assert(old(self).listener_table@.contains_key(p));
                        } else {
                            assert forall|i: int| 0 <= i < self.listener_table@[p].pending_connections@.len()
                                implies (#[trigger] self.listener_table@[p].pending_connections@[i]).sock.wf() by {
                                assert(self.listener_table@[p].pending_connections@[i] == p0[i + k]);
                            }
                        }
                    }
                }
            },
            None => {
                assert(self.listener_table@ =~= old(self).listener_table@);
            },
        }
    }

    /// Accepts one connection on `port`: the oldest pending connection is
    /// started under a fresh id (see `next_free_sid`), which is returned
    /// (`Some(Some(sid))`); with nothing pending the listener starts
    /// accepting and waits for the next connection (`Some(None)`); should
    /// every id be taken, nothing changes (`Some(None)`). Without a listener
    /// on `port`: `None`.
    pub fn accept1(&mut self, port: u16) -> (r: Option<Option<SocketId>>)
        requires
            old(self).wf(),
        ensures
            final(self).wf(),
            accept1_effect(*old(self), *final(self), port, r),
    {
        let removed = self.listener_table.remove(&port);
        match removed {
            Some(mut listener) => {
                let free = if listener.pending_connections.len() > 0 { self.next_free_sid() } else { None };
                let res = if listener.pending_connections.len() > 0 {
                    match free {
                        Some(sid) => {
                            let ghost p0 = listener.pending_connections@;
                            let pd = listener.pending_connections.remove(0);
                            proof {
                                assert(pd == p0[0]);
                                assert(listener.pending_connections@ =~= p0.skip(1));
                            }
                            pd.start(&mut self.socket_table, sid);
                            Some(sid)
                        },
                        None => None,
                    }
                } else {
                    listener.accepting = true;
                    listener.awaiting_accept = true;
                    None
                };
                proof {
                    assert forall|i: int| 0 <= i < listener.pending_connections@.len()
                        implies (#[trigger] listener.pending_connections@[i]).sock.wf() by {
                        if res is Some {
                            assert(listener.pending_connections@[i] == old(self).listener_table@[port].pending_connections@[i + 1]);
                        } else {
                            assert(listener.pending_connections@[i] == old(self).listener_table@[port].pending_connections@[i]);
                        }
                    }
                }
                self.listener_table.insert(port, listener);
                proof {
                    assert forall|p: u16| #[trigger] self.listener_table@.contains_key(p) implies self.listener_table@[p].wf() by {
                        if p != port {
                            assert(old(self).listener_table@.contains_key(p));
                        }
                    }
                }
                Some(res)
            },
            None => {
                assert(self.listener_table@ =~= old(self).listener_table@);
                None
            },
        }
    }

    /// A SYN for the listener on `port`, in an IP packet with header
    /// `ip_head`: a connection socket is made for it (state INITIALIZED, its
    /// ends taken from the packet). An accepting listener starts it at once
    /// under a fresh id and lets it answer the SYN, and when an `accept1`
    /// waits, the listener stops accepting and the id is returned for that
    /// caller (see `next_free_sid` for the id). A listener that does not
    /// accept, or finds every id taken, keeps the connection pending.
    /// Segments other than a bare SYN are dropped.
    pub fn listener_recv(&mut self, port: u16, ip_head: &IpHeader, tcp_pack: TcpPacket, now: u64,
        out: &mut Vec<SocketEvent>) -> (r: Option<SocketId>)
        requires
            old(self).wf(),
            old(self).listener_table@.contains_key(port),
            tcp_pack.header@.wf(),
            tcp_pack.payload@.len() <= 65535 - tcp_pack.header@.header_len(),
        ensures
            final(self).wf(),
            listener_recv_effect(*old(self), *final(self), port, ip_head.source, ip_head.destination, tcp_pack.header@, r,
                events(old(out)@), events(final(out)@)),
    {
        if !has_only_flags(&tcp_pack.header, SYN) {
            return None;
        }
        let src_addr = TcpAddress::new(ip_head.destination, tcp_pack.header.destination_port);
        let dst_addr = TcpAddress::new(ip_head.source, tcp_pack.header.source_port);
        let conn_sock = ConnectionSocket::new(TcpState::Initialized, src_addr, dst_addr);
        let pending_conn = PendingConn::new(conn_sock);
        let removed = self.listener_table.remove(&port);
        let mut listener = match removed {
            Some(l) => l,
            None => {
                return None;
            },
        };
        proof { assert(listener == old(self).listener_table@[port]); }
        let free = if listener.accepting { self.next_free_sid() } else { None };
        if let Some(sid) = free {
            pending_conn.start(&mut self.socket_table, sid);
            let ghost t1 = self.socket_table.view();
            let taken = self.socket_table.remove(sid);
            match taken {
                Some(SocketEntry::Connection(mut ent)) => {
                    assert((16u8 & 8u8) != 8u8) by (bit_vector);
                    ent.sock.handle_packet(tcp_pack, ip_head, now, out);
                    let ent2 = ConnectionEntry { src_addr: ent.sock.src_addr, dst_addr: ent.sock.dst_addr, sock: ent.sock };
                    self.socket_table.insert(sid, SocketEntry::Connection(ent2));
                },
                _ => {
                    assert(false);
                },
            }
            let r = if listener.awaiting_accept {
                listener.accepting = false;
                listener.awaiting_accept = false;
                Some(sid)
            } else {
                None
            };
            self.listener_table.insert(port, listener);
            proof {
                assert forall|p: u16| #[trigger] self.listener_table@.contains_key(p) implies self.listener_table@[p].wf() by {
                    if p != port {
                        assert(old(self).listener_table@.contains_key(p));
                    }
                }
                assert(self.socket_table.view().dom() =~= old(self).socket_table.view().dom().insert(sid));
            }
            r
        } else {
            let ghost p0 = listener.pending_connections@;
            listener.pending_connections.push(pending_conn);
            proof { assert(listener.pending_connections@.drop_last() =~= p0); }
            self.listener_table.insert(port, listener);
            proof {
                assert forall|p: u16| #[trigger] self.listener_table@.contains_key(p) implies self.listener_table@[p].wf() by {
                    if p != port {
                        assert(old(self).listener_table@.contains_key(p));
                    } else {
                        assert forall|i: int| 0 <= i < self.listener_table@[p].pending_connections@.len()
                            implies (#[trigger] self.listener_table@[p].pending_connections@[i]).sock.wf() by {
                            if i < p0.len() {
                                assert(self.listener_table@[p].pending_connections@[i] == p0[i]);
                            }
                        }
                    }
                }
            }
            None
        }
    }

    /// Closes a listener: its entry goes from the listener table. Its entry
    /// in the socket table is left to the caller, who knows its id (see
    /// `HostBackend::close`); no other socket is touched.
    pub fn listener_close(&mut self, listen_ent: &ListenEntry)
        requires
            old(self).wf(),
        ensures
            final(self).wf(),
            final(self).listener_table@ == old(self).listener_table@.remove(listen_ent.port),
            final(self).socket_table == old(self).socket_table,
            final(self).sid_assigner == old(self).sid_assigner,
    {
        let listen_port = listen_ent.port;
        let _ = self.listener_table.remove(&listen_port);
        proof {
            assert forall|p: u16| #[trigger] self.listener_table@.contains_key(p) implies self.listener_table@[p].wf() by {
                assert(old(self).listener_table@.contains_key(p));
            }
        }
    }

    /// An IP packet for the listener on `port`: a packet of another protocol
    /// is dropped; otherwise the segment it carries goes to
    /// `listener_recv`.
    pub fn handle_incoming(&mut self, pack: Packet, port: u16, now: u64, out: &mut Vec<SocketEvent>) -> (r: Option<SocketId>)
        requires
            old(self).wf(),
            old(self).listener_table@.contains_key(port),
            spec_parse_tcp(pack.data@) is Some,
            pack.data@.len() <= 65535,
        ensures
            final(self).wf(),
            pack.header.protocol != PROTOCOL_TCP ==> {
                &&& r is None
                &&& final(self).socket_table.view() == old(self).socket_table.view()
                &&& final(self).listener_table@ == old(self).listener_table@
                &&& final(self).sid_assigner == old(self).sid_assigner
                &&& events(final(out)@) == events(old(out)@)
            },
            pack.header.protocol == PROTOCOL_TCP ==> listener_recv_effect(*old(self), *final(self), port,
                pack.header.source, pack.header.destination, (spec_parse_tcp(pack.data@)->0).0, r,
                events(old(out)@), events(final(out)@)),
    {
        if pack.header.protocol != PROTOCOL_TCP {
            return None;
        }
        match tcp_from_payload(pack.data.as_slice()) {
            Some(tcp_pack) => {
                self.listener_recv(port, &pack.header, tcp_pack, now, out)
            },
            None => None,
        }
    }
}

} // verus!
