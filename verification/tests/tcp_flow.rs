use vnet::net::Ipv4Net;
use vnet::routing::{ForwardingTable, Route, RouteType, ForwardingOption};
use vnet::interfaces::{InterfaceTable, InterfaceRep};
use vnet::daemon::HostIpDaemon;
use vnet::backend::HostBackend;
use vnet::ip_handler::{IpHandler, TcpDelivery};
use vnet::conn_socket::{SocketEvent, SocketError, SendStep, SocketId};
use vnet::sockets::{SocketEntry, SidAssigner, SocketManager};
use vnet::tcp::TcpState;
use vnet::ipv4::Packet;

const A_IP: u32 = 0x0a00_0001;
const B_IP: u32 = 0x0a00_0002;

fn host(ip: u32, peer: u32) -> HostBackend {
    let mut reps = InterfaceTable::new();
    let v_net = Ipv4Net { addr: ip, prefix_len: 24 };
    reps.insert(InterfaceRep::new("if0".to_string(), v_net, ip, vec![(peer, 5000)]));
    let mut t = ForwardingTable::new();
    t.insert(Ipv4Net { addr: ip & 0xffff_ff00, prefix_len: 24 },
        Route::new(RouteType::Local, Some(0), ForwardingOption::Inter("if0".to_string()), 0));
    t.insert(Ipv4Net { addr: ip, prefix_len: 32 }, Route::new(RouteType::ToSelf, None, ForwardingOption::ToSelf, 0));
    HostBackend::new(HostIpDaemon::new(reps, t))
}

fn state_of(h: &HostBackend, sid: SocketId) -> Option<TcpState> {
    match h.socket_table().get(sid) {
        Some(SocketEntry::Connection(c)) => Some(c.sock.state),
        Some(SocketEntry::Listener(l)) => Some(l.state),
        None => None,
    }
}

/// Builds the packets of the `Send` events.
fn packets(from: &HostBackend, events: Vec<SocketEvent>) -> Vec<Packet> {
    let mut v = Vec::new();
    for e in events {
        if let SocketEvent::Send(pb) = e {
            v.push(from.ip_daemon.build(pb));
        }
    }
    v
}

fn deliver(to: &mut HostBackend, ps: Vec<Packet>, now: u64) -> (Vec<TcpDelivery>, Vec<SocketEvent>) {
    let handler = IpHandler::new();
    let mut out = Vec::new();
    let mut ds = Vec::new();
    for p in ps {
        ds.push(handler.handle_tcp_packet(&mut to.socket_manager, p, now, &mut out));
    }
    (ds, out)
}

fn send_all(h: &mut HostBackend, sid: SocketId, now: u64) -> Vec<SocketEvent> {
    let mut out = Vec::new();
    let sock = match h.socket_manager.socket_table.entries.iter_mut().find(|(s, _)| *s == sid) {
        Some((_, SocketEntry::Connection(c))) => &mut c.sock,
        _ => panic!("no connection"),
    };
    loop {
        match sock.send_next(now, &mut out) {
            SendStep::Sent => {},
            _ => break,
        }
    }
    out
}

/// Opens a connection from A to B's port 9999 and runs the handshake;
/// returns the two hosts and the connection ids (A's, B's).
fn connected() -> (HostBackend, HostBackend, SocketId, SocketId) {
    let mut a = host(A_IP, B_IP);
    let mut b = host(B_IP, A_IP);
    let lsid = b.listen(9999);
    b.accept(9999);
    assert_eq!(state_of(&b, lsid), Some(TcpState::Listening));
    assert!(a.has_free_port());
    let mut out = Vec::new();
    let sid = a.connect(B_IP, 9999, 1, &mut out);
    assert_eq!(state_of(&a, sid), Some(TcpState::SynSent));
    let syn = packets(&a, out);
    assert_eq!(syn.len(), 1);
    let (d, out_b) = deliver(&mut b, syn, 2);
    let bsid = match d[0] {
        TcpDelivery::Listener(Some(s)) => s,
        TcpDelivery::Listener(None) => 1,
        ref other => panic!("{other:?}"),
    };
    assert_eq!(state_of(&b, bsid), Some(TcpState::SynRecvd));
    let synack = packets(&b, out_b);
    assert_eq!(synack.len(), 1);
    let (d2, out_a) = deliver(&mut a, synack, 3);
    assert!(matches!(d2[0], TcpDelivery::Connection(s) if s == sid));
    assert_eq!(state_of(&a, sid), Some(TcpState::Established));
    let ack = packets(&a, out_a);
    assert_eq!(ack.len(), 1);
    let (d3, _) = deliver(&mut b, ack, 4);
    assert!(matches!(d3[0], TcpDelivery::Connection(s) if s == bsid));
    assert_eq!(state_of(&b, bsid), Some(TcpState::Established));
    (a, b, sid, bsid)
}

#[test]
fn three_way_handshake_establishes_both_sides() {
    let (a, _b, sid, bsid) = connected();
    assert_eq!(sid, 0);
    assert_eq!(bsid, 1);
    // the SYN+ACK acknowledged our SYN, which left the retransmission queue
    match a.socket_table().get(sid) {
        Some(SocketEntry::Connection(c)) => assert_eq!(c.sock.write_buf.retr_queue.queue.len(), 0),
        _ => panic!("no connection"),
    }
}

#[test]
fn data_sent_is_received_in_order() {
    let (mut a, mut b, sid, bsid) = connected();
    let rest = a.tcp_send(sid, b"hello world".to_vec()).unwrap();
    assert!(rest.is_empty());
    let ev = send_all(&mut a, sid, 10);
    let ps = packets(&a, ev);
    assert_eq!(ps.len(), 1);
    let (_, out_b) = deliver(&mut b, ps, 11);
    assert!(out_b.iter().any(|e| matches!(e, SocketEvent::DataReady)));
    assert_eq!(b.tcp_recieve(bsid, 5).unwrap(), b"hello".to_vec());
    assert_eq!(b.tcp_recieve(bsid, 100).unwrap(), b" world".to_vec());
    assert_eq!(b.tcp_recieve(bsid, 100), Err(SocketError::ReceiveNotAllowed));
}

#[test]
fn close_runs_the_teardown() {
    let (mut a, mut b, sid, bsid) = connected();
    let mut out = Vec::new();
    assert_eq!(a.close(sid, 20, &mut out), Ok(true));
    assert_eq!(state_of(&a, sid), Some(TcpState::FinWait1));
    assert_eq!(a.tcp_send(sid, vec![1]), Err(SocketError::SendNotAllowed));
    let (_, out_b) = deliver(&mut b, packets(&a, out), 21);
    assert_eq!(state_of(&b, bsid), Some(TcpState::CloseWait));
    // The bare acknowledgement of our FIN would take the send buffer past
    // the bytes it holds; the socket refuses it and stays in FIN-WAIT-1.
    let (d, _) = deliver(&mut a, packets(&b, out_b), 22);
    assert!(matches!(d[0], TcpDelivery::Refused(s) if s == sid));
    assert_eq!(state_of(&a, sid), Some(TcpState::FinWait1));
    let mut out2 = Vec::new();
    assert_eq!(b.close(bsid, 23, &mut out2), Ok(true));
    assert_eq!(state_of(&b, bsid), Some(TcpState::LastAck));
    let (_, out_a) = deliver(&mut a, packets(&b, out2), 24);
    assert_eq!(state_of(&a, sid), Some(TcpState::TimeWait));
    let (_, out_b2) = deliver(&mut b, packets(&a, out_a), 25);
    assert_eq!(state_of(&b, bsid), Some(TcpState::Closed));
    assert!(out_b2.iter().any(|e| matches!(e, SocketEvent::Closed(s) if *s == bsid)));
    b.check_closed(bsid);
    assert!(b.socket_table().get(bsid).is_none());
}

#[test]
fn socket_errors() {
    let mut a = host(A_IP, B_IP);
    assert_eq!(a.tcp_send(7, vec![1]), Err(SocketError::NoSuchSocket));
    assert_eq!(a.tcp_recieve(7, 1), Err(SocketError::NoSuchSocket));
    let mut out = Vec::new();
    assert_eq!(a.close(7, 0, &mut out), Err(SocketError::NoSuchSocket));
    let l = a.listen(80);
    assert_eq!(a.tcp_send(l, vec![1]), Err(SocketError::NoSuchSocket));
    assert_eq!(a.close(l, 0, &mut out), Ok(true));
    assert!(a.socket_table().get(l).is_none());
}

#[test]
fn segments_for_no_socket_are_dropped() {
    let mut a = host(A_IP, B_IP);
    let mut b = host(B_IP, A_IP);
    let mut out = Vec::new();
    let _ = a.connect(B_IP, 4444, 1, &mut out);
    let (d, out_b) = deliver(&mut b, packets(&a, out), 2);
    assert!(matches!(d[0], TcpDelivery::NoSocket));
    assert!(out_b.is_empty());
}

#[test]
fn sid_assigner_counts_and_wraps() {
    let mut s = SidAssigner::new();
    assert_eq!(s.assign_sid(), 0);
    assert_eq!(s.assign_sid(), 1);
    s.next_sid = u16::MAX;
    assert_eq!(s.assign_sid(), u16::MAX);
    assert_eq!(s.assign_sid(), 0);
}

#[test]
fn find_conn_socket_by_far_end() {
    let (a, _b, sid, _) = connected();
    assert_eq!(HostBackend::find_conn_socket(a.socket_table(), B_IP, 9999), Some(sid));
    assert_eq!(HostBackend::find_conn_socket(a.socket_table(), B_IP, 1), None);
}

#[test]
fn accept1_takes_a_pending_connection() {
    let mut a = host(A_IP, B_IP);
    let mut b = host(B_IP, A_IP);
    b.listen(7000);
    let mut out = Vec::new();
    let _ = a.connect(B_IP, 7000, 1, &mut out);
    let (d, out_b) = deliver(&mut b, packets(&a, out), 2);
    assert!(matches!(d[0], TcpDelivery::Listener(None)));
    assert!(out_b.is_empty());
    match b.accept1(7000) {
        Some(Some(_)) => {},
        other => panic!("{other:?}"),
    }
    assert_eq!(b.accept1(7000), Some(None));
    assert_eq!(b.accept1(7001), None);
    let m = SocketManager::new();
    assert_eq!(m.sid_assigner.next_sid, 0);
}

fn conn_of(h: &HostBackend, sid: SocketId) -> &vnet::conn_socket::ConnectionSocket {
    match h.socket_table().get(sid) {
        Some(SocketEntry::Connection(c)) => &c.sock,
        _ => panic!("no connection"),
    }
}

#[test]
fn plain_ack_drops_acknowledged_bytes_and_segments() {
    let (mut a, mut b, sid, _bsid) = connected();
    assert!(a.tcp_send(sid, b"hello world".to_vec()).unwrap().is_empty());
    let ev = send_all(&mut a, sid, 10);
    let ps = packets(&a, ev);
    assert_eq!(ps.len(), 1);
    {
        let s = conn_of(&a, sid);
        assert_eq!(s.write_buf.retr_queue.queue.len(), 1);
        assert_eq!(s.write_buf.nxt, 11);
        assert_eq!(s.write_buf.num_acked, 0);
    }
    let (_, out_b) = deliver(&mut b, ps, 11);
    let acks = packets(&b, out_b);
    assert_eq!(acks.len(), 1);
    let again = Packet { header: acks[0].header.duplicate(), data: acks[0].data.clone() };
    let (_, out_a) = deliver(&mut a, acks, 12);
    assert!(out_a.is_empty());
    let s = conn_of(&a, sid);
    assert_eq!(s.state, TcpState::Established);
    assert_eq!(s.write_buf.retr_queue.queue.len(), 0);
    assert_eq!(s.write_buf.nxt, 0);
    assert_eq!(s.write_buf.num_acked, 11);
    assert_eq!(s.last_ack_num, s.seq_num);
    assert_eq!(s.dup_ack_count, 0);
    // the same acknowledgement again counts a duplicate and changes nothing else
    let (_, out_a) = deliver(&mut a, vec![again], 13);
    assert!(out_a.is_empty());
    let s = conn_of(&a, sid);
    assert_eq!(s.dup_ack_count, 1);
    assert_eq!(s.write_buf.num_acked, 11);
}
