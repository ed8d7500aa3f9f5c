use std::collections::HashMap;

use vnet::backend::{ls_rows, HostBackend, LsRow};
use vnet::conn_ops::ConnTimers;
use vnet::conn_socket::ConnectionSocket;
use vnet::retransmission::MAX_RTO;
use vnet::tcp::{SYN, ACK};
use vnet::conn_socket::{SendStep, SocketError, SocketEvent};
use vnet::ip_handler::{IpHandler, TcpDelivery};
use vnet::ipv4::Packet;
use vnet::daemon::{HostIpDaemon, RouterIpDaemon};
use vnet::interfaces::{InterfaceRep, InterfaceTable};
use vnet::ipv4::{packet_valid, PROTOCOL_RIP};
use vnet::net::Ipv4Net;
use vnet::repl::{ArgError, HostRepl};
use vnet::rip::{deserialize_rip, RipMsg, RipRoute};
use vnet::routing::{ForwardingOption, ForwardingTable, Route, RouteType};
use vnet::sockets::SocketEntry;
use vnet::tcp::{TcpAddress, TcpState};

const A_IP: u32 = 0x0a00_0001;
const B_IP: u32 = 0x0a00_0002;

fn reps_and_table(ip: u32, peer: u32) -> (InterfaceTable, ForwardingTable) {
    let mut reps = InterfaceTable::new();
    reps.insert(InterfaceRep::new("if0".to_string(), Ipv4Net { addr: ip, prefix_len: 24 }, ip, vec![(peer, 5000)]));
    let mut t = ForwardingTable::new();
    t.insert(Ipv4Net { addr: ip & 0xffff_ff00, prefix_len: 24 },
        Route::new(RouteType::Local, Some(0), ForwardingOption::Inter("if0".to_string()), 0));
    t.insert(Ipv4Net { addr: ip, prefix_len: 32 }, Route::new(RouteType::ToSelf, None, ForwardingOption::ToSelf, 0));
    (reps, t)
}

fn prompt_at(ip: u32, peer: u32) -> HostRepl {
    let (reps, t) = reps_and_table(ip, peer);
    HostRepl::new(HostBackend::new(HostIpDaemon::new(reps, t)))
}

fn prompt() -> HostRepl {
    prompt_at(A_IP, B_IP)
}

/// Carries the packets of the `Send` events of `from` to `to`.
fn carry(from: &HostRepl, to: &mut HostRepl, events: Vec<SocketEvent>, now: u64) -> (Vec<TcpDelivery>, Vec<SocketEvent>) {
    let ps: Vec<Packet> = events.into_iter().filter_map(|e| match e {
        SocketEvent::Send(pb) => Some(from.backend.ip_daemon.build(pb)),
        _ => None,
    }).collect();
    let handler = IpHandler::new();
    let mut out = Vec::new();
    let ds = ps.into_iter().map(|p| handler.handle_tcp_packet(&mut to.backend.socket_manager, p, now, &mut out)).collect();
    (ds, out)
}

/// Sends what the connection's buffer holds.
fn flush(r: &mut HostRepl, sid: u16, now: u64) -> Vec<SocketEvent> {
    let mut out = Vec::new();
    let sock = match r.backend.socket_manager.socket_table.entries.iter_mut().find(|(s, _)| *s == sid) {
        Some((_, SocketEntry::Connection(c))) => &mut c.sock,
        _ => panic!("no connection"),
    };
    while let SendStep::Sent = sock.send_next(now, &mut out) {}
    out
}

fn args(v: &[&str]) -> Vec<String> {
    v.iter().map(|s| s.to_string()).collect()
}

#[test]
fn accept_handler_listens_on_the_port() {
    let mut r = prompt();
    let sid = r.a_handler(&args(&["9999"])).unwrap();
    match r.backend.socket_table().get(sid) {
        Some(SocketEntry::Listener(l)) => {
            assert_eq!(l.state, TcpState::Listening);
            assert_eq!(l.port, 9999);
        }
        _ => panic!("no listener"),
    }
    match r.a_handler(&args(&["http"])) {
        Err(ArgError::InvalidPort(a)) => assert_eq!(a, "http"),
        other => panic!("{other:?}"),
    }
    match r.a_handler(&args(&["65536"])) {
        Err(ArgError::InvalidPort(a)) => assert_eq!(a, "65536"),
        other => panic!("{other:?}"),
    }
}

#[test]
fn connect_handler_opens_a_connection() {
    let mut r = prompt();
    let mut out = Vec::new();
    let sid = r.c_handler(&args(&["10.0.0.2", "9999"]), 1, &mut out).unwrap();
    assert_eq!(sid, 0);
    match r.backend.socket_table().get(sid) {
        Some(SocketEntry::Connection(c)) => {
            assert_eq!(c.sock.state, TcpState::SynSent);
            assert_eq!(c.sock.dst_addr, TcpAddress { ip: B_IP, port: 9999 });
        }
        _ => panic!("no connection"),
    }
    assert_eq!(out.len(), 1);
    let mut out2 = Vec::new();
    match r.c_handler(&args(&["10.0.0", "9999"]), 1, &mut out2) {
        Err(ArgError::InvalidIp(a)) => assert_eq!(a, "10.0.0"),
        other => panic!("{other:?}"),
    }
    match r.c_handler(&args(&["10.0.0.2", "port"]), 1, &mut out2) {
        Err(ArgError::InvalidIp(a)) => assert_eq!(a, "port"),
        other => panic!("{other:?}"),
    }
    assert!(out2.is_empty());
}

#[test]
fn send_and_receive_handlers_check_their_arguments() {
    let mut r = prompt();
    assert_eq!(r.s_handler(&args(&["7", "hello"])).unwrap(), Err(SocketError::NoSuchSocket));
    match r.s_handler(&args(&["x", "hello"])) {
        Err(ArgError::InvalidSid(a)) => assert_eq!(a, "x"),
        other => panic!("{other:?}"),
    }
    assert_eq!(r.r_handler(&args(&["7", "10"])).unwrap(), Err(SocketError::NoSuchSocket));
    match r.r_handler(&args(&["-1", "10"])) {
        Err(ArgError::InvalidSid(a)) => assert_eq!(a, "-1"),
        other => panic!("{other:?}"),
    }
    match r.r_handler(&args(&["7", "ten"])) {
        Err(ArgError::InvalidCount(a)) => assert_eq!(a, "ten"),
        other => panic!("{other:?}"),
    }
}

#[test]
fn send_handler_queues_the_bytes_of_the_text() {
    let mut r = prompt();
    let mut out = Vec::new();
    let sid = r.c_handler(&args(&["10.0.0.2", "80"]), 1, &mut out).unwrap();
    assert_eq!(sid, 0);
    let rest = r.s_handler(&args(&["0", "héllo"])).unwrap().unwrap();
    assert!(rest.is_empty());
    let big = "x".repeat(70000);
    let rest = r.s_handler(&args(&["0", &big])).unwrap().unwrap();
    assert!(!rest.is_empty());
    assert!(rest.len() < big.len());
    let full = r.s_handler(&args(&["0", "more"])).unwrap().unwrap();
    assert_eq!(full, b"more".to_vec());
}

#[test]
fn close_handler_closes_listeners() {
    let mut r = prompt();
    let sid = r.a_handler(&args(&["80"])).unwrap();
    let mut out = Vec::new();
    assert_eq!(r.cl_handler(&args(&["5"]), 0, &mut out).unwrap(), Err(SocketError::NoSuchSocket));
    match r.cl_handler(&args(&["five"]), 0, &mut out) {
        Err(ArgError::InvalidSid(a)) => assert_eq!(a, "five"),
        other => panic!("{other:?}"),
    }
    assert_eq!(r.cl_handler(&args(&[&sid.to_string()]), 0, &mut out).unwrap(), Ok(true));
    assert!(r.backend.socket_table().get(sid).is_none());
}

#[test]
fn router_packages_rip_messages() {
    let (reps, t) = reps_and_table(A_IP, B_IP);
    let mut neighbors = HashMap::new();
    neighbors.insert(B_IP, Vec::new());
    let d = RouterIpDaemon::new(reps, t, neighbors);
    let m = RipMsg::new(2, 1, vec![RipRoute::new(3, 0x0b00_0000, 0xff00_0000)]);
    let p = d.package_rmsg(m, B_IP);
    assert_eq!(p.header.destination, B_IP);
    assert_eq!(p.header.source, A_IP);
    assert_eq!(p.header.protocol, PROTOCOL_RIP);
    assert!(packet_valid(&p));
    let back = deserialize_rip(p.data.clone());
    assert_eq!(back.command, 2);
    assert_eq!(back.num_entries, 1);
    assert_eq!(back.routes[0].cost, 3);
    assert_eq!(back.routes[0].address, 0x0b00_0000);
}

#[test]
fn sent_text_is_read_back_in_part() {
    let mut a = prompt_at(A_IP, B_IP);
    let mut b = prompt_at(B_IP, A_IP);
    b.a_handler(&args(&["9999"])).unwrap();
    let mut out = Vec::new();
    let sid = a.c_handler(&args(&["10.0.0.2", "9999"]), 1, &mut out).unwrap();
    let (d, out_b) = carry(&a, &mut b, out, 2);
    let bsid = match d[0] {
        TcpDelivery::Listener(Some(s)) => s,
        TcpDelivery::Listener(None) => 1,
        ref other => panic!("{other:?}"),
    };
    let (_, out_a) = carry(&b, &mut a, out_b, 3);
    let _ = carry(&a, &mut b, out_a, 4);
    let rest = a.s_handler(&args(&[&sid.to_string(), "hihihi"])).unwrap().unwrap();
    assert!(rest.is_empty());
    let ev = flush(&mut a, sid, 5);
    let _ = carry(&a, &mut b, ev, 6);
    let got = b.r_handler(&args(&[&bsid.to_string(), "5"])).unwrap().unwrap();
    assert_eq!(got, b"hihih".to_vec());
    let got = b.r_handler(&args(&[&bsid.to_string(), "5"])).unwrap().unwrap();
    assert_eq!(got, b"i".to_vec());
}

#[test]
fn listeners_take_fresh_ids() {
    let mut r = prompt();
    let mut out = Vec::new();
    let c = r.c_handler(&args(&["10.0.0.2", "80"]), 1, &mut out).unwrap();
    let l1 = r.a_handler(&args(&["1"])).unwrap();
    let l2 = r.a_handler(&args(&["0"])).unwrap();
    assert_eq!((c, l1, l2), (0, 1, 2));
    assert_eq!(r.backend.socket_table().len(), 3);
    // closing the listener on port 0 removes only its own entry
    assert_eq!(r.cl_handler(&args(&["2"]), 2, &mut out).unwrap(), Ok(true));
    assert!(matches!(r.backend.socket_table().get(1), Some(SocketEntry::Listener(_))));
    assert!(matches!(r.backend.socket_table().get(0), Some(SocketEntry::Connection(_))));
    assert!(r.backend.socket_table().get(2).is_none());
}

#[test]
fn accept_starts_each_pending_connection_under_its_own_id() {
    let mut a = prompt_at(A_IP, B_IP);
    let mut b = prompt_at(B_IP, A_IP);
    let lsid = b.backend.listen(9999);
    let mut out = Vec::new();
    a.c_handler(&args(&["10.0.0.2", "9999"]), 1, &mut out).unwrap();
    a.c_handler(&args(&["10.0.0.2", "9999"]), 1, &mut out).unwrap();
    let (d, _) = carry(&a, &mut b, out, 2);
    assert!(d.iter().all(|x| matches!(x, TcpDelivery::Listener(None))));
    assert_eq!(b.backend.socket_table().len(), 1);
    b.backend.accept(9999);
    let rows = ls_rows(b.backend.socket_table());
    assert_eq!(rows.len(), 3);
    let mut ids = Vec::new();
    for row in rows {
        match row {
            LsRow::Conn { sid, state, .. } => {
                assert_eq!(state, TcpState::Initialized);
                ids.push(sid);
            }
            LsRow::Listen { sid, port, .. } => {
                assert_eq!((sid, port), (lsid, 9999));
            }
        }
    }
    assert_eq!(ids.len(), 2);
    assert_ne!(ids[0], ids[1]);
    assert!(!ids.contains(&lsid));
}

#[test]
fn connect_sends_a_syn_that_waits_for_retransmission() {
    let mut r = prompt();
    let mut out = Vec::new();
    let sid = r.c_handler(&args(&["10.0.0.2", "9999"]), 7, &mut out).unwrap();
    assert_eq!(out.len(), 1);
    let seg = match &out[0] {
        SocketEvent::Send(pb) => {
            assert_eq!(pb.dst_ip, B_IP);
            vnet::tcp::tcp_from_payload(&pb.msg).unwrap()
        }
        other => panic!("{other:?}"),
    };
    assert_eq!(vnet::tcp::header_flags(&seg.header), SYN);
    assert_eq!(seg.header.destination_port, 9999);
    match r.backend.socket_table().get(sid) {
        Some(SocketEntry::Connection(c)) => {
            assert_eq!(c.sock.write_buf.retr_queue.queue.len(), 1);
            assert_eq!(c.sock.write_buf.retr_queue.queue[0].flags, SYN);
            assert_eq!(c.sock.write_buf.retr_queue.queue[0].seq_num, seg.header.sequence_number);
            assert_eq!(c.sock.seq_num, seg.header.sequence_number.wrapping_add(1));
        }
        _ => panic!("no connection"),
    }
}

#[test]
fn send_file_cuts_the_data_into_chunks() {
    let mut r = prompt();
    let mut out = Vec::new();
    let data: Vec<u8> = (0..2500u32).map(|i| (i % 251) as u8).collect();
    let (sid, chunks) = r.sf_handler(data.clone(), &args(&["f", "10.0.0.2", "9999"]), 3, &mut out).unwrap();
    assert_eq!(chunks.iter().map(|c| c.len()).collect::<Vec<_>>(), vec![1024, 1024, 452]);
    assert_eq!(chunks.concat(), data);
    assert!(matches!(r.backend.socket_table().get(sid), Some(SocketEntry::Connection(_))));
    assert_eq!(out.len(), 1);
    let mut out2 = Vec::new();
    match r.sf_handler(data.clone(), &args(&["f", "10.0.0", "9999"]), 3, &mut out2) {
        Err(ArgError::InvalidIp(a)) => assert_eq!(a, "10.0.0"),
        other => panic!("{other:?}"),
    }
    match r.sf_handler(data, &args(&["f", "10.0.0.2", "x"]), 3, &mut out2) {
        Err(ArgError::InvalidPort(a)) => assert_eq!(a, "x"),
        other => panic!("{other:?}"),
    }
    assert!(out2.is_empty());
    let (_, none) = r.sf_handler(Vec::new(), &args(&["f", "10.0.0.2", "9999"]), 3, &mut out2).unwrap();
    assert!(none.is_empty());
}

#[test]
fn receive_file_listens_and_takes_the_next_connection() {
    let mut a = prompt_at(A_IP, B_IP);
    let mut b = prompt_at(B_IP, A_IP);
    match b.rf_handler(&args(&["f", "port"])) {
        Err(ArgError::InvalidPort(p)) => assert_eq!(p, "port"),
        other => panic!("{other:?}"),
    }
    let (lsid, conn) = b.rf_handler(&args(&["f", "9999"])).unwrap();
    assert_eq!(conn, None);
    assert!(matches!(b.backend.socket_table().get(lsid), Some(SocketEntry::Listener(_))));
    let mut out = Vec::new();
    a.c_handler(&args(&["10.0.0.2", "9999"]), 1, &mut out).unwrap();
    let (d, _) = carry(&a, &mut b, out, 2);
    match d[0] {
        TcpDelivery::Listener(Some(s)) => assert_ne!(s, lsid),
        ref other => panic!("{other:?}"),
    }
}

#[test]
fn probe_and_time_wait_timers() {
    let mut s = ConnectionSocket::new(TcpState::Established, TcpAddress::new(A_IP, 4000), TcpAddress::new(B_IP, 80));
    s.write_buf.rem_window = 0;
    let mut t = ConnTimers::new();
    let mut out = Vec::new();
    s.begin_probe(&mut t, vec![7], 100, &mut out);
    assert_eq!(out.len(), 1);
    assert!(matches!(&t.probe, Some((p, 100)) if p == &vec![7]));
    s.begin_probe(&mut t, vec![8], 200, &mut out);
    assert_eq!(out.len(), 1);
    s.timer_tick(&mut t, 1_000, &mut out);
    assert_eq!(out.len(), 1);
    s.timer_tick(&mut t, 100 + 5_000_000_000, &mut out);
    assert_eq!(out.len(), 2);
    assert!(matches!(&t.probe, Some((_, 5_000_000_100))));
    s.write_buf.rem_window = 10;
    s.timer_tick(&mut t, 20_000_000_000, &mut out);
    assert_eq!(out.len(), 2);
    assert!(t.probe.is_none());
    t.time_wait_since = Some(0);
    s.timer_tick(&mut t, 2 * MAX_RTO - 1, &mut out);
    assert_eq!(s.state, TcpState::Established);
    s.timer_tick(&mut t, 2 * MAX_RTO, &mut out);
    assert_eq!(s.state, TcpState::Closed);
    assert!(matches!(out.last(), Some(SocketEvent::Closed(0))));
}

#[test]
fn bad_checksums_are_dropped_in_every_state() {
    let mut a = prompt_at(A_IP, B_IP);
    let mut out = Vec::new();
    a.c_handler(&args(&["10.0.0.2", "9999"]), 1, &mut out).unwrap();
    let p = a.backend.ip_daemon.build(match out.pop().unwrap() {
        SocketEvent::Send(pb) => pb,
        other => panic!("{other:?}"),
    });
    let mut seg = vnet::tcp::tcp_from_payload(&p.data).unwrap();
    vnet::tcp::set_flags(&mut seg.header, ACK);
    let mut s = ConnectionSocket::new(TcpState::Initialized, TcpAddress::new(B_IP, 9999), TcpAddress::new(A_IP, 4000));
    // an ACK on a socket waiting for a SYN: taken only because its checksum is wrong
    seg.header.checksum = seg.header.checksum.wrapping_add(1);
    assert!(s.handle_acceptable(&seg, &p.header));
    let mut out2 = Vec::new();
    s.handle_packet(seg, &p.header, 5, &mut out2);
    assert!(out2.is_empty());
    assert_eq!(s.state, TcpState::Initialized);
}
