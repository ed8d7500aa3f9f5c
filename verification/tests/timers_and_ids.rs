use vnet::conn_ops::ConnTimers;
use vnet::conn_socket::ConnectionSocket;
use vnet::ipv4::{build_packet, packet_bytes_check, PacketBasis};
use vnet::retransmission::{RetransmissionTimer, MAX_RTO};
use vnet::sockets::SidAssigner;
use vnet::tcp::{deserialize_tcp, TcpAddress, TcpState};

#[test]
fn reset_after_backoff_gives_the_measured_timeout() {
    let mut t = RetransmissionTimer::new();
    t.update_rto(400_000_000);
    let measured = t.rto;
    for _ in 0..5 {
        t.do_retransmission();
    }
    assert!(t.rto > measured);
    t.reset();
    assert_eq!(t.rto, measured);
    assert_eq!(t.retransmission_count, 0);
    for _ in 0..50 {
        t.do_retransmission();
    }
    assert_eq!(t.rto, MAX_RTO);
    t.reset();
    assert_eq!(t.rto, measured);
}

#[test]
fn ids_count_up_from_zero() {
    let mut a = SidAssigner::new();
    let ids: Vec<u16> = (0..1000).map(|_| a.assign_sid()).collect();
    assert_eq!(ids, (0..1000u16).collect::<Vec<_>>());
}

#[test]
fn an_acknowledged_probe_takes_one_sequence_number() {
    let mut s = ConnectionSocket::new(TcpState::Established, TcpAddress::new(1, 2), TcpAddress::new(3, 4));
    s.write_buf.rem_window = 0;
    let mut t = ConnTimers::new();
    let mut out = Vec::new();
    s.begin_probe(&mut t, vec![9], 10, &mut out);
    assert!(t.probe.is_some());
    let seq = s.seq_num;
    s.stop_probing(&mut t);
    assert_eq!(s.seq_num, seq.wrapping_add(1));
    assert!(t.probe.is_none());
}

#[test]
fn readers_wait_for_data_or_a_close() {
    let mut s = ConnectionSocket::new(TcpState::Established, TcpAddress::new(1, 2), TcpAddress::new(3, 4));
    s.read_buf.set_init_seq(100);
    assert!(!s.recv_ready());
    assert!(!s.peer_done());
    s.read_buf.add(101, b"ab".to_vec());
    assert!(s.recv_ready());
    assert!(!s.peer_done());
    s.read_buf.read(2);
    s.read_buf.set_final_seq(103);
    assert!(s.recv_ready());
    assert!(s.peer_done());
}

#[test]
fn byte_checks_before_reading_a_segment() {
    assert!(packet_bytes_check(&[]));
    assert!(packet_bytes_check(&[0x60, 1, 2]));
    assert!(deserialize_tcp(Vec::new()).is_err());
    let mut raw = Vec::new();
    let e = etherparse::Ipv4Header::new(3, 16, etherparse::IpNumber(6), [0, 0, 0, 1], [0, 0, 0, 2]).unwrap();
    e.write(&mut raw).unwrap();
    // the header announces 3 bytes of payload that are not there
    assert!(!packet_bytes_check(&raw));
    raw.extend_from_slice(&[1, 2, 3]);
    assert!(packet_bytes_check(&raw));
    // 3 bytes cannot hold a TCP header
    assert!(deserialize_tcp(raw).is_err());
    let p = build_packet(PacketBasis { dst_ip: 2, prot_num: 6, msg: vec![1, 2, 3] }, 1);
    assert_eq!(p.header.total_len, 23);
}
