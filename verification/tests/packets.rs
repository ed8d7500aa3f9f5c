use vnet::ipv4::{IpHeader, Packet, PacketBasis, build_packet, packet_valid, update_pack,
    packet_from_bytes, checked_packet_from_bytes, copy_prefix, string_ip, PROTOCOL_TEST, PROTOCOL_RIP, DEFAULT_TTL};
use vnet::tcp::{TcpHeader, TcpPacket, serialize_tcp, deserialize_tcp, tcp_from_payload, header_flags, has_only_flags, has_flags,
    is_syn, set_flags, TcpParseError, SYN, ACK, FIN, FINACK, RST, PSH, URG};
use vnet::backend::HostBackend;
use vnet::daemon::HostIpDaemon;
use vnet::interfaces::InterfaceTable;
use vnet::routing::ForwardingTable;
use vnet::interfaces::{Interface, InterfaceAction};
use vnet::net::Ipv4Net;
use vnet::conn_socket::{ConnectionSocket, SocketEvent};
use vnet::tcp::{TcpAddress, TcpState};

/// The header in etherparse's own type, to compute expected values with.
fn ether_ip(h: &IpHeader) -> etherparse::Ipv4Header {
    etherparse::Ipv4Header {
        dscp: etherparse::Ipv4Dscp::try_new(h.dscp).unwrap(),
        ecn: etherparse::Ipv4Ecn::try_new(h.ecn).unwrap(),
        total_len: h.total_len,
        identification: h.identification,
        dont_fragment: h.dont_fragment,
        more_fragments: h.more_fragments,
        fragment_offset: etherparse::IpFragOffset::try_new(h.fragment_offset).unwrap(),
        time_to_live: h.time_to_live,
        protocol: etherparse::IpNumber(h.protocol),
        header_checksum: h.header_checksum,
        source: h.source.to_be_bytes(),
        destination: h.destination.to_be_bytes(),
        options: etherparse::Ipv4Options::try_from(h.options.as_slice()).unwrap(),
    }
}

fn ip_checksum(h: &IpHeader) -> u16 {
    ether_ip(h).calc_header_checksum()
}

fn header_bytes(h: &IpHeader) -> Vec<u8> {
    let mut v = Vec::new();
    ether_ip(h).write(&mut v).unwrap();
    v
}

fn tcp_checksum(h: &TcpHeader, src: u32, dst: u32, payload: &[u8]) -> u16 {
    let e = etherparse::TcpHeader {
        source_port: h.source_port,
        destination_port: h.destination_port,
        sequence_number: h.sequence_number,
        acknowledgment_number: h.acknowledgment_number,
        ns: h.ns, fin: h.fin, syn: h.syn, rst: h.rst, psh: h.psh,
        ack: h.ack, urg: h.urg, ece: h.ece, cwr: h.cwr,
        window_size: h.window_size,
        checksum: h.checksum,
        urgent_pointer: h.urgent_pointer,
        options: etherparse::TcpOptions::try_from_slice(&h.options).unwrap(),
    };
    e.calc_checksum_ipv4_raw(src.to_be_bytes(), dst.to_be_bytes(), payload).unwrap()
}

fn packet(src: u32, dst: u32, msg: &[u8]) -> Packet {
    build_packet(PacketBasis { dst_ip: dst, prot_num: PROTOCOL_TEST, msg: msg.to_vec() }, src)
}

#[test]
fn built_packet_header() {
    let p = packet(0x0a00_0001, 0x0a00_0002, b"hello");
    assert_eq!(p.header.total_len, 25);
    assert_eq!(p.header.time_to_live, DEFAULT_TTL);
    assert_eq!(p.header.protocol, 0);
    assert_eq!(p.header.source, 0x0a00_0001);
    assert_eq!(p.header.destination, 0x0a00_0002);
    assert!(p.header.dont_fragment);
    assert_eq!(p.header.header_checksum, ip_checksum(&p.header));
    assert_ne!(p.header.header_checksum, 0);
    assert_eq!(p.data, b"hello".to_vec());
    assert!(packet_valid(&p));
}

#[test]
fn header_bytes_and_parse_back() {
    let p = packet(0x0a00_0001, 0x0a00_0002, b"abc");
    let mut bytes = header_bytes(&p.header);
    assert_eq!(bytes.len(), 20);
    assert_eq!(bytes[0], 0x45);
    assert_eq!(&bytes[12..16], &[10, 0, 0, 1]);
    assert_eq!(&bytes[16..20], &[10, 0, 0, 2]);
    bytes.extend_from_slice(b"abc");
    let q = packet_from_bytes(&bytes).unwrap();
    assert_eq!(q.header.source, 0x0a00_0001);
    assert_eq!(q.header.total_len, 23);
    assert_eq!(q.data, b"abc".to_vec());
    assert!(packet_valid(&q));
    let r = checked_packet_from_bytes(&bytes).unwrap();
    assert_eq!(r.data, b"abc".to_vec());
}

#[test]
fn truncated_or_garbage_bytes() {
    let p = packet(1, 2, b"abcdef");
    let mut bytes = header_bytes(&p.header);
    bytes.extend_from_slice(b"ab");
    assert!(checked_packet_from_bytes(&bytes).is_none());
    assert!(checked_packet_from_bytes(&[1, 2, 3]).is_none());
    assert!(packet_from_bytes(&[0x60, 0, 0, 0]).is_none());
}

#[test]
fn update_pack_decrements_ttl() {
    let p = packet(1, 2, b"x");
    let q = update_pack(p);
    assert_eq!(q.header.time_to_live, DEFAULT_TTL - 1);
    assert_eq!(q.header.header_checksum, ip_checksum(&q.header));
    assert!(packet_valid(&q));
}

#[test]
fn invalid_packets() {
    let mut p = packet(1, 2, b"x");
    p.header.time_to_live = 0;
    assert!(!packet_valid(&p));
    let mut q = packet(1, 2, b"x");
    q.header.header_checksum = q.header.header_checksum.wrapping_add(1);
    assert!(!packet_valid(&q));
}

#[test]
fn copy_prefix_and_string_ip() {
    assert_eq!(copy_prefix(&vec![1, 2, 3], 2), vec![1, 2]);
    let s: String = string_ip(0xc0a8_0001).into_iter().collect();
    assert_eq!(s, "192.168.0.1");
    let z: String = string_ip(0).into_iter().collect();
    assert_eq!(z, "0.0.0.0");
}

#[test]
fn rip_protocol_number() {
    let p = build_packet(PacketBasis { dst_ip: 2, prot_num: PROTOCOL_RIP, msg: vec![0, 1, 0, 0] }, 1);
    assert_eq!(p.header.protocol, 200);
}

fn segment(flags: u8, payload: &[u8]) -> TcpPacket {
    let mut h = TcpHeader::new(1000, 9999, 42, 65535);
    set_flags(&mut h, flags);
    h.acknowledgment_number = 7;
    TcpPacket::new(h, payload.to_vec())
}

#[test]
fn flags_roundtrip() {
    for f in [0u8, SYN, ACK, SYN | ACK, FINACK, RST, PSH | ACK, URG, 63] {
        let mut h = TcpHeader::new(1, 2, 3, 4);
        set_flags(&mut h, f);
        assert_eq!(header_flags(&h), f);
        assert!(has_only_flags(&h, f));
        assert!(has_flags(&h, f & ACK));
    }
    let mut h = TcpHeader::new(1, 2, 3, 4);
    set_flags(&mut h, SYN);
    assert!(is_syn(&h));
    set_flags(&mut h, SYN | ACK);
    assert!(!is_syn(&h));
    assert!(has_flags(&h, SYN));
    assert!(!has_only_flags(&h, SYN));
    assert_eq!(FIN | ACK, FINACK);
}

#[test]
fn tcp_serialize_and_read_back() {
    let seg = segment(SYN | ACK, b"data");
    let bytes = serialize_tcp(seg);
    assert_eq!(bytes.len(), 24);
    assert_eq!(&bytes[0..2], &[0x03, 0xe8]);
    assert_eq!(&bytes[2..4], &[0x27, 0x0f]);
    let back = tcp_from_payload(&bytes).unwrap();
    assert_eq!(back.header.source_port, 1000);
    assert_eq!(back.header.destination_port, 9999);
    assert_eq!(back.header.sequence_number, 42);
    assert_eq!(back.header.acknowledgment_number, 7);
    assert_eq!(header_flags(&back.header), SYN | ACK);
    assert_eq!(back.payload, b"data".to_vec());
    assert!(tcp_from_payload(&[1, 2, 3]).is_none());
}

#[test]
fn deserialize_tcp_reads_whole_packets() {
    let seg = serialize_tcp(segment(ACK, b"hi"));
    let ip = build_packet(PacketBasis { dst_ip: 2, prot_num: 6, msg: seg.clone() }, 1);
    let mut raw = header_bytes(&ip.header);
    raw.extend_from_slice(&seg);
    let back = deserialize_tcp(raw).unwrap();
    assert_eq!(back.payload, b"hi".to_vec());
    assert_eq!(header_flags(&back.header), ACK);
    let ip2 = build_packet(PacketBasis { dst_ip: 2, prot_num: 6, msg: vec![1, 2] }, 1);
    let mut raw2 = header_bytes(&ip2.header);
    raw2.extend_from_slice(&[1, 2]);
    assert_eq!(deserialize_tcp(raw2).unwrap_err(), TcpParseError::InvalidData);
}

#[test]
fn tcp_checksum_depends_on_content() {
    let a = segment(ACK, b"abc");
    let c1 = tcp_checksum(&a.header, 0x0a00_0001, 0x0a00_0002, &a.payload);
    let c2 = tcp_checksum(&a.header, 0x0a00_0001, 0x0a00_0002, b"abd");
    let c3 = tcp_checksum(&a.header, 0x0a00_0003, 0x0a00_0002, &a.payload);
    assert_ne!(c1, c2);
    assert_ne!(c1, c3);
}

#[test]
fn new_sockets_start_at_random_sequence_numbers() {
    let seqs: Vec<u32> = (0..8).map(|_| {
        ConnectionSocket::new(TcpState::Initialized, TcpAddress::new(1, 2), TcpAddress::new(3, 4)).seq_num
    }).collect();
    assert!(seqs.iter().all(|s| *s < 0x8000_0000));
    assert!(seqs.iter().any(|s| *s != seqs[0]));
}

#[test]
fn connections_take_random_free_ports() {
    let mut reps = InterfaceTable::new();
    reps.insert(vnet::interfaces::InterfaceRep::new("if0".to_string(), Ipv4Net { addr: 0x0a00_0001, prefix_len: 24 },
        0x0a00_0001, vec![(0x0a00_0002, 5002)]));
    let mut h = HostBackend::new(HostIpDaemon::new(reps, ForwardingTable::new()));
    let mut out = Vec::new();
    let mut ports = Vec::new();
    for i in 0..8u16 {
        let sid = h.connect(0x0a00_0002, 80 + i, 0, &mut out);
        match h.socket_table().get(sid) {
            Some(vnet::sockets::SocketEntry::Connection(c)) => ports.push(c.sock.src_addr.port),
            _ => panic!("no connection"),
        }
    }
    assert!(ports.iter().all(|p| *p < 65535));
    assert!(ports.iter().any(|p| *p != ports[0]));
    // no two connections share a local port
    for i in 0..ports.len() {
        for j in 0..i {
            assert_ne!(ports[i], ports[j]);
        }
    }
}

#[test]
fn forwarded_packet_crosses_the_link_unchanged() {
    let sent = update_pack(build_packet(PacketBasis { dst_ip: 0x0a00_0105, prot_num: 0, msg: b"over the link".to_vec() }, 0x0a00_0001));
    let a = Interface::new("if0".to_string(), 0x0a00_0002, Ipv4Net { addr: 0x0a00_0002, prefix_len: 24 }, 5002,
        vec![(0x0a00_0003, 5003)]);
    let b = Interface::new("if0".to_string(), 0x0a00_0003, Ipv4Net { addr: 0x0a00_0003, prefix_len: 24 }, 5003,
        vec![(0x0a00_0002, 5002)]);
    let bytes = match a.send(sent.duplicate(), 0x0a00_0003) {
        InterfaceAction::Transmit(bytes, port) => {
            assert_eq!(port, 5003);
            bytes
        }
        other => panic!("{other:?}"),
    };
    let got = match b.try_recv(&bytes) {
        InterfaceAction::Deliver(p) => p,
        other => panic!("{other:?}"),
    };
    let (h, g) = (&sent.header, &got.header);
    assert_eq!((g.dscp, g.ecn, g.total_len, g.identification), (h.dscp, h.ecn, h.total_len, h.identification));
    assert_eq!((g.dont_fragment, g.more_fragments, g.fragment_offset), (h.dont_fragment, h.more_fragments, h.fragment_offset));
    assert_eq!((g.time_to_live, g.protocol, g.header_checksum), (h.time_to_live, h.protocol, h.header_checksum));
    assert_eq!((g.source, g.destination), (h.source, h.destination));
    assert_eq!(g.options, h.options);
    assert_eq!(got.data, sent.data);
    assert_eq!(g.time_to_live, 15);
    assert!(packet_valid(&got));
}

#[test]
fn segments_sent_carry_the_checksum_the_peer_computes() {
    let mut s = ConnectionSocket::new(TcpState::Established, TcpAddress::new(0x0a00_0001, 4000), TcpAddress::new(0x0a00_0002, 80));
    let mut out = Vec::new();
    s.send_probe(b"probe".to_vec(), &mut out);
    s.send_flags(SYN, 7, &mut out);
    assert_eq!(out.len(), 2);
    for e in out {
        let msg = match e {
            SocketEvent::Send(pb) => {
                assert_eq!(pb.dst_ip, 0x0a00_0002);
                pb.msg
            }
            other => panic!("{other:?}"),
        };
        let seg = tcp_from_payload(&msg).unwrap();
        let expected = tcp_checksum(&seg.header, 0x0a00_0001, 0x0a00_0002, &seg.payload);
        assert_eq!(seg.header.checksum, expected);
        assert_ne!(tcp_checksum(&seg.header, 0x0a00_0001, 0x0a00_0003, &seg.payload), expected);
    }
}

#[test]
fn malformed_fronts_do_not_parse() {
    let mut seg = serialize_tcp(segment(ACK, b"hi"));
    assert!(tcp_from_payload(&seg).is_some());
    seg[12] = 0x40;
    assert!(tcp_from_payload(&seg).is_none());
    assert!(tcp_from_payload(&[0u8; 19]).is_none());
    let p = packet(1, 2, b"abc");
    let mut bytes = header_bytes(&p.header);
    bytes.extend_from_slice(b"abc");
    assert!(packet_from_bytes(&bytes).is_some());
    let mut v6 = bytes.clone();
    v6[0] = 0x65;
    assert!(packet_from_bytes(&v6).is_none());
    let mut short_ihl = bytes.clone();
    short_ihl[0] = 0x44;
    assert!(packet_from_bytes(&short_ihl).is_none());
    assert!(deserialize_tcp(Vec::new()).is_err());
}
