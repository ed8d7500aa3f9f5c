use std::collections::HashMap;
use vnet::net::Ipv4Net;
use vnet::routing::{ForwardingOption, RouteType, RouteError};
use vnet::config::{IPConfig, InterfaceConfig, NeighborConfig, RoutingType, initialize as start_backend, init_interfaces,
    neighbors_for, add_static_routes, add_rip_neighbors};
use vnet::node::{initialize, Node, NodeType, NodeStep, Delivery};
use vnet::backend::{Backend, VnodeBackend};
use vnet::interfaces::{InterCmd, InterfaceStatus, InterfaceAction, Interface};
use vnet::ipv4::{build_packet, PacketBasis, PROTOCOL_TEST, PROTOCOL_RIP};
use vnet::rip::{RipMsg, RipRoute, serialize_rip, deserialize_rip};
use vnet::routing::ForwardingTable;

fn iface(name: &str, ip: u32, port: u16) -> InterfaceConfig {
    InterfaceConfig {
        name: name.to_string(),
        assigned_prefix: Ipv4Net { addr: ip, prefix_len: 24 },
        assigned_ip: ip,
        udp_addr: 0x7f00_0001,
        udp_port: port,
    }
}

fn neighbor(ip: u32, port: u16, name: &str) -> NeighborConfig {
    NeighborConfig { dest_addr: ip, udp_addr: 0x7f00_0001, udp_port: port, interface_name: name.to_string() }
}

/// A router with two links: if0 (10.0.0.0/24, neighbor 10.0.0.2) and
/// if1 (10.1.0.0/24, neighbor 10.1.0.2).
fn router_config(mode: RoutingType) -> IPConfig {
    IPConfig {
        interfaces: vec![iface("if0", 0x0a00_0001, 5000), iface("if1", 0x0a01_0001, 5001)],
        neighbors: vec![neighbor(0x0a00_0002, 5002, "if0"), neighbor(0x0a01_0002, 5003, "if1")],
        routing_mode: mode,
        static_routes: vec![
            (Ipv4Net { addr: 0x0a00_0000, prefix_len: 24 }, 0x0a00_0002),
            (Ipv4Net { addr: 0x0a01_0000, prefix_len: 24 }, 0x0a01_0002),
        ],
        rip_neighbors: Some(vec![0x0a00_0002, 0x0a01_0002]),
    }
}

fn host_config() -> IPConfig {
    IPConfig {
        interfaces: vec![iface("if0", 0x0a00_0002, 5002)],
        neighbors: vec![neighbor(0x0a00_0001, 5000, "if0")],
        routing_mode: RoutingType::NoRouting,
        static_routes: Vec::new(),
        rip_neighbors: None,
    }
}

#[test]
fn neighbors_are_grouped_by_interface() {
    let ns = vec![neighbor(1, 10, "if0"), neighbor(2, 20, "if1"), neighbor(3, 30, "if0")];
    assert_eq!(neighbors_for(&ns, &"if0".to_string()), vec![(1, 10), (3, 30)]);
    assert_eq!(neighbors_for(&ns, &"if9".to_string()), Vec::<(u32, u16)>::new());
}

#[test]
fn init_interfaces_makes_interfaces_and_records() {
    let c = router_config(RoutingType::Static);
    let (reps, made) = init_interfaces(c.interfaces, c.neighbors);
    assert_eq!(made.len(), 2);
    assert_eq!(made[1].name, "if1");
    assert_eq!(made[1].udp_port, 5001);
    assert_eq!(made[1].neighbors, vec![(0x0a01_0002, 5003)]);
    assert_eq!(made[0].status, InterfaceStatus::Up);
    assert_eq!(reps.len(), 2);
    assert_eq!(reps.v_ip_of(&"if1".to_string()), Some(0x0a01_0001));
    assert_eq!(reps.v_ip_of(&"if7".to_string()), None);
}

#[test]
fn tables_from_configuration() {
    let mut t = ForwardingTable::new();
    add_static_routes(&mut t, vec![(Ipv4Net { addr: 0, prefix_len: 0 }, 0x0a00_0001)], 3);
    let r = t.get(&Ipv4Net { addr: 0, prefix_len: 0 }).unwrap();
    assert_eq!(r.rtype, RouteType::Static);
    assert_eq!(r.cost, None);
    assert!(matches!(r.next_hop, ForwardingOption::Ip(0x0a00_0001)));
    let mut rip: HashMap<u32, Vec<vnet::routing::Route>> = HashMap::new();
    add_rip_neighbors(&mut rip, vec![4, 5, 4]);
    assert_eq!(rip.len(), 2);
    assert!(rip[&4].is_empty());
}

#[test]
fn static_host_backend_starts() {
    let mut c = host_config();
    c.routing_mode = RoutingType::Static;
    c.static_routes = vec![(Ipv4Net { addr: 0, prefix_len: 0 }, 0x0a00_0001)];
    let (backend, inters) = start_backend(c, 0);
    assert_eq!(inters.len(), 1);
    match backend {
        Backend::Host(h) => {
            assert_eq!(h.local_ip, 0x0a00_0002);
            let t = h.forwarding_table();
            assert_eq!(t.proper_interface(0x0b00_0000), Ok(Some(("if0".to_string(), 0x0a00_0001))));
            assert_eq!(t.proper_interface(0x0a00_0002), Ok(None));
            assert_eq!(h.lr().len(), 2);
        },
        Backend::Router(_) => panic!("expected a host"),
    }
}

#[test]
fn rip_router_backend_starts() {
    let mut c = router_config(RoutingType::Rip);
    c.static_routes = Vec::new();
    let (backend, _) = start_backend(c, 0);
    match backend {
        Backend::Router(r) => {
            assert_eq!(r.ip_daemon.rip_neighbors.len(), 2);
            let t = r.forwarding_table();
            assert_eq!(t.proper_interface(0x0a01_0009), Ok(Some(("if1".to_string(), 0x0a01_0009))));
            assert_eq!(t.proper_interface(0x0a01_0001), Ok(None));
            assert!(r.ip_daemon.neighbors_routable_check());
        },
        Backend::Host(_) => panic!("expected a router"),
    }
}

#[test]
fn node_host_initialization() {
    let n = initialize(host_config(), 0);
    assert_eq!(n.n_type, NodeType::Host);
    assert_eq!(n.interfaces.len(), 1);
    assert_eq!(n.forwarding_table.len(), 3);
    assert_eq!(n.forwarding_table.proper_interface(0x0a00_0002), Ok(None));
    assert_eq!(n.forwarding_table.proper_interface(0x0a00_0001), Ok(Some(("if0".to_string(), 0x0a00_0001))));
    // the default route goes back to the router on if0
    assert_eq!(n.forwarding_table.proper_interface(0x0808_0808), Ok(Some(("if0".to_string(), 0x0a00_0001))));
}

#[test]
fn node_static_router_initialization() {
    let n = initialize(router_config(RoutingType::Static), 0);
    assert_eq!(n.n_type, NodeType::Router);
    assert_eq!(n.interfaces.len(), 2);
    assert_eq!(n.interfaces[0].name, "if0");
    assert_eq!(n.interfaces[1].name, "if1");
    assert_eq!(n.forwarding_table.proper_interface(0x0a01_0002), Ok(Some(("if1".to_string(), 0x0a01_0002))));
    assert_eq!(n.forwarding_table.proper_interface(0x0a00_0001), Ok(None));
    assert_eq!(n.forwarding_table.proper_interface(0x0c00_0000), Err(RouteError::NoMatch));
}

#[test]
fn node_static_route_without_neighbor_is_skipped() {
    let mut c = router_config(RoutingType::Static);
    c.static_routes = vec![(Ipv4Net { addr: 0x0b00_0000, prefix_len: 8 }, 1)];
    let n = initialize(c, 0);
    assert_eq!(n.interfaces.len(), 0);
    assert_eq!(n.forwarding_table.len(), 0);
}

#[test]
fn node_up_down() {
    let mut n = initialize(router_config(RoutingType::Static), 0);
    let if1 = "if1".to_string();
    assert!(!n.up(&if1));
    assert!(n.down(&if1));
    assert!(!n.down(&if1));
    assert!(n.up(&if1));
}

#[test]
fn node_send_builds_through_the_table() {
    let n = initialize(router_config(RoutingType::Static), 0);
    let (name, cmd) = n.send(&"10.1.0.2".to_string(), b"hi".to_vec(), true);
    assert_eq!(name, "if1");
    match cmd {
        InterCmd::BuildSend(pb, hop, test) => {
            assert_eq!(pb.dst_ip, 0x0a01_0002);
            assert_eq!(pb.prot_num, PROTOCOL_TEST);
            assert_eq!(pb.msg, b"hi".to_vec());
            assert_eq!(hop, 0x0a01_0002);
            assert!(test);
        },
        other => panic!("{other:?}"),
    }
}

fn rip_router() -> Node {
    let mut n = initialize(router_config(RoutingType::Static), 0);
    n.rip_neighbors.insert(0x0a00_0002, Vec::new());
    n.rip_neighbors.insert(0x0a01_0002, Vec::new());
    n
}

#[test]
fn node_rip_broadcast_and_requests() {
    let n = rip_router();
    assert!(n.neighbors_direct_check());
    let out = n.rip_broadcast();
    assert_eq!(out.len(), 2);
    for (name, cmd) in &out {
        match cmd {
            InterCmd::BuildSend(pb, hop, false) => {
                assert_eq!(pb.dst_ip, *hop);
                assert_eq!(pb.prot_num, PROTOCOL_RIP);
                let m = deserialize_rip(pb.msg.clone());
                assert_eq!(m.command, 2);
                assert_eq!(m.routes.len(), 2);
                assert!(name == "if0" || name == "if1");
            },
            other => panic!("{other:?}"),
        }
    }
    let req = n.request_all();
    assert_eq!(req.len(), 2);
    match &req[0].1 {
        InterCmd::BuildSend(pb, _, false) => assert_eq!(pb.msg, vec![0, 1, 0, 0]),
        other => panic!("{other:?}"),
    }
    let m = n.table_to_rip(0x0a00_0002);
    assert_eq!(m.num_entries, 2);
}

fn packet_to(n_src: u32, dst: u32, prot: u8, msg: Vec<u8>) -> vnet::ipv4::Packet {
    build_packet(PacketBasis { dst_ip: dst, prot_num: prot, msg }, n_src)
}

#[test]
fn node_forwards_and_delivers() {
    let mut n = rip_router();
    // forwarded out of if1
    let p = packet_to(0x0a00_0002, 0x0a01_0002, PROTOCOL_TEST, b"x".to_vec());
    assert!(n.forwardable_check(&p));
    match n.forward_packet(p, 1).unwrap() {
        NodeStep::Forward(name, InterCmd::Send(q, hop)) => {
            assert_eq!(name, "if1");
            assert_eq!(hop, 0x0a01_0002);
            assert_eq!(q.header.time_to_live, 15);
        },
        other => panic!("{other:?}"),
    }
    // a test packet for the router
    let t = packet_to(0x0a00_0002, 0x0a00_0001, PROTOCOL_TEST, b"hello".to_vec());
    match n.forward_packet(t, 2).unwrap() {
        NodeStep::Delivered(Delivery::Test(q)) => assert_eq!(q.data, b"hello".to_vec()),
        other => panic!("{other:?}"),
    }
    // a packet with no time to live left is dropped
    let mut dead = packet_to(0x0a00_0002, 0x0a01_0002, PROTOCOL_TEST, Vec::new());
    dead.header.time_to_live = 0;
    assert!(matches!(n.forward_packet(dead, 3), Ok(NodeStep::Dropped)));
    // no route
    let lost = packet_to(0x0a00_0002, 0x0c00_0001, PROTOCOL_TEST, Vec::new());
    assert_eq!(n.forward_packet(lost, 4).unwrap_err(), RouteError::NoMatch);
}

#[test]
fn node_answers_rip_requests_and_learns_responses() {
    let mut n = rip_router();
    let req = packet_to(0x0a00_0002, 0x0a00_0001, PROTOCOL_RIP, serialize_rip(RipMsg::new(1, 0, Vec::new())));
    assert!(n.forwardable_check(&req));
    match n.forward_packet(req, 1).unwrap() {
        NodeStep::Delivered(Delivery::RipReply(name, InterCmd::BuildSend(pb, hop, false))) => {
            assert_eq!(name, "if0");
            assert_eq!(hop, 0x0a00_0002);
            assert_eq!(deserialize_rip(pb.msg).routes.len(), 2);
        },
        other => panic!("{other:?}"),
    }
    let resp = serialize_rip(RipMsg::new(2, 1, vec![RipRoute::new(1, 0x0b00_0000, 0xff00_0000)]));
    let p = packet_to(0x0a00_0002, 0x0a00_0001, PROTOCOL_RIP, resp);
    assert!(n.forwardable_check(&p));
    assert!(matches!(n.forward_packet(p, 50), Ok(NodeStep::Delivered(Delivery::RipApplied))));
    let r = n.forwarding_table.get(&Ipv4Net { addr: 0x0b00_0000, prefix_len: 8 }).unwrap();
    assert_eq!(r.cost, Some(2));
    assert_eq!(r.creation_time, 50);
    assert_eq!(n.forwarding_table.proper_interface(0x0b01_0203), Ok(Some(("if0".to_string(), 0x0a00_0002))));
    // a RIP command other than 1 or 2 is not taken
    let bad = packet_to(0x0a00_0002, 0x0a00_0001, PROTOCOL_RIP, serialize_rip(RipMsg::new(3, 0, Vec::new())));
    assert!(!n.forwardable_check(&bad));
    let other = packet_to(0x0a00_0002, 0x0a00_0001, 17, Vec::new());
    assert!(!n.forwardable_check(&other));
}

#[test]
fn node_expires_learned_routes() {
    let mut n = rip_router();
    let resp = serialize_rip(RipMsg::new(2, 1, vec![RipRoute::new(1, 0x0b00_0000, 0xff00_0000)]));
    let p = packet_to(0x0a00_0002, 0x0a00_0001, PROTOCOL_RIP, resp);
    n.forward_packet(p, 1_000).unwrap();
    assert!(n.run_table_check(5_000).is_empty());
    assert_eq!(n.forwarding_table.len(), 5);
    let out = n.run_table_check(13_000);
    assert_eq!(out.len(), 2);
    match &out[0].1 {
        InterCmd::BuildSend(pb, _, _) => {
            let m = deserialize_rip(pb.msg.clone());
            assert!(m.routes.iter().any(|r| r.address == 0x0b00_0000 && r.cost == 16));
        },
        other => panic!("{other:?}"),
    }
    assert!(n.forwarding_table.get(&Ipv4Net { addr: 0x0b00_0000, prefix_len: 8 }).is_none());
    assert_eq!(n.lr().len(), 2);
}

#[test]
fn interface_sends_builds_and_receives() {
    let mut i = Interface::new("if0".to_string(), 0x0a00_0001, Ipv4Net { addr: 0x0a00_0001, prefix_len: 24 }, 5000,
        vec![(0x0a00_0002, 5002)]);
    assert_eq!(i.neighbor(0x0a00_0002), Some(5002));
    assert_eq!(i.neighbor(0x0a00_0003), None);
    let pb = PacketBasis { dst_ip: 0x0a00_0002, prot_num: 0, msg: b"abc".to_vec() };
    let bytes = match i.node_cmd(InterCmd::BuildSend(pb, 0x0a00_0002, true)) {
        InterfaceAction::Transmit(bytes, port) => {
            assert_eq!(port, 5002);
            bytes
        },
        other => panic!("{other:?}"),
    };
    assert_eq!(bytes.len(), 23);
    match i.try_recv(&bytes) {
        InterfaceAction::Deliver(p) => {
            assert_eq!(p.header.source, 0x0a00_0001);
            assert_eq!(p.data, b"abc".to_vec());
        },
        other => panic!("{other:?}"),
    }
    let pb2 = PacketBasis { dst_ip: 9, prot_num: 0, msg: Vec::new() };
    assert!(matches!(i.node_cmd(InterCmd::BuildSend(pb2, 9, true)), InterfaceAction::Failed));
    assert!(matches!(i.node_cmd(InterCmd::ToggleStatus), InterfaceAction::Toggled));
    assert_eq!(i.status, InterfaceStatus::Down);
    assert!(matches!(i.try_recv(&bytes), InterfaceAction::Dropped));
    let p = build_packet(PacketBasis { dst_ip: 0x0a00_0002, prot_num: 0, msg: Vec::new() }, 1);
    assert!(matches!(i.node_cmd(InterCmd::Send(p, 0x0a00_0002)), InterfaceAction::Dropped));
    i.toggle_status();
    assert!(matches!(i.try_recv(&bytes[..10]), InterfaceAction::Dropped));
    let p = build_packet(PacketBasis { dst_ip: 0x0a00_0002, prot_num: 0, msg: vec![1] }, 1);
    match i.send(p, 0x0a00_0002) {
        InterfaceAction::Transmit(bytes, _) => assert_eq!(bytes.len(), 21),
        other => panic!("{other:?}"),
    }
}
