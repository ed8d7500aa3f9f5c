use std::collections::HashMap;
use vnet::net::{Ipv4Net, netmask_of, with_netmask};
use vnet::routing::{ForwardingTable, Route, RouteType, ForwardingOption, RouteError};
use vnet::rip::{RipRoute, RipMsg, serialize_rip, deserialize_rip, poison_routes, route_update, table_to_rip,
    update_fwd_table, neighbor_addrs, rip_bytes_ok, rip_update_check, rip_updates_check, entries_to_rip, INF};

fn net(a: u32, l: u8) -> Ipv4Net {
    Ipv4Net::new(a, l).unwrap()
}

fn inter(name: &str) -> ForwardingOption {
    ForwardingOption::Inter(name.to_string())
}

#[test]
fn netmasks() {
    assert_eq!(netmask_of(0), 0);
    assert_eq!(netmask_of(24), 0xffff_ff00);
    assert_eq!(netmask_of(32), 0xffff_ffff);
    assert_eq!(netmask_of(1), 0x8000_0000);
    assert!(Ipv4Net::new(1, 33).is_none());
    let n = net(0x0a01_0203, 24);
    assert_eq!(n.netmask(), 0xffff_ff00);
    assert_eq!(n.network(), 0x0a01_0200);
    assert_eq!(n.trunc(), net(0x0a01_0200, 24));
    assert!(n.contains(0x0a01_02ff));
    assert!(!n.contains(0x0a01_0300));
    assert_eq!(with_netmask(0x0a00_0000, 0xffff_0000), Some(net(0x0a00_0000, 16)));
    assert_eq!(with_netmask(0x0a00_0000, 0xff00_ff00), None);
}

#[test]
fn table_insert_get_remove() {
    let mut t = ForwardingTable::new();
    t.insert(net(0x0a00_0000, 8), Route::new(RouteType::Static, None, ForwardingOption::Ip(1), 0));
    t.insert(net(0x0a00_0000, 8), Route::new(RouteType::Local, Some(0), inter("if0"), 5));
    assert_eq!(t.len(), 1);
    assert_eq!(t.get(&net(0x0a00_0000, 8)).unwrap().rtype, RouteType::Local);
    assert!(t.contains_key(&net(0x0a00_0000, 8)));
    let r = t.remove(&net(0x0a00_0000, 8)).unwrap();
    assert_eq!(r.creation_time, 5);
    assert!(t.remove(&net(0x0a00_0000, 8)).is_none());
    assert_eq!(t.len(), 0);
}

#[test]
fn longest_prefix_wins() {
    let mut t = ForwardingTable::new();
    assert_eq!(t.longest_prefix(1), Err(RouteError::NoPrefixes));
    t.insert(net(0, 0), Route::new(RouteType::Static, None, ForwardingOption::Ip(0x0a00_0001), 0));
    t.insert(net(0x0a00_0000, 8), Route::new(RouteType::Local, Some(0), inter("if0"), 0));
    t.insert(net(0x0a01_0000, 16), Route::new(RouteType::Local, Some(0), inter("if1"), 0));
    assert_eq!(t.longest_prefix(0x0a01_0505), Ok(net(0x0a01_0000, 16)));
    assert_eq!(t.longest_prefix(0x0a02_0505), Ok(net(0x0a00_0000, 8)));
    assert_eq!(t.longest_prefix(0x0b00_0001), Ok(net(0, 0)));
}

#[test]
fn proper_interface_follows_next_hops() {
    let mut t = ForwardingTable::new();
    t.insert(net(0, 0), Route::new(RouteType::Static, None, ForwardingOption::Ip(0x0a00_0002), 0));
    t.insert(net(0x0a00_0000, 24), Route::new(RouteType::Local, Some(0), inter("if0"), 0));
    t.insert(net(0x0a00_0001, 32), Route::new(RouteType::ToSelf, None, ForwardingOption::ToSelf, 0));
    assert_eq!(t.proper_interface(0x0a00_0005), Ok(Some(("if0".to_string(), 0x0a00_0005))));
    assert_eq!(t.proper_interface(0x0808_0808), Ok(Some(("if0".to_string(), 0x0a00_0002))));
    assert_eq!(t.proper_interface(0x0a00_0001), Ok(None));
}

#[test]
fn proper_interface_errors() {
    let mut t = ForwardingTable::new();
    assert_eq!(t.proper_interface(1), Err(RouteError::NoPrefixes));
    t.insert(net(0x0a00_0000, 8), Route::new(RouteType::Static, None, ForwardingOption::Ip(0x0a00_0001), 0));
    assert_eq!(t.proper_interface(0x0b00_0000), Err(RouteError::NoMatch));
    assert_eq!(t.proper_interface(0x0a00_0009), Err(RouteError::Loop));
}

#[test]
fn rip_roundtrip() {
    let routes = vec![RipRoute::new(1, 0x0a00_0000, 0xff00_0000), RipRoute::new(16, 0xc0a8_0000, 0xffff_0000)];
    let m = RipMsg::new(2, 2, routes.clone());
    let bytes = serialize_rip(m);
    assert_eq!(bytes.len(), 4 + 24);
    assert_eq!(&bytes[0..4], &[0, 2, 0, 2]);
    assert_eq!(&bytes[4..16], &[0, 0, 0, 1, 10, 0, 0, 0, 255, 0, 0, 0]);
    assert!(rip_bytes_ok(&bytes));
    let back = deserialize_rip(bytes);
    assert_eq!(back.command, 2);
    assert_eq!(back.num_entries, 2);
    assert_eq!(back.routes, routes);
}

#[test]
fn rip_request_bytes() {
    let bytes = serialize_rip(RipMsg::new(1, 0, Vec::new()));
    assert_eq!(bytes, vec![0, 1, 0, 0]);
    assert!(!rip_bytes_ok(&vec![0, 2, 0, 1]));
    assert!(!rip_bytes_ok(&vec![0, 2]));
}

#[test]
fn poisoned_reverse() {
    let mut neighbors: HashMap<u32, Vec<Route>> = HashMap::new();
    neighbors.insert(0x0a00_0002, Vec::new());
    let routes = vec![
        RipRoute::new(0, 0x0a00_0000, 0xffff_ff00),
        RipRoute::new(3, 0x0b00_0000, 0xff00_0000),
        RipRoute::new(2, 0x0a00_0002, 0xffff_ffff),
        RipRoute::new(4, 0x0c00_0000, 0xff00_0000),
    ];
    let out = poison_routes(routes, &neighbors, 0x0b00_0000);
    assert_eq!(out[0].cost, 0);
    assert_eq!(out[1].cost, INF);
    assert_eq!(out[2].cost, INF);
    assert_eq!(out[3].cost, 4);
}

#[test]
fn route_update_adds_and_replaces() {
    let mut t = ForwardingTable::new();
    let mut rt = RipRoute::new(2, 0x0b01_0203, 0xffff_0000);
    assert!(rip_update_check(&t, &rt));
    let changed = route_update(&mut rt, &mut t, 0x0a00_0002, 100);
    assert_eq!(rt.cost, 3);
    assert_eq!(changed, Some(net(0x0b01_0000, 16)));
    let r = t.get(&net(0x0b01_0000, 16)).unwrap();
    assert_eq!(r.cost, Some(3));
    assert_eq!(r.rtype, RouteType::Rip);
    assert_eq!(r.creation_time, 100);
    assert!(matches!(r.next_hop, ForwardingOption::Ip(0x0a00_0002)));
    // a costlier route from elsewhere is ignored
    let mut worse = RipRoute::new(5, 0x0b01_0000, 0xffff_0000);
    assert_eq!(route_update(&mut worse, &mut t, 0x0a00_0003, 200), None);
    assert_eq!(t.get(&net(0x0b01_0000, 16)).unwrap().cost, Some(3));
    // a cheaper one replaces it
    let mut better = RipRoute::new(0, 0x0b01_0000, 0xffff_0000);
    assert_eq!(route_update(&mut better, &mut t, 0x0a00_0003, 300), Some(net(0x0b01_0000, 16)));
    assert_eq!(t.get(&net(0x0b01_0000, 16)).unwrap().cost, Some(1));
}

#[test]
fn rip_update_checks() {
    let mut t = ForwardingTable::new();
    t.insert(net(0x0a00_0001, 32), Route::new(RouteType::ToSelf, None, ForwardingOption::ToSelf, 0));
    assert!(!rip_update_check(&t, &RipRoute::new(1, 0x0a00_0001, 0xffff_ffff)));
    assert!(!rip_update_check(&t, &RipRoute::new(1, 0x0a00_0000, 0xff00_ff00)));
    assert!(!rip_update_check(&t, &RipRoute::new(u32::MAX, 0x0b00_0000, 0xff00_0000)));
    assert!(rip_updates_check(&t, &vec![RipRoute::new(1, 0x0b00_0000, 0xff00_0000)]));
    assert!(!rip_updates_check(&t, &vec![RipRoute::new(1, 0x0b00_0000, 0xff00_0000), RipRoute::new(1, 0x0a00_0001, 0xffff_ffff)]));
}

#[test]
fn table_to_rip_advertises_learned_and_local() {
    let mut t = ForwardingTable::new();
    t.insert(net(0x0a00_0000, 24), Route::new(RouteType::Local, Some(0), inter("if0"), 0));
    t.insert(net(0, 0), Route::new(RouteType::Static, None, ForwardingOption::Ip(7), 0));
    t.insert(net(0x0a00_0001, 32), Route::new(RouteType::ToSelf, None, ForwardingOption::ToSelf, 0));
    t.insert(net(0x0b00_0000, 8), Route::new(RouteType::Rip, Some(4), ForwardingOption::Ip(9), 0));
    let m = table_to_rip(&t, None);
    assert_eq!(m.command, 2);
    assert_eq!(m.num_entries, 2);
    assert_eq!(m.routes, vec![RipRoute::new(0, 0x0a00_0000, 0xffff_ff00), RipRoute::new(4, 0x0b00_0000, 0xff00_0000)]);
    let only = vec![net(0x0b00_0000, 8), net(0x0b00_0000, 8)];
    let m2 = table_to_rip(&t, Some(&only));
    assert_eq!(m2.routes, vec![RipRoute::new(4, 0x0b00_0000, 0xff00_0000)]);
    assert_eq!(entries_to_rip(&t.entries).len(), 2);
}

#[test]
fn update_fwd_table_reports_changes() {
    let mut t = ForwardingTable::new();
    let mut m = RipMsg::new(2, 2, vec![RipRoute::new(1, 0x0b00_0000, 0xff00_0000), RipRoute::new(1, 0x0c00_0000, 0xff00_0000)]);
    let ch = update_fwd_table(&mut t, &mut m, 0x0a00_0002, 10).unwrap();
    assert_eq!(ch, vec![net(0x0b00_0000, 8), net(0x0c00_0000, 8)]);
    assert_eq!(m.routes[0].cost, 2);
    let mut again = RipMsg::new(2, 1, vec![RipRoute::new(9, 0x0b00_0000, 0xff00_0000)]);
    assert!(update_fwd_table(&mut t, &mut again, 0x0a00_0009, 20).is_none());
}

#[test]
fn neighbor_addrs_lists_each_once() {
    let mut n: HashMap<u32, Vec<Route>> = HashMap::new();
    n.insert(3, Vec::new());
    n.insert(1, Vec::new());
    let mut v = neighbor_addrs(&n);
    v.sort();
    assert_eq!(v, vec![1, 3]);
}
