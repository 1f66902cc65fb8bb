use ubgp::attributes::{ASPATHSegment, ASPATHSegmentType, OriginType};
use ubgp::events::{process_update, Update};
use ubgp::fib::{Fib, FibEntry};
use ubgp::manager::{loc_rib_added, loc_rib_withdraw};
use ubgp::net::{IpAddress, IpPrefix, Ipv4Prefix};
use ubgp::nlri::Nlri;
use ubgp::rib::{PathType, PeeringType, Rib, RibUpdate, RouteAttributes};
use ubgp::session::{BGPNeighbor, BGPState};
use ubgp::types::{AddressFamily, Afi, Safi};

fn ipv4(a: u8, b: u8, c: u8, d: u8) -> u32 {
    u32::from_be_bytes([a, b, c, d])
}

fn net(a: u8, b: u8, c: u8, d: u8, plen: u8) -> Nlri {
    Nlri { net: IpPrefix::V4(Ipv4Prefix { addr: ipv4(a, b, c, d), prefix_len: plen }) }
}

fn v4_unicast() -> AddressFamily {
    AddressFamily { afi: Afi::Ipv4, safi: Safi::NLRIUnicast }
}

fn route(path: Vec<u16>, nh: u32, local_pref: Option<u32>, rid: u32) -> RouteAttributes {
    RouteAttributes {
        as_path: vec![ASPATHSegment { segment_type: ASPATHSegmentType::AsSequence, as_list: path }],
        origin: OriginType::Igp,
        next_hop: IpAddress::V4(nh),
        local_pref,
        multi_exit_disc: None,
        path_type: PathType::External,
        peer_type: PeeringType::Ebgp,
        recv_time: 0,
        peer_rid: rid,
        peer_ip: IpAddress::V4(rid),
    }
}

/// A table that reaches 10.0.0.0/8.
fn fib() -> Fib {
    let mut f = Fib::new(v4_unicast());
    f.refresh(vec![FibEntry {
        prefix: Some(IpPrefix::V4(Ipv4Prefix { addr: ipv4(10, 0, 0, 0), prefix_len: 8 })),
        next_hop: None,
        dev: Some("eth0".to_string()),
        metric: None,
        proto: 2,
    }]);
    f
}

fn update(nlris: Vec<Nlri>, attributes: RouteAttributes) -> RibUpdate {
    RibUpdate { nlris, attributes }
}

#[test]
fn new_reachable_prefix_is_stored_and_announced() {
    let mut rib = Rib::new();
    let f = fib();
    let r = route(vec![65001], ipv4(10, 0, 0, 1), None, 1);
    let changes = loc_rib_added(&mut rib, &f, 65000, &update(vec![net(192, 168, 1, 0, 24)], r));
    assert_eq!(changes.len(), 1);
    assert_eq!(changes[0].0, net(192, 168, 1, 0, 24));
    assert_eq!(changes[0].1.as_ref().unwrap().peer_rid, 1);
    assert_eq!(rib.entries.len(), 1);
    assert_eq!(rib.entries[0].routes.len(), 1);
}

#[test]
fn unreachable_next_hop_is_stored_but_not_announced() {
    let mut rib = Rib::new();
    let f = fib();
    let r = route(vec![65001], ipv4(172, 16, 0, 1), None, 1);
    let changes = loc_rib_added(&mut rib, &f, 65000, &update(vec![net(192, 168, 1, 0, 24)], r));
    assert!(changes.is_empty());
    assert_eq!(rib.entries.len(), 1);
}

#[test]
fn route_through_the_local_as_is_dropped() {
    let mut rib = Rib::new();
    let f = fib();
    let r = route(vec![65001, 65000, 65002], ipv4(10, 0, 0, 1), None, 1);
    let changes = loc_rib_added(&mut rib, &f, 65000, &update(vec![net(192, 168, 1, 0, 24)], r));
    assert!(changes.is_empty());
    assert!(rib.entries.is_empty());
}

#[test]
fn better_route_comes_first_and_is_announced() {
    let mut rib = Rib::new();
    let f = fib();
    let n = net(192, 168, 1, 0, 24);
    loc_rib_added(&mut rib, &f, 65000, &update(vec![n], route(vec![65001], ipv4(10, 0, 0, 1), Some(100), 1)));
    let changes =
        loc_rib_added(&mut rib, &f, 65000, &update(vec![n], route(vec![65002], ipv4(10, 0, 0, 2), Some(200), 2)));
    assert_eq!(changes.len(), 1);
    assert_eq!(changes[0].1.as_ref().unwrap().peer_rid, 2);
    assert_eq!(rib.entries[0].routes.len(), 2);
    assert_eq!(rib.entries[0].routes[0].local_pref, Some(200));
    assert_eq!(rib.entries[0].routes[1].local_pref, Some(100));
}

#[test]
fn worse_route_is_kept_behind_and_not_announced() {
    let mut rib = Rib::new();
    let f = fib();
    let n = net(192, 168, 1, 0, 24);
    loc_rib_added(&mut rib, &f, 65000, &update(vec![n], route(vec![65001], ipv4(10, 0, 0, 1), Some(200), 1)));
    let changes =
        loc_rib_added(&mut rib, &f, 65000, &update(vec![n], route(vec![65002], ipv4(10, 0, 0, 2), Some(100), 2)));
    assert!(changes.is_empty());
    assert_eq!(rib.entries[0].routes[0].peer_rid, 1);
    assert_eq!(rib.entries[0].routes[1].peer_rid, 2);
}

#[test]
fn withdrawal_of_the_best_route_is_announced_and_the_other_stays() {
    let mut rib = Rib::new();
    let f = fib();
    let n = net(192, 168, 1, 0, 24);
    loc_rib_added(&mut rib, &f, 65000, &update(vec![n], route(vec![65001], ipv4(10, 0, 0, 1), Some(200), 1)));
    loc_rib_added(&mut rib, &f, 65000, &update(vec![n], route(vec![65002], ipv4(10, 0, 0, 2), Some(100), 2)));
    let changes = loc_rib_withdraw(&mut rib, &f, &update(vec![n], route(vec![], 0, None, 1)));
    assert_eq!(changes.len(), 1);
    assert_eq!(changes[0].0, n);
    assert!(changes[0].1.is_none());
    assert_eq!(rib.entries[0].routes.len(), 1);
    assert_eq!(rib.entries[0].routes[0].peer_rid, 2);
}

#[test]
fn withdrawal_naming_no_prefix_removes_every_route_of_the_peer() {
    let mut rib = Rib::new();
    let f = fib();
    let r1 = route(vec![65001], ipv4(10, 0, 0, 1), None, 1);
    loc_rib_added(&mut rib, &f, 65000, &update(vec![net(192, 168, 1, 0, 24), net(192, 168, 2, 0, 24)], r1));
    let r2 = route(vec![65002], ipv4(10, 0, 0, 2), None, 2);
    loc_rib_added(&mut rib, &f, 65000, &update(vec![net(192, 168, 3, 0, 24)], r2));
    let changes = loc_rib_withdraw(&mut rib, &f, &update(vec![], route(vec![], 0, None, 1)));
    assert_eq!(changes.len(), 2);
    assert_eq!(rib.entries.len(), 1);
    assert_eq!(rib.entries[0].nlri, net(192, 168, 3, 0, 24));
}

#[test]
fn best_routes_lists_the_first_route_of_each_prefix() {
    let mut rib = Rib::new();
    let f = fib();
    let n = net(192, 168, 1, 0, 24);
    loc_rib_added(&mut rib, &f, 65000, &update(vec![n], route(vec![65001], ipv4(10, 0, 0, 1), Some(100), 1)));
    loc_rib_added(&mut rib, &f, 65000, &update(vec![n], route(vec![65002], ipv4(10, 0, 0, 2), Some(300), 2)));
    let best = rib.best_routes();
    assert_eq!(best.len(), 1);
    assert_eq!(best[0].0, n);
    assert_eq!(best[0].1.as_ref().unwrap().local_pref, Some(300));
}

#[test]
fn process_update_takes_announcements_then_withdrawals() {
    let mut rib = Rib::new();
    let f = fib();
    let msg = Update {
        added: Some(update(vec![net(192, 168, 1, 0, 24)], route(vec![65001], ipv4(10, 0, 0, 1), None, 7))),
        withdrawn: Some(update(vec![net(192, 168, 1, 0, 24)], route(vec![], 0, None, 7))),
        rid: 7,
    };
    let changes = process_update(&mut rib, &f, 65000, &msg);
    assert_eq!(changes.len(), 2);
    assert!(changes[0].1.is_some());
    assert!(changes[1].1.is_none());
    assert!(rib.entries.is_empty());
}

#[test]
fn adjrib_holds_the_last_route_received_and_forgets_withdrawn_prefixes() {
    let mut nb = BGPNeighbor::new(
        None, None, 65000, 1, Some(IpAddress::V4(ipv4(10, 0, 0, 2))), Some(179), Some(65001), 3,
        30, BGPState::Idle, Some(vec![v4_unicast()]),
    );
    let n1 = net(192, 168, 1, 0, 24);
    let n2 = net(192, 168, 2, 0, 24);
    nb.adjrib_add(v4_unicast(), &update(vec![n1, n2], route(vec![65001], ipv4(10, 0, 0, 2), Some(100), 2)));
    nb.adjrib_add(v4_unicast(), &update(vec![n1], route(vec![65001], ipv4(10, 0, 0, 2), Some(300), 2)));
    assert_eq!(nb.adjrib.len(), 1);
    let rib = &nb.adjrib[0].1;
    assert_eq!(rib.entries.len(), 2);
    let i1 = rib.find(&n1).unwrap();
    assert_eq!(rib.entries[i1].routes.len(), 1);
    assert_eq!(rib.entries[i1].routes[0].local_pref, Some(300));
    nb.adjrib_withdraw(v4_unicast(), &update(vec![n1], route(vec![], 0, None, 2)));
    let rib = &nb.adjrib[0].1;
    assert!(rib.find(&n1).is_none());
    assert!(rib.find(&n2).is_some());
}

#[test]
fn fib_lookups() {
    let f = fib();
    assert!(f.has_route(IpAddress::V4(ipv4(10, 1, 2, 3))));
    assert!(!f.has_route(IpAddress::V4(ipv4(11, 0, 0, 1))));
    let rs = vec![
        route(vec![65001], ipv4(172, 16, 0, 1), Some(300), 1),
        route(vec![65002], ipv4(10, 0, 0, 2), Some(100), 2),
    ];
    assert_eq!(f.best_reachable(&rs).unwrap().peer_rid, 2);
}

fn with(path: Vec<u16>, origin: OriginType, med: Option<u32>, rid: u32) -> RouteAttributes {
    let mut r = route(path, ipv4(10, 0, 0, 1), Some(100), rid);
    r.origin = origin;
    r.multi_exit_disc = med;
    r
}

#[test]
fn decision_process_prefers_short_paths_low_origin_low_med_and_low_identifier() {
    let short = with(vec![65001], OriginType::Igp, None, 1);
    let long = with(vec![65001, 65002], OriginType::Igp, None, 1);
    assert!(short.is_better(&long));
    assert!(!long.is_better(&short));

    let igp = with(vec![65001], OriginType::Igp, None, 1);
    let incomplete = with(vec![65001], OriginType::Incomplete, None, 1);
    assert!(igp.is_better(&incomplete));

    let low_med = with(vec![65001], OriginType::Igp, Some(10), 1);
    let high_med = with(vec![65001], OriginType::Igp, Some(20), 1);
    assert!(low_med.is_better(&high_med));

    let low_rid = with(vec![65001], OriginType::Igp, Some(10), 1);
    let high_rid = with(vec![65001], OriginType::Igp, Some(10), 2);
    assert!(low_rid.is_better(&high_rid));
}

#[test]
fn rib_takes_the_shorter_path_as_best() {
    let mut rib = Rib::new();
    let f = fib();
    let n = net(192, 168, 1, 0, 24);
    loc_rib_added(&mut rib, &f, 65000, &update(vec![n], with(vec![65001, 65003], OriginType::Igp, None, 1)));
    let changes = loc_rib_added(&mut rib, &f, 65000, &update(vec![n], with(vec![65002], OriginType::Igp, None, 2)));
    assert_eq!(changes.len(), 1);
    assert_eq!(rib.entries[0].routes[0].peer_rid, 2);
    assert_eq!(rib.best_routes()[0].1.as_ref().unwrap().peer_rid, 2);
}

#[test]
fn best_reachable_is_the_best_of_an_unsorted_list() {
    let f = fib();
    let rs = vec![
        route(vec![65001], ipv4(10, 0, 0, 1), Some(100), 1),
        route(vec![65002], ipv4(10, 0, 0, 2), Some(300), 2),
        route(vec![65003], ipv4(172, 16, 0, 1), Some(500), 3),
    ];
    assert_eq!(f.best_reachable(&rs).unwrap().peer_rid, 2);
    let none = vec![route(vec![65003], ipv4(172, 16, 0, 1), Some(500), 3)];
    assert!(f.best_reachable(&none).is_none());
}

#[test]
fn adding_for_several_prefixes_touches_only_those_prefixes() {
    let mut rib = Rib::new();
    let f = fib();
    let a = net(192, 168, 1, 0, 24);
    let b = net(192, 168, 2, 0, 24);
    let c = net(192, 168, 3, 0, 24);
    loc_rib_added(&mut rib, &f, 65000, &update(vec![a, c], route(vec![65001], ipv4(10, 0, 0, 1), Some(300), 1)));
    let changes = loc_rib_added(
        &mut rib,
        &f,
        65000,
        &update(vec![a, b], route(vec![65002], ipv4(10, 0, 0, 2), Some(100), 2)),
    );
    // Only the prefix that held no route announces the new one.
    assert_eq!(changes.len(), 1);
    assert_eq!(changes[0].0, b);
    assert_eq!(rib.entries.len(), 3);
    let rids = |n: Nlri| -> Vec<u32> {
        rib.entries.iter().find(|e| e.nlri == n).unwrap().routes.iter().map(|r| r.peer_rid).collect()
    };
    assert_eq!(rids(a), vec![1, 2]);
    assert_eq!(rids(b), vec![2]);
    assert_eq!(rids(c), vec![1]);
}
