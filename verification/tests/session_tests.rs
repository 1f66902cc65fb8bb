use ubgp::attributes::{ASPATHSegment, ASPATHSegmentType, OriginType, PathAttribute};
use ubgp::capabilities::Capabilities;
use ubgp::config::{
    default_connect_retry, default_exponential_backoff, default_keepalive_interval,
    default_max_retry_count, Neighbor,
};
use ubgp::connection::{build_update, keepalive_message, open_message};
use ubgp::fsm::{calculate_retry_delay, keepalive_interval, FsmAction, KeepaliveTick};
use ubgp::handler::{collision_detection, open_capabilities_acceptable, Collision, PeerStatus, Reaction};
use ubgp::messages::{
    BGPKeepaliveMessage, BGPMessageBody, BGPNotificationMessage, BGPOpenMessage,
    BGPUpdateMessageBuilder, Message,
};
use ubgp::net::{IpAddress, IpPrefix, Ipv4Prefix};
use ubgp::nlri::Nlri;
use ubgp::rib::{PathType, PeeringType, RouteAttributes};
use ubgp::session::{BGPNeighbor, BGPState, Event};
use ubgp::speaker::{find_neighbor_by_ip, BGPSpeaker};
use ubgp::types::{AddressFamily, Afi, ErrorCode, MessageType, Safi};

fn ipv4(a: u8, b: u8, c: u8, d: u8) -> u32 {
    u32::from_be_bytes([a, b, c, d])
}

fn net(a: u8, b: u8, c: u8, d: u8, plen: u8) -> Nlri {
    Nlri { net: IpPrefix::V4(Ipv4Prefix { addr: ipv4(a, b, c, d), prefix_len: plen }) }
}

fn v4_unicast() -> AddressFamily {
    AddressFamily { afi: Afi::Ipv4, safi: Safi::NLRIUnicast }
}

fn families_caps() -> Capabilities {
    Capabilities { multiprotocol: Some(vec![v4_unicast()]), ..Capabilities::default() }
}

fn neighbor(state: BGPState) -> BGPNeighbor {
    BGPNeighbor::new(
        Some(IpAddress::V4(ipv4(10, 0, 0, 1))),
        Some(40000),
        65000,
        ipv4(1, 1, 1, 1),
        Some(IpAddress::V4(ipv4(10, 0, 0, 2))),
        Some(179),
        Some(65001),
        90,
        30,
        state,
        Some(vec![v4_unicast()]),
    )
}

fn open_from(asn: u16, rid: u32) -> Message {
    let open = BGPOpenMessage::new(asn, rid, 90, families_caps()).unwrap();
    Message::new(MessageType::Open, BGPMessageBody::Open(open)).unwrap()
}

fn keepalive() -> Message {
    Message::new(MessageType::Keepalive, BGPMessageBody::Keepalive(BGPKeepaliveMessage::new().unwrap()))
        .unwrap()
}

#[test]
fn session_comes_up_through_the_states() {
    let mut nb = neighbor(BGPState::Idle);
    assert!(matches!(nb.process_event(Event::AutomaticStart, false), FsmAction::Nothing));
    assert_eq!(nb.attributes.state, BGPState::Active);
    assert_eq!(nb.attributes.connect_retry_counter, 0);

    assert!(matches!(nb.process_event(Event::TcpConnectionConfirmed, true), FsmAction::SendOpen));
    assert_eq!(nb.attributes.state, BGPState::OpenSent);

    let peers: Vec<PeerStatus> = vec![];
    let open = open_from(65001, ipv4(2, 2, 2, 2));
    let r = nb.process_message(&open, ipv4(1, 1, 1, 1), &peers, 65000, 0);
    assert!(matches!(r, Reaction::OpenAccepted { post_open: false }));
    assert_eq!(nb.attributes.state, BGPState::OpenConfirm);
    assert_eq!(nb.remote_rid, Some(ipv4(2, 2, 2, 2)));
    assert_eq!(nb.capabilities_received.multiprotocol, Some(vec![v4_unicast()]));

    let r = nb.process_message(&keepalive(), ipv4(1, 1, 1, 1), &peers, 65000, 0);
    assert!(matches!(r, Reaction::Established));
    assert!(nb.is_established());
    assert_eq!(nb.locrib_families(), vec![v4_unicast()]);
}

#[test]
fn open_from_the_wrong_as_is_refused() {
    let mut nb = neighbor(BGPState::OpenSent);
    let peers: Vec<PeerStatus> = vec![];
    let open = open_from(65099, ipv4(2, 2, 2, 2));
    let r = nb.process_message(&open, ipv4(1, 1, 1, 1), &peers, 65000, 0);
    assert!(matches!(r, Reaction::Post(Event::BGPOpenMsgErr)));
    assert_eq!(nb.attributes.state, BGPState::OpenSent);
}

#[test]
fn colliding_open_dumps_the_existing_session_when_the_local_identifier_is_lower() {
    let open = BGPOpenMessage::new(65001, ipv4(0, 0, 0, 5), 90, families_caps()).unwrap();
    let peers = vec![
        PeerStatus { state: BGPState::Established, remote_rid: Some(ipv4(0, 0, 0, 5)), has_channel: true },
        PeerStatus { state: BGPState::OpenSent, remote_rid: Some(ipv4(0, 0, 0, 5)), has_channel: true },
    ];
    assert_eq!(collision_detection(&open, ipv4(0, 0, 0, 9), &peers), Collision::Detected { peer: 1, dump: false });
    assert_eq!(collision_detection(&open, ipv4(0, 0, 0, 1), &peers), Collision::Detected { peer: 1, dump: true });
    let quiet = vec![PeerStatus { state: BGPState::OpenSent, remote_rid: Some(7), has_channel: true }];
    assert_eq!(collision_detection(&open, 9, &quiet), Collision::NoCollision);
    assert!(open_capabilities_acceptable(&open));
}

#[test]
fn established_session_takes_routes_and_ends_on_notification() {
    let mut nb = neighbor(BGPState::Established);
    nb.remote_rid = Some(ipv4(2, 2, 2, 2));
    let peers: Vec<PeerStatus> = vec![];
    let attrs = vec![
        PathAttribute::origin(OriginType::Igp),
        PathAttribute::aspath(vec![ASPATHSegment {
            segment_type: ASPATHSegmentType::AsSequence,
            as_list: vec![65001],
        }]),
        PathAttribute::nexthop(ipv4(10, 0, 0, 2)),
    ];
    let u = BGPUpdateMessageBuilder::default()
        .withdrawn_routes(vec![])
        .path_attributes(attrs)
        .nlri(vec![net(192, 168, 1, 0, 24)])
        .build()
        .unwrap();
    let m = Message::new(MessageType::Update, BGPMessageBody::Update(u)).unwrap();
    match nb.process_message(&m, ipv4(1, 1, 1, 1), &peers, 65000, 42) {
        Reaction::Routes { af, update } => {
            assert_eq!(af, v4_unicast());
            let added = update.added.unwrap();
            assert_eq!(added.nlris, vec![net(192, 168, 1, 0, 24)]);
            assert_eq!(added.attributes.peer_rid, ipv4(2, 2, 2, 2));
            assert_eq!(added.attributes.recv_time, 42);
            assert_eq!(added.attributes.next_hop, IpAddress::V4(ipv4(10, 0, 0, 2)));
        }
        other => panic!("unexpected {:?}", other),
    }
    assert_eq!(nb.adjrib.len(), 1);
    assert_eq!(nb.adjrib[0].1.entries.len(), 1);

    let notif = BGPNotificationMessage::new(ErrorCode::Cease, 0).unwrap();
    let m = Message::new(MessageType::Notification, BGPMessageBody::Notification(notif)).unwrap();
    match nb.process_message(&m, ipv4(1, 1, 1, 1), &peers, 65000, 43) {
        Reaction::Notified { families, withdrawal } => {
            assert_eq!(families, vec![v4_unicast()]);
            assert!(withdrawal.added.is_none());
            assert!(withdrawal.withdrawn.unwrap().nlris.is_empty());
            assert_eq!(withdrawal.rid, ipv4(2, 2, 2, 2));
        }
        other => panic!("unexpected {:?}", other),
    }
    assert_eq!(nb.attributes.state, BGPState::Idle);
    assert!(nb.adjrib.is_empty());
}

#[test]
fn keepalive_timer_counts_and_expires_past_the_hold_time() {
    let mut nb = neighbor(BGPState::Established);
    nb.attributes.hold_time = 2;
    assert_eq!(nb.keepalive_tick(), KeepaliveTick::Running);
    assert_eq!(nb.keepalive_tick(), KeepaliveTick::Running);
    assert_eq!(nb.keepalive_tick(), KeepaliveTick::Expired);
    nb.attributes.state = BGPState::Idle;
    assert_eq!(nb.keepalive_tick(), KeepaliveTick::Stop);
    assert_eq!(keepalive_interval(90), 30);
}

#[test]
fn failed_connection_counts_and_goes_idle() {
    let mut nb = neighbor(BGPState::Active);
    nb.connect_failed();
    nb.connect_failed();
    assert_eq!(nb.attributes.state, BGPState::Idle);
    assert_eq!(nb.attributes.connect_retry_counter, 2);
}

#[test]
fn retry_delay_doubles_then_stops_at_the_cap() {
    assert_eq!(calculate_retry_delay(30, 3, true), 240);
    assert_eq!(calculate_retry_delay(30, 7, true), 3600);
    assert_eq!(calculate_retry_delay(30, 7, false), 30);
}

#[test]
fn update_for_a_neighbor_groups_prefixes_by_route() {
    let mut nb = neighbor(BGPState::Established);
    nb.remote_rid = Some(ipv4(2, 2, 2, 2));
    let attrs = RouteAttributes {
        as_path: vec![],
        origin: OriginType::Igp,
        next_hop: IpAddress::V4(ipv4(10, 0, 0, 9)),
        local_pref: None,
        multi_exit_disc: None,
        path_type: PathType::External,
        peer_type: PeeringType::Ebgp,
        recv_time: 0,
        peer_rid: ipv4(3, 3, 3, 3),
        peer_ip: IpAddress::V4(ipv4(10, 0, 0, 9)),
    };
    let changes = vec![
        (net(192, 168, 1, 0, 24), Some(attrs.copy())),
        (net(192, 168, 2, 0, 24), Some(attrs.copy())),
        (net(192, 168, 3, 0, 24), None),
    ];
    let u = build_update(&nb, changes).unwrap().unwrap();
    assert_eq!(u.withdrawn_routes, vec![net(192, 168, 3, 0, 24)]);
    assert_eq!(u.nlri, vec![net(192, 168, 1, 0, 24), net(192, 168, 2, 0, 24)]);
    assert!(!u.path_attributes.is_empty());

    let none = build_update(&nb, vec![]).unwrap();
    assert!(none.is_none());

    nb.remote_rid = None;
    assert!(build_update(&nb, vec![]).is_err());
}

#[test]
fn messages_for_the_framing() {
    assert_eq!(keepalive_message(), vec![4]);
    let open = open_message(65000, ipv4(1, 1, 1, 1), 90, families_caps());
    assert_eq!(open[0], 1);
    assert_eq!(open[1], 4);
    assert_eq!(&open[2..4], &[0xFD, 0xE8]);
    assert_eq!(&open[4..6], &[0, 90]);
    assert_eq!(&open[6..10], &[1, 1, 1, 1]);
}

#[test]
fn speaker_builds_neighbors_from_configuration() {
    let sp = BGPSpeaker::new(65000, ipv4(1, 1, 1, 1), 90, ipv4(10, 0, 0, 1), 179, vec![v4_unicast()]);
    let cfg = Neighbor {
        asn: 65001,
        ip: "10.0.0.2".to_string(),
        port: 179,
        hold_time: Some(30),
        families: None,
        connect_retry: default_connect_retry(),
        keepalive_interval: default_keepalive_interval(),
        max_retry_count: default_max_retry_count(),
        exponential_backoff: default_exponential_backoff(),
    };
    let nb = sp.neighbor_from_config(&cfg, IpAddress::V4(ipv4(10, 0, 0, 2)));
    assert_eq!(nb.attributes.state, BGPState::Idle);
    assert_eq!(nb.remote_asn, Some(65001));
    assert_eq!(nb.attributes.hold_time, 30);
    assert_eq!(nb.attributes.connect_retry_time, 120);
    let ips = vec![None, Some(IpAddress::V4(ipv4(10, 0, 0, 3))), Some(IpAddress::V4(ipv4(10, 0, 0, 2)))];
    assert_eq!(find_neighbor_by_ip(&ips, IpAddress::V4(ipv4(10, 0, 0, 2))), Some(2));
    assert_eq!(find_neighbor_by_ip(&ips, IpAddress::V4(ipv4(10, 0, 0, 9))), None);
}

#[test]
fn routes_learned_from_a_neighbor_are_not_announced_back_to_it() {
    let mut nb = neighbor(BGPState::Established);
    nb.remote_rid = Some(ipv4(2, 2, 2, 2));
    let from_neighbor = RouteAttributes {
        as_path: vec![],
        origin: OriginType::Igp,
        next_hop: IpAddress::V4(ipv4(10, 0, 0, 2)),
        local_pref: None,
        multi_exit_disc: None,
        path_type: PathType::External,
        peer_type: PeeringType::Ebgp,
        recv_time: 0,
        peer_rid: ipv4(2, 2, 2, 2),
        peer_ip: IpAddress::V4(ipv4(10, 0, 0, 2)),
    };
    let changes = vec![(net(192, 168, 7, 0, 24), Some(from_neighbor))];
    assert!(build_update(&nb, changes).unwrap().is_none());
}
