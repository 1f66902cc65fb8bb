//! What a session does with the messages it receives: checking and taking
//! in an OPEN, detecting collisions, and turning UPDATE and NOTIFICATION
//! messages into work for the RIB manager.
use vstd::prelude::*;
use crate::attributes::{
    aspath_view, copy_aspath, AttributeModel, OriginType, PathAttribute, PathAttributeType,
    PathAttributeValue, SegmentModel, ValueModel,
};
use crate::capabilities::{
    capabilities_from, capabilities_of_params, capabilities_view, capability_acceptable,
    opt_params_view, BGPCapabilities, Capabilities, CapabilityModel,
};
use crate::events::Update;
use crate::messages::{BGPMessageBody, BGPOpenMessage, BGPUpdateMessage, Message};
use crate::net::IpAddress;
use crate::nlri::{MpnlriModel, MpunlriModel, Nlri};
use crate::rib::{default_route, PathType, PeeringType, RibUpdate, RouteAttributes, RouteModel};
use crate::session::{adjrib_added, adjrib_view, adjrib_wf, adjrib_withdrawn, BGPNeighbor, BGPState, Event};
use crate::types::{AddressFamily, Afi, Safi};

verus! {

/// What the path attributes of an UPDATE say of a route.
pub struct PathInfo {
    pub origin: OriginType,
    pub as_path: Seq<SegmentModel>,
    pub next_hop: IpAddress,
    pub multi_exit_disc: Option<u32>,
    pub local_pref: Option<u32>,
}

/// Reads the path attributes in order; a later attribute of a kind
/// replaces an earlier one. Before any: IGP origin, empty AS_PATH, next
/// hop `0.0.0.0`, no MED, no local preference.
pub open spec fn path_info(s: Seq<AttributeModel>) -> PathInfo
    decreases s.len(),
{
    if s.len() == 0 {
        PathInfo {
            origin: OriginType::Igp,
            as_path: Seq::empty(),
            next_hop: IpAddress::V4(0),
            multi_exit_disc: None,
            local_pref: None,
        }
    } else {
        let p = path_info(s.drop_last());
        match s.last().value {
            ValueModel::Origin(o) => PathInfo { origin: o, ..p },
            ValueModel::AsPath(a) => PathInfo { as_path: a, ..p },
            ValueModel::NextHop(n) => PathInfo { next_hop: IpAddress::V4(n), ..p },
            ValueModel::MultiExitDisc(m) => PathInfo { multi_exit_disc: Some(m), ..p },
            ValueModel::LocalPref(l) => PathInfo { local_pref: Some(l), ..p },
            _ => p,
        }
    }
}

/// The attributes of a route received from a neighbor of AS `remote_asn`
/// with router identifier `rid` at address `ip`, at time `recv_time`: what
/// its path attributes say, with the next hop `nh` instead when given. A
/// neighbor of the local AS makes an internal path over iBGP; any other an
/// external path over eBGP.
pub open spec fn received_route(
    info: PathInfo,
    local_asn: u32,
    remote_asn: u16,
    rid: u32,
    ip: IpAddress,
    nh: Option<IpAddress>,
    recv_time: u64,
) -> RouteModel {
    let ibgp = local_asn == remote_asn as u32;
    RouteModel {
        as_path: info.as_path,
        origin: info.origin,
        next_hop: match nh {
            Some(n) => n,
            None => info.next_hop,
        },
        local_pref: info.local_pref,
        multi_exit_disc: info.multi_exit_disc,
        path_type: if ibgp {
            PathType::Internal
        } else {
            PathType::External
        },
        peer_type: if ibgp {
            PeeringType::Ibgp
        } else {
            PeeringType::Ebgp
        },
        recv_time,
        peer_rid: rid,
        peer_ip: ip,
    }
}

/// The ORIGIN a route takes from its path attributes `s` is that of the
/// ORIGIN attribute at `k` when no later attribute is an ORIGIN.
pub proof fn lemma_path_info_origin(s: Seq<AttributeModel>, k: int)
    requires
        0 <= k < s.len(),
        s[k].value is Origin,
        forall|j: int| k < j < s.len() ==> !((#[trigger] s[j]).value is Origin),
    ensures
        path_info(s).origin == s[k].value->Origin_0,
    decreases s.len(),
{
    let last = s.len() - 1;
    assert(s.last() == s[last]);
    if k < last {
        let p = s.drop_last();
        assert(!(s[last].value is Origin));
        assert(p[k] == s[k]);
        assert forall|j: int| k < j < p.len() implies !((#[trigger] p[j]).value is Origin) by {
            assert(p[j] == s[j]);
        }
        lemma_path_info_origin(p, k);
    }
}

/// With no ORIGIN among the path attributes `s`, a route takes the IGP origin.
pub proof fn lemma_path_info_no_origin(s: Seq<AttributeModel>)
    requires
        forall|j: int| 0 <= j < s.len() ==> !((#[trigger] s[j]).value is Origin),
    ensures
        path_info(s).origin == OriginType::Igp,
    decreases s.len(),
{
    if s.len() > 0 {
        let p = s.drop_last();
        assert(s.last() == s[s.len() - 1]);
        assert forall|j: int| 0 <= j < p.len() implies !((#[trigger] p[j]).value is Origin) by {
            assert(p[j] == s[j]);
        }
        lemma_path_info_no_origin(p);
    }
}

/// The AS_PATH a route takes from its path attributes `s` is that of the
/// AS_PATH attribute at `k` when no later attribute is an AS_PATH.
pub proof fn lemma_path_info_as_path(s: Seq<AttributeModel>, k: int)
    requires
        0 <= k < s.len(),
        s[k].value is AsPath,
        forall|j: int| k < j < s.len() ==> !((#[trigger] s[j]).value is AsPath),
    ensures
        path_info(s).as_path == s[k].value->AsPath_0,
    decreases s.len(),
{
    let last = s.len() - 1;
    assert(s.last() == s[last]);
    if k < last {
        let p = s.drop_last();
        assert(!(s[last].value is AsPath));
        assert(p[k] == s[k]);
        assert forall|j: int| k < j < p.len() implies !((#[trigger] p[j]).value is AsPath) by {
            assert(p[j] == s[j]);
        }
        lemma_path_info_as_path(p, k);
    }
}

/// With no AS_PATH among the path attributes `s`, a route takes the empty AS_PATH.
pub proof fn lemma_path_info_no_as_path(s: Seq<AttributeModel>)
    requires
        forall|j: int| 0 <= j < s.len() ==> !((#[trigger] s[j]).value is AsPath),
    ensures
        path_info(s).as_path == Seq::<SegmentModel>::empty(),
    decreases s.len(),
{
    if s.len() > 0 {
        let p = s.drop_last();
        assert(s.last() == s[s.len() - 1]);
        assert forall|j: int| 0 <= j < p.len() implies !((#[trigger] p[j]).value is AsPath) by {
            assert(p[j] == s[j]);
        }
        lemma_path_info_no_as_path(p);
    }
}

/// The NEXT_HOP a route takes from its path attributes `s` is that of the
/// NEXT_HOP attribute at `k` when no later attribute is an NEXT_HOP.
pub proof fn lemma_path_info_next_hop(s: Seq<AttributeModel>, k: int)
    requires
        0 <= k < s.len(),
        s[k].value is NextHop,
        forall|j: int| k < j < s.len() ==> !((#[trigger] s[j]).value is NextHop),
    ensures
        path_info(s).next_hop == IpAddress::V4(s[k].value->NextHop_0),
    decreases s.len(),
{
    let last = s.len() - 1;
    assert(s.last() == s[last]);
    if k < last {
        let p = s.drop_last();
        assert(!(s[last].value is NextHop));
        assert(p[k] == s[k]);
        assert forall|j: int| k < j < p.len() implies !((#[trigger] p[j]).value is NextHop) by {
            assert(p[j] == s[j]);
        }
        lemma_path_info_next_hop(p, k);
    }
}

/// With no NEXT_HOP among the path attributes `s`, a route takes the next hop 0.0.0.0.
pub proof fn lemma_path_info_no_next_hop(s: Seq<AttributeModel>)
    requires
        forall|j: int| 0 <= j < s.len() ==> !((#[trigger] s[j]).value is NextHop),
    ensures
        path_info(s).next_hop == IpAddress::V4(0),
    decreases s.len(),
{
    if s.len() > 0 {
        let p = s.drop_last();
        assert(s.last() == s[s.len() - 1]);
        assert forall|j: int| 0 <= j < p.len() implies !((#[trigger] p[j]).value is NextHop) by {
            assert(p[j] == s[j]);
        }
        lemma_path_info_no_next_hop(p);
    }
}

/// The MULTI_EXIT_DISC a route takes from its path attributes `s` is that of the
/// MULTI_EXIT_DISC attribute at `k` when no later attribute is an MULTI_EXIT_DISC.
pub proof fn lemma_path_info_multi_exit_disc(s: Seq<AttributeModel>, k: int)
    requires
        0 <= k < s.len(),
        s[k].value is MultiExitDisc,
        forall|j: int| k < j < s.len() ==> !((#[trigger] s[j]).value is MultiExitDisc),
    ensures
        path_info(s).multi_exit_disc == Some(s[k].value->MultiExitDisc_0),
    decreases s.len(),
{
    let last = s.len() - 1;
    assert(s.last() == s[last]);
    if k < last {
        let p = s.drop_last();
        assert(!(s[last].value is MultiExitDisc));
        assert(p[k] == s[k]);
        assert forall|j: int| k < j < p.len() implies !((#[trigger] p[j]).value is MultiExitDisc) by {
            assert(p[j] == s[j]);
        }
        lemma_path_info_multi_exit_disc(p, k);
    }
}

/// With no MULTI_EXIT_DISC among the path attributes `s`, a route takes no MED.
pub proof fn lemma_path_info_no_multi_exit_disc(s: Seq<AttributeModel>)
    requires
        forall|j: int| 0 <= j < s.len() ==> !((#[trigger] s[j]).value is MultiExitDisc),
    ensures
        path_info(s).multi_exit_disc == Option::<u32>::None,
    decreases s.len(),
{
    if s.len() > 0 {
        let p = s.drop_last();
        assert(s.last() == s[s.len() - 1]);
        assert forall|j: int| 0 <= j < p.len() implies !((#[trigger] p[j]).value is MultiExitDisc) by {
            assert(p[j] == s[j]);
        }
        lemma_path_info_no_multi_exit_disc(p);
    }
}

/// The LOCAL_PREF a route takes from its path attributes `s` is that of the
/// LOCAL_PREF attribute at `k` when no later attribute is an LOCAL_PREF.
pub proof fn lemma_path_info_local_pref(s: Seq<AttributeModel>, k: int)
    requires
        0 <= k < s.len(),
        s[k].value is LocalPref,
        forall|j: int| k < j < s.len() ==> !((#[trigger] s[j]).value is LocalPref),
    ensures
        path_info(s).local_pref == Some(s[k].value->LocalPref_0),
    decreases s.len(),
{
    let last = s.len() - 1;
    assert(s.last() == s[last]);
    if k < last {
        let p = s.drop_last();
        assert(!(s[last].value is LocalPref));
        assert(p[k] == s[k]);
        assert forall|j: int| k < j < p.len() implies !((#[trigger] p[j]).value is LocalPref) by {
            assert(p[j] == s[j]);
        }
        lemma_path_info_local_pref(p, k);
    }
}

/// With no LOCAL_PREF among the path attributes `s`, a route takes no local preference.
pub proof fn lemma_path_info_no_local_pref(s: Seq<AttributeModel>)
    requires
        forall|j: int| 0 <= j < s.len() ==> !((#[trigger] s[j]).value is LocalPref),
    ensures
        path_info(s).local_pref == Option::<u32>::None,
    decreases s.len(),
{
    if s.len() > 0 {
        let p = s.drop_last();
        assert(s.last() == s[s.len() - 1]);
        assert forall|j: int| 0 <= j < p.len() implies !((#[trigger] p[j]).value is LocalPref) by {
            assert(p[j] == s[j]);
        }
        lemma_path_info_no_local_pref(p);
    }
}

/// A route received from a neighbor carries the AS_PATH, origin, MED and
/// local preference its attributes say, the next hop given (or else the
/// one its attributes say), and the neighbor's router identifier and
/// address and the time of receipt.
pub proof fn lemma_received_route_fields(
    info: PathInfo,
    local_asn: u32,
    remote_asn: u16,
    rid: u32,
    ip: IpAddress,
    nh: Option<IpAddress>,
    recv_time: u64,
)
    ensures
        ({
            let r = received_route(info, local_asn, remote_asn, rid, ip, nh, recv_time);
            &&& r.as_path == info.as_path
            &&& r.origin == info.origin
            &&& r.multi_exit_disc == info.multi_exit_disc
            &&& r.local_pref == info.local_pref
            &&& (nh matches Some(n) ==> r.next_hop == n)
            &&& (nh is None ==> r.next_hop == info.next_hop)
            &&& r.peer_rid == rid
            &&& r.peer_ip == ip
            &&& r.recv_time == recv_time
        }),
{
}

/// A route received from a neighbor of the local AS is an internal path
/// learned over iBGP; one received from a neighbor of any other AS is an
/// external path learned over eBGP.
pub proof fn lemma_received_route_peering(
    info: PathInfo,
    local_asn: u32,
    remote_asn: u16,
    rid: u32,
    ip: IpAddress,
    nh: Option<IpAddress>,
    recv_time: u64,
)
    ensures
        local_asn == remote_asn as u32 ==> received_route(info, local_asn, remote_asn, rid, ip, nh, recv_time).peer_type
            == PeeringType::Ibgp && received_route(info, local_asn, remote_asn, rid, ip, nh, recv_time).path_type
            == PathType::Internal,
        local_asn != remote_asn as u32 ==> received_route(info, local_asn, remote_asn, rid, ip, nh, recv_time).peer_type
            == PeeringType::Ebgp && received_route(info, local_asn, remote_asn, rid, ip, nh, recv_time).path_type
            == PathType::External,
{
}

impl RouteAttributes {
    /// The attributes of a route received from `nb` (see
    /// [`received_route`]); `recv_time` is the time of receipt.
    pub fn new(
        src: &Vec<PathAttribute>,
        local_asn: u32,
        nb: &BGPNeighbor,
        nh: Option<IpAddress>,
        recv_time: u64,
    ) -> (r: RouteAttributes)
        requires
            nb.remote_asn is Some,
            nb.remote_rid is Some,
            nb.remote_ip is Some,
        ensures
            r@ == received_route(
                path_info(crate::attributes::attributes_view(src@)),
                local_asn,
                nb.remote_asn.unwrap(),
                nb.remote_rid.unwrap(),
                nb.remote_ip.unwrap(),
                nh,
                recv_time,
            ),
            local_asn == nb.remote_asn.unwrap() as u32 ==> r.peer_type == PeeringType::Ibgp
                && r.path_type == PathType::Internal,
            local_asn != nb.remote_asn.unwrap() as u32 ==> r.peer_type == PeeringType::Ebgp
                && r.path_type == PathType::External,
    {
        let mut multi_exit_disc: Option<u32> = None;
        let mut local_pref: Option<u32> = None;
        let mut next_hop = IpAddress::V4(0);
        let mut as_path: Vec<crate::attributes::ASPATHSegment> = Vec::new();
        let mut origin = OriginType::Igp;
        let mut i: usize = 0;
        assert(aspath_view(as_path@) =~= Seq::<SegmentModel>::empty());
        assert(crate::attributes::attributes_view(src@.take(0)) =~= Seq::<AttributeModel>::empty());
        while i < src.len()
            invariant
                i <= src.len(),
                path_info(crate::attributes::attributes_view(src@.take(i as int))) == (PathInfo {
                    origin,
                    as_path: aspath_view(as_path@),
                    next_hop,
                    multi_exit_disc,
                    local_pref,
                }),
            decreases src.len() - i,
        {
            proof {
                assert(crate::attributes::attributes_view(src@.take(i + 1)).drop_last()
                    =~= crate::attributes::attributes_view(src@.take(i as int)));
            }
            match &src[i].value {
                PathAttributeValue::Origin(o) => {
                    origin = *o;
                },
                PathAttributeValue::AsPath(a) => {
                    as_path = copy_aspath(a);
                },
                PathAttributeValue::NextHop(n) => {
                    next_hop = IpAddress::V4(*n);
                },
                PathAttributeValue::MultiExitDisc(m) => {
                    multi_exit_disc = Some(*m);
                },
                PathAttributeValue::LocalPref(l) => {
                    local_pref = Some(*l);
                },
                _ => {},
            }
            i = i + 1;
        }
        assert(src@.take(src@.len() as int) =~= src@);
        let next_hop = match nh {
            Some(n) => n,
            None => next_hop,
        };
        let remote_asn = match nb.remote_asn {
            Some(a) => a,
            None => 0,
        };
        let peer_rid = match nb.remote_rid {
            Some(r) => r,
            None => 0,
        };
        let peer_ip = match nb.remote_ip {
            Some(a) => a,
            None => IpAddress::V4(0),
        };
        let (peer_type, path_type) = if local_asn == remote_asn as u32 {
            (PeeringType::Ibgp, PathType::Internal)
        } else {
            (PeeringType::Ebgp, PathType::External)
        };
        RouteAttributes {
            next_hop,
            multi_exit_disc,
            local_pref,
            as_path,
            origin,
            path_type,
            peer_type,
            peer_rid,
            peer_ip,
            recv_time,
        }
    }
}

/// What the speaker knows of one of its neighbors when an OPEN arrives.
#[derive(Debug, Clone, Copy, PartialEq, Eq, Structural)]
pub struct PeerStatus {
    pub state: BGPState,
    pub remote_rid: Option<u32>,
    /// The neighbor's session is running and can be sent events.
    pub has_channel: bool,
}

/// The outcome of collision detection.
#[derive(Debug, Clone, Copy, PartialEq, Eq, Structural)]
pub enum Collision {
    NoCollision,
    /// The OPEN collides with the session of neighbor `peer`; when `dump`
    /// holds, that session is to be dumped as well.
    Detected { peer: usize, dump: bool },
}

/// Neighbor `k` has a running session in OpenSent or OpenConfirm with the
/// router `rid`.
pub open spec fn collides_at(peers: Seq<PeerStatus>, rid: u32, k: int) -> bool {
    &&& peers[k].has_channel
    &&& (peers[k].state == BGPState::OpenConfirm || peers[k].state == BGPState::OpenSent)
    &&& peers[k].remote_rid == Some(rid)
}

/// The first neighbor whose session collides with an OPEN from `rid`.
pub open spec fn first_collision(peers: Seq<PeerStatus>, rid: u32) -> Option<int>
    decreases peers.len(),
{
    if peers.len() == 0 {
        None
    } else {
        match first_collision(peers.drop_last(), rid) {
            Some(k) => Some(k),
            None => if collides_at(peers, rid, peers.len() - 1) {
                Some(peers.len() - 1)
            } else {
                None
            },
        }
    }
}

/// The collision an OPEN from `rid` meets, for the speaker with router
/// identifier `local_rid`: the first colliding session, to be dumped when
/// the local identifier is the lower (the side with the lower identifier
/// closes its existing connection).
pub open spec fn collision_of(peers: Seq<PeerStatus>, rid: u32, local_rid: u32) -> Collision {
    match first_collision(peers, rid) {
        Some(k) => Collision::Detected { peer: k as usize, dump: local_rid < rid },
        None => Collision::NoCollision,
    }
}

/// Checks an OPEN against the sessions of the speaker (see
/// [`collision_of`]).
pub fn collision_detection(message: &BGPOpenMessage, local_rid: u32, peers: &Vec<PeerStatus>) -> (r:
    Collision)
    ensures
        r == collision_of(peers@, message.router_id, local_rid),
{
    let rid = message.router_id;
    let mut i: usize = 0;
    while i < peers.len()
        invariant
            i <= peers.len(),
            rid == message.router_id,
            first_collision(peers@.take(i as int), rid) is None,
        decreases peers.len() - i,
    {
        let p = peers[i];
        proof {
            assert(peers@.take(i + 1).drop_last() =~= peers@.take(i as int));
            assert(peers@.take(i + 1)[i as int] == p);
        }
        if p.has_channel && (p.state == BGPState::OpenConfirm || p.state == BGPState::OpenSent)
            && p.remote_rid == Some(rid) {
            proof {
                lemma_first_collision_prefix(peers@, i as int + 1, rid);
                assert((i as int) as usize == i);
            }
            return Collision::Detected { peer: i, dump: local_rid < rid };
        }
        i = i + 1;
    }
    assert(peers@.take(peers@.len() as int) =~= peers@);
    Collision::NoCollision
}

/// The first collision of a list whose prefix ends with the first one.
proof fn lemma_first_collision_prefix(peers: Seq<PeerStatus>, k: int, rid: u32)
    requires
        1 <= k <= peers.len(),
        first_collision(peers.take(k - 1), rid) is None,
        collides_at(peers, rid, k - 1),
    ensures
        first_collision(peers, rid) == Some(k - 1),
    decreases peers.len(),
{
    assert(peers.take(k).drop_last() =~= peers.take(k - 1));
    if k < peers.len() {
        assert(peers.drop_last().take(k) =~= peers.take(k));
        assert(peers.drop_last().take(k - 1) =~= peers.take(k - 1));
        lemma_first_collision_prefix(peers.drop_last(), k, rid);
    } else {
        assert(peers.take(k) =~= peers);
    }
}

/// The capabilities an OPEN carries can all be taken in.
pub open spec fn open_capabilities_ok(m: BGPOpenMessage) -> bool {
    forall|i: int|
        0 <= i < capabilities_of_params(opt_params_view(m.opt_params.params@)).len()
            ==> capability_acceptable(
            #[trigger] capabilities_of_params(opt_params_view(m.opt_params.params@))[i],
        )
}

/// Whether the capabilities an OPEN carries can all be taken in.
pub fn open_capabilities_acceptable(m: &BGPOpenMessage) -> (r: bool)
    ensures
        r == open_capabilities_ok(*m),
{
    let caps = BGPCapabilities::from_optional_parameters(&m.opt_params);
    let r = caps.all_acceptable();
    proof {
        let cs = capabilities_of_params(opt_params_view(m.opt_params.params@));
        assert(forall|i: int| 0 <= i < caps.params@.len() ==> capabilities_view(caps.params@)[i]
            == #[trigger] caps.params@[i]@);
        if r {
            assert forall|i: int| 0 <= i < cs.len() implies capability_acceptable(#[trigger] cs[i]) by {
                assert(cs[i] == caps.params@[i]@);
            }
        } else {
            let k = choose|k: int|
                0 <= k < caps.params@.len() && !capability_acceptable(#[trigger] caps.params@[k]@);
            assert(cs[k] == caps.params@[k]@);
        }
    }
    r
}

/// An OPEN is acceptable from a neighbor whose AS is unknown or equal to
/// the one the OPEN announces.
pub open spec fn open_valid(remote_asn: Option<u16>, m: BGPOpenMessage) -> bool {
    match remote_asn {
        Some(a) => a == m.asn,
        None => true,
    }
}

/// The neighbor once it has taken in an accepted OPEN: the hold time,
/// router identifier and AS of the OPEN, state OpenConfirm, and the
/// capabilities the OPEN carries.
pub open spec fn opened(nb: BGPNeighbor, m: BGPOpenMessage) -> BGPNeighbor {
    BGPNeighbor {
        remote_rid: Some(m.router_id),
        remote_asn: Some(m.asn),
        attributes: crate::session::BGPSessionAttributes {
            hold_time: m.hold_time,
            state: BGPState::OpenConfirm,
            ..nb.attributes
        },
        ..nb
    }
}

/// What a session does after a message, beyond its own changes.
#[derive(Debug)]
pub enum Reaction {
    /// Nothing more.
    Nothing,
    /// Post this event to the session's own queue.
    Post(Event),
    /// The OPEN collided: post `OpenCollisionDump` to the session's own
    /// queue, and to the queue of neighbor `notify_peer` when given (first).
    Collided { notify_peer: Option<usize> },
    /// The OPEN was taken in: start the keepalive timer, and post `BGPOpen`
    /// when `post_open` holds.
    OpenAccepted { post_open: bool },
    /// The session is established: send the local RIB to the neighbor.
    Established,
    /// A NOTIFICATION ended the session: send `withdrawal` to the RIB
    /// manager of each of `families` that has one, then post
    /// `TcpConnectionFails`.
    Notified { families: Vec<AddressFamily>, withdrawal: Update },
    /// Routes were received: send `update` to the RIB manager of `af`.
    Routes { af: AddressFamily, update: Update },
}

impl BGPNeighbor {
    /// Whether an OPEN is acceptable (see [`open_valid`]).
    pub fn validate_open(&self, message: &BGPOpenMessage) -> (r: bool)
        ensures
            r == open_valid(self.remote_asn, *message),
    {
        match self.remote_asn {
            Some(configured_asn) => configured_asn == message.asn,
            None => true,
        }
    }

    /// Takes in an accepted OPEN (see [`opened`]); the capabilities
    /// received are those the OPEN carries.
    pub fn update_from_open(&mut self, message: &BGPOpenMessage)
        requires
            open_capabilities_ok(*message),
        ensures
            final(self).capabilities_received@ == capabilities_from(
                capabilities_of_params(opt_params_view(message.opt_params.params@)),
            ),
            *final(self) == (BGPNeighbor {
                capabilities_received: final(self).capabilities_received,
                ..opened(*old(self), *message)
            }),
    {
        self.attributes.hold_time = message.hold_time;
        self.remote_rid = Some(message.router_id);
        self.remote_asn = Some(message.asn);
        self.attributes.state = BGPState::OpenConfirm;
        let caps = BGPCapabilities::from_optional_parameters(&message.opt_params);
        proof {
            let cs = capabilities_of_params(opt_params_view(message.opt_params.params@));
            assert forall|i: int| 0 <= i < caps.params@.len() implies capability_acceptable(
                #[trigger] caps.params@[i]@,
            ) by {
                assert(capabilities_view(caps.params@)[i] == caps.params@[i]@);
                assert(cs[i] == caps.params@[i]@);
            }
        }
        self.capabilities_received = Capabilities::from_capabilities(&caps);
    }

    /// A KEEPALIVE arrived: the keepalive timer starts again.
    pub fn handle_keepalive(&mut self)
        ensures
            *final(self) == (BGPNeighbor {
                attributes: crate::session::BGPSessionAttributes {
                    keepalive_timer: 0,
                    ..old(self).attributes
                },
                ..*old(self)
            }),
    {
        self.attributes.keepalive_timer = 0;
    }
}

/// The value of the first multiprotocol attribute among `s`, if any.
pub open spec fn first_mp(s: Seq<AttributeModel>) -> Option<ValueModel>
    decreases s.len(),
{
    if s.len() == 0 {
        None
    } else if s[0].type_code == PathAttributeType::MPReachableNLRI || s[0].type_code
        == PathAttributeType::MPUnreachableNLRI {
        Some(s[0].value)
    } else {
        first_mp(s.drop_first())
    }
}

/// IPv4 unicast.
pub open spec fn ipv4_unicast() -> AddressFamily {
    AddressFamily { afi: Afi::Ipv4, safi: Safi::NLRIUnicast }
}

/// What an UPDATE announces and withdraws: the family, the announced
/// prefixes, the withdrawn prefixes and the next hop to use. A
/// multiprotocol attribute (the first one) decides them; without one, the
/// IPv4 unicast prefixes of the message are taken.
pub open spec fn update_routes(u: crate::messages::UpdateModel) -> (
    AddressFamily,
    Seq<Nlri>,
    Seq<Nlri>,
    Option<IpAddress>,
) {
    match first_mp(u.path_attributes) {
        Some(ValueModel::MPReachableNLRI(n)) => (n.af, n.nlris, Seq::empty(), Some(n.nh)),
        Some(ValueModel::MPUnreachableNLRI(n)) => (n.af, Seq::empty(), n.nlris, None),
        _ => (ipv4_unicast(), u.nlri, u.withdrawn_routes, None),
    }
}

/// The received routes of a neighbor once an UPDATE is taken in: the
/// withdrawn prefixes go first, then the announced ones come in.
pub open spec fn adjrib_after_update(
    a: Seq<(AddressFamily, Seq<crate::rib::EntryModel>)>,
    af: AddressFamily,
    added: Seq<Nlri>,
    withdrawn: Seq<Nlri>,
    attrs: RouteModel,
) -> Seq<(AddressFamily, Seq<crate::rib::EntryModel>)> {
    let a1 = if withdrawn.len() > 0 {
        adjrib_withdrawn(a, af, withdrawn)
    } else {
        a
    };
    if added.len() > 0 {
        adjrib_added(a1, af, added, attrs)
    } else {
        a1
    }
}

/// The attributes of the routes that withdraw everything a neighbor sent:
/// the defaults, with the neighbor's router identifier.
pub open spec fn withdrawal_route(rid: u32) -> RouteModel {
    RouteModel { peer_rid: rid, ..default_route() }
}

impl BGPNeighbor {
    /// A NOTIFICATION arrived: the session goes Idle and forgets the routes
    /// received. Returns the families to withdraw the neighbor's routes
    /// from (those advertised, or IPv4 unicast) and the withdrawal: no
    /// prefix named, which withdraws all the neighbor's routes.
    pub fn handle_notification(&mut self) -> (r: (Vec<AddressFamily>, Update))
        ensures
            r.0@ == match old(self).capabilities_advertised@.multiprotocol {
                Some(v) => v,
                None => seq![ipv4_unicast()],
            },
            r.1.added is None,
            r.1.withdrawn matches Some(w) && w.nlris@.len() == 0 && w.attributes@
                == withdrawal_route(old(self).remote_rid.unwrap_or(0)),
            r.1.rid == old(self).remote_rid.unwrap_or(0),
            final(self).adjrib@.len() == 0,
            *final(self) == (BGPNeighbor {
                attributes: crate::session::BGPSessionAttributes {
                    state: BGPState::Idle,
                    ..old(self).attributes
                },
                adjrib: final(self).adjrib,
                ..*old(self)
            }),
    {
        let remote_rid = match self.remote_rid {
            Some(r) => r,
            None => 0,
        };
        let families = match &self.capabilities_advertised.multiprotocol {
            Some(v) => v.clone(),
            None => {
                let mut v: Vec<AddressFamily> = Vec::new();
                v.push(AddressFamily { afi: Afi::Ipv4, safi: Safi::NLRIUnicast });
                v
            },
        };
        proof {
            if old(self).capabilities_advertised.multiprotocol is None {
                assert(families@ =~= seq![ipv4_unicast()]);
            }
        }
        let mut attr = RouteAttributes::default();
        attr.peer_rid = remote_rid;
        let msg = Update {
            added: None,
            withdrawn: Some(RibUpdate { nlris: Vec::new(), attributes: attr }),
            rid: remote_rid,
        };
        self.attributes.state = BGPState::Idle;
        self.adjrib.clear();
        (families, msg)
    }

    /// An UPDATE arrived: records what it withdraws and announces (see
    /// [`update_routes`]) among the routes received, with attributes read
    /// from its path attributes, and returns the family and the update to
    /// send to the RIB manager.
    pub fn handle_update(&mut self, m: &BGPUpdateMessage, local_asn: u16, recv_time: u64) -> (r: (
        AddressFamily,
        Update,
    ))
        requires
            old(self).remote_asn is Some,
            old(self).remote_rid is Some,
            old(self).remote_ip is Some,
            adjrib_wf(old(self).adjrib@),
        ensures
            ({
                let (af, ns, ws, nh) = update_routes(m@);
                let attrs = received_route(
                    path_info(m@.path_attributes),
                    local_asn as u32,
                    old(self).remote_asn.unwrap(),
                    old(self).remote_rid.unwrap(),
                    old(self).remote_ip.unwrap(),
                    nh,
                    recv_time,
                );
                &&& r.0 == af
                &&& r.1.rid == old(self).remote_rid.unwrap()
                &&& ws.len() == 0 ==> r.1.withdrawn is None
                &&& ws.len() > 0 ==> (r.1.withdrawn matches Some(w) && w.nlris@ == ws
                    && w.attributes@ == attrs)
                &&& ns.len() == 0 ==> r.1.added is None
                &&& ns.len() > 0 ==> (r.1.added matches Some(a) && a.nlris@ == ns
                    && a.attributes@ == attrs)
                &&& adjrib_view(final(self).adjrib@) == adjrib_after_update(
                    adjrib_view(old(self).adjrib@),
                    af,
                    ns,
                    ws,
                    attrs,
                )
            }),
            adjrib_wf(final(self).adjrib@),
            *final(self) == (BGPNeighbor { adjrib: final(self).adjrib, ..*old(self) }),
    {
        let ghost attrs_view = crate::attributes::attributes_view(m.path_attributes@);
        let mut k: usize = 0;
        let mut found: Option<usize> = None;
        assert(attrs_view.skip(0) =~= attrs_view);
        while k < m.path_attributes.len()
            invariant_except_break
                found is None,
            invariant
                k <= m.path_attributes.len(),
                attrs_view == crate::attributes::attributes_view(m.path_attributes@),
                first_mp(attrs_view) == first_mp(attrs_view.skip(k as int)),
            ensures
                found is None ==> k == m.path_attributes.len(),
                found matches Some(idx) ==> idx < m.path_attributes.len() && first_mp(attrs_view)
                    == Some(attrs_view[idx as int].value),
            decreases m.path_attributes.len() - k,
        {
            proof {
                assert(attrs_view.skip(k as int).drop_first() =~= attrs_view.skip(k + 1));
            }
            let t = m.path_attributes[k].type_code;
            if t == PathAttributeType::MPReachableNLRI || t == PathAttributeType::MPUnreachableNLRI {
                found = Some(k);
                break;
            }
            k = k + 1;
        }
        let mut af = AddressFamily { afi: Afi::Ipv4, safi: Safi::NLRIUnicast };
        let mut nlris: Vec<Nlri> = Vec::new();
        let mut withdrawn: Vec<Nlri> = Vec::new();
        let mut nh: Option<IpAddress> = None;
        let mut fallback = true;
        match found {
            Some(idx) => {
                match &m.path_attributes[idx].value {
                    PathAttributeValue::MPReachableNLRI(n) => {
                        nlris = n.nlris.clone();
                        nh = Some(n.nh);
                        af = n.af;
                        fallback = false;
                    },
                    PathAttributeValue::MPUnreachableNLRI(n) => {
                        withdrawn = n.nlris.clone();
                        af = n.af;
                        fallback = false;
                    },
                    _ => {},
                }
            },
            None => {},
        }
        if fallback {
            nlris = m.nlri.clone();
            withdrawn = m.withdrawn_routes.clone();
        }
        proof {
            if found is None {
                assert(attrs_view.skip(k as int) =~= Seq::<AttributeModel>::empty());
            }
        }
        let attributes = RouteAttributes::new(&m.path_attributes, local_asn as u32, self, nh, recv_time);
        proof {
            let (af0, ns0, ws0, nh0) = update_routes(m@);
            assert(af == af0);
            assert(nlris@ == ns0);
            assert(withdrawn@ == ws0);
            assert(nh == nh0);
        }
        let mut msg = Update { added: None, withdrawn: None, rid: 0 };
        if withdrawn.len() > 0 {
            let updates = RibUpdate { nlris: withdrawn, attributes: attributes.copy() };
            self.adjrib_withdraw(af, &updates);
            msg.withdrawn = Some(updates);
        }
        if nlris.len() > 0 {
            let updates = RibUpdate { nlris, attributes };
            self.adjrib_add(af, &updates);
            msg.added = Some(updates);
        }
        msg.rid = match self.remote_rid {
            Some(r) => r,
            None => 0,
        };
        (af, msg)
    }
}

/// An OPEN taken in by a session needs acceptable capabilities: those of
/// an OPEN that neither collides nor is refused.
pub open spec fn open_needs(
    nb: BGPNeighbor,
    b: BGPOpenMessage,
    local_rid: u32,
    peers: Seq<PeerStatus>,
) -> bool {
    collision_of(peers, b.router_id, local_rid) is NoCollision && open_valid(nb.remote_asn, b)
        ==> open_capabilities_ok(b)
}

/// What a session in state Active or OpenSent does with an OPEN: a
/// collision is reported (dumping the colliding session when the local
/// identifier is the lower); else a refused OPEN posts `BGPOpenMsgErr`;
/// else the OPEN is taken in.
pub open spec fn open_outcome(
    nb: BGPNeighbor,
    b: BGPOpenMessage,
    local_rid: u32,
    peers: Seq<PeerStatus>,
    post_open: bool,
    r: Reaction,
    after: BGPNeighbor,
) -> bool {
    match collision_of(peers, b.router_id, local_rid) {
        Collision::Detected { peer, dump } => (r matches Reaction::Collided { notify_peer }
            && notify_peer == if dump {
            Some(peer)
        } else {
            None
        }) && after == nb,
        Collision::NoCollision => if !open_valid(nb.remote_asn, b) {
            r matches Reaction::Post(Event::BGPOpenMsgErr) && after == nb
        } else {
            &&& r matches Reaction::OpenAccepted { post_open: p } && p == post_open
            &&& after.capabilities_received@ == capabilities_from(
                capabilities_of_params(opt_params_view(b.opt_params.params@)),
            )
            &&& after == (BGPNeighbor {
                capabilities_received: after.capabilities_received,
                ..opened(nb, b)
            })
        },
    }
}

/// What a session in state Active does with a message: an OPEN is handled
/// and, when taken in, `BGPOpen` is posted; a NOTIFICATION posts
/// `NotifMsg`; anything else is ignored.
pub open spec fn active_outcome(
    nb: BGPNeighbor,
    m: Message,
    local_rid: u32,
    peers: Seq<PeerStatus>,
    r: Reaction,
    after: BGPNeighbor,
) -> bool {
    match m.body {
        BGPMessageBody::Open(b) => open_outcome(nb, b, local_rid, peers, true, r, after),
        BGPMessageBody::Notification(_) => r matches Reaction::Post(Event::NotifMsg) && after == nb,
        _ => r matches Reaction::Nothing && after == nb,
    }
}

/// The neighbor with its keepalive timer started again.
pub open spec fn keepalive_reset(nb: BGPNeighbor) -> BGPNeighbor {
    BGPNeighbor {
        attributes: crate::session::BGPSessionAttributes { keepalive_timer: 0, ..nb.attributes },
        ..nb
    }
}

/// What a session in state OpenSent does with a message: a KEEPALIVE
/// restarts the keepalive timer; an OPEN is handled; a NOTIFICATION is
/// ignored; an UPDATE posts `NotifMsg`.
pub open spec fn opensent_outcome(
    nb: BGPNeighbor,
    m: Message,
    local_rid: u32,
    peers: Seq<PeerStatus>,
    r: Reaction,
    after: BGPNeighbor,
) -> bool {
    match m.body {
        BGPMessageBody::Keepalive(_) => r matches Reaction::Nothing && after == keepalive_reset(nb),
        BGPMessageBody::Open(b) => open_outcome(nb, b, local_rid, peers, false, r, after),
        BGPMessageBody::Notification(_) => r matches Reaction::Nothing && after == nb,
        BGPMessageBody::Update(_) => r matches Reaction::Post(Event::NotifMsg) && after == nb,
    }
}

/// What a session in state OpenConfirm does with a message: a KEEPALIVE
/// restarts the keepalive timer and establishes the session; a
/// NOTIFICATION posts `NotifMsg`; anything else is ignored.
pub open spec fn openconfirm_outcome(nb: BGPNeighbor, m: Message, r: Reaction, after: BGPNeighbor) -> bool {
    match m.body {
        BGPMessageBody::Keepalive(_) => r matches Reaction::Established && after == (BGPNeighbor {
            attributes: crate::session::BGPSessionAttributes {
                keepalive_timer: 0,
                state: BGPState::Established,
                ..nb.attributes
            },
            ..nb
        }),
        BGPMessageBody::Notification(_) => r matches Reaction::Post(Event::NotifMsg) && after == nb,
        _ => r matches Reaction::Nothing && after == nb,
    }
}

/// What a session in state Established does with a message: a KEEPALIVE
/// restarts the keepalive timer; a NOTIFICATION ends the session (its
/// routes are to be withdrawn); an UPDATE brings routes; an OPEN is
/// ignored.
pub open spec fn established_outcome(
    nb: BGPNeighbor,
    m: Message,
    local_asn: u16,
    recv_time: u64,
    r: Reaction,
    after: BGPNeighbor,
) -> bool {
    match m.body {
        BGPMessageBody::Keepalive(_) => r matches Reaction::Nothing && after == keepalive_reset(nb),
        BGPMessageBody::Notification(_) => {
            &&& r matches Reaction::Notified { families, withdrawal }
            &&& families@ == match nb.capabilities_advertised@.multiprotocol {
                Some(v) => v,
                None => seq![ipv4_unicast()],
            }
            &&& withdrawal.added is None
            &&& withdrawal.withdrawn matches Some(w) && w.nlris@.len() == 0 && w.attributes@
                == withdrawal_route(nb.remote_rid.unwrap_or(0))
            &&& withdrawal.rid == nb.remote_rid.unwrap_or(0)
            &&& after.adjrib@.len() == 0
            &&& after == (BGPNeighbor {
                attributes: crate::session::BGPSessionAttributes {
                    state: BGPState::Idle,
                    ..nb.attributes
                },
                adjrib: after.adjrib,
                ..nb
            })
        },
        BGPMessageBody::Update(u) => {
            let (af, ns, ws, nh) = update_routes(u@);
            let attrs = received_route(
                path_info(u@.path_attributes),
                local_asn as u32,
                nb.remote_asn.unwrap(),
                nb.remote_rid.unwrap(),
                nb.remote_ip.unwrap(),
                nh,
                recv_time,
            );
            &&& r matches Reaction::Routes { af: af2, update }
            &&& af2 == af
            &&& update.rid == nb.remote_rid.unwrap()
            &&& ws.len() == 0 ==> update.withdrawn is None
            &&& ws.len() > 0 ==> (update.withdrawn matches Some(w) && w.nlris@ == ws
                && w.attributes@ == attrs)
            &&& ns.len() == 0 ==> update.added is None
            &&& ns.len() > 0 ==> (update.added matches Some(a) && a.nlris@ == ns && a.attributes@
                == attrs)
            &&& adjrib_view(after.adjrib@) == adjrib_after_update(
                adjrib_view(nb.adjrib@),
                af,
                ns,
                ws,
                attrs,
            )
            &&& after == (BGPNeighbor { adjrib: after.adjrib, ..nb })
        },
        BGPMessageBody::Open(_) => r matches Reaction::Nothing && after == nb,
    }
}

/// The families of `adv` that `rec` holds too, in the order of `adv`.
pub open spec fn common_families(adv: Seq<AddressFamily>, rec: Seq<AddressFamily>) -> Seq<
    AddressFamily,
>
    decreases adv.len(),
{
    if adv.len() == 0 {
        Seq::empty()
    } else {
        let rest = common_families(adv.drop_last(), rec);
        if rec.contains(adv.last()) {
            rest.push(adv.last())
        } else {
            rest
        }
    }
}

/// A family is sent the local RIB exactly when it was advertised locally
/// and received from the neighbor.
pub proof fn lemma_common_families(adv: Seq<AddressFamily>, rec: Seq<AddressFamily>, f: AddressFamily)
    ensures
        common_families(adv, rec).contains(f) <==> adv.contains(f) && rec.contains(f),
    decreases adv.len(),
{
    if adv.len() > 0 {
        let p = adv.drop_last();
        lemma_common_families(p, rec, f);
        let rest = common_families(p, rec);
        let last = adv.len() - 1;
        if rest.contains(f) {
            let k = choose|k: int| 0 <= k < rest.len() && rest[k] == f;
            assert(rest.push(adv.last())[k] == f);
        }
        if common_families(adv, rec).contains(f) && !rest.contains(f) {
            assert(f == adv.last());
            assert(adv[last] == f);
        }
        if adv.contains(f) && rec.contains(f) {
            let k = choose|k: int| 0 <= k < adv.len() && adv[k] == f;
            if k < last {
                assert(p[k] == f);
            } else {
                assert(rest.push(adv.last())[rest.len() as int] == f);
            }
        }
        if p.contains(f) {
            let k = choose|k: int| 0 <= k < p.len() && p[k] == f;
            assert(adv[k] == f);
        }
    }
}

/// What a message needs to be handled without failing: an OPEN to take in
/// carries acceptable capabilities, and an UPDATE reaches a session that
/// knows its peer's AS, identifier and address.
pub open spec fn message_needs(
    nb: BGPNeighbor,
    m: Message,
    local_rid: u32,
    peers: Seq<PeerStatus>,
) -> bool {
    &&& (nb.attributes.state == BGPState::Active || nb.attributes.state == BGPState::OpenSent)
        ==> (m.body matches BGPMessageBody::Open(b) ==> open_needs(nb, b, local_rid, peers))
    &&& (nb.attributes.state == BGPState::Established && m.body is Update) ==> (nb.remote_asn is Some
        && nb.remote_rid is Some && nb.remote_ip is Some)
    &&& adjrib_wf(nb.adjrib@)
}

impl BGPNeighbor {
    /// Handles an OPEN in state Active or OpenSent (see [`open_outcome`]).
    fn handle_open(
        &mut self,
        body: &BGPOpenMessage,
        local_rid: u32,
        peers: &Vec<PeerStatus>,
        post_open: bool,
    ) -> (r: Reaction)
        requires
            open_needs(*old(self), *body, local_rid, peers@),
        ensures
            open_outcome(*old(self), *body, local_rid, peers@, post_open, r, *final(self)),
    {
        match collision_detection(body, local_rid, peers) {
            Collision::Detected { peer, dump } => {
                let notify_peer = if dump {
                    Some(peer)
                } else {
                    None
                };
                Reaction::Collided { notify_peer }
            },
            Collision::NoCollision => {
                if !self.validate_open(body) {
                    Reaction::Post(Event::BGPOpenMsgErr)
                } else {
                    self.update_from_open(body);
                    Reaction::OpenAccepted { post_open }
                }
            },
        }
    }

    /// A message in state Active (see [`active_outcome`]).
    pub fn process_message_active(
        &mut self,
        m: &Message,
        local_rid: u32,
        peers: &Vec<PeerStatus>,
    ) -> (r: Reaction)
        requires
            m.body matches BGPMessageBody::Open(b) ==> open_needs(*old(self), b, local_rid, peers@),
        ensures
            active_outcome(*old(self), *m, local_rid, peers@, r, *final(self)),
    {
        match &m.body {
            BGPMessageBody::Open(body) => self.handle_open(body, local_rid, peers, true),
            BGPMessageBody::Notification(_) => Reaction::Post(Event::NotifMsg),
            _ => Reaction::Nothing,
        }
    }

    /// A message in state Connect is ignored.
    pub fn process_message_connect(&self, m: &Message) -> (r: Reaction)
        ensures
            r matches Reaction::Nothing,
    {
        Reaction::Nothing
    }

    /// A message in state Idle is ignored.
    pub fn process_message_idle(&self, m: &Message) -> (r: Reaction)
        ensures
            r matches Reaction::Nothing,
    {
        Reaction::Nothing
    }

    /// A message in state OpenSent (see [`opensent_outcome`]).
    pub fn process_message_opensent(
        &mut self,
        m: &Message,
        local_rid: u32,
        peers: &Vec<PeerStatus>,
    ) -> (r: Reaction)
        requires
            m.body matches BGPMessageBody::Open(b) ==> open_needs(*old(self), b, local_rid, peers@),
        ensures
            opensent_outcome(*old(self), *m, local_rid, peers@, r, *final(self)),
    {
        match &m.body {
            BGPMessageBody::Keepalive(_) => {
                self.handle_keepalive();
                Reaction::Nothing
            },
            BGPMessageBody::Open(body) => self.handle_open(body, local_rid, peers, false),
            BGPMessageBody::Notification(_) => Reaction::Nothing,
            BGPMessageBody::Update(_) => Reaction::Post(Event::NotifMsg),
        }
    }

    /// A message in state OpenConfirm (see [`openconfirm_outcome`]).
    pub fn process_message_openconfirm(&mut self, m: &Message) -> (r: Reaction)
        ensures
            openconfirm_outcome(*old(self), *m, r, *final(self)),
    {
        match &m.body {
            BGPMessageBody::Keepalive(_) => {
                self.handle_keepalive();
                self.attributes.state = BGPState::Established;
                Reaction::Established
            },
            BGPMessageBody::Notification(_) => Reaction::Post(Event::NotifMsg),
            _ => Reaction::Nothing,
        }
    }

    /// A message in state Established (see [`established_outcome`]).
    pub fn process_message_established(&mut self, m: &Message, local_asn: u16, recv_time: u64) -> (r:
        Reaction)
        requires
            m.body is Update ==> (old(self).remote_asn is Some && old(self).remote_rid is Some
                && old(self).remote_ip is Some),
            adjrib_wf(old(self).adjrib@),
        ensures
            adjrib_wf(final(self).adjrib@),
            established_outcome(*old(self), *m, local_asn, recv_time, r, *final(self)),
    {
        match &m.body {
            BGPMessageBody::Keepalive(_) => {
                self.handle_keepalive();
                Reaction::Nothing
            },
            BGPMessageBody::Notification(_) => {
                let (families, withdrawal) = self.handle_notification();
                proof {
                    assert(adjrib_wf(self.adjrib@));
                }
                Reaction::Notified { families, withdrawal }
            },
            BGPMessageBody::Update(body) => {
                let (af, update) = self.handle_update(body, local_asn, recv_time);
                Reaction::Routes { af, update }
            },
            BGPMessageBody::Open(_) => Reaction::Nothing,
        }
    }

    /// A message received by the session, handled as its state says: see
    /// [`active_outcome`], [`opensent_outcome`], [`openconfirm_outcome`]
    /// and [`established_outcome`]; in Connect and Idle it is ignored.
    /// `peers` describes the sessions of the speaker for collision
    /// detection; `recv_time` is the time of receipt.
    pub fn process_message(
        &mut self,
        m: &Message,
        local_rid: u32,
        peers: &Vec<PeerStatus>,
        local_asn: u16,
        recv_time: u64,
    ) -> (r: Reaction)
        requires
            message_needs(*old(self), *m, local_rid, peers@),
        ensures
            adjrib_wf(final(self).adjrib@),
            match old(self).attributes.state {
                BGPState::Active => active_outcome(*old(self), *m, local_rid, peers@, r, *final(self)),
                BGPState::OpenSent => opensent_outcome(
                    *old(self),
                    *m,
                    local_rid,
                    peers@,
                    r,
                    *final(self),
                ),
                BGPState::OpenConfirm => openconfirm_outcome(*old(self), *m, r, *final(self)),
                BGPState::Established => established_outcome(
                    *old(self),
                    *m,
                    local_asn,
                    recv_time,
                    r,
                    *final(self),
                ),
                _ => r matches Reaction::Nothing && *final(self) == *old(self),
            },
    {
        match self.attributes.state {
            BGPState::Active => self.process_message_active(m, local_rid, peers),
            BGPState::Connect => self.process_message_connect(m),
            BGPState::OpenConfirm => self.process_message_openconfirm(m),
            BGPState::OpenSent => self.process_message_opensent(m, local_rid, peers),
            BGPState::Established => self.process_message_established(m, local_asn, recv_time),
            BGPState::Idle => self.process_message_idle(m),
        }
    }

    /// The families whose local routes are sent once the session is
    /// established: those advertised that the neighbor also advertised, in
    /// the order advertised.
    pub fn locrib_families(&self) -> (r: Vec<AddressFamily>)
        requires
            self.capabilities_advertised.multiprotocol is Some,
            self.capabilities_received.multiprotocol is Some,
        ensures
            r@ == common_families(
                self.capabilities_advertised.multiprotocol.unwrap()@,
                self.capabilities_received.multiprotocol.unwrap()@,
            ),
            forall|f: AddressFamily|
                r@.contains(f) <==> self.capabilities_advertised.multiprotocol.unwrap()@.contains(f)
                    && self.capabilities_received.multiprotocol.unwrap()@.contains(f),
    {
        proof {
            assert forall|f: AddressFamily|
                common_families(
                    self.capabilities_advertised.multiprotocol.unwrap()@,
                    self.capabilities_received.multiprotocol.unwrap()@,
                ).contains(f) <==> self.capabilities_advertised.multiprotocol.unwrap()@.contains(f)
                    && self.capabilities_received.multiprotocol.unwrap()@.contains(f) by {
                lemma_common_families(
                    self.capabilities_advertised.multiprotocol.unwrap()@,
                    self.capabilities_received.multiprotocol.unwrap()@,
                    f,
                );
            }
        }
        let adv = match &self.capabilities_advertised.multiprotocol {
            Some(v) => v,
            None => {
                return Vec::new();
            },
        };
        let rec = match &self.capabilities_received.multiprotocol {
            Some(v) => v,
            None => {
                return Vec::new();
            },
        };
        let mut out: Vec<AddressFamily> = Vec::new();
        let mut i: usize = 0;
        while i < adv.len()
            invariant
                i <= adv.len(),
                out@ == common_families(adv@.take(i as int), rec@),
            decreases adv.len() - i,
        {
            let af = adv[i];
            let mut found = false;
            let mut j: usize = 0;
            while j < rec.len()
                invariant
                    j <= rec.len(),
                    found <==> exists|k: int| 0 <= k < j && #[trigger] rec@[k] == af,
                decreases rec.len() - j,
            {
                if rec[j] == af {
                    found = true;
                }
                j = j + 1;
            }
            proof {
                assert(adv@.take(i + 1).drop_last() =~= adv@.take(i as int));
                assert(adv@.take(i + 1).last() == af);
                assert(found == rec@.contains(af));
            }
            if found {
                out.push(af);
            }
            i = i + 1;
        }
        assert(adv@.take(adv@.len() as int) =~= adv@);
        out
    }
}

} // verus!
