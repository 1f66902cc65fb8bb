//! The messages a session sends: its OPEN, its KEEPALIVEs, and the UPDATE
//! that announces changes of the local RIB to a neighbor.
use vstd::prelude::*;
use crate::attributes::{
    attributes_view, ASPATHSegmentType, AttributeModel, PathAttribute, PathAttributeType, SegmentModel,
    ValueModel,
};
use crate::capabilities::{opt_params_view, params_total_len, Capabilities, OptParamsModel};
use crate::error::{message_error, BgpError};
use crate::manager::changes_view;
use crate::messages::{
    message_wire, open_params, BGPKeepaliveMessage, BGPMessageBody, BGPOpenMessage,
    BGPUpdateMessage, BodyModel, Message, MessageModel, OpenModel, UpdateModel,
};
use crate::net::IpAddress;
use crate::nlri::Nlri;
use crate::rib::{prepended, route_eq, route_path_attributes, PeeringType, RouteAttributes, RouteModel};
use crate::session::BGPNeighbor;
use crate::types::{MessageType, VERSION};

verus! {

/// The OPEN a speaker of AS `asn` with router identifier `rid` and hold
/// time `hold` sends to announce the families `families`.
pub open spec fn open_model(asn: u16, rid: u32, hold: u16, families: Option<Seq<crate::types::AddressFamily>>) -> OpenModel {
    OpenModel {
        version: VERSION,
        asn,
        hold_time: hold,
        router_id: rid,
        opt_params: OptParamsModel {
            len: params_total_len(open_params(families)) as usize,
            params: open_params(families),
        },
    }
}

/// The OPEN message to hand to the framing (see [`open_model`]).
pub fn open_message(asn: u16, rid: u32, hold: u16, capabilities: Capabilities) -> (r: Vec<u8>)
    requires
        capabilities.multiprotocol matches Some(v) ==> 6 * v@.len() + 2 <= usize::MAX,
    ensures
        r@ == message_wire(
            MessageModel {
                message_type: MessageType::Open,
                body: BodyModel::Open(open_model(asn, rid, hold, capabilities@.multiprotocol)),
            },
        ),
{
    let ghost fams = capabilities@.multiprotocol;
    let body = match BGPOpenMessage::new(asn, rid, hold, capabilities) {
        Ok(b) => b,
        Err(_) => BGPOpenMessage::default(),
    };
    let m = match Message::new(MessageType::Open, BGPMessageBody::Open(body)) {
        Ok(m) => m,
        Err(_) => Message::default(),
    };
    m.to_bytes()
}

/// The KEEPALIVE message to hand to the framing: its type octet alone.
pub fn keepalive_message() -> (r: Vec<u8>)
    ensures
        r@ == seq![4u8],
{
    let body = BGPKeepaliveMessage {  };
    let m = match Message::new(MessageType::Keepalive, BGPMessageBody::Keepalive(body)) {
        Ok(m) => m,
        Err(_) => Message::default(),
    };
    let r = m.to_bytes();
    assert(r@ =~= seq![4u8]);
    r
}

/// The UPDATE message to hand to the framing, when its prefixes fit their
/// families and its attributes can be written.
pub fn update_message(u: BGPUpdateMessage) -> (r: Option<Vec<u8>>)
    ensures
        r is Some <==> u.writable(),
        r matches Some(b) ==> b@ == message_wire(
            MessageModel { message_type: MessageType::Update, body: BodyModel::Update(u@) },
        ),
{
    if !u.is_writable() {
        return None;
    }
    let ghost um = u@;
    let m = match Message::new(MessageType::Update, BGPMessageBody::Update(u)) {
        Ok(m) => m,
        Err(_) => {
            return None;
        },
    };
    Some(m.to_bytes())
}

impl BGPUpdateMessage {
    /// Whether the message can be written.
    pub fn is_writable(&self) -> (r: bool)
        ensures
            r == self.writable(),
    {
        let mut i: usize = 0;
        while i < self.withdrawn_routes.len()
            invariant
                i <= self.withdrawn_routes.len(),
                forall|k: int| 0 <= k < i ==> (#[trigger] self.withdrawn_routes@[k]).valid(),
            decreases self.withdrawn_routes.len() - i,
        {
            if !self.withdrawn_routes[i].is_valid() {
                return false;
            }
            i = i + 1;
        }
        let mut i: usize = 0;
        while i < self.nlri.len()
            invariant
                i <= self.nlri.len(),
                forall|k: int| 0 <= k < self.withdrawn_routes@.len() ==> (
                #[trigger] self.withdrawn_routes@[k]).valid(),
                forall|k: int| 0 <= k < i ==> (#[trigger] self.nlri@[k]).valid(),
            decreases self.nlri.len() - i,
        {
            if !self.nlri[i].is_valid() {
                return false;
            }
            i = i + 1;
        }
        let mut i: usize = 0;
        while i < self.path_attributes.len()
            invariant
                i <= self.path_attributes.len(),
                forall|k: int| 0 <= k < self.withdrawn_routes@.len() ==> (
                #[trigger] self.withdrawn_routes@[k]).valid(),
                forall|k: int| 0 <= k < self.nlri@.len() ==> (#[trigger] self.nlri@[k]).valid(),
                forall|k: int| 0 <= k < i ==> (#[trigger] self.path_attributes@[k]).writable(),
            decreases self.path_attributes.len() - i,
        {
            if !self.path_attributes[i].is_writable() {
                return false;
            }
            i = i + 1;
        }
        true
    }
}

/// The position of the group whose attributes are alike to `ra`.
pub open spec fn group_index(gs: Seq<(RouteModel, Seq<Nlri>)>, ra: RouteModel) -> Option<int>
    decreases gs.len(),
{
    if gs.len() == 0 {
        None
    } else {
        match group_index(gs.drop_last(), ra) {
            Some(k) => Some(k),
            None => if route_eq(gs.last().0, ra) {
                Some(gs.len() - 1)
            } else {
                None
            },
        }
    }
}

/// Sorts changes of the local RIB for a neighbor with router identifier
/// `rid`: the withdrawn prefixes, and the announced prefixes grouped by
/// alike attributes (groups in order of first appearance, each keeping the
/// attributes it first appeared with). Routes learned from the neighbor
/// itself are left out.
pub open spec fn group_changes(cs: Seq<(Nlri, Option<RouteModel>)>, rid: u32) -> (
    Seq<Nlri>,
    Seq<(RouteModel, Seq<Nlri>)>,
)
    decreases cs.len(),
{
    if cs.len() == 0 {
        (Seq::empty(), Seq::empty())
    } else {
        let (wd, gs) = group_changes(cs.drop_last(), rid);
        let (n, a) = cs.last();
        match a {
            None => (wd.push(n), gs),
            Some(ra) => if ra.peer_rid == rid {
                (wd, gs)
            } else {
                match group_index(gs, ra) {
                    Some(k) => (wd, gs.update(k, (gs[k].0, gs[k].1.push(n)))),
                    None => (wd, gs.push((ra, seq![n]))),
                }
            },
        }
    }
}

/// The transitive attributes of `s`.
pub open spec fn transitive_only(s: Seq<AttributeModel>) -> Seq<AttributeModel>
    decreases s.len(),
{
    if s.len() == 0 {
        Seq::empty()
    } else {
        let rest = transitive_only(s.drop_last());
        if s.last().transitive {
            rest.push(s.last())
        } else {
            rest
        }
    }
}

/// The attributes a group is announced with to a neighbor of AS
/// `remote_asn` by a speaker of AS `local_asn` at `local_ip`: to another
/// AS, with the local address as next hop and the local AS prepended once;
/// to the same AS, unchanged, except that routes learned over iBGP are not
/// announced. Only transitive attributes are kept.
pub open spec fn group_attributes(g: RouteModel, local_asn: u16, local_ip: IpAddress, remote_asn: u16) -> Option<
    Seq<AttributeModel>,
> {
    if local_asn != remote_asn {
        Some(
            transitive_only(
                route_path_attributes(prepended(RouteModel { next_hop: local_ip, ..g }, local_asn, 1)),
            ),
        )
    } else if g.peer_type == PeeringType::Ibgp {
        None
    } else {
        Some(transitive_only(route_path_attributes(g)))
    }
}

/// The attributes and prefixes announced for the groups `gs`, in order.
pub open spec fn announce_groups(
    gs: Seq<(RouteModel, Seq<Nlri>)>,
    local_asn: u16,
    local_ip: IpAddress,
    remote_asn: u16,
) -> (Seq<AttributeModel>, Seq<Nlri>)
    decreases gs.len(),
{
    if gs.len() == 0 {
        (Seq::empty(), Seq::empty())
    } else {
        let (pa, nl) = announce_groups(gs.drop_last(), local_asn, local_ip, remote_asn);
        match group_attributes(gs.last().0, local_asn, local_ip, remote_asn) {
            Some(a) => (pa + a, nl + gs.last().1),
            None => (pa, nl),
        }
    }
}

/// A copy of a list of prefixes.
fn copy_nlris(v: &Vec<Nlri>) -> (r: Vec<Nlri>)
    ensures
        r@ == v@,
{
    v.clone()
}

/// Builds the UPDATE that announces changes of the local RIB to `nb` (see
/// [`group_changes`] and [`announce_groups`]). The neighbor's router
/// identifier must be known; nothing is sent when there is nothing to
/// announce or withdraw; announcing needs the local address and the
/// neighbor's AS.
pub fn build_update(nb: &BGPNeighbor, changes: Vec<(Nlri, Option<RouteAttributes>)>) -> (r: Result<
    Option<BGPUpdateMessage>,
    BgpError,
>)
    ensures
        nb.remote_rid is None ==> r is Err,
        nb.remote_rid matches Some(rid) ==> ({
            let (wd, gs) = group_changes(changes_view(changes@), rid);
            if wd.len() == 0 && gs.len() == 0 {
                r matches Ok(None)
            } else if gs.len() > 0 && nb.local_ip is None {
                r is Err
            } else if gs.len() > 0 && nb.remote_asn is None {
                r is Err
            } else {
                let (pa, nl) = if gs.len() > 0 {
                    announce_groups(gs, nb.local_asn, nb.local_ip.unwrap(), nb.remote_asn.unwrap())
                } else {
                    (Seq::empty(), Seq::empty())
                };
                r matches Ok(Some(u)) && u@ == (UpdateModel {
                    withdrawn_routes: wd,
                    path_attributes: pa,
                    nlri: nl,
                })
            }
        }),
{
    let router_id = match nb.remote_rid {
        Some(r) => r,
        None => return Err(message_error("Remote router ID not set")),
    };
    let ghost cs = changes_view(changes@);
    let mut wd: Vec<Nlri> = Vec::new();
    let mut groups: Vec<(RouteAttributes, Vec<Nlri>)> = Vec::new();
    let mut i: usize = 0;
    while i < changes.len()
        invariant
            i <= changes.len(),
            cs == changes_view(changes@),
            ({
                let (w, g) = group_changes(cs.take(i as int), router_id);
                &&& wd@ == w
                &&& groups@.len() == g.len()
                &&& forall|k: int|
                    0 <= k < g.len() ==> (#[trigger] groups@[k]).0@ == g[k].0 && groups@[k].1@
                        == g[k].1
            }),
        decreases changes.len() - i,
    {
        proof {
            assert(cs.take(i + 1).drop_last() =~= cs.take(i as int));
            assert(cs.take(i + 1).last() == cs[i as int]);
        }
        let ghost g0 = group_changes(cs.take(i as int), router_id).1;
        let (n, a) = &changes[i];
        match a {
            None => {
                wd.push(*n);
            },
            Some(ra) => {
                if !ra.is_from_neighbor(router_id) {
                    let mut k: usize = 0;
                    let mut found: Option<usize> = None;
                    while k < groups.len()
                        invariant_except_break
                            found is None,
                        invariant
                            k <= groups.len(),
                            groups@.len() == g0.len(),
                            forall|j: int|
                                0 <= j < g0.len() ==> (#[trigger] groups@[j]).0@ == g0[j].0,
                            group_index(g0.take(k as int), ra@) is None,
                        ensures
                            found is None ==> k == groups.len() && group_index(
                                g0.take(k as int),
                                ra@,
                            ) is None,
                            found matches Some(x) ==> group_index(g0, ra@) == Some(x as int) && x
                                < groups.len(),
                        decreases groups.len() - k,
                    {
                        proof {
                            assert(g0.take(k + 1).drop_last() =~= g0.take(k as int));
                        }
                        if groups[k].0 == *ra {
                            proof {
                                lemma_group_index_prefix(g0, k as int + 1, ra@);
                            }
                            found = Some(k);
                            break;
                        }
                        k = k + 1;
                    }
                    proof {
                        if found is None {
                            assert(g0.take(k as int) =~= g0);
                        }
                    }
                    match found {
                        Some(x) => {
                            let (ga, mut gn) = groups.remove(x);
                            gn.push(*n);
                            groups.insert(x, (ga, gn));
                        },
                        None => {
                            let mut gn: Vec<Nlri> = Vec::new();
                            gn.push(*n);
                            groups.push((ra.copy(), gn));
                        },
                    }
                }
            },
        }
        i = i + 1;
    }
    proof {
        assert(cs.take(cs.len() as int) =~= cs);
    }
    if groups.len() == 0 && wd.len() == 0 {
        return Ok(None);
    }
    let mut attributes: Vec<PathAttribute> = Vec::new();
    let mut nlris: Vec<Nlri> = Vec::new();
    if groups.len() > 0 {
        let local_ip = match nb.local_ip {
            Some(ip) => ip,
            None => return Err(message_error("Local IP not set")),
        };
        let remote_asn = match nb.remote_asn {
            Some(a) => a,
            None => return Err(message_error("Remote ASN not set")),
        };
        let ghost g = group_changes(cs, router_id).1;
        let mut j: usize = 0;
        while j < groups.len()
            invariant
                j <= groups.len(),
                groups@.len() == g.len(),
                forall|k: int|
                    0 <= k < g.len() ==> (#[trigger] groups@[k]).0@ == g[k].0 && groups@[k].1@
                        == g[k].1,
                ({
                    let (pa, nl) = announce_groups(g.take(j as int), nb.local_asn, local_ip, remote_asn);
                    attributes_view(attributes@) == pa && nlris@ == nl
                }),
            decreases groups.len() - j,
        {
            proof {
                assert(g.take(j + 1).drop_last() =~= g.take(j as int));
                assert(g.take(j + 1).last() == g[j as int]);
            }
            let mut ra = groups[j].0.copy();
            let send = if nb.local_asn != remote_asn {
                ra.next_hop = local_ip;
                ra.prepend(nb.local_asn, 1);
                true
            } else if ra.is_from_ibgp() {
                false
            } else {
                true
            };
            if send {
                let pa = ra.to_path_attributes();
                let ghost before_attrs = attributes_view(attributes@);
                let mut t: usize = 0;
                while t < pa.len()
                    invariant
                        t <= pa.len(),
                        attributes_view(attributes@) == before_attrs + transitive_only(
                            attributes_view(pa@.take(t as int)),
                        ),
                    decreases pa.len() - t,
                {
                    proof {
                        assert(attributes_view(pa@.take(t + 1)).drop_last() =~= attributes_view(
                            pa@.take(t as int),
                        ));
                    }
                    if pa[t].is_transitive() {
                        let ghost b = attributes_view(attributes@);
                        attributes.push(pa[t].copy());
                        proof {
                            assert(attributes_view(attributes@) =~= b.push(pa@[t as int]@));
                        }
                    }
                    t = t + 1;
                }
                proof {
                    assert(pa@.take(pa@.len() as int) =~= pa@);
                }
                let mut routes = copy_nlris(&groups[j].1);
                nlris.append(&mut routes);
            }
            j = j + 1;
        }
        proof {
            assert(g.take(g.len() as int) =~= g);
        }
    }
    proof {
        if groups.len() == 0 {
            assert(attributes_view(attributes@) =~= Seq::<AttributeModel>::empty());
            assert(nlris@ =~= Seq::<Nlri>::empty());
        }
    }
    Ok(Some(BGPUpdateMessage { withdrawn_routes: wd, path_attributes: attributes, nlri: nlris }))
}

/// The first alike group of a list whose prefix ends with the first one.
proof fn lemma_group_index_prefix(gs: Seq<(RouteModel, Seq<Nlri>)>, k: int, ra: RouteModel)
    requires
        1 <= k <= gs.len(),
        group_index(gs.take(k - 1), ra) is None,
        route_eq(gs[k - 1].0, ra),
    ensures
        group_index(gs, ra) == Some(k - 1),
    decreases gs.len(),
{
    assert(gs.take(k).drop_last() =~= gs.take(k - 1));
    if k < gs.len() {
        assert(gs.drop_last().take(k) =~= gs.take(k));
        assert(gs.drop_last().take(k - 1) =~= gs.take(k - 1));
        lemma_group_index_prefix(gs.drop_last(), k, ra);
    } else {
        assert(gs.take(k) =~= gs);
    }
}

proof fn lemma_group_index_bound(gs: Seq<(RouteModel, Seq<Nlri>)>, ra: RouteModel)
    ensures
        group_index(gs, ra) matches Some(k) ==> 0 <= k < gs.len(),
    decreases gs.len(),
{
    if gs.len() > 0 {
        lemma_group_index_bound(gs.drop_last(), ra);
    }
}

/// The group found for a route holds alike attributes.
proof fn lemma_group_index_alike(gs: Seq<(RouteModel, Seq<Nlri>)>, ra: RouteModel)
    ensures
        group_index(gs, ra) matches Some(k) ==> 0 <= k < gs.len() && route_eq(gs[k].0, ra),
    decreases gs.len(),
{
    if gs.len() > 0 {
        lemma_group_index_alike(gs.drop_last(), ra);
        match group_index(gs.drop_last(), ra) {
            Some(k) => {
                assert(gs.drop_last()[k] == gs[k]);
            },
            None => {},
        }
    }
}

/// Every withdrawal among the changes is among the withdrawn prefixes, and
/// every prefix announced with a route not learned from the peer `rid` is
/// in a group whose attributes are alike to that route.
pub proof fn lemma_group_changes_complete(cs: Seq<(Nlri, Option<RouteModel>)>, rid: u32)
    ensures
        forall|i: int|
            0 <= i < cs.len() && (#[trigger] cs[i]).1 is None ==> group_changes(cs, rid).0.contains(
                cs[i].0,
            ),
        forall|i: int|
            0 <= i < cs.len() && (#[trigger] cs[i]).1 is Some && cs[i].1.unwrap().peer_rid != rid
                ==> exists|k: int, m: int|
                0 <= k < group_changes(cs, rid).1.len() && 0 <= m < group_changes(cs, rid).1[k].1.len()
                    && #[trigger] group_changes(cs, rid).1[k].1[m] == cs[i].0 && route_eq(
                    group_changes(cs, rid).1[k].0,
                    cs[i].1.unwrap(),
                ),
    decreases cs.len(),
{
    if cs.len() > 0 {
        let p = cs.drop_last();
        lemma_group_changes_complete(p, rid);
        let (wd, gs) = group_changes(p, rid);
        let (wd2, gs2) = group_changes(cs, rid);
        let (n, a) = cs.last();
        let last = cs.len() - 1;
        assert(cs[last] == cs.last());
        assert forall|i: int| 0 <= i < p.len() implies #[trigger] p[i] == cs[i] by {}
        // What the earlier changes put in stays.
        assert forall|x: Nlri| wd.contains(x) implies wd2.contains(x) by {
            let j = choose|j: int| 0 <= j < wd.len() && wd[j] == x;
            assert(wd2[j] == x);
        }
        match a {
            None => {},
            Some(ra) => {
                if ra.peer_rid != rid {
                    lemma_group_index_alike(gs, ra);
                }
            },
        }
        assert forall|k: int, m: int|
            0 <= k < gs.len() && 0 <= m < gs[k].1.len() implies 0 <= k < gs2.len() && 0 <= m
            < gs2[k].1.len() && gs2[k].1[m] == gs[k].1[m] && gs2[k].0 == gs[k].0 by {}
        assert forall|i: int|
            0 <= i < cs.len() && (#[trigger] cs[i]).1 is None implies wd2.contains(cs[i].0) by {
            if i < last {
                assert(wd.contains(p[i].0));
            } else {
                assert(wd2[wd.len() as int] == n);
            }
        }
        assert forall|i: int|
            0 <= i < cs.len() && (#[trigger] cs[i]).1 is Some && cs[i].1.unwrap().peer_rid != rid
                implies exists|k: int, m: int|
                0 <= k < gs2.len() && 0 <= m < gs2[k].1.len() && #[trigger] gs2[k].1[m] == cs[i].0
                    && route_eq(gs2[k].0, cs[i].1.unwrap()) by {
            if i < last {
                let (k, m) = choose|k: int, m: int|
                    0 <= k < gs.len() && 0 <= m < gs[k].1.len() && #[trigger] gs[k].1[m] == p[i].0
                        && route_eq(gs[k].0, p[i].1.unwrap());
                assert(gs2[k].1[m] == gs[k].1[m]);
            } else {
                let ra = a.unwrap();
                match group_index(gs, ra) {
                    Some(k) => {
                        assert(gs2[k].1[gs[k].1.len() as int] == n);
                    },
                    None => {
                        assert(gs2[gs.len() as int].1[0] == n);
                    },
                }
            }
        }
    }
}

/// A change of the local RIB that withdraws `n`.
pub open spec fn withdrawn_in(cs: Seq<(Nlri, Option<RouteModel>)>, n: Nlri) -> bool {
    exists|i: int| 0 <= i < cs.len() && (#[trigger] cs[i]).0 == n && cs[i].1 is None
}

/// A change of the local RIB that announces `n` with a route not learned
/// from the peer `rid`.
pub open spec fn announced_not_from(cs: Seq<(Nlri, Option<RouteModel>)>, rid: u32, n: Nlri) -> bool {
    exists|i: int|
        0 <= i < cs.len() && (#[trigger] cs[i]).0 == n && (cs[i].1 matches Some(ra)
            && ra.peer_rid != rid)
}

proof fn lemma_group_changes_sources(cs: Seq<(Nlri, Option<RouteModel>)>, rid: u32)
    ensures
        forall|k: int, j: int|
            0 <= k < group_changes(cs, rid).1.len() && 0 <= j < group_changes(cs, rid).1[k].1.len()
                ==> announced_not_from(cs, rid, #[trigger] group_changes(cs, rid).1[k].1[j]),
        forall|j: int|
            0 <= j < group_changes(cs, rid).0.len() ==> withdrawn_in(
                cs,
                #[trigger] group_changes(cs, rid).0[j],
            ),
    decreases cs.len(),
{
    if cs.len() > 0 {
        let p = cs.drop_last();
        lemma_group_changes_sources(p, rid);
        let (wd, gs) = group_changes(p, rid);
        let (n, a) = cs.last();
        let last = cs.len() - 1;
        assert forall|nn: Nlri| announced_not_from(p, rid, nn) implies announced_not_from(
            cs,
            rid,
            nn,
        ) by {
            let i = choose|i: int|
                0 <= i < p.len() && (#[trigger] p[i]).0 == nn && (p[i].1 matches Some(ra)
                    && ra.peer_rid != rid);
            assert(cs[i] == p[i]);
        }
        let (wd2, gs2) = group_changes(cs, rid);
        assert forall|j: int| 0 <= j < wd2.len() implies withdrawn_in(cs, #[trigger] wd2[j]) by {
            if j < wd.len() {
                assert(wd2[j] == wd[j]);
                assert(withdrawn_in(p, wd[j]));
                let i = choose|i: int| 0 <= i < p.len() && (#[trigger] p[i]).0 == wd[j] && p[i].1 is None;
                assert(cs[i] == p[i]);
            } else {
                assert(cs[last].0 == wd2[j]);
            }
        }
        assert forall|k: int, j: int| 0 <= k < gs2.len() && 0 <= j < gs2[k].1.len() implies announced_not_from(
            cs,
            rid,
            #[trigger] gs2[k].1[j],
        ) by {
            match a {
                None => {
                    assert(announced_not_from(p, rid, gs[k].1[j]));
                },
                Some(ra) => {
                    if ra.peer_rid == rid {
                        assert(announced_not_from(p, rid, gs[k].1[j]));
                    } else {
                        lemma_group_index_bound(gs, ra);
                        match group_index(gs, ra) {
                            Some(g) => {
                                assert(gs2 == gs.update(g, (gs[g].0, gs[g].1.push(n))));
                                if k == g && j == gs[g].1.len() {
                                    assert(cs[last].0 == gs2[k].1[j]);
                                } else if k == g {
                                    assert(gs2[k].1[j] == gs[k].1[j]);
                                    assert(announced_not_from(p, rid, gs[k].1[j]));
                                } else {
                                    assert(gs2[k] == gs[k]);
                                    assert(announced_not_from(p, rid, gs[k].1[j]));
                                }
                            },
                            None => {
                                if k == gs.len() {
                                    assert(cs[last].0 == gs2[k].1[j]);
                                } else {
                                    assert(gs2[k] == gs[k]);
                                    assert(announced_not_from(p, rid, gs[k].1[j]));
                                }
                            },
                        }
                    }
                },
            }
        }
    }
}

/// `n` is one of the prefixes of the groups `gs`.
spec fn in_groups(gs: Seq<(RouteModel, Seq<Nlri>)>, n: Nlri) -> bool {
    exists|k: int, m: int| 0 <= k < gs.len() && 0 <= m < gs[k].1.len() && #[trigger] gs[k].1[m] == n
}

proof fn lemma_announce_groups_sources(
    gs: Seq<(RouteModel, Seq<Nlri>)>,
    local_asn: u16,
    local_ip: IpAddress,
    remote_asn: u16,
)
    ensures
        forall|j: int|
            0 <= j < announce_groups(gs, local_asn, local_ip, remote_asn).1.len() ==> in_groups(
                gs,
                #[trigger] announce_groups(gs, local_asn, local_ip, remote_asn).1[j],
            ),
    decreases gs.len(),
{
    if gs.len() > 0 {
        let p = gs.drop_last();
        lemma_announce_groups_sources(p, local_asn, local_ip, remote_asn);
        let nl = announce_groups(p, local_asn, local_ip, remote_asn).1;
        let nl2 = announce_groups(gs, local_asn, local_ip, remote_asn).1;
        let last = gs.len() - 1;
        assert(gs[last] == gs.last());
        assert forall|j: int| 0 <= j < nl2.len() implies in_groups(gs, #[trigger] nl2[j]) by {
            if group_attributes(gs.last().0, local_asn, local_ip, remote_asn) is None || j
                < nl.len() {
                assert(nl2[j] == nl[j]);
                assert(in_groups(p, nl[j]));
                let (k, m) = choose|k: int, m: int|
                    0 <= k < p.len() && 0 <= m < p[k].1.len() && #[trigger] p[k].1[m] == nl[j];
                assert(gs[k] == p[k]);
                assert(gs[k].1[m] == nl2[j]);
            } else {
                let m = j - nl.len();
                assert(nl2[j] == gs[last].1[m]);
            }
        }
    }
}

/// Split horizon: every prefix an UPDATE built for a neighbor announces
/// comes from a change that announces it with a route not learned from that
/// neighbor, and every prefix it withdraws from a change that withdraws it.
pub proof fn lemma_build_update_sources(
    cs: Seq<(Nlri, Option<RouteModel>)>,
    rid: u32,
    local_asn: u16,
    local_ip: IpAddress,
    remote_asn: u16,
)
    ensures
        forall|j: int|
            0 <= j < announce_groups(group_changes(cs, rid).1, local_asn, local_ip, remote_asn).1.len()
                ==> announced_not_from(
                cs,
                rid,
                #[trigger] announce_groups(group_changes(cs, rid).1, local_asn, local_ip, remote_asn).1[j],
            ),
        forall|j: int|
            0 <= j < group_changes(cs, rid).0.len() ==> withdrawn_in(
                cs,
                #[trigger] group_changes(cs, rid).0[j],
            ),
{
    let gs = group_changes(cs, rid).1;
    lemma_group_changes_sources(cs, rid);
    lemma_announce_groups_sources(gs, local_asn, local_ip, remote_asn);
    let nl = announce_groups(gs, local_asn, local_ip, remote_asn).1;
    assert forall|j: int| 0 <= j < nl.len() implies announced_not_from(cs, rid, #[trigger] nl[j]) by {
        assert(in_groups(gs, nl[j]));
        let (k, m) = choose|k: int, m: int|
            0 <= k < gs.len() && 0 <= m < gs[k].1.len() && #[trigger] gs[k].1[m] == nl[j];
        assert(announced_not_from(cs, rid, gs[k].1[m]));
    }
}

/// Keeping the transitive attributes keeps each of them and nothing else.
proof fn lemma_transitive_only(s: Seq<AttributeModel>)
    ensures
        forall|i: int|
            0 <= i < transitive_only(s).len() ==> (#[trigger] transitive_only(s)[i]).transitive
                && s.contains(transitive_only(s)[i]),
        forall|j: int| 0 <= j < s.len() && (#[trigger] s[j]).transitive ==> transitive_only(s).contains(s[j]),
    decreases s.len(),
{
    if s.len() > 0 {
        let p = s.drop_last();
        lemma_transitive_only(p);
        let t = transitive_only(s);
        let tp = transitive_only(p);
        let last = s.len() - 1;
        assert(s[last] == s.last());
        assert forall|i: int| 0 <= i < t.len() implies (#[trigger] t[i]).transitive && s.contains(
            t[i],
        ) by {
            if i < tp.len() {
                assert(t[i] == tp[i]);
                let j = choose|j: int| 0 <= j < p.len() && p[j] == tp[i];
                assert(s[j] == p[j]);
            } else {
                assert(t[i] == s[last]);
            }
        }
        assert forall|j: int| 0 <= j < s.len() && (#[trigger] s[j]).transitive implies t.contains(
            s[j],
        ) by {
            if j < last {
                assert(p[j] == s[j]);
                assert(tp.contains(p[j]));
                let i = choose|i: int| 0 <= i < tp.len() && tp[i] == p[j];
                assert(t[i] == tp[i]);
            } else {
                assert(t[tp.len() as int] == s[j]);
            }
        }
    }
}

/// Toward a neighbor of another AS, a route is announced with its AS_PATH
/// behind a leading AS_SEQUENCE segment that holds just the local AS, and
/// with the local address as its next hop: the attributes hold that
/// AS_PATH and no other, and no NEXT_HOP but the local address (which they
/// hold where it is an IPv4 address).
pub proof fn lemma_ebgp_group_attributes(g: RouteModel, local_asn: u16, local_ip: IpAddress, remote_asn: u16)
    requires
        local_asn != remote_asn,
    ensures
        group_attributes(g, local_asn, local_ip, remote_asn) is Some,
        ({
            let s = group_attributes(g, local_asn, local_ip, remote_asn).unwrap();
            let path = seq![
                SegmentModel { segment_type: ASPATHSegmentType::AsSequence, as_list: seq![local_asn] },
            ] + g.as_path;
            &&& exists|k: int|
                0 <= k < s.len() && (#[trigger] s[k]).type_code == PathAttributeType::AsPath
                    && s[k].value == ValueModel::AsPath(path)
            &&& forall|k: int|
                0 <= k < s.len() && (#[trigger] s[k]).value is AsPath ==> s[k].value
                    == ValueModel::AsPath(path)
            &&& forall|k: int|
                0 <= k < s.len() && (#[trigger] s[k]).value is NextHop ==> local_ip == IpAddress::V4(
                    s[k].value->NextHop_0,
                )
            &&& (local_ip is V4 ==> exists|k: int|
                0 <= k < s.len() && (#[trigger] s[k]).type_code == PathAttributeType::NextHop
                    && s[k].value == ValueModel::NextHop(local_ip->V4_0))
        }),
{
    let r = prepended(RouteModel { next_hop: local_ip, ..g }, local_asn, 1);
    let full = route_path_attributes(r);
    let s = transitive_only(full);
    let path = seq![
        SegmentModel { segment_type: ASPATHSegmentType::AsSequence, as_list: seq![local_asn] },
    ] + g.as_path;
    assert(Seq::new(1nat, |i: int| local_asn) =~= seq![local_asn]);
    assert(r.as_path =~= path);
    assert(r.next_hop == local_ip);
    lemma_transitive_only(full);
    let nhl: int = if local_ip is V4 {
        1
    } else {
        0
    };
    assert(full.len() >= nhl + 2);
    let ap = full[nhl + 1];
    assert(ap.value == ValueModel::AsPath(path) && ap.type_code == PathAttributeType::AsPath
        && ap.transitive);
    assert(s.contains(ap));
    // Every attribute kept comes from the full list, whose only AS_PATH is
    // the prepended one and whose only NEXT_HOP is the local address.
    assert forall|j: int| 0 <= j < full.len() && (#[trigger] full[j]).value is AsPath implies full[j].value
        == ValueModel::AsPath(path) by {
        assert(j == nhl + 1);
    }
    assert forall|j: int| 0 <= j < full.len() && (#[trigger] full[j]).value is NextHop implies local_ip
        == IpAddress::V4(full[j].value->NextHop_0) by {
        assert(j < nhl);
    }
    assert forall|k: int| 0 <= k < s.len() && (#[trigger] s[k]).value is AsPath implies s[k].value
        == ValueModel::AsPath(path) by {
        let j = choose|j: int| 0 <= j < full.len() && full[j] == s[k];
        assert(full[j].value is AsPath);
    }
    assert forall|k: int| 0 <= k < s.len() && (#[trigger] s[k]).value is NextHop implies local_ip
        == IpAddress::V4(s[k].value->NextHop_0) by {
        let j = choose|j: int| 0 <= j < full.len() && full[j] == s[k];
        assert(full[j].value is NextHop);
    }
    let k0 = choose|k: int| 0 <= k < s.len() && s[k] == ap;
    assert(s[k0].type_code == PathAttributeType::AsPath);
    if local_ip is V4 {
        let nh = full[0];
        assert(nh.transitive && nh.type_code == PathAttributeType::NextHop && nh.value
            == ValueModel::NextHop(local_ip->V4_0));
        assert(s.contains(nh));
        let k1 = choose|k: int| 0 <= k < s.len() && s[k] == nh;
        assert(s[k1].type_code == PathAttributeType::NextHop);
    }
}

/// Toward a neighbor of the local AS, a route learned over iBGP is not
/// announced; any other is announced with its own AS_PATH (nothing
/// prepended) and its own next hop.
pub proof fn lemma_ibgp_group_attributes(g: RouteModel, local_asn: u16, local_ip: IpAddress, remote_asn: u16)
    requires
        local_asn == remote_asn,
    ensures
        group_attributes(g, local_asn, local_ip, remote_asn) is None <==> g.peer_type
            == PeeringType::Ibgp,
        group_attributes(g, local_asn, local_ip, remote_asn) matches Some(s) ==> {
            &&& exists|k: int|
                0 <= k < s.len() && (#[trigger] s[k]).type_code == PathAttributeType::AsPath
                    && s[k].value == ValueModel::AsPath(g.as_path)
            &&& forall|k: int|
                0 <= k < s.len() && (#[trigger] s[k]).value is AsPath ==> s[k].value
                    == ValueModel::AsPath(g.as_path)
            &&& forall|k: int|
                0 <= k < s.len() && (#[trigger] s[k]).value is NextHop ==> g.next_hop
                    == IpAddress::V4(s[k].value->NextHop_0)
        },
{
    if g.peer_type != PeeringType::Ibgp {
        let full = route_path_attributes(g);
        let s = transitive_only(full);
        lemma_transitive_only(full);
        let nhl: int = if g.next_hop is V4 {
            1
        } else {
            0
        };
        assert(full.len() >= nhl + 2);
        let ap = full[nhl + 1];
        assert(ap.value == ValueModel::AsPath(g.as_path) && ap.transitive);
        assert(s.contains(ap));
        let k0 = choose|k: int| 0 <= k < s.len() && s[k] == ap;
        assert(s[k0].type_code == PathAttributeType::AsPath);
        assert forall|k: int| 0 <= k < s.len() && (#[trigger] s[k]).value is AsPath implies s[k].value
            == ValueModel::AsPath(g.as_path) by {
            let j = choose|j: int| 0 <= j < full.len() && full[j] == s[k];
            assert(j == nhl + 1);
        }
        assert forall|k: int| 0 <= k < s.len() && (#[trigger] s[k]).value is NextHop implies g.next_hop
            == IpAddress::V4(s[k].value->NextHop_0) by {
            let j = choose|j: int| 0 <= j < full.len() && full[j] == s[k];
            assert(j < nhl);
        }
    }
}

/// The AS_PATH `p` behind a leading AS_SEQUENCE segment that holds just
/// the AS `asn`.
pub open spec fn with_local_as(asn: u16, p: Seq<SegmentModel>) -> Seq<SegmentModel> {
    seq![SegmentModel { segment_type: ASPATHSegmentType::AsSequence, as_list: seq![asn] }] + p
}

/// Each AS_PATH announced to another AS is that of a group, behind the local AS.
#[verifier::spinoff_prover]
proof fn lemma_ebgp_paths_sound(
    gs: Seq<(RouteModel, Seq<Nlri>)>,
    local_asn: u16,
    local_ip: IpAddress,
    remote_asn: u16,
)
    requires
        local_asn != remote_asn,
    ensures
        forall|j: int|
            0 <= j < announce_groups(gs, local_asn, local_ip, remote_asn).0.len() && (#[trigger] announce_groups(gs, local_asn, local_ip, remote_asn).0[j]).value is AsPath ==> exists|k: int|
                0 <= k < gs.len() && announce_groups(gs, local_asn, local_ip, remote_asn).0[j].value == ValueModel::AsPath(
                    with_local_as(local_asn, (#[trigger] gs[k]).0.as_path),
                ),
    decreases gs.len(),
{
    if gs.len() > 0 {
        let p = gs.drop_last();
        let last = gs.len() - 1;
        let g = gs[last];
        assert(gs.last() == g);
        lemma_ebgp_group_attributes(g.0, local_asn, local_ip, remote_asn);
        let pp = announce_groups(p, local_asn, local_ip, remote_asn).0;
        let np = announce_groups(p, local_asn, local_ip, remote_asn).1;
        let a = group_attributes(g.0, local_asn, local_ip, remote_asn).unwrap();
        let pa = announce_groups(gs, local_asn, local_ip, remote_asn).0;
        let nl = announce_groups(gs, local_asn, local_ip, remote_asn).1;
        assert(pa == pp + a && nl == np + g.1);
        assert forall|k: int| 0 <= k < p.len() implies #[trigger] p[k] == gs[k] by {}
        lemma_ebgp_paths_sound(p, local_asn, local_ip, remote_asn);
        assert forall|j: int| 0 <= j < pa.len() && (#[trigger] pa[j]).value is AsPath implies exists|k: int|
            0 <= k < gs.len() && pa[j].value == ValueModel::AsPath(
                with_local_as(local_asn, (#[trigger] gs[k]).0.as_path),
            ) by {
            if j < pp.len() {
                assert(pa[j] == pp[j]);
                let k = choose|k: int|
                    0 <= k < p.len() && pp[j].value == ValueModel::AsPath(
                        with_local_as(local_asn, (#[trigger] p[k]).0.as_path),
                    );
                assert(gs[k] == p[k]);
            } else {
                assert(pa[j] == a[j - pp.len()]);
                assert(a[j - pp.len()].value is AsPath);
                assert(gs[last] == g);
            }
        }
    }
}

/// Each group is announced to another AS with its AS_PATH behind the local AS.
#[verifier::spinoff_prover]
proof fn lemma_ebgp_paths_complete(
    gs: Seq<(RouteModel, Seq<Nlri>)>,
    local_asn: u16,
    local_ip: IpAddress,
    remote_asn: u16,
)
    requires
        local_asn != remote_asn,
    ensures
        forall|k: int|
            0 <= k < gs.len() ==> exists|j: int|
                0 <= j < announce_groups(gs, local_asn, local_ip, remote_asn).0.len() && (#[trigger] announce_groups(gs, local_asn, local_ip, remote_asn).0[j]).type_code == PathAttributeType::AsPath
                    && announce_groups(gs, local_asn, local_ip, remote_asn).0[j].value == ValueModel::AsPath(
                    with_local_as(local_asn, (#[trigger] gs[k]).0.as_path),
                ),
    decreases gs.len(),
{
    if gs.len() > 0 {
        let p = gs.drop_last();
        let last = gs.len() - 1;
        let g = gs[last];
        assert(gs.last() == g);
        lemma_ebgp_group_attributes(g.0, local_asn, local_ip, remote_asn);
        let pp = announce_groups(p, local_asn, local_ip, remote_asn).0;
        let np = announce_groups(p, local_asn, local_ip, remote_asn).1;
        let a = group_attributes(g.0, local_asn, local_ip, remote_asn).unwrap();
        let pa = announce_groups(gs, local_asn, local_ip, remote_asn).0;
        let nl = announce_groups(gs, local_asn, local_ip, remote_asn).1;
        assert(pa == pp + a && nl == np + g.1);
        assert forall|k: int| 0 <= k < p.len() implies #[trigger] p[k] == gs[k] by {}
        lemma_ebgp_paths_complete(p, local_asn, local_ip, remote_asn);
        assert forall|k: int| 0 <= k < gs.len() implies exists|j: int|
            0 <= j < pa.len() && (#[trigger] pa[j]).type_code == PathAttributeType::AsPath
                && pa[j].value == ValueModel::AsPath(
                with_local_as(local_asn, (#[trigger] gs[k]).0.as_path),
            ) by {
            if k < last {
                assert(p[k] == gs[k]);
                let j = choose|j: int|
                    0 <= j < pp.len() && (#[trigger] pp[j]).type_code == PathAttributeType::AsPath
                        && pp[j].value == ValueModel::AsPath(with_local_as(local_asn, p[k].0.as_path));
                assert(pa[j] == pp[j]);
            } else {
                let i = choose|i: int|
                    0 <= i < a.len() && (#[trigger] a[i]).type_code == PathAttributeType::AsPath
                        && a[i].value == ValueModel::AsPath(with_local_as(local_asn, g.0.as_path));
                assert(pa[pp.len() + i] == a[i]);
            }
        }
    }
}

/// Each NEXT_HOP announced to another AS is the local address.
#[verifier::spinoff_prover]
proof fn lemma_ebgp_next_hops(
    gs: Seq<(RouteModel, Seq<Nlri>)>,
    local_asn: u16,
    local_ip: IpAddress,
    remote_asn: u16,
)
    requires
        local_asn != remote_asn,
    ensures
        forall|j: int|
            0 <= j < announce_groups(gs, local_asn, local_ip, remote_asn).0.len() && (#[trigger] announce_groups(gs, local_asn, local_ip, remote_asn).0[j]).value is NextHop ==> local_ip
                == IpAddress::V4(announce_groups(gs, local_asn, local_ip, remote_asn).0[j].value->NextHop_0),
    decreases gs.len(),
{
    if gs.len() > 0 {
        let p = gs.drop_last();
        let last = gs.len() - 1;
        let g = gs[last];
        assert(gs.last() == g);
        lemma_ebgp_group_attributes(g.0, local_asn, local_ip, remote_asn);
        let pp = announce_groups(p, local_asn, local_ip, remote_asn).0;
        let np = announce_groups(p, local_asn, local_ip, remote_asn).1;
        let a = group_attributes(g.0, local_asn, local_ip, remote_asn).unwrap();
        let pa = announce_groups(gs, local_asn, local_ip, remote_asn).0;
        let nl = announce_groups(gs, local_asn, local_ip, remote_asn).1;
        assert(pa == pp + a && nl == np + g.1);
        assert forall|k: int| 0 <= k < p.len() implies #[trigger] p[k] == gs[k] by {}
        lemma_ebgp_next_hops(p, local_asn, local_ip, remote_asn);
        assert forall|j: int| 0 <= j < pa.len() && (#[trigger] pa[j]).value is NextHop implies local_ip
            == IpAddress::V4(pa[j].value->NextHop_0) by {
            if j < pp.len() {
                assert(pa[j] == pp[j]);
            } else {
                assert(pa[j] == a[j - pp.len()]);
                assert(a[j - pp.len()].value is NextHop);
            }
        }
    }
}

/// Each prefix of each group is announced to another AS.
#[verifier::spinoff_prover]
proof fn lemma_ebgp_prefixes(
    gs: Seq<(RouteModel, Seq<Nlri>)>,
    local_asn: u16,
    local_ip: IpAddress,
    remote_asn: u16,
)
    requires
        local_asn != remote_asn,
    ensures
        forall|k: int, m: int|
            0 <= k < gs.len() && 0 <= m < gs[k].1.len() ==> announce_groups(gs, local_asn, local_ip, remote_asn).1.contains(#[trigger] gs[k].1[m]),
    decreases gs.len(),
{
    if gs.len() > 0 {
        let p = gs.drop_last();
        let last = gs.len() - 1;
        let g = gs[last];
        assert(gs.last() == g);
        lemma_ebgp_group_attributes(g.0, local_asn, local_ip, remote_asn);
        let pp = announce_groups(p, local_asn, local_ip, remote_asn).0;
        let np = announce_groups(p, local_asn, local_ip, remote_asn).1;
        let a = group_attributes(g.0, local_asn, local_ip, remote_asn).unwrap();
        let pa = announce_groups(gs, local_asn, local_ip, remote_asn).0;
        let nl = announce_groups(gs, local_asn, local_ip, remote_asn).1;
        assert(pa == pp + a && nl == np + g.1);
        assert forall|k: int| 0 <= k < p.len() implies #[trigger] p[k] == gs[k] by {}
        lemma_ebgp_prefixes(p, local_asn, local_ip, remote_asn);
        assert forall|k: int, m: int| 0 <= k < gs.len() && 0 <= m < gs[k].1.len() implies nl.contains(
            #[trigger] gs[k].1[m],
        ) by {
            if k < last {
                assert(p[k] == gs[k]);
                assert(np.contains(p[k].1[m]));
                let i = choose|i: int| 0 <= i < np.len() && np[i] == p[k].1[m];
                assert(nl[i] == np[i]);
            } else {
                assert(nl[np.len() + m] == g.1[m]);
            }
        }
    }
}

/// Toward a neighbor of another AS, every group is announced: each AS_PATH
/// of the UPDATE is the AS_PATH of one of the groups behind a leading
/// AS_SEQUENCE segment holding just the local AS, each group's AS_PATH is
/// announced so, every NEXT_HOP is the local address, and every prefix of
/// every group is announced.
pub proof fn lemma_ebgp_announce_groups(
    gs: Seq<(RouteModel, Seq<Nlri>)>,
    local_asn: u16,
    local_ip: IpAddress,
    remote_asn: u16,
)
    requires
        local_asn != remote_asn,
    ensures
        forall|j: int|
            0 <= j < announce_groups(gs, local_asn, local_ip, remote_asn).0.len() && (#[trigger] announce_groups(gs, local_asn, local_ip, remote_asn).0[j]).value is AsPath ==> exists|k: int|
                0 <= k < gs.len() && announce_groups(gs, local_asn, local_ip, remote_asn).0[j].value == ValueModel::AsPath(
                    with_local_as(local_asn, (#[trigger] gs[k]).0.as_path),
                ),
        forall|k: int|
            0 <= k < gs.len() ==> exists|j: int|
                0 <= j < announce_groups(gs, local_asn, local_ip, remote_asn).0.len() && (#[trigger] announce_groups(gs, local_asn, local_ip, remote_asn).0[j]).type_code == PathAttributeType::AsPath
                    && announce_groups(gs, local_asn, local_ip, remote_asn).0[j].value == ValueModel::AsPath(
                    with_local_as(local_asn, (#[trigger] gs[k]).0.as_path),
                ),
        forall|j: int|
            0 <= j < announce_groups(gs, local_asn, local_ip, remote_asn).0.len() && (#[trigger] announce_groups(gs, local_asn, local_ip, remote_asn).0[j]).value is NextHop ==> local_ip
                == IpAddress::V4(announce_groups(gs, local_asn, local_ip, remote_asn).0[j].value->NextHop_0),
        forall|k: int, m: int|
            0 <= k < gs.len() && 0 <= m < gs[k].1.len() ==> announce_groups(gs, local_asn, local_ip, remote_asn).1.contains(#[trigger] gs[k].1[m]),
{
    lemma_ebgp_paths_sound(gs, local_asn, local_ip, remote_asn);
    lemma_ebgp_paths_complete(gs, local_asn, local_ip, remote_asn);
    lemma_ebgp_next_hops(gs, local_asn, local_ip, remote_asn);
    lemma_ebgp_prefixes(gs, local_asn, local_ip, remote_asn);
}

} // verus!
