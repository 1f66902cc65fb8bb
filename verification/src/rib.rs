//! Routes: their attributes as the speaker keeps them, and the routing
//! information base that maps each prefix to the routes received for it.
use vstd::prelude::*;
use crate::attributes::{
    aspath_flat, aspath_len, aspath_length, aspath_view, copy_aspath, flatten_aspath, AttributeModel,
    ASPATHSegment, ASPATHSegmentType, Aspath, OriginType, PathAttribute, PathAttributeType,
    SegmentModel, ValueModel,
};
use crate::net::IpAddress;
use crate::nlri::Nlri;

verus! {

/// Where a path was learned.
#[derive(Debug, Clone, Copy, PartialEq, Eq, Hash, Structural)]
pub enum PathType {
    External,
    Internal,
}

/// The kind of peering a route was received over.
#[derive(Debug, Clone, Copy, PartialEq, Eq, Hash, Structural)]
pub enum PeeringType {
    Ibgp,
    Ebgp,
}

/// The attributes of a route as the speaker keeps them.
#[derive(Debug)]
pub struct RouteAttributes {
    pub as_path: Aspath,
    pub origin: OriginType,
    pub next_hop: IpAddress,
    pub local_pref: Option<u32>,
    pub multi_exit_disc: Option<u32>,
    pub path_type: PathType,
    pub peer_type: PeeringType,
    /// When the route was received, in ticks of a monotonic clock.
    pub recv_time: u64,
    pub peer_rid: u32,
    pub peer_ip: IpAddress,
}

/// The model of a route's attributes.
pub struct RouteModel {
    pub as_path: Seq<SegmentModel>,
    pub origin: OriginType,
    pub next_hop: IpAddress,
    pub local_pref: Option<u32>,
    pub multi_exit_disc: Option<u32>,
    pub path_type: PathType,
    pub peer_type: PeeringType,
    pub recv_time: u64,
    pub peer_rid: u32,
    pub peer_ip: IpAddress,
}

impl View for RouteAttributes {
    type V = RouteModel;

    open spec fn view(&self) -> RouteModel {
        RouteModel {
            as_path: aspath_view(self.as_path@),
            origin: self.origin,
            next_hop: self.next_hop,
            local_pref: self.local_pref,
            multi_exit_disc: self.multi_exit_disc,
            path_type: self.path_type,
            peer_type: self.peer_type,
            recv_time: self.recv_time,
            peer_rid: self.peer_rid,
            peer_ip: self.peer_ip,
        }
    }
}

/// The models of a list of routes.
pub open spec fn routes_view(s: Seq<RouteAttributes>) -> Seq<RouteModel> {
    s.map_values(|r: RouteAttributes| r@)
}

/// The AS_PATH length of a route fits a machine word.
pub open spec fn route_wf(r: RouteModel) -> bool {
    aspath_len(r.as_path) <= usize::MAX
}

/// The AS_PATH length as compared for equality: capped at the largest
/// 64-bit number.
pub open spec fn capped_len(p: Seq<SegmentModel>) -> nat {
    if aspath_len(p) <= u64::MAX {
        aspath_len(p)
    } else {
        u64::MAX as nat
    }
}

/// Two routes are alike when their local preference, MED, origin and
/// AS_PATH length agree.
pub open spec fn route_eq(a: RouteModel, b: RouteModel) -> bool {
    &&& a.local_pref == b.local_pref
    &&& a.multi_exit_disc == b.multi_exit_disc
    &&& a.origin == b.origin
    &&& capped_len(a.as_path) == capped_len(b.as_path)
}

/// The attributes a route has before any is known: empty AS_PATH, IGP
/// origin, next hop and peer address `0.0.0.0`, an external path from an
/// eBGP peer with router identifier zero, received at time zero.
pub open spec fn default_route() -> RouteModel {
    RouteModel {
        as_path: Seq::empty(),
        origin: OriginType::Igp,
        next_hop: IpAddress::V4(0),
        local_pref: None,
        multi_exit_disc: None,
        path_type: PathType::External,
        peer_type: PeeringType::Ebgp,
        recv_time: 0,
        peer_rid: 0,
        peer_ip: IpAddress::V4(0),
    }
}

impl Default for RouteAttributes {
    fn default() -> (r: Self)
        ensures
            r@ == default_route(),
    {
        let r = RouteAttributes {
            as_path: Vec::new(),
            origin: OriginType::Igp,
            next_hop: IpAddress::V4(0),
            local_pref: None,
            multi_exit_disc: None,
            path_type: PathType::External,
            peer_type: PeeringType::Ebgp,
            recv_time: 0,
            peer_rid: 0,
            peer_ip: IpAddress::V4(0),
        };
        assert(r@.as_path =~= Seq::<SegmentModel>::empty());
        r
    }
}

impl PartialEq for RouteAttributes {
    fn eq(&self, other: &Self) -> (r: bool) {
        let slen = aspath_length(&self.as_path);
        let olen = aspath_length(&other.as_path);
        let lp = match (self.local_pref, other.local_pref) {
            (None, None) => true,
            (Some(a), Some(b)) => a == b,
            _ => false,
        };
        let med = match (self.multi_exit_disc, other.multi_exit_disc) {
            (None, None) => true,
            (Some(a), Some(b)) => a == b,
            _ => false,
        };
        lp && med && self.origin == other.origin && slen == olen
    }
}

impl vstd::std_specs::cmp::PartialEqSpecImpl for RouteAttributes {
    open spec fn obeys_eq_spec() -> bool {
        true
    }

    open spec fn eq_spec(&self, other: &RouteAttributes) -> bool {
        route_eq(self@, other@)
    }
}

/// The route with a sequence segment of `times` copies of `asn` put in
/// front of its AS_PATH.
pub open spec fn prepended(r: RouteModel, asn: u16, times: u8) -> RouteModel {
    RouteModel {
        as_path: seq![
            SegmentModel {
                segment_type: ASPATHSegmentType::AsSequence,
                as_list: Seq::new(times as nat, |i: int| asn),
            },
        ] + r.as_path,
        ..r
    }
}

impl RouteAttributes {
    /// A copy of the attributes.
    pub fn copy(&self) -> (r: RouteAttributes)
        ensures
            r@ == self@,
    {
        RouteAttributes {
            as_path: copy_aspath(&self.as_path),
            origin: self.origin,
            next_hop: self.next_hop,
            local_pref: self.local_pref,
            multi_exit_disc: self.multi_exit_disc,
            path_type: self.path_type,
            peer_type: self.peer_type,
            recv_time: self.recv_time,
            peer_rid: self.peer_rid,
            peer_ip: self.peer_ip,
        }
    }

    /// Puts a sequence segment of `times` copies of `asn` in front of the
    /// AS_PATH and returns a copy of the new AS_PATH.
    pub fn prepend(&mut self, asn: u16, times: u8) -> (r: Aspath)
        ensures
            final(self)@ == prepended(old(self)@, asn, times),
            aspath_view(r@) == final(self)@.as_path,
    {
        let mut as_list: Vec<u16> = Vec::new();
        let mut i: u8 = 0;
        while i < times
            invariant
                i <= times,
                as_list@ == Seq::new(i as nat, |k: int| asn),
            decreases times - i,
        {
            as_list.push(asn);
            i = i + 1;
            assert(as_list@ =~= Seq::new(i as nat, |k: int| asn));
        }
        let sequence = ASPATHSegment { segment_type: ASPATHSegmentType::AsSequence, as_list };
        self.as_path.insert(0, sequence);
        proof {
            assert(aspath_view(self.as_path@) =~= seq![sequence@] + aspath_view(old(self).as_path@));
        }
        copy_aspath(&self.as_path)
    }

    /// Whether the route was received from an iBGP peer.
    pub fn is_from_ibgp(&self) -> (r: bool)
        ensures
            r == (self.peer_type == PeeringType::Ibgp),
    {
        self.peer_type == PeeringType::Ibgp
    }

    /// Whether the route was received from the peer with router identifier
    /// `n`.
    pub fn is_from_neighbor(&self, n: u32) -> (r: bool)
        ensures
            r == (self.peer_rid == n),
    {
        self.peer_rid == n
    }

    /// Whether the route may be taken in by the speaker of AS `asn`: its
    /// AS_PATH does not hold `asn`, so it did not loop back.
    pub fn is_valid(&self, asn: u16) -> (r: bool)
        ensures
            r == !aspath_flat(self@.as_path).contains(asn),
    {
        let flat = flatten_aspath(&self.as_path);
        let mut i: usize = 0;
        while i < flat.len()
            invariant
                i <= flat.len(),
                flat@ == aspath_flat(self@.as_path),
                forall|k: int| 0 <= k < i ==> flat@[k] != asn,
            decreases flat.len() - i,
        {
            if flat[i] == asn {
                assert(flat@[i as int] == asn);
                return false;
            }
            i = i + 1;
        }
        true
    }
}

/// The path attributes that announce a route: NEXT_HOP (for an IPv4 next
/// hop), ORIGIN, AS_PATH, then LOCAL_PREF and MULTI_EXIT_DISC where set.
pub open spec fn route_path_attributes(r: RouteModel) -> Seq<AttributeModel> {
    let nh: Seq<AttributeModel> = match r.next_hop {
        IpAddress::V4(a) => seq![
            AttributeModel {
                optional: false,
                transitive: true,
                partial: false,
                extended_length: false,
                type_code: PathAttributeType::NextHop,
                value: ValueModel::NextHop(a),
            },
        ],
        IpAddress::V6(_) => Seq::empty(),
    };
    let lp: Seq<AttributeModel> = match r.local_pref {
        Some(p) => seq![
            AttributeModel {
                optional: true,
                transitive: false,
                partial: false,
                extended_length: false,
                type_code: PathAttributeType::LocalPref,
                value: ValueModel::LocalPref(p),
            },
        ],
        None => Seq::empty(),
    };
    let med: Seq<AttributeModel> = match r.multi_exit_disc {
        Some(m) => seq![
            AttributeModel {
                optional: true,
                transitive: false,
                partial: false,
                extended_length: false,
                type_code: PathAttributeType::MultiExitDisc,
                value: ValueModel::MultiExitDisc(m),
            },
        ],
        None => Seq::empty(),
    };
    nh + seq![
        AttributeModel {
            optional: false,
            transitive: true,
            partial: false,
            extended_length: false,
            type_code: PathAttributeType::Origin,
            value: ValueModel::Origin(r.origin),
        },
        AttributeModel {
            optional: false,
            transitive: true,
            partial: false,
            extended_length: false,
            type_code: PathAttributeType::AsPath,
            value: ValueModel::AsPath(r.as_path),
        },
    ] + lp + med
}

impl RouteAttributes {
    /// The path attributes that announce the route (see
    /// [`route_path_attributes`]).
    pub fn to_path_attributes(&self) -> (r: Vec<PathAttribute>)
        ensures
            crate::attributes::attributes_view(r@) == route_path_attributes(self@),
    {
        let mut ret: Vec<PathAttribute> = Vec::new();
        match self.next_hop {
            IpAddress::V6(_) => {},
            IpAddress::V4(a) => {
                ret.push(PathAttribute::nexthop(a));
            },
        }
        ret.push(PathAttribute::origin(self.origin));
        ret.push(PathAttribute::aspath(copy_aspath(&self.as_path)));
        match self.local_pref {
            Some(p) => {
                ret.push(PathAttribute::local_pref(p));
            },
            None => {},
        }
        match self.multi_exit_disc {
            Some(m) => {
                ret.push(PathAttribute::med(m));
            },
            None => {},
        }
        assert(crate::attributes::attributes_view(ret@) =~= route_path_attributes(self@));
        ret
    }
}

/// Routes to announce or withdraw: prefixes sharing one set of
/// attributes.
#[derive(Debug)]
pub struct RibUpdate {
    pub nlris: Vec<Nlri>,
    pub attributes: RouteAttributes,
}

impl RibUpdate {
    /// A copy of the update.
    pub fn copy(&self) -> (r: RibUpdate)
        ensures
            r.nlris@ == self.nlris@,
            r.attributes@ == self.attributes@,
    {
        RibUpdate { nlris: self.nlris.clone(), attributes: self.attributes.copy() }
    }
}

/// The routes received for one prefix.
#[derive(Debug)]
pub struct RibEntry {
    pub nlri: Nlri,
    pub routes: Vec<RouteAttributes>,
}

/// The model of an entry: the prefix and the models of its routes.
pub struct EntryModel {
    pub nlri: Nlri,
    pub routes: Seq<RouteModel>,
}

impl View for RibEntry {
    type V = EntryModel;

    open spec fn view(&self) -> EntryModel {
        EntryModel { nlri: self.nlri, routes: routes_view(self.routes@) }
    }
}

/// A routing information base: for each prefix, the routes received for
/// it. No prefix has two entries.
#[derive(Debug)]
pub struct Rib {
    pub entries: Vec<RibEntry>,
}

/// The models of the entries of a RIB.
pub open spec fn entries_view(s: Seq<RibEntry>) -> Seq<EntryModel> {
    s.map_values(|e: RibEntry| e@)
}

impl View for Rib {
    type V = Seq<EntryModel>;

    open spec fn view(&self) -> Seq<EntryModel> {
        entries_view(self.entries@)
    }
}

/// No prefix has two entries.
pub open spec fn keys_unique(s: Seq<EntryModel>) -> bool {
    forall|i: int, j: int| 0 <= i < j < s.len() ==> s[i].nlri != s[j].nlri
}

/// The position of the entry for `n`, if there is one.
pub open spec fn entry_index(s: Seq<EntryModel>, n: Nlri) -> Option<int>
    decreases s.len(),
{
    if s.len() == 0 {
        None
    } else if s.last().nlri == n {
        Some(s.len() - 1)
    } else {
        entry_index(s.drop_last(), n)
    }
}

/// The routes held for `n`, if any.
pub open spec fn rib_lookup(s: Seq<EntryModel>, n: Nlri) -> Option<Seq<RouteModel>> {
    match entry_index(s, n) {
        Some(i) => Some(s[i].routes),
        None => None,
    }
}

/// The position found for a prefix holds an entry for it, and a prefix
/// without a position has no entry.
pub proof fn lemma_entry_index(s: Seq<EntryModel>, n: Nlri)
    ensures
        entry_index(s, n) matches Some(i) ==> 0 <= i < s.len() && s[i].nlri == n,
        entry_index(s, n) is None ==> forall|k: int| 0 <= k < s.len() ==> s[k].nlri != n,
    decreases s.len(),
{
    if s.len() > 0 && s.last().nlri != n {
        lemma_entry_index(s.drop_last(), n);
        assert forall|k: int| 0 <= k < s.len() - 1 implies s[k] == s.drop_last()[k] by {}
    }
}

/// With unique keys, the position of an entry is where its prefix is.
pub proof fn lemma_entry_index_at(s: Seq<EntryModel>, k: int)
    requires
        keys_unique(s),
        0 <= k < s.len(),
    ensures
        entry_index(s, s[k].nlri) == Some(k),
    decreases s.len(),
{
    if k < s.len() - 1 {
        lemma_entry_index_at(s.drop_last(), k);
    }
}

/// The lookup of a prefix that an entry holds gives that entry's routes.
pub proof fn lemma_lookup_at(s: Seq<EntryModel>, k: int)
    requires
        keys_unique(s),
        0 <= k < s.len(),
    ensures
        rib_lookup(s, s[k].nlri) == Some(s[k].routes),
{
    lemma_entry_index_at(s, k);
}

/// The lookup of a prefix that no entry holds gives nothing.
pub proof fn lemma_lookup_absent(s: Seq<EntryModel>, m: Nlri)
    requires
        forall|k: int| 0 <= k < s.len() ==> (#[trigger] s[k]).nlri != m,
    ensures
        rib_lookup(s, m) is None,
{
    lemma_entry_index(s, m);
}

impl Rib {
    /// The RIB is well formed: no prefix has two entries and every entry
    /// holds a route.
    pub open spec fn wf(self) -> bool {
        &&& keys_unique(self@)
        &&& forall|i: int| 0 <= i < self@.len() ==> (#[trigger] self@[i]).routes.len() > 0
    }

    /// The empty RIB.
    pub fn new() -> (r: Rib)
        ensures
            r@ == Seq::<EntryModel>::empty(),
            r.wf(),
    {
        let r = Rib { entries: Vec::new() };
        assert(r@ =~= Seq::<EntryModel>::empty());
        r
    }

    /// The position of the entry for `n`, if there is one.
    pub fn find(&self, n: &Nlri) -> (r: Option<usize>)
        requires
            self.wf(),
        ensures
            r matches Some(i) ==> entry_index(self@, *n) == Some(i as int),
            r is None ==> entry_index(self@, *n) is None,
    {
        let mut i: usize = 0;
        while i < self.entries.len()
            invariant
                i <= self.entries.len(),
                keys_unique(self@),
                forall|k: int| 0 <= k < i ==> self@[k].nlri != *n,
            decreases self.entries.len() - i,
        {
            if self.entries[i].nlri == *n {
                proof {
                    lemma_entry_index_at(self@, i as int);
                }
                return Some(i);
            }
            i = i + 1;
        }
        proof {
            lemma_entry_index(self@, *n);
            if entry_index(self@, *n) is Some {
                let k = entry_index(self@, *n).unwrap();
                assert(self@[k].nlri == *n);
            }
        }
        None
    }
}


impl Rib {
    /// Every prefix with its best (first) route, in the RIB's order: what a
    /// session that has just come up is told of the whole table.
    pub fn best_routes(&self) -> (r: Vec<(Nlri, Option<RouteAttributes>)>)
        requires
            self.wf(),
        ensures
            r@.len() == self@.len(),
            forall|i: int|
                0 <= i < r@.len() ==> (#[trigger] r@[i]).0 == self@[i].nlri && (r@[i].1 matches Some(
                    a,
                ) && a@ == self@[i].routes[0]),
    {
        let mut out: Vec<(Nlri, Option<RouteAttributes>)> = Vec::new();
        let mut i: usize = 0;
        while i < self.entries.len()
            invariant
                i <= self.entries.len(),
                self.wf(),
                out@.len() == i,
                forall|k: int|
                    0 <= k < i ==> (#[trigger] out@[k]).0 == self@[k].nlri && (out@[k].1 matches Some(
                        a,
                    ) && a@ == self@[k].routes[0]),
            decreases self.entries.len() - i,
        {
            assert(self@[i as int].routes.len() > 0);
            let best = self.entries[i].routes[0].copy();
            out.push((self.entries[i].nlri, Some(best)));
            i = i + 1;
        }
        out
    }
}

} // verus!
