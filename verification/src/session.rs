//! A neighbor: its session state, what it advertised and was advertised,
//! and the routes received from it.
use vstd::prelude::*;
use crate::capabilities::{Capabilities, CapabilitiesModel};
use crate::net::IpAddress;
use crate::nlri::Nlri;
use crate::rib::{
    entries_view, entry_index, keys_unique, lemma_entry_index, lemma_entry_index_at, lemma_lookup_absent,
    lemma_lookup_at, rib_lookup,
    route_wf, routes_view, EntryModel, Rib, RibEntry, RibUpdate, RouteAttributes, RouteModel,
};
use crate::types::AddressFamily;

verus! {

/// The states of the BGP finite state machine.
#[derive(Debug, Clone, Copy, PartialEq, Eq, Structural)]
pub enum BGPState {
    Idle,
    Connect,
    Active,
    OpenSent,
    OpenConfirm,
    Established,
}

impl Default for BGPState {
    fn default() -> (r: Self)
        ensures
            r == BGPState::Active,
    {
        BGPState::Active
    }
}

/// The events of the BGP finite state machine.
#[derive(Debug)]
pub enum Event {
    ManualStart,
    ManualStop,
    AutomaticStart,
    ManualStartWithPassiveTcpEstablishment,
    AutomaticStartWithPassiveTcpEstablishment,
    AutomaticStartWithDampPeerOscillations,
    AutomaticStartWithDampPeerOscillationsAndPassiveTcpEstablishment,
    AutomaticStop,
    ConnectRetryTimerExpires,
    HoldTimerExpires,
    KeepaliveTimerExpires,
    DelayOpenTimerExpires,
    IdleHoldTimerExpires,
    TcpConnectionValid,
    TcpCRInvalid,
    TcpCRAcked,
    TcpConnectionConfirmed,
    TcpConnectionFails,
    BGPOpen,
    BGPOpenWithDelayOpenTimerRunning,
    BGPHeaderErr,
    BGPOpenMsgErr,
    OpenCollisionDump,
    NotifMsgVerErr,
    NotifMsg,
    KeepAliveMsg,
    UpdateMsg,
    UpdateMsgErr,
    RibUpdate(Vec<(Nlri, Option<RouteAttributes>)>),
}

/// The attributes of a session.
#[derive(Debug, Clone, Copy, PartialEq, Eq, Structural)]
pub struct BGPSessionAttributes {
    pub state: BGPState,
    pub hold_time: u16,
    pub hold_timer: usize,
    pub keepalive_time: usize,
    pub keepalive_timer: usize,
    pub connect_retry_time: u16,
    pub connect_retry_timer: usize,
    pub connect_retry_counter: usize,
    pub allow_automatic_start: bool,
    pub passive_tcp_establishment: bool,
}

/// Session attributes with every field at its default: state Active,
/// times and counters zero, flags off.
pub open spec fn default_session() -> BGPSessionAttributes {
    BGPSessionAttributes {
        state: BGPState::Active,
        hold_time: 0,
        hold_timer: 0,
        keepalive_time: 0,
        keepalive_timer: 0,
        connect_retry_time: 0,
        connect_retry_timer: 0,
        connect_retry_counter: 0,
        allow_automatic_start: false,
        passive_tcp_establishment: false,
    }
}

impl Default for BGPSessionAttributes {
    fn default() -> (r: Self)
        ensures
            r == default_session(),
    {
        BGPSessionAttributes {
            state: BGPState::Active,
            hold_time: 0,
            hold_timer: 0,
            keepalive_time: 0,
            keepalive_timer: 0,
            connect_retry_time: 0,
            connect_retry_timer: 0,
            connect_retry_counter: 0,
            allow_automatic_start: false,
            passive_tcp_establishment: false,
        }
    }
}

/// Builds [`BGPSessionAttributes`]; fields left unset keep their default.
pub struct BGPSessionAttributesBuilder {
    pub attributes: BGPSessionAttributes,
}

impl Default for BGPSessionAttributesBuilder {
    fn default() -> (r: Self)
        ensures
            r.attributes == default_session(),
    {
        BGPSessionAttributesBuilder { attributes: BGPSessionAttributes::default() }
    }
}

impl BGPSessionAttributesBuilder {
    /// Sets the state.
    pub fn state(self, v: BGPState) -> (r: Self)
        ensures
            r.attributes == (BGPSessionAttributes { state: v, ..self.attributes }),
    {
        BGPSessionAttributesBuilder { attributes: BGPSessionAttributes { state: v, ..self.attributes } }
    }

    /// Sets the hold time.
    pub fn hold_time(self, v: u16) -> (r: Self)
        ensures
            r.attributes == (BGPSessionAttributes { hold_time: v, ..self.attributes }),
    {
        BGPSessionAttributesBuilder {
            attributes: BGPSessionAttributes { hold_time: v, ..self.attributes },
        }
    }

    /// Sets the connect retry time.
    pub fn connect_retry_time(self, v: u16) -> (r: Self)
        ensures
            r.attributes == (BGPSessionAttributes { connect_retry_time: v, ..self.attributes }),
    {
        BGPSessionAttributesBuilder {
            attributes: BGPSessionAttributes { connect_retry_time: v, ..self.attributes },
        }
    }

    /// Sets whether the session may start by itself.
    pub fn allow_automatic_start(self, v: bool) -> (r: Self)
        ensures
            r.attributes == (BGPSessionAttributes { allow_automatic_start: v, ..self.attributes }),
    {
        BGPSessionAttributesBuilder {
            attributes: BGPSessionAttributes { allow_automatic_start: v, ..self.attributes },
        }
    }

    /// The attributes; building never fails.
    pub fn build(&self) -> (r: Result<BGPSessionAttributes, String>)
        ensures
            r == Ok::<BGPSessionAttributes, String>(self.attributes),
    {
        Ok(self.attributes)
    }
}

/// The routes received from a neighbor, per address family.
pub type AdjRib = Vec<(AddressFamily, Rib)>;

/// The model of the routes received from a neighbor.
pub open spec fn adjrib_view(a: Seq<(AddressFamily, Rib)>) -> Seq<(AddressFamily, Seq<EntryModel>)> {
    a.map_values(|p: (AddressFamily, Rib)| (p.0, p.1@))
}

/// A neighbor.
#[derive(Debug)]
pub struct BGPNeighbor {
    pub local_ip: Option<IpAddress>,
    pub local_port: Option<u16>,
    pub local_asn: u16,
    pub local_rid: u32,
    pub remote_ip: Option<IpAddress>,
    pub remote_port: Option<u16>,
    pub remote_asn: Option<u16>,
    pub remote_rid: Option<u32>,
    pub capabilities_advertised: Capabilities,
    pub capabilities_received: Capabilities,
    pub adjrib: AdjRib,
    pub attributes: BGPSessionAttributes,
}

/// The position of the family `af` among the families of `a`.
pub open spec fn family_index(a: Seq<(AddressFamily, Seq<EntryModel>)>, af: AddressFamily) -> Option<
    int,
>
    decreases a.len(),
{
    if a.len() == 0 {
        None
    } else if a.last().0 == af {
        Some(a.len() - 1)
    } else {
        family_index(a.drop_last(), af)
    }
}

/// Sets the routes of `n` to the single route `attrs`, adding the prefix
/// at the end when it is new.
pub open spec fn set_route(rib: Seq<EntryModel>, n: Nlri, attrs: RouteModel) -> Seq<EntryModel> {
    match entry_index(rib, n) {
        Some(i) => rib.update(i, EntryModel { nlri: n, routes: seq![attrs] }),
        None => rib.push(EntryModel { nlri: n, routes: seq![attrs] }),
    }
}

/// Sets the routes of each of `ns` in turn to the single route `attrs`.
pub open spec fn set_routes(rib: Seq<EntryModel>, ns: Seq<Nlri>, attrs: RouteModel) -> Seq<
    EntryModel,
>
    decreases ns.len(),
{
    if ns.len() == 0 {
        rib
    } else {
        set_route(set_routes(rib, ns.drop_last(), attrs), ns.last(), attrs)
    }
}

/// Removes the entry of `n`, if any.
pub open spec fn remove_route(rib: Seq<EntryModel>, n: Nlri) -> Seq<EntryModel> {
    match entry_index(rib, n) {
        Some(i) => rib.remove(i),
        None => rib,
    }
}

/// Removes the entries of each of `ns` in turn.
pub open spec fn remove_routes(rib: Seq<EntryModel>, ns: Seq<Nlri>) -> Seq<EntryModel>
    decreases ns.len(),
{
    if ns.len() == 0 {
        rib
    } else {
        remove_route(remove_routes(rib, ns.drop_last()), ns.last())
    }
}

/// The received routes once `routes` are added for `af`: each prefix then
/// holds that single route. A new family is added at the end.
pub open spec fn adjrib_added(
    a: Seq<(AddressFamily, Seq<EntryModel>)>,
    af: AddressFamily,
    ns: Seq<Nlri>,
    attrs: RouteModel,
) -> Seq<(AddressFamily, Seq<EntryModel>)> {
    match family_index(a, af) {
        Some(i) => a.update(i, (af, set_routes(a[i].1, ns, attrs))),
        None => a.push((af, set_routes(Seq::empty(), ns, attrs))),
    }
}

/// The received routes once the prefixes `ns` are withdrawn for `af`.
pub open spec fn adjrib_withdrawn(
    a: Seq<(AddressFamily, Seq<EntryModel>)>,
    af: AddressFamily,
    ns: Seq<Nlri>,
) -> Seq<(AddressFamily, Seq<EntryModel>)> {
    match family_index(a, af) {
        Some(i) => a.update(i, (af, remove_routes(a[i].1, ns))),
        None => a,
    }
}

/// The families of the received routes are distinct and each RIB is well
/// formed.
pub open spec fn adjrib_wf(a: Seq<(AddressFamily, Rib)>) -> bool {
    &&& forall|i: int, j: int| 0 <= i < j < a.len() ==> a[i].0 != a[j].0
    &&& forall|i: int| 0 <= i < a.len() ==> (#[trigger] a[i]).1.wf()
}

/// The position found for a family holds it; a family without a position
/// is absent.
proof fn lemma_family_index(a: Seq<(AddressFamily, Seq<EntryModel>)>, af: AddressFamily)
    ensures
        family_index(a, af) matches Some(i) ==> 0 <= i < a.len() && a[i].0 == af,
        family_index(a, af) is None ==> forall|k: int| 0 <= k < a.len() ==> a[k].0 != af,
    decreases a.len(),
{
    if a.len() > 0 && a.last().0 != af {
        lemma_family_index(a.drop_last(), af);
        assert forall|k: int| 0 <= k < a.len() - 1 implies a[k] == a.drop_last()[k] by {}
    }
}

/// With distinct families, the position of a family is where it is.
proof fn lemma_family_index_at(a: Seq<(AddressFamily, Seq<EntryModel>)>, k: int)
    requires
        forall|i: int, j: int| 0 <= i < j < a.len() ==> a[i].0 != a[j].0,
        0 <= k < a.len(),
    ensures
        family_index(a, a[k].0) == Some(k),
    decreases a.len(),
{
    if k < a.len() - 1 {
        lemma_family_index_at(a.drop_last(), k);
    }
}

impl Rib {
    /// Sets the routes of `n` to the single route `attrs`.
    pub fn set_route(&mut self, n: Nlri, attrs: &RouteAttributes)
        requires
            old(self).wf(),
        ensures
            final(self).wf(),
            final(self)@ == set_route(old(self)@, n, attrs@),
    {
        let mut v: Vec<RouteAttributes> = Vec::new();
        v.push(attrs.copy());
        proof {
            assert(routes_view(v@) =~= seq![attrs@]);
            lemma_entry_index(self@, n);
        }
        let e = RibEntry { nlri: n, routes: v };
        let ghost before = self@;
        match self.find(&n) {
            Some(i) => {
                self.entries.set(i, e);
                proof {
                    assert(self@ =~= before.update(i as int, EntryModel { nlri: n, routes: seq![attrs@] }));
                }
            },
            None => {
                self.entries.push(e);
                proof {
                    assert(self@ =~= before.push(EntryModel { nlri: n, routes: seq![attrs@] }));
                }
            },
        }
    }

    /// Removes the entry of `n`, if any.
    pub fn remove_route(&mut self, n: &Nlri)
        requires
            old(self).wf(),
        ensures
            final(self).wf(),
            final(self)@ == remove_route(old(self)@, *n),
    {
        let ghost before = self@;
        proof {
            lemma_entry_index(before, *n);
        }
        match self.find(n) {
            Some(i) => {
                self.entries.remove(i);
                proof {
                    assert(self@ =~= before.remove(i as int));
                    assert forall|a: int, b: int| 0 <= a < b < self@.len() implies self@[a].nlri
                        != self@[b].nlri by {
                        let a0 = if a < i { a } else { a + 1 };
                        let b0 = if b < i { b } else { b + 1 };
                        assert(self@[a] == before[a0] && self@[b] == before[b0]);
                    }
                    assert forall|a: int| 0 <= a < self@.len() implies (#[trigger] self@[a]).routes.len()
                        > 0 by {
                        let a0 = if a < i { a } else { a + 1 };
                        assert(self@[a] == before[a0]);
                    }
                }
            },
            None => {},
        }
    }
}

impl BGPNeighbor {
    /// A neighbor in state `state`, with the given hold and connect retry
    /// times, that may start by itself, advertising the families
    /// `families`, and with nothing received yet.
    pub fn new(
        local_ip: Option<IpAddress>,
        local_port: Option<u16>,
        local_asn: u16,
        local_rid: u32,
        remote_ip: Option<IpAddress>,
        remote_port: Option<u16>,
        remote_asn: Option<u16>,
        hold_time: u16,
        connect_retry_time: u16,
        state: BGPState,
        families: Option<Vec<AddressFamily>>,
    ) -> (r: BGPNeighbor)
        ensures
            r.local_ip == local_ip && r.local_port == local_port && r.local_asn == local_asn
                && r.local_rid == local_rid && r.remote_ip == remote_ip && r.remote_port
                == remote_port && r.remote_asn == remote_asn && r.remote_rid is None,
            r.attributes == (BGPSessionAttributes {
                state,
                hold_time,
                connect_retry_time,
                allow_automatic_start: true,
                ..default_session()
            }),
            r.capabilities_advertised@ == (CapabilitiesModel {
                multiprotocol: match families {
                    Some(v) => Some(v@),
                    None => None,
                },
                ..crate::capabilities::no_capabilities()
            }),
            r.capabilities_received@ == crate::capabilities::no_capabilities(),
            r.adjrib@.len() == 0,
    {
        let attributes = BGPSessionAttributesBuilder::default().connect_retry_time(
            connect_retry_time,
        ).hold_time(hold_time).state(state).allow_automatic_start(true).build();
        let attributes = match attributes {
            Ok(a) => a,
            Err(_) => BGPSessionAttributes::default(),
        };
        let capabilities_advertised = Capabilities {
            multiprotocol: families,
            ..Capabilities::default()
        };
        BGPNeighbor {
            local_ip,
            local_port,
            local_asn,
            local_rid,
            remote_ip,
            remote_port,
            remote_asn,
            remote_rid: None,
            capabilities_advertised,
            capabilities_received: Capabilities::default(),
            adjrib: Vec::new(),
            attributes,
        }
    }

    /// Whether the session is established.
    pub fn is_established(&self) -> (r: bool)
        ensures
            r == (self.attributes.state == BGPState::Established),
    {
        self.attributes.state == BGPState::Established
    }

    /// The position of the family `af` among the received routes.
    fn find_family(&self, af: &AddressFamily) -> (r: Option<usize>)
        requires
            adjrib_wf(self.adjrib@),
        ensures
            r matches Some(i) ==> family_index(adjrib_view(self.adjrib@), *af) == Some(i as int),
            r is None ==> family_index(adjrib_view(self.adjrib@), *af) is None,
    {
        let ghost a = adjrib_view(self.adjrib@);
        let mut i: usize = 0;
        while i < self.adjrib.len()
            invariant
                i <= self.adjrib.len(),
                a == adjrib_view(self.adjrib@),
                adjrib_wf(self.adjrib@),
                forall|k: int| 0 <= k < i ==> a[k].0 != *af,
            decreases self.adjrib.len() - i,
        {
            if self.adjrib[i].0 == *af {
                proof {
                    lemma_family_index_at(a, i as int);
                }
                return Some(i);
            }
            i = i + 1;
        }
        proof {
            lemma_family_index(a, *af);
            if family_index(a, *af) is Some {
                let k = family_index(a, *af).unwrap();
                assert(a[k].0 == *af);
            }
        }
        None
    }

    /// Records the routes of `routes` as received for `af`: each of its
    /// prefixes then holds that single route.
    pub fn adjrib_add(&mut self, af: AddressFamily, routes: &RibUpdate)
        requires
            adjrib_wf(old(self).adjrib@),
        ensures
            adjrib_wf(final(self).adjrib@),
            adjrib_view(final(self).adjrib@) == adjrib_added(
                adjrib_view(old(self).adjrib@),
                af,
                routes.nlris@,
                routes.attributes@,
            ),
            *final(self) == (BGPNeighbor { adjrib: final(self).adjrib, ..*old(self) }),
    {
        let ghost a = adjrib_view(self.adjrib@);
        let idx = self.find_family(&af);
        proof {
            lemma_family_index(a, af);
        }
        let mut rib = match idx {
            Some(i) => {
                let (_, r) = self.adjrib.remove(i);
                r
            },
            None => Rib::new(),
        };
        let ghost start = rib@;
        let mut k: usize = 0;
        while k < routes.nlris.len()
            invariant
                k <= routes.nlris.len(),
                rib.wf(),
                rib@ == set_routes(start, routes.nlris@.take(k as int), routes.attributes@),
            decreases routes.nlris.len() - k,
        {
            proof {
                assert(routes.nlris@.take(k + 1).drop_last() =~= routes.nlris@.take(k as int));
            }
            rib.set_route(routes.nlris[k], &routes.attributes);
            k = k + 1;
        }
        assert(routes.nlris@.take(routes.nlris@.len() as int) =~= routes.nlris@);
        let ghost removed = self.adjrib@;
        match idx {
            Some(i) => {
                self.adjrib.insert(i, (af, rib));
                proof {
                    assert(adjrib_view(self.adjrib@) =~= a.update(
                        i as int,
                        (af, set_routes(a[i as int].1, routes.nlris@, routes.attributes@)),
                    ));
                }
            },
            None => {
                self.adjrib.push((af, rib));
                proof {
                    assert(start =~= Seq::<EntryModel>::empty());
                    assert(adjrib_view(self.adjrib@) =~= a.push(
                        (af, set_routes(Seq::empty(), routes.nlris@, routes.attributes@)),
                    ));
                }
            },
        }
        proof {
            assert forall|x: int, y: int| 0 <= x < y < self.adjrib@.len() implies self.adjrib@[x].0
                != self.adjrib@[y].0 by {
                assert(adjrib_view(self.adjrib@)[x].0 == self.adjrib@[x].0);
                assert(adjrib_view(self.adjrib@)[y].0 == self.adjrib@[y].0);
                assert(a[x].0 == adjrib_view(old(self).adjrib@)[x].0);
            }
        }
    }

    /// Forgets the prefixes of `routes` among the routes received for `af`.
    pub fn adjrib_withdraw(&mut self, af: AddressFamily, routes: &RibUpdate)
        requires
            adjrib_wf(old(self).adjrib@),
        ensures
            adjrib_wf(final(self).adjrib@),
            adjrib_view(final(self).adjrib@) == adjrib_withdrawn(
                adjrib_view(old(self).adjrib@),
                af,
                routes.nlris@,
            ),
            *final(self) == (BGPNeighbor { adjrib: final(self).adjrib, ..*old(self) }),
    {
        let ghost a = adjrib_view(self.adjrib@);
        match self.find_family(&af) {
            None => {},
            Some(i) => {
                proof {
                    lemma_family_index(a, af);
                }
                let (_, mut rib) = self.adjrib.remove(i);
                let ghost start = rib@;
                let mut k: usize = 0;
                while k < routes.nlris.len()
                    invariant
                        k <= routes.nlris.len(),
                        rib.wf(),
                        rib@ == remove_routes(start, routes.nlris@.take(k as int)),
                    decreases routes.nlris.len() - k,
                {
                    proof {
                        assert(routes.nlris@.take(k + 1).drop_last() =~= routes.nlris@.take(
                            k as int,
                        ));
                    }
                    rib.remove_route(&routes.nlris[k]);
                    k = k + 1;
                }
                assert(routes.nlris@.take(routes.nlris@.len() as int) =~= routes.nlris@);
                self.adjrib.insert(i, (af, rib));
                proof {
                    assert(adjrib_view(self.adjrib@) =~= a.update(
                        i as int,
                        (af, remove_routes(a[i as int].1, routes.nlris@)),
                    ));
                    assert forall|x: int, y: int| 0 <= x < y < self.adjrib@.len() implies self.adjrib@[x].0
                        != self.adjrib@[y].0 by {
                        assert(adjrib_view(self.adjrib@)[x].0 == self.adjrib@[x].0);
                        assert(adjrib_view(self.adjrib@)[y].0 == self.adjrib@[y].0);
                        assert(a[x].0 == adjrib_view(old(self).adjrib@)[x].0);
                    }
                }
            },
        }
    }
}


/// Setting the route of `n` keeps the keys unique; a lookup of `n` then
/// gives that single route, and a lookup of any other prefix is unchanged.
#[verifier::spinoff_prover]
pub proof fn lemma_set_route_lookup(rib: Seq<EntryModel>, n: Nlri, attrs: RouteModel, m: Nlri)
    requires
        keys_unique(rib),
    ensures
        keys_unique(set_route(rib, n, attrs)),
        rib_lookup(set_route(rib, n, attrs), m) == if m == n {
            Some(seq![attrs])
        } else {
            rib_lookup(rib, m)
        },
{
    let t = set_route(rib, n, attrs);
    lemma_entry_index(rib, n);
    lemma_entry_index(rib, m);
    match entry_index(rib, n) {
        Some(i) => {
            assert(t[i].nlri == n);
            assert forall|a: int, b: int| 0 <= a < b < t.len() implies t[a].nlri != t[b].nlri by {
                assert(t[a].nlri == rib[a].nlri && t[b].nlri == rib[b].nlri);
            }
            if m == n {
                lemma_lookup_at(t, i);
            } else {
                match entry_index(rib, m) {
                    Some(j) => {
                        lemma_lookup_at(t, j);
                    },
                    None => {
                        assert forall|k: int| 0 <= k < t.len() implies (#[trigger] t[k]).nlri
                            != m by {
                            if k != i {
                                assert(t[k] == rib[k]);
                            }
                        }
                        lemma_lookup_absent(t, m);
                    },
                }
            }
        },
        None => {
            let last = t.len() - 1;
            assert(t[last].nlri == n);
            assert forall|a: int, b: int| 0 <= a < b < t.len() implies t[a].nlri != t[b].nlri by {
                if b < last {
                    assert(t[a] == rib[a] && t[b] == rib[b]);
                } else {
                    assert(t[a] == rib[a]);
                }
            }
            if m == n {
                lemma_lookup_at(t, last);
            } else {
                match entry_index(rib, m) {
                    Some(j) => {
                        assert(t[j] == rib[j]);
                        lemma_lookup_at(t, j);
                    },
                    None => {
                        assert forall|k: int| 0 <= k < t.len() implies (#[trigger] t[k]).nlri
                            != m by {
                            if k < last {
                                assert(t[k] == rib[k]);
                            }
                        }
                        lemma_lookup_absent(t, m);
                    },
                }
            }
        },
    }
}

/// Removing the entry of `n` keeps the keys unique; a lookup of `n` then
/// gives nothing, and a lookup of any other prefix is unchanged.
#[verifier::spinoff_prover]
pub proof fn lemma_remove_route_lookup(rib: Seq<EntryModel>, n: Nlri, m: Nlri)
    requires
        keys_unique(rib),
    ensures
        keys_unique(remove_route(rib, n)),
        rib_lookup(remove_route(rib, n), m) == if m == n {
            None
        } else {
            rib_lookup(rib, m)
        },
{
    let t = remove_route(rib, n);
    lemma_entry_index(rib, n);
    lemma_entry_index(rib, m);
    match entry_index(rib, n) {
        Some(i) => {
            assert forall|a: int, b: int| 0 <= a < b < t.len() implies t[a].nlri != t[b].nlri by {
                let a0 = if a < i { a } else { a + 1 };
                let b0 = if b < i { b } else { b + 1 };
                assert(t[a] == rib[a0] && t[b] == rib[b0]);
            }
            if m == n {
                assert forall|k: int| 0 <= k < t.len() implies (#[trigger] t[k]).nlri != m by {
                    let k0 = if k < i { k } else { k + 1 };
                    assert(t[k] == rib[k0]);
                }
                lemma_lookup_absent(t, m);
            } else {
                match entry_index(rib, m) {
                    Some(j) => {
                        let j1 = if j < i { j } else { j - 1 };
                        assert(j != i);
                        assert(t[j1] == rib[j]);
                        lemma_lookup_at(t, j1);
                    },
                    None => {
                        assert forall|k: int| 0 <= k < t.len() implies (#[trigger] t[k]).nlri
                            != m by {
                            let k0 = if k < i { k } else { k + 1 };
                            assert(t[k] == rib[k0]);
                        }
                        lemma_lookup_absent(t, m);
                    },
                }
            }
        },
        None => {
            if m == n {
                lemma_lookup_absent(t, m);
            }
        },
    }
}

/// Setting the routes of each of `ns` keeps the keys unique; a lookup of
/// one of `ns` then gives the single route `attrs`, and a lookup of any
/// other prefix is unchanged.
pub proof fn lemma_set_routes_lookup(
    rib: Seq<EntryModel>,
    ns: Seq<Nlri>,
    attrs: RouteModel,
    m: Nlri,
)
    requires
        keys_unique(rib),
    ensures
        keys_unique(set_routes(rib, ns, attrs)),
        rib_lookup(set_routes(rib, ns, attrs), m) == if ns.contains(m) {
            Some(seq![attrs])
        } else {
            rib_lookup(rib, m)
        },
    decreases ns.len(),
{
    if ns.len() > 0 {
        let prev = set_routes(rib, ns.drop_last(), attrs);
        lemma_set_routes_lookup(rib, ns.drop_last(), attrs, m);
        lemma_set_route_lookup(prev, ns.last(), attrs, m);
        if ns.contains(m) && m != ns.last() {
            let k = choose|k: int| 0 <= k < ns.len() && ns[k] == m;
            assert(ns.drop_last()[k] == m);
        }
        if ns.drop_last().contains(m) {
            let k = choose|k: int| 0 <= k < ns.drop_last().len() && ns.drop_last()[k] == m;
            assert(ns[k] == m);
        }
        if m == ns.last() {
            assert(ns[ns.len() - 1] == m);
        }
    }
}

/// Removing the entries of each of `ns` keeps the keys unique; a lookup of
/// one of `ns` then gives nothing, and a lookup of any other prefix is
/// unchanged.
pub proof fn lemma_remove_routes_lookup(rib: Seq<EntryModel>, ns: Seq<Nlri>, m: Nlri)
    requires
        keys_unique(rib),
    ensures
        keys_unique(remove_routes(rib, ns)),
        rib_lookup(remove_routes(rib, ns), m) == if ns.contains(m) {
            None
        } else {
            rib_lookup(rib, m)
        },
    decreases ns.len(),
{
    if ns.len() > 0 {
        let prev = remove_routes(rib, ns.drop_last());
        lemma_remove_routes_lookup(rib, ns.drop_last(), m);
        lemma_remove_route_lookup(prev, ns.last(), m);
        if ns.contains(m) && m != ns.last() {
            let k = choose|k: int| 0 <= k < ns.len() && ns[k] == m;
            assert(ns.drop_last()[k] == m);
        }
        if ns.drop_last().contains(m) {
            let k = choose|k: int| 0 <= k < ns.drop_last().len() && ns.drop_last()[k] == m;
            assert(ns[k] == m);
        }
        if m == ns.last() {
            assert(ns[ns.len() - 1] == m);
        }
    }
}

/// The routes received for `n` in the family `af`, if any.
pub open spec fn adjrib_lookup(
    a: Seq<(AddressFamily, Seq<EntryModel>)>,
    af: AddressFamily,
    n: Nlri,
) -> Option<Seq<RouteModel>> {
    match family_index(a, af) {
        Some(i) => rib_lookup(a[i].1, n),
        None => None,
    }
}

/// The families are distinct and no prefix has two entries in a family.
pub open spec fn adjrib_keys_unique(a: Seq<(AddressFamily, Seq<EntryModel>)>) -> bool {
    &&& forall|i: int, j: int| 0 <= i < j < a.len() ==> a[i].0 != a[j].0
    &&& forall|i: int| 0 <= i < a.len() ==> keys_unique(#[trigger] a[i].1)
}

/// The received routes of a neighbor are of this shape.
pub proof fn lemma_adjrib_wf_keys(a: Seq<(AddressFamily, Rib)>)
    requires
        adjrib_wf(a),
    ensures
        adjrib_keys_unique(adjrib_view(a)),
{
    let v = adjrib_view(a);
    assert forall|i: int| 0 <= i < v.len() implies keys_unique(#[trigger] v[i].1) by {
        assert(a[i].1.wf());
    }
}

/// Once routes are added for `af`, the received routes answer a lookup of
/// one of their prefixes in `af` with that single route, and any other
/// lookup as before; the shape is kept.
#[verifier::spinoff_prover]
pub proof fn lemma_adjrib_added_lookup(
    a: Seq<(AddressFamily, Seq<EntryModel>)>,
    af: AddressFamily,
    ns: Seq<Nlri>,
    attrs: RouteModel,
    af2: AddressFamily,
    m: Nlri,
)
    requires
        adjrib_keys_unique(a),
    ensures
        adjrib_keys_unique(adjrib_added(a, af, ns, attrs)),
        adjrib_lookup(adjrib_added(a, af, ns, attrs), af2, m) == if af2 == af && ns.contains(m) {
            Some(seq![attrs])
        } else {
            adjrib_lookup(a, af2, m)
        },
{
    let b = adjrib_added(a, af, ns, attrs);
    lemma_family_index(a, af);
    lemma_family_index(a, af2);
    match family_index(a, af) {
        Some(i) => {
            lemma_set_routes_lookup(a[i].1, ns, attrs, m);
            assert forall|x: int, y: int| 0 <= x < y < b.len() implies b[x].0 != b[y].0 by {
                assert(b[x].0 == a[x].0 && b[y].0 == a[y].0);
            }
            assert forall|x: int| 0 <= x < b.len() implies keys_unique(#[trigger] b[x].1) by {
                if x != i {
                    assert(b[x] == a[x]);
                }
            }
            if af2 == af {
                lemma_family_index_at(b, i);
            } else {
                match family_index(a, af2) {
                    Some(j) => {
                        assert(b[j] == a[j]);
                        lemma_family_index_at(b, j);
                    },
                    None => {
                        lemma_family_index(b, af2);
                        if family_index(b, af2) is Some {
                            let k = family_index(b, af2).unwrap();
                            assert(b[k].0 == a[k].0);
                        }
                    },
                }
            }
        },
        None => {
            let last = b.len() - 1;
            assert(keys_unique(Seq::<EntryModel>::empty()));
            lemma_set_routes_lookup(Seq::<EntryModel>::empty(), ns, attrs, m);
            lemma_lookup_absent(Seq::<EntryModel>::empty(), m);
            assert forall|x: int, y: int| 0 <= x < y < b.len() implies b[x].0 != b[y].0 by {
                if y < last {
                    assert(b[x] == a[x] && b[y] == a[y]);
                } else {
                    assert(b[x] == a[x]);
                }
            }
            assert forall|x: int| 0 <= x < b.len() implies keys_unique(#[trigger] b[x].1) by {
                if x < last {
                    assert(b[x] == a[x]);
                }
            }
            if af2 == af {
                lemma_family_index_at(b, last);
            } else {
                match family_index(a, af2) {
                    Some(j) => {
                        assert(b[j] == a[j]);
                        lemma_family_index_at(b, j);
                    },
                    None => {
                        lemma_family_index(b, af2);
                        if family_index(b, af2) is Some {
                            let k = family_index(b, af2).unwrap();
                            if k < last {
                                assert(b[k] == a[k]);
                            }
                        }
                    },
                }
            }
        },
    }
}

/// Once prefixes are withdrawn for `af`, the received routes answer a
/// lookup of one of them in `af` with nothing, and any other lookup as
/// before; the shape is kept.
pub proof fn lemma_adjrib_withdrawn_lookup(
    a: Seq<(AddressFamily, Seq<EntryModel>)>,
    af: AddressFamily,
    ns: Seq<Nlri>,
    af2: AddressFamily,
    m: Nlri,
)
    requires
        adjrib_keys_unique(a),
    ensures
        adjrib_keys_unique(adjrib_withdrawn(a, af, ns)),
        adjrib_lookup(adjrib_withdrawn(a, af, ns), af2, m) == if af2 == af && ns.contains(m) {
            None
        } else {
            adjrib_lookup(a, af2, m)
        },
{
    let b = adjrib_withdrawn(a, af, ns);
    lemma_family_index(a, af);
    lemma_family_index(a, af2);
    match family_index(a, af) {
        Some(i) => {
            lemma_remove_routes_lookup(a[i].1, ns, m);
            assert forall|x: int, y: int| 0 <= x < y < b.len() implies b[x].0 != b[y].0 by {
                assert(b[x].0 == a[x].0 && b[y].0 == a[y].0);
            }
            assert forall|x: int| 0 <= x < b.len() implies keys_unique(#[trigger] b[x].1) by {
                if x != i {
                    assert(b[x] == a[x]);
                }
            }
            if af2 == af {
                lemma_family_index_at(b, i);
            } else {
                match family_index(a, af2) {
                    Some(j) => {
                        assert(b[j] == a[j]);
                        lemma_family_index_at(b, j);
                    },
                    None => {
                        lemma_family_index(b, af2);
                        if family_index(b, af2) is Some {
                            let k = family_index(b, af2).unwrap();
                            assert(b[k].0 == a[k].0);
                        }
                    },
                }
            }
        },
        None => {},
    }
}

} // verus!
