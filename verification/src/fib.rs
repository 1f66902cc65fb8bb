//! The forwarding table of the host as the speaker sees it: the routes it
//! holds, whether an address is reachable, and which routes of a RIB still
//! have to be installed.
use vstd::prelude::*;
use crate::net::{IpAddress, IpPrefix};
use crate::manager::routes_wf;
use crate::rib::{entries_view, route_wf, routes_view, EntryModel, Rib, RouteAttributes, RouteModel};
use crate::route_order::{
    lemma_route_order_antisymmetric, lemma_route_order_reflexive, lemma_route_order_transitive,
    route_better,
};
use crate::types::AddressFamily;

verus! {

/// A route of the forwarding table.
#[derive(Debug, Clone, PartialEq)]
pub struct FibEntry {
    pub prefix: Option<IpPrefix>,
    pub next_hop: Option<IpAddress>,
    pub dev: Option<String>,
    pub metric: Option<u32>,
    /// The routing protocol that installed the route.
    pub proto: u8,
}

/// The forwarding table of one address family.
#[derive(Debug)]
pub struct Fib {
    pub af: AddressFamily,
    pub routes: Vec<FibEntry>,
}

/// The prefixes of the table are valid for their family.
pub open spec fn fib_wf(routes: Seq<FibEntry>) -> bool {
    forall|i: int|
        0 <= i < routes.len() ==> ((#[trigger] routes[i]).prefix matches Some(p) ==> p.valid())
}

/// Some route of the table covers `a`.
pub open spec fn fib_reaches(routes: Seq<FibEntry>, a: IpAddress) -> bool {
    exists|i: int|
        0 <= i < routes.len() && ((#[trigger] routes[i]).prefix matches Some(p) && p.spec_contains(
            a,
        ))
}

/// The best route of `s` whose next hop the table reaches: no reachable
/// route of `s` is better (see [`route_better`]); among equally good ones,
/// the first.
pub open spec fn best_reachable_in(routes: Seq<FibEntry>, s: Seq<RouteModel>) -> Option<
    RouteModel,
>
    decreases s.len(),
{
    if s.len() == 0 {
        None
    } else {
        let rest = best_reachable_in(routes, s.drop_last());
        if fib_reaches(routes, s.last().next_hop) {
            match rest {
                None => Some(s.last()),
                Some(b) => if route_better(s.last(), b) {
                    Some(s.last())
                } else {
                    Some(b)
                },
            }
        } else {
            rest
        }
    }
}

/// The best reachable route is one of the routes, its next hop is reachable,
/// and no reachable route is better; there is none only when no route is
/// reachable.
pub proof fn lemma_best_reachable(routes: Seq<FibEntry>, s: Seq<RouteModel>)
    ensures
        best_reachable_in(routes, s) is None <==> forall|j: int|
            0 <= j < s.len() ==> !fib_reaches(routes, (#[trigger] s[j]).next_hop),
        best_reachable_in(routes, s) matches Some(b) ==> {
            &&& exists|j: int| 0 <= j < s.len() && s[j] == b
            &&& fib_reaches(routes, b.next_hop)
            &&& forall|j: int|
                0 <= j < s.len() && fib_reaches(routes, (#[trigger] s[j]).next_hop) ==> !route_better(
                    s[j],
                    b,
                )
        },
    decreases s.len(),
{
    if s.len() > 0 {
        let p = s.drop_last();
        let x = s.last();
        let last = s.len() - 1;
        lemma_best_reachable(routes, p);
        assert forall|j: int| 0 <= j < p.len() implies #[trigger] p[j] == s[j] by {}
        let rest = best_reachable_in(routes, p);
        if fib_reaches(routes, x.next_hop) {
            match rest {
                None => {
                    assert(s[last] == x);
                    lemma_route_order_reflexive(x);
                    assert forall|j: int|
                        0 <= j < s.len() && fib_reaches(routes, (#[trigger] s[j]).next_hop) implies !route_better(
                        s[j],
                        x,
                    ) by {
                        if j < last {
                            assert(p[j] == s[j]);
                        }
                    }
                },
                Some(b) => {
                    if route_better(x, b) {
                        assert(s[last] == x);
                        assert forall|j: int|
                            0 <= j < s.len() && fib_reaches(routes, (#[trigger] s[j]).next_hop) implies !route_better(
                            s[j],
                            x,
                        ) by {
                            if j < last {
                                assert(p[j] == s[j]);
                                assert(!route_better(p[j], b));
                                if route_better(s[j], x) {
                                    lemma_route_order_antisymmetric(s[j], x);
                                    lemma_route_order_antisymmetric(x, b);
                                    lemma_route_order_transitive(b, x, s[j]);
                                    lemma_route_order_antisymmetric(b, s[j]);
                                }
                            } else {
                                lemma_route_order_reflexive(x);
                            }
                        }
                    } else {
                        let j0 = choose|j: int| 0 <= j < p.len() && p[j] == b;
                        assert(s[j0] == b);
                        assert forall|j: int|
                            0 <= j < s.len() && fib_reaches(routes, (#[trigger] s[j]).next_hop) implies !route_better(
                            s[j],
                            b,
                        ) by {
                            if j < last {
                                assert(p[j] == s[j]);
                            }
                        }
                    }
                },
            }
        } else {
            if rest is Some {
                let b = rest.unwrap();
                let j0 = choose|j: int| 0 <= j < p.len() && p[j] == b;
                assert(s[j0] == b);
            }
            assert forall|j: int|
                0 <= j < s.len() && fib_reaches(routes, (#[trigger] s[j]).next_hop) implies rest matches Some(
                b,
            ) && !route_better(s[j], b) by {
                assert(j < last);
                assert(p[j] == s[j]);
            }
        }
    }
}

/// The first route of the table for `subnet` through `nh`, if any.
pub open spec fn route_index(routes: Seq<FibEntry>, subnet: IpPrefix, nh: IpAddress) -> Option<
    int,
>
    decreases routes.len(),
{
    if routes.len() == 0 {
        None
    } else {
        match route_index(routes.drop_last(), subnet, nh) {
            Some(i) => Some(i),
            None => if routes.last().prefix == Some(subnet) && routes.last().next_hop == Some(nh) {
                Some(routes.len() - 1)
            } else {
                None
            },
        }
    }
}

/// The routes of a RIB to install: for each prefix, in the order of the
/// RIB, its best route whose next hop is reachable, unless the table
/// already has that prefix through that next hop.
pub open spec fn to_install(routes: Seq<FibEntry>, rib: Seq<EntryModel>) -> Seq<
    (IpPrefix, IpAddress),
>
    decreases rib.len(),
{
    if rib.len() == 0 {
        Seq::empty()
    } else {
        let rest = to_install(routes, rib.drop_last());
        let e = rib.last();
        match best_reachable_in(routes, e.routes) {
            Some(a) => if route_index(routes, e.nlri.net, a.next_hop) is None {
                rest.push((e.nlri.net, a.next_hop))
            } else {
                rest
            },
            None => rest,
        }
    }
}

impl FibEntry {
    /// A copy of the entry.
    pub fn copy(&self) -> (r: FibEntry)
        ensures
            r == *self,
    {
        let dev = match &self.dev {
            Some(d) => Some(d.clone()),
            None => None,
        };
        FibEntry {
            prefix: self.prefix,
            next_hop: self.next_hop,
            dev,
            metric: self.metric,
            proto: self.proto,
        }
    }
}

impl Fib {
    /// An empty table for `af`; [`Fib::refresh`] fills it.
    pub fn new(af: AddressFamily) -> (r: Fib)
        ensures
            r.af == af,
            r.routes@.len() == 0,
    {
        Fib { af, routes: Vec::new() }
    }

    /// Replaces the routes of the table with those just read from the host.
    pub fn refresh(&mut self, routes: Vec<FibEntry>)
        ensures
            final(self).af == old(self).af,
            final(self).routes@ == routes@,
    {
        self.routes = routes;
    }

    /// Whether some route of the table covers `addr`.
    pub fn has_route(&self, addr: IpAddress) -> (r: bool)
        requires
            fib_wf(self.routes@),
        ensures
            r == fib_reaches(self.routes@, addr),
    {
        let mut i: usize = 0;
        while i < self.routes.len()
            invariant
                i <= self.routes.len(),
                fib_wf(self.routes@),
                forall|k: int|
                    0 <= k < i ==> !((#[trigger] self.routes@[k]).prefix matches Some(p)
                        && p.spec_contains(addr)),
            decreases self.routes.len() - i,
        {
            match &self.routes[i].prefix {
                None => {},
                Some(p) => {
                    if p.contains(&addr) {
                        return true;
                    }
                },
            }
            i = i + 1;
        }
        false
    }

    /// The first route of the table for `subnet` through `nexthop`.
    pub fn find_route(&self, subnet: IpPrefix, nexthop: IpAddress) -> (r: Option<FibEntry>)
        ensures
            r is Some <==> route_index(self.routes@, subnet, nexthop) is Some,
            r matches Some(e) ==> e == self.routes@[route_index(
                self.routes@,
                subnet,
                nexthop,
            ).unwrap()],
    {
        let mut i: usize = 0;
        while i < self.routes.len()
            invariant
                i <= self.routes.len(),
                route_index(self.routes@.take(i as int), subnet, nexthop) is None,
            decreases self.routes.len() - i,
        {
            proof {
                assert(self.routes@.take(i + 1).drop_last() =~= self.routes@.take(i as int));
            }
            let fe = &self.routes[i];
            if fe.prefix == Some(subnet) && fe.next_hop == Some(nexthop) {
                proof {
                    lemma_route_index_prefix(self.routes@, i as int + 1, subnet, nexthop);
                }
                return Some(fe.copy());
            }
            i = i + 1;
        }
        assert(self.routes@.take(self.routes@.len() as int) =~= self.routes@);
        None
    }

    /// The best of `attributes` whose next hop the table reaches (see
    /// [`best_reachable_in`] and [`lemma_best_reachable`]).
    pub fn best_reachable(&self, attributes: &Vec<RouteAttributes>) -> (r: Option<RouteAttributes>)
        requires
            fib_wf(self.routes@),
            forall|j: int| 0 <= j < attributes@.len() ==> route_wf(#[trigger] attributes@[j]@),
        ensures
            r is Some <==> best_reachable_in(self.routes@, routes_view(attributes@)) is Some,
            r matches Some(a) ==> best_reachable_in(self.routes@, routes_view(attributes@)) == Some(
                a@,
            ),
    {
        let ghost s = routes_view(attributes@);
        let mut best: Option<usize> = None;
        let mut i: usize = 0;
        while i < attributes.len()
            invariant
                i <= attributes.len(),
                fib_wf(self.routes@),
                s == routes_view(attributes@),
                forall|j: int| 0 <= j < attributes@.len() ==> route_wf(#[trigger] attributes@[j]@),
                best matches Some(k) ==> k < i,
                best_reachable_in(self.routes@, s.take(i as int)) == match best {
                    Some(k) => Some(s[k as int]),
                    None => None,
                },
            decreases attributes.len() - i,
        {
            proof {
                assert(s.take(i + 1).drop_last() =~= s.take(i as int));
                assert(s.take(i + 1).last() == s[i as int]);
            }
            if self.has_route(attributes[i].next_hop) {
                match best {
                    None => {
                        best = Some(i);
                    },
                    Some(k) => {
                        if attributes[i].is_better(&attributes[k]) {
                            best = Some(i);
                        }
                    },
                }
            }
            i = i + 1;
        }
        assert(s.take(attributes@.len() as int) =~= s);
        match best {
            Some(k) => Some(attributes[k].copy()),
            None => None,
        }
    }

    /// The routes of `rib` to install (see [`to_install`]).
    pub fn routes_to_install(&self, rib: &Rib) -> (r: Vec<(IpPrefix, IpAddress)>)
        requires
            fib_wf(self.routes@),
            routes_wf(rib@),
        ensures
            r@ == to_install(self.routes@, rib@),
            forall|k: int|
                0 <= k < rib@.len() && best_reachable_in(self.routes@, (#[trigger] rib@[k]).routes)
                    is Some && (forall|j: int|
                    0 <= j < self.routes@.len() ==> !((#[trigger] self.routes@[j]).prefix == Some(
                        rib@[k].nlri.net,
                    ) && self.routes@[j].next_hop == Some(
                        best_reachable_in(self.routes@, rib@[k].routes).unwrap().next_hop,
                    ))) ==> r@.contains(
                    (
                        rib@[k].nlri.net,
                        best_reachable_in(self.routes@, rib@[k].routes).unwrap().next_hop,
                    ),
                ),
            forall|i: int|
                0 <= i < r@.len() ==> forall|j: int|
                    0 <= j < self.routes@.len() ==> !((#[trigger] self.routes@[j]).prefix == Some(
                        (#[trigger] r@[i]).0,
                    ) && self.routes@[j].next_hop == Some(r@[i].1)),
    {
        proof {
            lemma_to_install(self.routes@, rib@);
        }
        let mut out: Vec<(IpPrefix, IpAddress)> = Vec::new();
        let mut i: usize = 0;
        while i < rib.entries.len()
            invariant
                i <= rib.entries.len(),
                fib_wf(self.routes@),
                routes_wf(rib@),
                out@ == to_install(self.routes@, entries_view(rib.entries@.take(i as int))),
            decreases rib.entries.len() - i,
        {
            let e = &rib.entries[i];
            proof {
                assert(entries_view(rib.entries@.take(i + 1)).drop_last() =~= entries_view(
                    rib.entries@.take(i as int),
                ));
            }
            proof {
                assert forall|j: int| 0 <= j < e.routes@.len() implies route_wf(
                    #[trigger] e.routes@[j]@,
                ) by {
                    assert(rib@[i as int].routes[j] == e.routes@[j]@);
                }
            }
            match self.best_reachable(&e.routes) {
                Some(a) => {
                    if self.find_route(e.nlri.net, a.next_hop).is_none() {
                        out.push((e.nlri.net, a.next_hop));
                    }
                },
                None => {},
            }
            i = i + 1;
        }
        assert(rib.entries@.take(rib.entries@.len() as int) =~= rib.entries@);
        out
    }
}

/// The first match among a prefix of the table is the first match of the
/// table when the prefix ends with a match.
proof fn lemma_route_index_prefix(routes: Seq<FibEntry>, k: int, subnet: IpPrefix, nh: IpAddress)
    requires
        1 <= k <= routes.len(),
        route_index(routes.take(k - 1), subnet, nh) is None,
        routes[k - 1].prefix == Some(subnet),
        routes[k - 1].next_hop == Some(nh),
    ensures
        route_index(routes, subnet, nh) == Some(k - 1),
    decreases routes.len(),
{
    assert(routes.take(k).drop_last() =~= routes.take(k - 1));
    if k < routes.len() {
        assert(routes.drop_last().take(k) =~= routes.take(k));
        assert(routes.drop_last().take(k - 1) =~= routes.take(k - 1));
        lemma_route_index_prefix(routes.drop_last(), k, subnet, nh);
    } else {
        assert(routes.take(k) =~= routes);
    }
}

/// The table has no route for `subnet` through `nh` exactly when no entry
/// holds that prefix with that next hop.
proof fn lemma_route_index_none(routes: Seq<FibEntry>, subnet: IpPrefix, nh: IpAddress)
    ensures
        route_index(routes, subnet, nh) is None <==> forall|j: int|
            0 <= j < routes.len() ==> !((#[trigger] routes[j]).prefix == Some(subnet)
                && routes[j].next_hop == Some(nh)),
    decreases routes.len(),
{
    if routes.len() > 0 {
        let p = routes.drop_last();
        lemma_route_index_none(p, subnet, nh);
        assert forall|j: int| 0 <= j < p.len() implies #[trigger] p[j] == routes[j] by {}
        let l = routes.len() - 1;
        assert(routes.last() == routes[l]);
        if route_index(p, subnet, nh) is Some {
            let j = choose|j: int|
                0 <= j < p.len() && (p[j].prefix == Some(subnet) && p[j].next_hop == Some(nh));
            assert(routes[j] == p[j]);
        }
        if route_index(routes, subnet, nh) is None {
            assert forall|j: int| 0 <= j < routes.len() implies !((#[trigger] routes[j]).prefix
                == Some(subnet) && routes[j].next_hop == Some(nh)) by {
                if j < l {
                    assert(p[j] == routes[j]);
                }
            }
        }
    }
}

/// Syncing the table with a RIB installs, for every prefix whose best
/// reachable route goes through a next hop the table does not yet hold for
/// that prefix, the prefix through that next hop; and it never installs a
/// pair the table already holds, nor one that is not the best reachable
/// route of a prefix of the RIB.
pub proof fn lemma_to_install(routes: Seq<FibEntry>, rib: Seq<EntryModel>)
    ensures
        forall|k: int|
            0 <= k < rib.len() && best_reachable_in(routes, (#[trigger] rib[k]).routes) is Some
                && (forall|j: int|
                0 <= j < routes.len() ==> !((#[trigger] routes[j]).prefix == Some(rib[k].nlri.net)
                    && routes[j].next_hop == Some(
                    best_reachable_in(routes, rib[k].routes).unwrap().next_hop,
                ))) ==> to_install(routes, rib).contains(
                (rib[k].nlri.net, best_reachable_in(routes, rib[k].routes).unwrap().next_hop),
            ),
        forall|i: int|
            0 <= i < to_install(routes, rib).len() ==> {
                let (p, nh) = #[trigger] to_install(routes, rib)[i];
                &&& forall|j: int|
                    0 <= j < routes.len() ==> !((#[trigger] routes[j]).prefix == Some(p)
                        && routes[j].next_hop == Some(nh))
                &&& exists|k: int|
                    0 <= k < rib.len() && (#[trigger] rib[k]).nlri.net == p && (best_reachable_in(
                        routes,
                        rib[k].routes,
                    ) matches Some(a) && a.next_hop == nh)
            },
    decreases rib.len(),
{
    if rib.len() > 0 {
        let q = rib.drop_last();
        lemma_to_install(routes, q);
        let rest = to_install(routes, q);
        let all = to_install(routes, rib);
        let e = rib.last();
        let last = rib.len() - 1;
        assert(rib[last] == e);
        assert forall|k: int| 0 <= k < q.len() implies #[trigger] q[k] == rib[k] by {}
        assert(all.len() >= rest.len());
        assert forall|i: int| 0 <= i < rest.len() implies #[trigger] all[i] == rest[i] by {}
        match best_reachable_in(routes, e.routes) {
            Some(a) => {
                lemma_route_index_none(routes, e.nlri.net, a.next_hop);
            },
            None => {},
        }
        assert forall|k: int|
            0 <= k < rib.len() && best_reachable_in(routes, (#[trigger] rib[k]).routes) is Some
                && (forall|j: int|
                0 <= j < routes.len() ==> !((#[trigger] routes[j]).prefix == Some(rib[k].nlri.net)
                    && routes[j].next_hop == Some(
                    best_reachable_in(routes, rib[k].routes).unwrap().next_hop,
                ))) implies all.contains(
            (rib[k].nlri.net, best_reachable_in(routes, rib[k].routes).unwrap().next_hop),
        ) by {
            let x = (rib[k].nlri.net, best_reachable_in(routes, rib[k].routes).unwrap().next_hop);
            if k < last {
                assert(q[k] == rib[k]);
                assert(rest.contains(x));
                let i = choose|i: int| 0 <= i < rest.len() && rest[i] == x;
                assert(all[i] == x);
            } else {
                assert(all[rest.len() as int] == x);
            }
        }
        assert forall|i: int| 0 <= i < all.len() implies {
            let (p, nh) = #[trigger] all[i];
            &&& forall|j: int|
                0 <= j < routes.len() ==> !((#[trigger] routes[j]).prefix == Some(p)
                    && routes[j].next_hop == Some(nh))
            &&& exists|k: int|
                0 <= k < rib.len() && (#[trigger] rib[k]).nlri.net == p && (best_reachable_in(
                    routes,
                    rib[k].routes,
                ) matches Some(a) && a.next_hop == nh)
        } by {
            if i < rest.len() {
                assert(all[i] == rest[i]);
                let (p, nh) = rest[i];
                let k = choose|k: int|
                    0 <= k < q.len() && (#[trigger] q[k]).nlri.net == p && (best_reachable_in(
                        routes,
                        q[k].routes,
                    ) matches Some(a) && a.next_hop == nh);
                assert(rib[k] == q[k]);
            } else {
                assert(rib[last].nlri.net == all[i].0);
            }
        }
    }
}

} // verus!
