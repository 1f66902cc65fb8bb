//! The RIB manager: taking announced routes into the RIB and withdrawing
//! them, and telling which prefixes changed their best route.
use vstd::prelude::*;
use crate::attributes::aspath_flat;
use crate::fib::{best_reachable_in, fib_reaches, fib_wf, lemma_best_reachable, Fib, FibEntry};
use crate::nlri::Nlri;
use crate::rib::{
    entry_index, keys_unique, lemma_entry_index, lemma_lookup_absent, lemma_lookup_at, rib_lookup, route_wf, routes_view, EntryModel, Rib, RibEntry,
    RibUpdate, RouteAttributes, RouteModel,
};
use crate::route_order::{
    lemma_route_order_antisymmetric, lemma_route_order_reflexive, lemma_route_order_transitive,
    route_better,
};

verus! {

/// Puts `x` into `s` (ranked from worst to best) after every route not
/// better than it: the step of a stable sort.
pub open spec fn insert_sorted(s: Seq<RouteModel>, x: RouteModel) -> Seq<RouteModel>
    decreases s.len(),
{
    if s.len() == 0 {
        seq![x]
    } else if route_better(s.last(), x) {
        insert_sorted(s.drop_last(), x).push(s.last())
    } else {
        s.push(x)
    }
}

/// `s` sorted from worst to best; routes that compare equal keep their
/// order.
pub open spec fn stable_sort(s: Seq<RouteModel>) -> Seq<RouteModel>
    decreases s.len(),
{
    if s.len() == 0 {
        Seq::empty()
    } else {
        insert_sorted(stable_sort(s.drop_last()), s.last())
    }
}

/// The routes of a prefix once `x` is added to `all`: sorted, then
/// reversed, so the best come first.
pub open spec fn ranked_with(all: Seq<RouteModel>, x: RouteModel) -> Seq<RouteModel> {
    stable_sort(all.push(x)).reverse()
}

/// The changes to announce, as models.
pub open spec fn changes_view(s: Seq<(Nlri, Option<RouteAttributes>)>) -> Seq<
    (Nlri, Option<RouteModel>),
> {
    s.map_values(
        |c: (Nlri, Option<RouteAttributes>)|
            (
                c.0,
                match c.1 {
                    Some(a) => Some(a@),
                    None => None,
                },
            ),
    )
}

/// Adds the route `attrs` for `n`: a route whose AS_PATH holds `asn` is
/// dropped. A new prefix gets the route alone, and is announced when its
/// next hop is reachable. A known prefix gets the route ranked among its
/// others, and is announced when its next hop is reachable and it beats the
/// previous best reachable route (or there was none).
pub open spec fn add_step(
    fib: Seq<FibEntry>,
    asn: u16,
    attrs: RouteModel,
    rib: Seq<EntryModel>,
    n: Nlri,
) -> (Seq<EntryModel>, Seq<(Nlri, Option<RouteModel>)>) {
    if aspath_flat(attrs.as_path).contains(asn) {
        (rib, Seq::empty())
    } else {
        match entry_index(rib, n) {
            None => (
                rib.push(EntryModel { nlri: n, routes: seq![attrs] }),
                if fib_reaches(fib, attrs.next_hop) {
                    seq![(n, Some(attrs))]
                } else {
                    Seq::empty()
                },
            ),
            Some(i) => {
                let all = rib[i].routes;
                let prev = best_reachable_in(fib, all);
                (
                    rib.update(i, EntryModel { nlri: n, routes: ranked_with(all, attrs) }),
                    if fib_reaches(fib, attrs.next_hop) && (prev is None || route_better(
                        attrs,
                        prev.unwrap(),
                    )) {
                        seq![(n, Some(attrs))]
                    } else {
                        Seq::empty()
                    },
                )
            },
        }
    }
}

/// Adds the route `attrs` for each of `ns` in turn; the changes to
/// announce are collected in order.
pub open spec fn add_all(
    fib: Seq<FibEntry>,
    asn: u16,
    attrs: RouteModel,
    rib: Seq<EntryModel>,
    ns: Seq<Nlri>,
) -> (Seq<EntryModel>, Seq<(Nlri, Option<RouteModel>)>)
    decreases ns.len(),
{
    if ns.len() == 0 {
        (rib, Seq::empty())
    } else {
        let before = add_all(fib, asn, attrs, rib, ns.drop_last());
        let step = add_step(fib, asn, attrs, before.0, ns.last());
        (step.0, before.1 + step.1)
    }
}

/// Some route of `s` comes from the peer `rid`.
pub open spec fn has_route_from(s: Seq<RouteModel>, rid: u32) -> bool {
    exists|j: int| 0 <= j < s.len() && (#[trigger] s[j]).peer_rid == rid
}

/// The prefixes, in RIB order, that hold a route from the peer `rid`.
pub open spec fn prefixes_from(rib: Seq<EntryModel>, rid: u32) -> Seq<Nlri>
    decreases rib.len(),
{
    if rib.len() == 0 {
        Seq::empty()
    } else {
        let rest = prefixes_from(rib.drop_last(), rid);
        if has_route_from(rib.last().routes, rid) {
            rest.push(rib.last().nlri)
        } else {
            rest
        }
    }
}

/// The routes of `s` not from the peer `rid`.
pub open spec fn without_peer(s: Seq<RouteModel>, rid: u32) -> Seq<RouteModel>
    decreases s.len(),
{
    if s.len() == 0 {
        Seq::empty()
    } else {
        let rest = without_peer(s.drop_last(), rid);
        if s.last().peer_rid != rid {
            rest.push(s.last())
        } else {
            rest
        }
    }
}

/// Withdraws the routes of the peer `rid` for `n`: the prefix loses them,
/// and its entry goes when none is left; the prefix is announced as
/// withdrawn when its best reachable route came from that peer.
pub open spec fn withdraw_step(fib: Seq<FibEntry>, rid: u32, rib: Seq<EntryModel>, n: Nlri) -> (
    Seq<EntryModel>,
    Seq<(Nlri, Option<RouteModel>)>,
) {
    match entry_index(rib, n) {
        None => (rib, Seq::empty()),
        Some(i) => {
            let all = rib[i].routes;
            let prev = best_reachable_in(fib, all);
            let kept = without_peer(all, rid);
            (
                if kept.len() == 0 {
                    rib.remove(i)
                } else {
                    rib.update(i, EntryModel { nlri: n, routes: kept })
                },
                if prev matches Some(b) && b.peer_rid == rid {
                    seq![(n, None)]
                } else {
                    Seq::empty()
                },
            )
        },
    }
}

/// Withdraws the routes of the peer `rid` for each of `ns` in turn.
pub open spec fn withdraw_all(
    fib: Seq<FibEntry>,
    rid: u32,
    rib: Seq<EntryModel>,
    ns: Seq<Nlri>,
) -> (Seq<EntryModel>, Seq<(Nlri, Option<RouteModel>)>)
    decreases ns.len(),
{
    if ns.len() == 0 {
        (rib, Seq::empty())
    } else {
        let before = withdraw_all(fib, rid, rib, ns.drop_last());
        let step = withdraw_step(fib, rid, before.0, ns.last());
        (step.0, before.1 + step.1)
    }
}

/// The prefixes a withdrawal applies to: those it names, or, when it names
/// none, every prefix holding a route from its peer.
pub open spec fn withdraw_targets(rib: Seq<EntryModel>, ns: Seq<Nlri>, rid: u32) -> Seq<Nlri> {
    if ns.len() == 0 {
        prefixes_from(rib, rid)
    } else {
        ns
    }
}

/// Every route of a RIB has an AS_PATH length that fits a machine word.
pub open spec fn routes_wf(rib: Seq<EntryModel>) -> bool {
    forall|i: int, j: int|
        0 <= i < rib.len() && 0 <= j < rib[i].routes.len() ==> route_wf(#[trigger] rib[i].routes[j])
}

/// A stable sort step keeps a property that holds of all it is given.
proof fn lemma_insert_sorted_wf(s: Seq<RouteModel>, x: RouteModel)
    requires
        forall|j: int| 0 <= j < s.len() ==> route_wf(#[trigger] s[j]),
        route_wf(x),
    ensures
        insert_sorted(s, x).len() == s.len() + 1,
        forall|j: int| 0 <= j < insert_sorted(s, x).len() ==> route_wf(#[trigger] insert_sorted(s, x)[j]),
    decreases s.len(),
{
    if s.len() > 0 && route_better(s.last(), x) {
        lemma_insert_sorted_wf(s.drop_last(), x);
        let t = insert_sorted(s.drop_last(), x);
        assert forall|j: int| 0 <= j < t.push(s.last()).len() implies route_wf(#[trigger] t.push(s.last())[j]) by {
            if j < t.len() {
                assert(t.push(s.last())[j] == t[j]);
            }
        }
    }
}

/// Sorting keeps a property that holds of all it is given.
proof fn lemma_stable_sort_wf(s: Seq<RouteModel>)
    requires
        forall|j: int| 0 <= j < s.len() ==> route_wf(#[trigger] s[j]),
    ensures
        stable_sort(s).len() == s.len(),
        forall|j: int| 0 <= j < stable_sort(s).len() ==> route_wf(#[trigger] stable_sort(s)[j]),
    decreases s.len(),
{
    if s.len() > 0 {
        lemma_stable_sort_wf(s.drop_last());
        lemma_insert_sorted_wf(stable_sort(s.drop_last()), s.last());
    }
}

/// The stable sort step, spelled as a split: the route goes after the
/// first `k` routes, where the routes from `k` on are all better than it.
proof fn lemma_insert_sorted_split(s: Seq<RouteModel>, x: RouteModel, k: int)
    requires
        0 <= k <= s.len(),
        forall|j: int| k <= j < s.len() ==> route_better(#[trigger] s[j], x),
        k == 0 || !route_better(s[k - 1], x),
    ensures
        insert_sorted(s, x) == s.take(k) + seq![x] + s.skip(k),
    decreases s.len(),
{
    if s.len() == 0 {
        assert(s.take(k) + seq![x] + s.skip(k) =~= seq![x]);
    } else if k == s.len() {
        assert(s.take(k) + seq![x] + s.skip(k) =~= s.push(x));
    } else {
        lemma_insert_sorted_split(s.drop_last(), x, k);
        assert(s.drop_last().take(k) =~= s.take(k));
        assert((s.take(k) + seq![x] + s.drop_last().skip(k)).push(s.last()) =~= s.take(k) + seq![
            x,
        ] + s.skip(k));
    }
}

/// Inserts `x` into `v`, ranked from worst to best, after every route not
/// better than it.
fn insert_ranked(v: &mut Vec<RouteAttributes>, x: RouteAttributes)
    requires
        forall|j: int| 0 <= j < old(v)@.len() ==> route_wf(#[trigger] old(v)@[j]@),
        route_wf(x@),
    ensures
        routes_view(final(v)@) == insert_sorted(routes_view(old(v)@), x@),
{
    let ghost s = routes_view(v@);
    let mut k: usize = v.len();
    while k > 0 && v[k - 1].is_better(&x)
        invariant
            k <= v.len(),
            s == routes_view(v@),
            forall|j: int| 0 <= j < v@.len() ==> route_wf(#[trigger] v@[j]@),
            route_wf(x@),
            forall|j: int| k <= j < s.len() ==> route_better(#[trigger] s[j], x@),
        decreases k,
    {
        k = k - 1;
    }
    proof {
        lemma_insert_sorted_split(s, x@, k as int);
    }
    v.insert(k, x);
    proof {
        assert(routes_view(v@) =~= s.take(k as int) + seq![x@] + s.skip(k as int));
    }
}

/// Ranks the routes of `v` with `x` added: best first, as
/// [`ranked_with`] says.
fn ranked_routes(v: &Vec<RouteAttributes>, x: &RouteAttributes) -> (r: Vec<RouteAttributes>)
    requires
        forall|j: int| 0 <= j < v@.len() ==> route_wf(#[trigger] v@[j]@),
        route_wf(x@),
    ensures
        routes_view(r@) == ranked_with(routes_view(v@), x@),
        forall|j: int| 0 <= j < r@.len() ==> route_wf(#[trigger] r@[j]@),
{
    let ghost all = routes_view(v@).push(x@);
    let mut sorted: Vec<RouteAttributes> = Vec::new();
    let mut i: usize = 0;
    while i < v.len()
        invariant
            i <= v.len(),
            all == routes_view(v@).push(x@),
            forall|j: int| 0 <= j < v@.len() ==> route_wf(#[trigger] v@[j]@),
            route_wf(x@),
            routes_view(sorted@) == stable_sort(all.take(i as int)),
            forall|j: int| 0 <= j < sorted@.len() ==> route_wf(#[trigger] sorted@[j]@),
        decreases v.len() - i,
    {
        let next = v[i].copy();
        proof {
            assert(all.take(i + 1).drop_last() =~= all.take(i as int));
            assert(next@ == all[i as int]);
        }
        let ghost prev = routes_view(sorted@);
        insert_ranked(&mut sorted, next);
        proof {
            lemma_insert_sorted_wf(prev, next@);
            assert forall|j: int| 0 <= j < sorted@.len() implies route_wf(#[trigger] sorted@[j]@) by {
                assert(routes_view(sorted@)[j] == sorted@[j]@);
            }
        }
        i = i + 1;
    }
    let last = x.copy();
    proof {
        assert(all.drop_last() =~= all.take(i as int));
    }
    let ghost prev = routes_view(sorted@);
    insert_ranked(&mut sorted, last);
    proof {
        lemma_insert_sorted_wf(prev, last@);
        assert forall|j: int| 0 <= j < sorted@.len() implies route_wf(#[trigger] sorted@[j]@) by {
            assert(routes_view(sorted@)[j] == sorted@[j]@);
        }
    }
    let ghost sorted_all = routes_view(sorted@);
    let mut r: Vec<RouteAttributes> = Vec::new();
    while sorted.len() > 0
        invariant
            routes_view(r@) + routes_view(sorted@).reverse() == sorted_all.reverse(),
            forall|j: int| 0 <= j < sorted@.len() ==> route_wf(#[trigger] sorted@[j]@),
            forall|j: int| 0 <= j < r@.len() ==> route_wf(#[trigger] r@[j]@),
        decreases sorted.len(),
    {
        let ghost before = routes_view(sorted@);
        let e = sorted.pop().unwrap();
        proof {
            assert(routes_view(sorted@) =~= before.drop_last());
            assert(before.reverse() =~= seq![before.last()] + before.drop_last().reverse());
        }
        let ghost rb = routes_view(r@);
        r.push(e);
        proof {
            assert(routes_view(r@) =~= rb.push(e@));
        }
    }
    proof {
        assert(routes_view(sorted@).reverse() =~= Seq::<RouteModel>::empty());
        assert(routes_view(r@) + Seq::<RouteModel>::empty() =~= routes_view(r@));
    }
    r
}

/// The routes kept by a filter all satisfy what the filtered ones did.
proof fn lemma_without_peer_wf(s: Seq<RouteModel>, rid: u32)
    requires
        forall|j: int| 0 <= j < s.len() ==> route_wf(#[trigger] s[j]),
    ensures
        forall|j: int| 0 <= j < without_peer(s, rid).len() ==> route_wf(
            #[trigger] without_peer(s, rid)[j],
        ),
    decreases s.len(),
{
    if s.len() > 0 {
        lemma_without_peer_wf(s.drop_last(), rid);
        let t = without_peer(s.drop_last(), rid);
        assert forall|j: int| 0 <= j < t.push(s.last()).len() implies route_wf(
            #[trigger] t.push(s.last())[j],
        ) by {
            if j < t.len() {
                assert(t.push(s.last())[j] == t[j]);
            }
        }
    }
}

/// The routes of `v` not from the peer `rid`.
fn routes_without_peer(v: &Vec<RouteAttributes>, rid: u32) -> (r: Vec<RouteAttributes>)
    ensures
        routes_view(r@) == without_peer(routes_view(v@), rid),
{
    let mut out: Vec<RouteAttributes> = Vec::new();
    let mut i: usize = 0;
    while i < v.len()
        invariant
            i <= v.len(),
            routes_view(out@) == without_peer(routes_view(v@.take(i as int)), rid),
        decreases v.len() - i,
    {
        proof {
            assert(routes_view(v@.take(i + 1)).drop_last() =~= routes_view(v@.take(i as int)));
        }
        if v[i].peer_rid != rid {
            let ghost before = routes_view(out@);
            out.push(v[i].copy());
            proof {
                assert(routes_view(out@) =~= before.push(v@[i as int]@));
            }
        }
        i = i + 1;
    }
    assert(v@.take(v@.len() as int) =~= v@);
    out
}

/// The prefixes of `rib`, in order, that hold a route from the peer `rid`.
fn prefixes_from_peer(rib: &Rib, rid: u32) -> (r: Vec<Nlri>)
    ensures
        r@ == prefixes_from(rib@, rid),
{
    let mut out: Vec<Nlri> = Vec::new();
    let mut i: usize = 0;
    while i < rib.entries.len()
        invariant
            i <= rib.entries.len(),
            out@ == prefixes_from(crate::rib::entries_view(rib.entries@.take(i as int)), rid),
        decreases rib.entries.len() - i,
    {
        proof {
            assert(crate::rib::entries_view(rib.entries@.take(i + 1)).drop_last()
                =~= crate::rib::entries_view(rib.entries@.take(i as int)));
        }
        let routes = &rib.entries[i].routes;
        let mut found = false;
        let mut j: usize = 0;
        while j < routes.len()
            invariant
                j <= routes.len(),
                found <==> exists|k: int| 0 <= k < j && (#[trigger] routes@[k]).peer_rid == rid,
            decreases routes.len() - j,
        {
            if routes[j].peer_rid == rid {
                found = true;
            }
            j = j + 1;
        }
        proof {
            let rs = routes_view(routes@);
            if found {
                let k = choose|k: int| 0 <= k < routes@.len() && (#[trigger] routes@[k]).peer_rid == rid;
                assert(rs[k].peer_rid == rid);
            }
            if has_route_from(rs, rid) {
                let k = choose|k: int| 0 <= k < rs.len() && (#[trigger] rs[k]).peer_rid == rid;
                assert(routes@[k].peer_rid == rid);
            }
        }
        if found {
            out.push(rib.entries[i].nlri);
        }
        i = i + 1;
    }
    assert(rib.entries@.take(rib.entries@.len() as int) =~= rib.entries@);
    out
}

/// Takes the routes of `routes` into `rib` (see [`add_all`]) and returns
/// the prefixes whose announcement changed, with their new best route.
pub fn loc_rib_added(rib: &mut Rib, fib: &Fib, asn: u16, routes: &RibUpdate) -> (r: Vec<
    (Nlri, Option<RouteAttributes>),
>)
    requires
        old(rib).wf(),
        routes_wf(old(rib)@),
        fib_wf(fib.routes@),
        route_wf(routes.attributes@),
    ensures
        final(rib).wf(),
        routes_wf(final(rib)@),
        final(rib)@ == add_all(fib.routes@, asn, routes.attributes@, old(rib)@, routes.nlris@).0,
        changes_view(r@) == add_all(fib.routes@, asn, routes.attributes@, old(rib)@, routes.nlris@).1,
        rib_ranked(old(rib)@) ==> rib_ranked(final(rib)@),
{
    proof {
        if rib_ranked(rib@) {
            lemma_add_all_ranked(fib.routes@, asn, routes.attributes@, rib@, routes.nlris@);
        }
    }
    let mut modified: Vec<(Nlri, Option<RouteAttributes>)> = Vec::new();
    let attrs = &routes.attributes;
    let mut i: usize = 0;
    while i < routes.nlris.len()
        invariant
            i <= routes.nlris.len(),
            rib.wf(),
            routes_wf(rib@),
            fib_wf(fib.routes@),
            route_wf(attrs@),
            attrs == &routes.attributes,
            rib@ == add_all(fib.routes@, asn, attrs@, old(rib)@, routes.nlris@.take(i as int)).0,
            changes_view(modified@) == add_all(
                fib.routes@,
                asn,
                attrs@,
                old(rib)@,
                routes.nlris@.take(i as int),
            ).1,
        decreases routes.nlris.len() - i,
    {
        let n = routes.nlris[i];
        proof {
            assert(routes.nlris@.take(i + 1).drop_last() =~= routes.nlris@.take(i as int));
        }
        let ghost before = rib@;
        let ghost changes_before = changes_view(modified@);
        if attrs.is_valid(asn) {
            match rib.find(&n) {
                None => {
                    proof {
                        lemma_entry_index(rib@, n);
                    }
                    let mut v: Vec<RouteAttributes> = Vec::new();
                    v.push(attrs.copy());
                    let e = RibEntry { nlri: n, routes: v };
                    proof {
                        assert(routes_view(v@) =~= seq![attrs@]);
                    }
                    rib.entries.push(e);
                    proof {
                        assert(rib@ =~= before.push(EntryModel { nlri: n, routes: seq![attrs@] }));
                    }
                    if fib.has_route(attrs.next_hop) {
                        modified.push((n, Some(attrs.copy())));
                        proof {
                            assert(changes_view(modified@) =~= changes_before + seq![(n, Some(attrs@))]);
                        }
                    } else {
                        assert(changes_view(modified@) =~= changes_before + Seq::<(Nlri, Option<RouteModel>)>::empty());
                    }
                },
                Some(idx) => {
                    proof {
                        lemma_entry_index(rib@, n);
                    }
                    proof {
                        assert forall|j: int| 0 <= j < rib.entries@[idx as int].routes@.len() implies route_wf(
                            #[trigger] rib.entries@[idx as int].routes@[j]@,
                        ) by {
                            assert(rib@[idx as int].routes[j] == rib.entries@[idx as int].routes@[j]@);
                        }
                    }
                    let prev = fib.best_reachable(&rib.entries[idx].routes);
                    let new_routes = ranked_routes(&rib.entries[idx].routes, attrs);
                    let e = RibEntry { nlri: n, routes: new_routes };
                    rib.entries.set(idx, e);
                    proof {
                        assert(rib@ =~= before.update(
                            idx as int,
                            EntryModel { nlri: n, routes: ranked_with(before[idx as int].routes, attrs@) },
                        ));
                    }
                    let reach = fib.has_route(attrs.next_hop);
                    let announce = match &prev {
                        None => reach,
                        Some(best) => {
                            proof {
                                lemma_best_reachable(fib.routes@, before[idx as int].routes);
                            }
                            reach && attrs.is_better(best)
                        },
                    };
                    if announce {
                        modified.push((n, Some(attrs.copy())));
                        proof {
                            assert(changes_view(modified@) =~= changes_before + seq![(n, Some(attrs@))]);
                        }
                    } else {
                        assert(changes_view(modified@) =~= changes_before + Seq::<(Nlri, Option<RouteModel>)>::empty());
                    }
                },
            }
        } else {
            assert(changes_view(modified@) =~= changes_before + Seq::<(Nlri, Option<RouteModel>)>::empty());
        }
        i = i + 1;
    }
    assert(routes.nlris@.take(routes.nlris@.len() as int) =~= routes.nlris@);
    modified
}

/// Withdraws the routes of the peer of `routes` for the prefixes it names,
/// or for every prefix holding one of that peer's routes when it names
/// none (see [`withdraw_all`]); returns the prefixes whose best route
/// came from that peer, announced as withdrawn.
pub fn loc_rib_withdraw(rib: &mut Rib, fib: &Fib, routes: &RibUpdate) -> (r: Vec<
    (Nlri, Option<RouteAttributes>),
>)
    requires
        old(rib).wf(),
        routes_wf(old(rib)@),
        fib_wf(fib.routes@),
    ensures
        final(rib).wf(),
        routes_wf(final(rib)@),
        ({
            let rid = routes.attributes.peer_rid;
            let targets = withdraw_targets(old(rib)@, routes.nlris@, rid);
            &&& final(rib)@ == withdraw_all(fib.routes@, rid, old(rib)@, targets).0
            &&& changes_view(r@) == withdraw_all(fib.routes@, rid, old(rib)@, targets).1
        }),
        rib_ranked(old(rib)@) ==> rib_ranked(final(rib)@),
        forall|m: Nlri|
            #![trigger changes_view(r@).contains((m, None))]
            changes_view(r@).contains((m, None)) <==> (withdraw_targets(
                old(rib)@,
                routes.nlris@,
                routes.attributes.peer_rid,
            ).contains(m) && rib_lookup(old(rib)@, m) is Some && best_reachable_in(
                fib.routes@,
                rib_lookup(old(rib)@, m).unwrap(),
            ) is Some && best_reachable_in(fib.routes@, rib_lookup(old(rib)@, m).unwrap()).unwrap().peer_rid
                == routes.attributes.peer_rid),
{
    proof {
        assert forall|m: Nlri|
            #![trigger withdraw_all(
                fib.routes@,
                routes.attributes.peer_rid,
                rib@,
                withdraw_targets(rib@, routes.nlris@, routes.attributes.peer_rid),
            ).1.contains((m, None))]
            withdraw_all(
                fib.routes@,
                routes.attributes.peer_rid,
                rib@,
                withdraw_targets(rib@, routes.nlris@, routes.attributes.peer_rid),
            ).1.contains((m, None)) <==> (withdraw_targets(
                rib@,
                routes.nlris@,
                routes.attributes.peer_rid,
            ).contains(m) && rib_lookup(rib@, m) is Some && best_reachable_in(
                fib.routes@,
                rib_lookup(rib@, m).unwrap(),
            ) is Some && best_reachable_in(fib.routes@, rib_lookup(rib@, m).unwrap()).unwrap().peer_rid
                == routes.attributes.peer_rid) by {
            lemma_withdraw_all_reports(
                fib.routes@,
                routes.attributes.peer_rid,
                rib@,
                withdraw_targets(rib@, routes.nlris@, routes.attributes.peer_rid),
                m,
            );
        }
        if rib_ranked(rib@) {
            lemma_withdraw_all_ranked(
                fib.routes@,
                routes.attributes.peer_rid,
                rib@,
                withdraw_targets(rib@, routes.nlris@, routes.attributes.peer_rid),
            );
        }
    }
    let rid = routes.attributes.peer_rid;
    let targets: Vec<Nlri> = if routes.nlris.len() == 0 {
        prefixes_from_peer(rib, rid)
    } else {
        routes.nlris.clone()
    };
    let mut modified: Vec<(Nlri, Option<RouteAttributes>)> = Vec::new();
    let mut i: usize = 0;
    while i < targets.len()
        invariant
            i <= targets.len(),
            rib.wf(),
            routes_wf(rib@),
            fib_wf(fib.routes@),
            rib@ == withdraw_all(fib.routes@, rid, old(rib)@, targets@.take(i as int)).0,
            changes_view(modified@) == withdraw_all(
                fib.routes@,
                rid,
                old(rib)@,
                targets@.take(i as int),
            ).1,
        decreases targets.len() - i,
    {
        let n = targets[i];
        proof {
            assert(targets@.take(i + 1).drop_last() =~= targets@.take(i as int));
        }
        let ghost before = rib@;
        let ghost changes_before = changes_view(modified@);
        match rib.find(&n) {
            None => {
                assert(changes_view(modified@) =~= changes_before + Seq::<(Nlri, Option<RouteModel>)>::empty());
            },
            Some(idx) => {
                proof {
                    lemma_entry_index(rib@, n);
                    assert forall|j: int| 0 <= j < before[idx as int].routes.len() implies route_wf(
                        #[trigger] before[idx as int].routes[j],
                    ) by {}
                    lemma_without_peer_wf(before[idx as int].routes, rid);
                    assert forall|j: int| 0 <= j < rib.entries@[idx as int].routes@.len() implies route_wf(
                        #[trigger] rib.entries@[idx as int].routes@[j]@,
                    ) by {
                        assert(rib@[idx as int].routes[j] == rib.entries@[idx as int].routes@[j]@);
                    }
                }
                let prev = fib.best_reachable(&rib.entries[idx].routes);
                let kept = routes_without_peer(&rib.entries[idx].routes, rid);
                if kept.len() == 0 {
                    rib.entries.remove(idx);
                    proof {
                        assert(rib@ =~= before.remove(idx as int));
                        assert forall|a: int, b: int| 0 <= a < b < rib@.len() implies rib@[a].nlri
                            != rib@[b].nlri by {
                            let a0 = if a < idx { a } else { a + 1 };
                            let b0 = if b < idx { b } else { b + 1 };
                            assert(rib@[a] == before[a0] && rib@[b] == before[b0]);
                        }
                        assert forall|a: int, j: int|
                            0 <= a < rib@.len() && 0 <= j < rib@[a].routes.len() implies route_wf(
                            #[trigger] rib@[a].routes[j],
                        ) by {
                            let a0 = if a < idx { a } else { a + 1 };
                            assert(rib@[a] == before[a0]);
                        }
                    }
                } else {
                    rib.entries.set(idx, RibEntry { nlri: n, routes: kept });
                    proof {
                        assert(rib@ =~= before.update(
                            idx as int,
                            EntryModel { nlri: n, routes: without_peer(before[idx as int].routes, rid) },
                        ));
                        assert forall|a: int, j: int|
                            0 <= a < rib@.len() && 0 <= j < rib@[a].routes.len() implies route_wf(
                            #[trigger] rib@[a].routes[j],
                        ) by {
                            if a != idx {
                                assert(rib@[a] == before[a]);
                            }
                        }
                    }
                }
                let announce = match &prev {
                    Some(b) => b.peer_rid == rid,
                    None => false,
                };
                if announce {
                    modified.push((n, None));
                    proof {
                        assert(changes_view(modified@) =~= changes_before + seq![(n, None::<RouteModel>)]);
                    }
                } else {
                    assert(changes_view(modified@) =~= changes_before + Seq::<(Nlri, Option<RouteModel>)>::empty());
                }
            },
        }
        i = i + 1;
    }
    assert(targets@.take(targets@.len() as int) =~= targets@);
    modified
}


/// No route of `s` is better than one before it: the best come first.
pub open spec fn ranked(s: Seq<RouteModel>) -> bool {
    forall|i: int, j: int| 0 <= i < j < s.len() ==> !route_better(#[trigger] s[j], #[trigger] s[i])
}

/// Every entry of the RIB holds its routes best first.
pub open spec fn rib_ranked(rib: Seq<EntryModel>) -> bool {
    forall|i: int| 0 <= i < rib.len() ==> ranked(#[trigger] rib[i].routes)
}

/// No route of `s` is better than one after it.
spec fn ascending(s: Seq<RouteModel>) -> bool {
    forall|i: int, j: int| 0 <= i < j < s.len() ==> !route_better(#[trigger] s[i], #[trigger] s[j])
}

#[verifier::spinoff_prover]
proof fn lemma_insert_sorted_ascending(s: Seq<RouteModel>, x: RouteModel)
    requires
        ascending(s),
    ensures
        ascending(insert_sorted(s, x)),
        forall|j: int|
            0 <= j < insert_sorted(s, x).len() ==> #[trigger] insert_sorted(s, x)[j] == x
                || s.contains(insert_sorted(s, x)[j]),
    decreases s.len(),
{
    if s.len() == 0 {
    } else if route_better(s.last(), x) {
        let p = s.drop_last();
        lemma_insert_sorted_ascending(p, x);
        let t = insert_sorted(p, x);
        let r = t.push(s.last());
        lemma_route_order_antisymmetric(s.last(), x);
        assert forall|j: int| 0 <= j < t.len() implies !route_better(#[trigger] t[j], s.last()) by {
            if t[j] != x {
                let k = choose|k: int| 0 <= k < p.len() && p[k] == t[j];
                assert(s[k] == p[k]);
                assert(!route_better(s[k], s[s.len() - 1]));
            }
        }
        assert forall|i: int, j: int| 0 <= i < j < r.len() implies !route_better(
            #[trigger] r[i],
            #[trigger] r[j],
        ) by {
            if j < t.len() {
                assert(r[i] == t[i] && r[j] == t[j]);
            } else {
                assert(r[i] == t[i]);
            }
        }
        assert forall|j: int| 0 <= j < r.len() implies #[trigger] r[j] == x || s.contains(r[j]) by {
            if j < t.len() {
                assert(r[j] == t[j]);
                if t[j] != x {
                    let k = choose|k: int| 0 <= k < p.len() && p[k] == t[j];
                    assert(s[k] == p[k]);
                }
            } else {
                assert(s[s.len() - 1] == r[j]);
            }
        }
    } else {
        let r = s.push(x);
        assert forall|k: int| 0 <= k < s.len() implies !route_better(#[trigger] s[k], x) by {
            if k < s.len() - 1 {
                assert(!route_better(s[k], s[s.len() - 1]));
                lemma_route_order_transitive(s[k], s.last(), x);
            }
        }
        assert forall|i: int, j: int| 0 <= i < j < r.len() implies !route_better(
            #[trigger] r[i],
            #[trigger] r[j],
        ) by {
            assert(r[i] == s[i]);
            if j < s.len() {
                assert(r[j] == s[j]);
            }
        }
        assert forall|j: int| 0 <= j < r.len() implies #[trigger] r[j] == x || s.contains(r[j]) by {
            if j < s.len() {
                assert(r[j] == s[j]);
            }
        }
    }
}

proof fn lemma_stable_sort_ascending(s: Seq<RouteModel>)
    ensures
        ascending(stable_sort(s)),
    decreases s.len(),
{
    if s.len() > 0 {
        lemma_stable_sort_ascending(s.drop_last());
        lemma_insert_sorted_ascending(stable_sort(s.drop_last()), s.last());
    }
}

/// The routes of a prefix once a route is added to them are held best
/// first.
pub proof fn lemma_ranked_with_ranked(all: Seq<RouteModel>, x: RouteModel)
    ensures
        ranked(ranked_with(all, x)),
{
    let t = stable_sort(all.push(x));
    lemma_stable_sort_ascending(all.push(x));
    let r = t.reverse();
    assert forall|i: int, j: int| 0 <= i < j < r.len() implies !route_better(
        #[trigger] r[j],
        #[trigger] r[i],
    ) by {
        assert(r[i] == t[t.len() - 1 - i]);
        assert(r[j] == t[t.len() - 1 - j]);
    }
}

proof fn lemma_without_peer_ranked(s: Seq<RouteModel>, rid: u32)
    requires
        ranked(s),
    ensures
        ranked(without_peer(s, rid)),
        forall|j: int|
            0 <= j < without_peer(s, rid).len() ==> s.contains(#[trigger] without_peer(s, rid)[j]),
    decreases s.len(),
{
    if s.len() > 0 {
        let p = s.drop_last();
        assert forall|i: int, j: int| 0 <= i < j < p.len() implies !route_better(
            #[trigger] p[j],
            #[trigger] p[i],
        ) by {
            assert(p[i] == s[i] && p[j] == s[j]);
        }
        lemma_without_peer_ranked(p, rid);
        let t = without_peer(p, rid);
        let r = without_peer(s, rid);
        assert forall|j: int| 0 <= j < t.len() implies s.contains(#[trigger] t[j]) by {
            let k = choose|k: int| 0 <= k < p.len() && p[k] == t[j];
            assert(s[k] == p[k]);
        }
        if s.last().peer_rid != rid {
            assert(r == t.push(s.last()));
            assert forall|i: int, j: int| 0 <= i < j < r.len() implies !route_better(
                #[trigger] r[j],
                #[trigger] r[i],
            ) by {
                if j < t.len() {
                    assert(r[i] == t[i] && r[j] == t[j]);
                } else {
                    assert(r[i] == t[i]);
                    let k = choose|k: int| 0 <= k < p.len() && p[k] == t[i];
                    assert(s[k] == p[k]);
                    assert(!route_better(s[s.len() - 1], s[k]));
                }
            }
            assert forall|j: int| 0 <= j < r.len() implies s.contains(#[trigger] r[j]) by {
                if j < t.len() {
                    assert(r[j] == t[j]);
                } else {
                    assert(s[s.len() - 1] == r[j]);
                }
            }
        }
    }
}

/// In routes held best first, no route is better than the first.
pub proof fn lemma_ranked_first_best(s: Seq<RouteModel>)
    requires
        ranked(s),
        s.len() > 0,
    ensures
        forall|j: int| 0 <= j < s.len() ==> !route_better(#[trigger] s[j], s[0]),
{
    assert forall|j: int| 0 <= j < s.len() implies !route_better(#[trigger] s[j], s[0]) by {
        if j == 0 {
            lemma_route_order_reflexive(s[0]);
        }
    }
}

/// Taking announced routes into a RIB whose entries hold their routes best
/// first keeps them so.
pub proof fn lemma_add_all_ranked(
    fib: Seq<FibEntry>,
    asn: u16,
    attrs: RouteModel,
    rib: Seq<EntryModel>,
    ns: Seq<Nlri>,
)
    requires
        rib_ranked(rib),
    ensures
        rib_ranked(add_all(fib, asn, attrs, rib, ns).0),
    decreases ns.len(),
{
    if ns.len() > 0 {
        lemma_add_all_ranked(fib, asn, attrs, rib, ns.drop_last());
        let before = add_all(fib, asn, attrs, rib, ns.drop_last()).0;
        let after = add_step(fib, asn, attrs, before, ns.last()).0;
        lemma_entry_index(before, ns.last());
        if !aspath_flat(attrs.as_path).contains(asn) {
            match entry_index(before, ns.last()) {
                None => {
                    assert forall|i: int| 0 <= i < after.len() implies ranked(
                        #[trigger] after[i].routes,
                    ) by {
                        if i < before.len() {
                            assert(after[i] == before[i]);
                        }
                    }
                },
                Some(k) => {
                    lemma_ranked_with_ranked(before[k].routes, attrs);
                    assert forall|i: int| 0 <= i < after.len() implies ranked(
                        #[trigger] after[i].routes,
                    ) by {
                        if i != k {
                            assert(after[i] == before[i]);
                        }
                    }
                },
            }
        }
    }
}

/// Withdrawing the routes of a peer from a RIB whose entries hold their
/// routes best first keeps them so.
pub proof fn lemma_withdraw_all_ranked(
    fib: Seq<FibEntry>,
    rid: u32,
    rib: Seq<EntryModel>,
    ns: Seq<Nlri>,
)
    requires
        rib_ranked(rib),
    ensures
        rib_ranked(withdraw_all(fib, rid, rib, ns).0),
    decreases ns.len(),
{
    if ns.len() > 0 {
        lemma_withdraw_all_ranked(fib, rid, rib, ns.drop_last());
        let before = withdraw_all(fib, rid, rib, ns.drop_last()).0;
        let after = withdraw_step(fib, rid, before, ns.last()).0;
        lemma_entry_index(before, ns.last());
        match entry_index(before, ns.last()) {
            None => {},
            Some(k) => {
                let kept = without_peer(before[k].routes, rid);
                lemma_without_peer_ranked(before[k].routes, rid);
                if kept.len() == 0 {
                    assert forall|i: int| 0 <= i < after.len() implies ranked(
                        #[trigger] after[i].routes,
                    ) by {
                        let i0 = if i < k { i } else { i + 1 };
                        assert(after[i] == before[i0]);
                    }
                } else {
                    assert forall|i: int| 0 <= i < after.len() implies ranked(
                        #[trigger] after[i].routes,
                    ) by {
                        if i != k {
                            assert(after[i] == before[i]);
                        }
                    }
                }
            },
        }
    }
}

/// A route whose AS_PATH holds the local AS number is never taken into the
/// RIB and never announced: adding it changes nothing.
pub proof fn lemma_add_all_drops_looped(
    fib: Seq<FibEntry>,
    asn: u16,
    attrs: RouteModel,
    rib: Seq<EntryModel>,
    ns: Seq<Nlri>,
)
    requires
        aspath_flat(attrs.as_path).contains(asn),
    ensures
        add_all(fib, asn, attrs, rib, ns) == (rib, Seq::<(Nlri, Option<RouteModel>)>::empty()),
    decreases ns.len(),
{
    if ns.len() > 0 {
        lemma_add_all_drops_looped(fib, asn, attrs, rib, ns.drop_last());
        assert(Seq::<(Nlri, Option<RouteModel>)>::empty() + Seq::<(Nlri, Option<RouteModel>)>::empty()
            =~= Seq::<(Nlri, Option<RouteModel>)>::empty());
    }
}

/// No route kept by the filter comes from the peer filtered out.
proof fn lemma_without_peer_none(s: Seq<RouteModel>, rid: u32)
    ensures
        !has_route_from(without_peer(s, rid), rid),
    decreases s.len(),
{
    if s.len() > 0 {
        lemma_without_peer_none(s.drop_last(), rid);
        let t = without_peer(s.drop_last(), rid);
        if s.last().peer_rid != rid {
            assert forall|j: int| 0 <= j < t.push(s.last()).len() implies (#[trigger] t.push(
                s.last(),
            )[j]).peer_rid != rid by {
                if j < t.len() {
                    assert(t.push(s.last())[j] == t[j]);
                }
            }
        }
    }
}

/// One withdrawal step keeps the keys unique; the prefix it names then
/// holds no route from the peer, and every other prefix is as it was.
#[verifier::spinoff_prover]
proof fn lemma_withdraw_step_lookup(
    fib: Seq<FibEntry>,
    rid: u32,
    rib: Seq<EntryModel>,
    n: Nlri,
    m: Nlri,
)
    requires
        keys_unique(rib),
    ensures
        keys_unique(withdraw_step(fib, rid, rib, n).0),
        m == n ==> !(rib_lookup(withdraw_step(fib, rid, rib, n).0, m) matches Some(rs)
            && has_route_from(rs, rid)),
        m != n ==> rib_lookup(withdraw_step(fib, rid, rib, n).0, m) == rib_lookup(rib, m),
{
    let t = withdraw_step(fib, rid, rib, n).0;
    lemma_entry_index(rib, n);
    lemma_entry_index(rib, m);
    match entry_index(rib, n) {
        None => {
            if m == n {
                lemma_lookup_absent(rib, m);
            }
        },
        Some(i) => {
            let kept = without_peer(rib[i].routes, rid);
            lemma_without_peer_none(rib[i].routes, rid);
            if kept.len() == 0 {
                assert forall|a: int, b: int| 0 <= a < b < t.len() implies t[a].nlri != t[b].nlri by {
                    let a0 = if a < i { a } else { a + 1 };
                    let b0 = if b < i { b } else { b + 1 };
                    assert(t[a] == rib[a0] && t[b] == rib[b0]);
                }
                if m == n {
                    assert forall|k: int| 0 <= k < t.len() implies (#[trigger] t[k]).nlri != m by {
                        let k0 = if k < i { k } else { k + 1 };
                        assert(t[k] == rib[k0]);
                    }
                    lemma_lookup_absent(t, m);
                } else {
                    match entry_index(rib, m) {
                        Some(j) => {
                            let j1 = if j < i { j } else { j - 1 };
                            assert(t[j1] == rib[j]);
                            lemma_lookup_at(t, j1);
                        },
                        None => {
                            assert forall|k: int| 0 <= k < t.len() implies (#[trigger] t[k]).nlri
                                != m by {
                                let k0 = if k < i { k } else { k + 1 };
                                assert(t[k] == rib[k0]);
                            }
                            lemma_lookup_absent(t, m);
                        },
                    }
                }
            } else {
                assert forall|a: int, b: int| 0 <= a < b < t.len() implies t[a].nlri != t[b].nlri by {
                    assert(t[a].nlri == rib[a].nlri && t[b].nlri == rib[b].nlri);
                }
                if m == n {
                    lemma_lookup_at(t, i);
                } else {
                    match entry_index(rib, m) {
                        Some(j) => {
                            assert(t[j] == rib[j]);
                            lemma_lookup_at(t, j);
                        },
                        None => {
                            assert forall|k: int| 0 <= k < t.len() implies (#[trigger] t[k]).nlri
                                != m by {
                                if k != i {
                                    assert(t[k] == rib[k]);
                                }
                            }
                            lemma_lookup_absent(t, m);
                        },
                    }
                }
            }
        },
    }
}

/// A withdrawal of the routes of the peer `rid` for the prefixes `ns`
/// leaves none of that peer's routes for them, and every other prefix as
/// it was; the keys stay unique.
pub proof fn lemma_withdraw_all_lookup(
    fib: Seq<FibEntry>,
    rid: u32,
    rib: Seq<EntryModel>,
    ns: Seq<Nlri>,
    m: Nlri,
)
    requires
        keys_unique(rib),
    ensures
        keys_unique(withdraw_all(fib, rid, rib, ns).0),
        ns.contains(m) ==> !(rib_lookup(withdraw_all(fib, rid, rib, ns).0, m) matches Some(rs)
            && has_route_from(rs, rid)),
        !ns.contains(m) ==> rib_lookup(withdraw_all(fib, rid, rib, ns).0, m) == rib_lookup(rib, m),
    decreases ns.len(),
{
    if ns.len() > 0 {
        let p = ns.drop_last();
        lemma_withdraw_all_lookup(fib, rid, rib, p, m);
        let before = withdraw_all(fib, rid, rib, p).0;
        lemma_withdraw_step_lookup(fib, rid, before, ns.last(), m);
        if ns.contains(m) && m != ns.last() {
            let k = choose|k: int| 0 <= k < ns.len() && ns[k] == m;
            assert(p[k] == m);
        }
        if p.contains(m) {
            let k = choose|k: int| 0 <= k < p.len() && p[k] == m;
            assert(ns[k] == m);
        }
        if m == ns.last() {
            assert(ns[ns.len() - 1] == m);
        }
    }
}

/// Every prefix holding a route from the peer `rid` is among the prefixes
/// found for it.
proof fn lemma_prefixes_from_complete(rib: Seq<EntryModel>, rid: u32, m: Nlri)
    requires
        keys_unique(rib),
    ensures
        rib_lookup(rib, m) matches Some(rs) && has_route_from(rs, rid) ==> prefixes_from(
            rib,
            rid,
        ).contains(m),
    decreases rib.len(),
{
    if rib.len() > 0 {
        let p = rib.drop_last();
        assert forall|a: int, b: int| 0 <= a < b < p.len() implies p[a].nlri != p[b].nlri by {
            assert(p[a] == rib[a] && p[b] == rib[b]);
        }
        lemma_prefixes_from_complete(p, rid, m);
        let rest = prefixes_from(p, rid);
        if rib.last().nlri == m {
            if has_route_from(rib.last().routes, rid) {
                assert(rest.push(m)[rest.len() as int] == m);
            }
        } else {
            lemma_entry_index(p, m);
            if entry_index(p, m) is Some {
                let i = entry_index(p, m).unwrap();
                assert(rib[i] == p[i]);
            }
            if rest.contains(m) && has_route_from(rib.last().routes, rid) {
                let k = choose|k: int| 0 <= k < rest.len() && rest[k] == m;
                assert(rest.push(rib.last().nlri)[k] == m);
            }
        }
    }
}

/// When a peer goes away and its withdrawal names no prefix, no prefix of
/// the RIB holds a route from it afterwards.
pub proof fn lemma_withdraw_peer_everywhere(
    fib: Seq<FibEntry>,
    rid: u32,
    rib: Seq<EntryModel>,
    m: Nlri,
)
    requires
        keys_unique(rib),
    ensures
        !(rib_lookup(withdraw_all(fib, rid, rib, withdraw_targets(rib, Seq::empty(), rid)).0, m) matches Some(
            rs,
        ) && has_route_from(rs, rid)),
{
    let targets = prefixes_from(rib, rid);
    lemma_withdraw_all_lookup(fib, rid, rib, targets, m);
    lemma_prefixes_from_complete(rib, rid, m);
}

/// The routes a prefix holds once `attrs` is taken in, where it held
/// `held`: `attrs` alone where it held none, else `attrs` ranked among them.
pub open spec fn routes_with(held: Option<Seq<RouteModel>>, attrs: RouteModel) -> Seq<RouteModel> {
    match held {
        None => seq![attrs],
        Some(rs) => ranked_with(rs, attrs),
    }
}

/// Taking `attrs` into a prefix that held `held` is announced: its next hop
/// is reachable, and it beats the best reachable route held, or there was
/// none.
pub open spec fn announces(fib: Seq<FibEntry>, held: Option<Seq<RouteModel>>, attrs: RouteModel) -> bool {
    fib_reaches(fib, attrs.next_hop) && match held {
        None => true,
        Some(rs) => best_reachable_in(fib, rs) is None || route_better(
            attrs,
            best_reachable_in(fib, rs).unwrap(),
        ),
    }
}

/// One addition step keeps the keys unique; a looped route changes
/// nothing; else the prefix it names holds the route ranked among its
/// others, every other prefix is as it was, and the route is announced as
/// [`announces`] says.
#[verifier::spinoff_prover]
proof fn lemma_add_step_lookup(
    fib: Seq<FibEntry>,
    asn: u16,
    attrs: RouteModel,
    rib: Seq<EntryModel>,
    n: Nlri,
    m: Nlri,
)
    requires
        keys_unique(rib),
    ensures
        keys_unique(add_step(fib, asn, attrs, rib, n).0),
        aspath_flat(attrs.as_path).contains(asn) ==> add_step(fib, asn, attrs, rib, n) == (
            rib,
            Seq::<(Nlri, Option<RouteModel>)>::empty(),
        ),
        !aspath_flat(attrs.as_path).contains(asn) && m == n ==> rib_lookup(
            add_step(fib, asn, attrs, rib, n).0,
            m,
        ) == Some(routes_with(rib_lookup(rib, n), attrs)),
        m != n ==> rib_lookup(add_step(fib, asn, attrs, rib, n).0, m) == rib_lookup(rib, m),
        !aspath_flat(attrs.as_path).contains(asn) ==> add_step(fib, asn, attrs, rib, n).1 == (if announces(
            fib,
            rib_lookup(rib, n),
            attrs,
        ) {
            seq![(n, Some(attrs))]
        } else {
            Seq::<(Nlri, Option<RouteModel>)>::empty()
        }),
{
    if !aspath_flat(attrs.as_path).contains(asn) {
        let t = add_step(fib, asn, attrs, rib, n).0;
        lemma_entry_index(rib, n);
        lemma_entry_index(rib, m);
        match entry_index(rib, n) {
            None => {
                assert forall|a: int, b: int| 0 <= a < b < t.len() implies t[a].nlri
                    != t[b].nlri by {
                    if b == rib.len() {
                        assert(t[a] == rib[a]);
                    } else {
                        assert(t[a] == rib[a] && t[b] == rib[b]);
                    }
                }
                if m == n {
                    lemma_lookup_at(t, rib.len() as int);
                } else {
                    match entry_index(rib, m) {
                        Some(j) => {
                            assert(t[j] == rib[j]);
                            lemma_lookup_at(t, j);
                        },
                        None => {
                            assert forall|k: int| 0 <= k < t.len() implies (#[trigger] t[k]).nlri
                                != m by {
                                if k < rib.len() {
                                    assert(t[k] == rib[k]);
                                }
                            }
                            lemma_lookup_absent(t, m);
                        },
                    }
                }
            },
            Some(i) => {
                assert forall|a: int, b: int| 0 <= a < b < t.len() implies t[a].nlri
                    != t[b].nlri by {
                    assert(t[a].nlri == rib[a].nlri && t[b].nlri == rib[b].nlri);
                }
                if m == n {
                    lemma_lookup_at(t, i);
                } else {
                    match entry_index(rib, m) {
                        Some(j) => {
                            assert(t[j] == rib[j]);
                            lemma_lookup_at(t, j);
                        },
                        None => {
                            assert forall|k: int| 0 <= k < t.len() implies (#[trigger] t[k]).nlri
                                != m by {
                                if k != i {
                                    assert(t[k] == rib[k]);
                                }
                            }
                            lemma_lookup_absent(t, m);
                        },
                    }
                }
            },
        }
    }
}

/// Taking the route `attrs` for distinct prefixes `ns` into a RIB with
/// unique keys: the keys stay unique; a route whose AS_PATH holds the local
/// AS number changes nothing and is not announced; else each prefix of
/// `ns` holds its earlier routes with `attrs` ranked among them (or `attrs`
/// alone where it held none), every other prefix is as it was, a RIB whose
/// entries held their routes best first still does, and `attrs` is
/// announced for exactly the prefixes of `ns` for which [`announces`]
/// holds, and for no other prefix.
pub proof fn lemma_add_all_lookup(
    fib: Seq<FibEntry>,
    asn: u16,
    attrs: RouteModel,
    rib: Seq<EntryModel>,
    ns: Seq<Nlri>,
    m: Nlri,
)
    requires
        keys_unique(rib),
        ns.no_duplicates(),
    ensures
        keys_unique(add_all(fib, asn, attrs, rib, ns).0),
        aspath_flat(attrs.as_path).contains(asn) ==> add_all(fib, asn, attrs, rib, ns) == (
            rib,
            Seq::<(Nlri, Option<RouteModel>)>::empty(),
        ),
        !aspath_flat(attrs.as_path).contains(asn) && ns.contains(m) ==> rib_lookup(
            add_all(fib, asn, attrs, rib, ns).0,
            m,
        ) == Some(routes_with(rib_lookup(rib, m), attrs)),
        !ns.contains(m) ==> rib_lookup(add_all(fib, asn, attrs, rib, ns).0, m) == rib_lookup(
            rib,
            m,
        ),
        rib_ranked(rib) ==> rib_ranked(add_all(fib, asn, attrs, rib, ns).0),
        add_all(fib, asn, attrs, rib, ns).1.contains((m, Some(attrs))) <==> (!aspath_flat(
            attrs.as_path,
        ).contains(asn) && ns.contains(m) && announces(fib, rib_lookup(rib, m), attrs)),
        forall|k: int|
            0 <= k < add_all(fib, asn, attrs, rib, ns).1.len() ==> (#[trigger] add_all(
                fib,
                asn,
                attrs,
                rib,
                ns,
            ).1[k]).1 == Some(attrs) && ns.contains(add_all(fib, asn, attrs, rib, ns).1[k].0),
    decreases ns.len(),
{
    if rib_ranked(rib) {
        lemma_add_all_ranked(fib, asn, attrs, rib, ns);
    }
    if aspath_flat(attrs.as_path).contains(asn) {
        lemma_add_all_drops_looped(fib, asn, attrs, rib, ns);
        return;
    }
    if ns.len() > 0 {
        let p = ns.drop_last();
        let n = ns.last();
        assert(p.no_duplicates()) by {
            assert forall|a: int, b: int| 0 <= a < p.len() && 0 <= b < p.len() && a != b implies p[a]
                != p[b] by {
                assert(p[a] == ns[a] && p[b] == ns[b]);
            }
        }
        assert(!p.contains(n)) by {
            if p.contains(n) {
                let k = choose|k: int| 0 <= k < p.len() && p[k] == n;
                assert(ns[k] == ns[ns.len() - 1]);
            }
        }
        lemma_add_all_lookup(fib, asn, attrs, rib, p, m);
        lemma_add_all_lookup(fib, asn, attrs, rib, p, n);
        let before = add_all(fib, asn, attrs, rib, p);
        let step = add_step(fib, asn, attrs, before.0, n);
        let all = add_all(fib, asn, attrs, rib, ns);
        assert(all.0 == step.0 && all.1 == before.1 + step.1);
        lemma_add_step_lookup(fib, asn, attrs, before.0, n, m);
        assert(rib_lookup(before.0, n) == rib_lookup(rib, n));
        if ns.contains(m) && m != n {
            let k = choose|k: int| 0 <= k < ns.len() && ns[k] == m;
            assert(p[k] == m);
        }
        if p.contains(m) {
            let k = choose|k: int| 0 <= k < p.len() && p[k] == m;
            assert(ns[k] == m);
        }
        if m == n {
            assert(ns[ns.len() - 1] == m);
        }
        assert forall|k: int| 0 <= k < all.1.len() implies (#[trigger] all.1[k]).1 == Some(attrs)
            && ns.contains(all.1[k].0) by {
            if k < before.1.len() {
                assert(all.1[k] == before.1[k]);
                let j = choose|j: int| 0 <= j < p.len() && p[j] == before.1[k].0;
                assert(ns[j] == p[j]);
            } else {
                assert(all.1[k] == step.1[k - before.1.len()]);
                assert(ns[ns.len() - 1] == n);
            }
        }
        let c = (m, Some(attrs));
        if all.1.contains(c) {
            let k = choose|k: int| 0 <= k < all.1.len() && all.1[k] == c;
            if k < before.1.len() {
                assert(before.1[k] == c);
            } else {
                assert(step.1[k - before.1.len()] == c);
            }
        }
        if before.1.contains(c) {
            let k = choose|k: int| 0 <= k < before.1.len() && before.1[k] == c;
            assert(all.1[k] == c);
        }
        if step.1.contains(c) {
            let k = choose|k: int| 0 <= k < step.1.len() && step.1[k] == c;
            assert(all.1[before.1.len() + k] == c);
        }
        if m == n && announces(fib, rib_lookup(rib, m), attrs) {
            assert(step.1[0] == c);
        }
    }
}

/// A withdrawal by the peer `rid` of the prefixes `ns` from a RIB with
/// unique keys reports a prefix as withdrawn exactly when it is among `ns`
/// and its best reachable route before the withdrawal came from that peer;
/// it reports nothing else.
pub proof fn lemma_withdraw_all_reports(
    fib: Seq<FibEntry>,
    rid: u32,
    rib: Seq<EntryModel>,
    ns: Seq<Nlri>,
    m: Nlri,
)
    requires
        keys_unique(rib),
    ensures
        withdraw_all(fib, rid, rib, ns).1.contains((m, None)) <==> (ns.contains(m) && rib_lookup(
            rib,
            m,
        ) is Some && best_reachable_in(fib, rib_lookup(rib, m).unwrap()) is Some
            && best_reachable_in(fib, rib_lookup(rib, m).unwrap()).unwrap().peer_rid == rid),
        forall|k: int|
            0 <= k < withdraw_all(fib, rid, rib, ns).1.len() ==> (#[trigger] withdraw_all(
                fib,
                rid,
                rib,
                ns,
            ).1[k]).1 is None && ns.contains(withdraw_all(fib, rid, rib, ns).1[k].0),
    decreases ns.len(),
{
    if ns.len() > 0 {
        let p = ns.drop_last();
        let n = ns.last();
        let last = ns.len() - 1;
        assert(ns[last] == n);
        lemma_withdraw_all_reports(fib, rid, rib, p, m);
        lemma_withdraw_all_lookup(fib, rid, rib, p, n);
        let before = withdraw_all(fib, rid, rib, p);
        let step = withdraw_step(fib, rid, before.0, n);
        let all = withdraw_all(fib, rid, rib, ns);
        assert(all.1 == before.1 + step.1);
        let lb = rib_lookup(before.0, n);
        lemma_entry_index(before.0, n);
        if p.contains(m) {
            let k = choose|k: int| 0 <= k < p.len() && p[k] == m;
            assert(ns[k] == m);
        }
        if ns.contains(m) && m != n {
            let k = choose|k: int| 0 <= k < ns.len() && ns[k] == m;
            assert(p[k] == m);
        }
        // The step reports `n` when the best reachable route it held then
        // came from the peer; that route is one of those held, so the
        // prefix still held a route from the peer and was not withdrawn
        // earlier.
        if lb is Some {
            lemma_best_reachable(fib, lb.unwrap());
            if best_reachable_in(fib, lb.unwrap()) is Some && best_reachable_in(
                fib,
                lb.unwrap(),
            ).unwrap().peer_rid == rid {
                let b = best_reachable_in(fib, lb.unwrap()).unwrap();
                let j = choose|j: int| 0 <= j < lb.unwrap().len() && lb.unwrap()[j] == b;
                assert(lb.unwrap()[j].peer_rid == rid);
                assert(has_route_from(lb.unwrap(), rid));
                assert(!p.contains(n));
                assert(lb == rib_lookup(rib, n));
            }
        }
        if !p.contains(n) {
            assert(lb == rib_lookup(rib, n));
        }
        let c = (m, Option::<RouteModel>::None);
        if all.1.contains(c) {
            let k = choose|k: int| 0 <= k < all.1.len() && all.1[k] == c;
            if k < before.1.len() {
                assert(before.1[k] == c);
            } else {
                assert(step.1[k - before.1.len()] == c);
            }
        }
        if before.1.contains(c) {
            let k = choose|k: int| 0 <= k < before.1.len() && before.1[k] == c;
            assert(all.1[k] == c);
        }
        if step.1.contains(c) {
            let k = choose|k: int| 0 <= k < step.1.len() && step.1[k] == c;
            assert(all.1[before.1.len() + k] == c);
        }
        if m == n && !p.contains(m) && rib_lookup(rib, m) is Some && best_reachable_in(
            fib,
            rib_lookup(rib, m).unwrap(),
        ) is Some && best_reachable_in(fib, rib_lookup(rib, m).unwrap()).unwrap().peer_rid
            == rid {
            assert(step.1[0] == c);
        }
        assert forall|k: int| 0 <= k < all.1.len() implies (#[trigger] all.1[k]).1 is None
            && ns.contains(all.1[k].0) by {
            if k < before.1.len() {
                assert(all.1[k] == before.1[k]);
                let j = choose|j: int| 0 <= j < p.len() && p[j] == before.1[k].0;
                assert(ns[j] == p[j]);
            } else {
                assert(all.1[k] == step.1[k - before.1.len()]);
            }
        }
    }
}

} // verus!
