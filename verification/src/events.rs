//! The events exchanged between the sessions and the RIB and FIB
//! managers, and what the RIB manager does with an update.
use vstd::prelude::*;
use crate::fib::{fib_wf, Fib};
use crate::manager::{
    add_all, changes_view, loc_rib_added, loc_rib_withdraw, rib_ranked, routes_wf, withdraw_all,
    withdraw_targets,
};
use crate::nlri::Nlri;
use crate::rib::{route_wf, EntryModel, Rib, RibUpdate, RouteAttributes, RouteModel};

verus! {

/// Routes a neighbor announced and withdrew.
#[derive(Debug)]
pub struct Update {
    pub added: Option<RibUpdate>,
    pub withdrawn: Option<RibUpdate>,
    /// The router identifier of the neighbor.
    pub rid: u32,
}

impl Update {
    /// A copy of the update.
    pub fn copy(&self) -> (r: Update)
        ensures
            added_view(r.added) == added_view(self.added),
            withdrawn_view(r.withdrawn) == withdrawn_view(self.withdrawn),
            r.rid == self.rid,
    {
        let added = match &self.added {
            Some(u) => Some(u.copy()),
            None => None,
        };
        let withdrawn = match &self.withdrawn {
            Some(u) => Some(u.copy()),
            None => None,
        };
        Update { added, withdrawn, rid: self.rid }
    }
}

/// What the RIB manager is told.
#[derive(Debug)]
pub enum RibEvent {
    UpdateRoutes(Update),
}

/// What the FIB manager is told.
#[derive(Debug, Clone, Copy, PartialEq, Eq, Structural)]
pub enum FibEvent {
    RibUpdated,
}

/// The RIB and the changes to announce once an update is taken in: its
/// announced routes first, then its withdrawals.
pub open spec fn update_outcome(
    fib: Seq<crate::fib::FibEntry>,
    asn: u16,
    rib: Seq<EntryModel>,
    added: Option<(Seq<Nlri>, RouteModel)>,
    withdrawn: Option<(Seq<Nlri>, u32)>,
) -> (Seq<EntryModel>, Seq<(Nlri, Option<RouteModel>)>) {
    let a = match added {
        Some((ns, attrs)) => add_all(fib, asn, attrs, rib, ns),
        None => (rib, Seq::empty()),
    };
    let w = match withdrawn {
        Some((ns, rid)) => withdraw_all(fib, rid, a.0, withdraw_targets(a.0, ns, rid)),
        None => (a.0, Seq::empty()),
    };
    (w.0, a.1 + w.1)
}

/// The announced part of an update, as a model.
pub open spec fn added_view(u: Option<RibUpdate>) -> Option<(Seq<Nlri>, RouteModel)> {
    match u {
        Some(r) => Some((r.nlris@, r.attributes@)),
        None => None,
    }
}

/// The withdrawn part of an update, as a model.
pub open spec fn withdrawn_view(u: Option<RibUpdate>) -> Option<(Seq<Nlri>, u32)> {
    match u {
        Some(r) => Some((r.nlris@, r.attributes.peer_rid)),
        None => None,
    }
}

/// Takes an update into the RIB (see [`update_outcome`]) and returns the
/// prefixes whose announcement changed. When the list is not empty, the
/// FIB manager is to be told and the list sent to every established
/// neighbor.
pub fn process_update(rib: &mut Rib, fib: &Fib, asn: u16, msg: &Update) -> (r: Vec<
    (Nlri, Option<RouteAttributes>),
>)
    requires
        old(rib).wf(),
        routes_wf(old(rib)@),
        fib_wf(fib.routes@),
        msg.added matches Some(a) ==> route_wf(a.attributes@),
    ensures
        final(rib).wf(),
        routes_wf(final(rib)@),
        final(rib)@ == update_outcome(
            fib.routes@,
            asn,
            old(rib)@,
            added_view(msg.added),
            withdrawn_view(msg.withdrawn),
        ).0,
        changes_view(r@) == update_outcome(
            fib.routes@,
            asn,
            old(rib)@,
            added_view(msg.added),
            withdrawn_view(msg.withdrawn),
        ).1,
        rib_ranked(old(rib)@) ==> rib_ranked(final(rib)@),
{
    let mut modified: Vec<(Nlri, Option<RouteAttributes>)> = Vec::new();
    match &msg.added {
        Some(routes) => {
            let mut added = loc_rib_added(rib, fib, asn, routes);
            modified.append(&mut added);
        },
        None => {},
    }
    let ghost mid = changes_view(modified@);
    match &msg.withdrawn {
        Some(routes) => {
            let mut withdraw = loc_rib_withdraw(rib, fib, routes);
            let ghost w = changes_view(withdraw@);
            let ghost m0 = modified@;
            modified.append(&mut withdraw);
            proof {
                assert(changes_view(modified@) =~= mid + w);
            }
        },
        None => {
            assert(changes_view(modified@) =~= mid + Seq::<(Nlri, Option<RouteModel>)>::empty());
        },
    }
    proof {
        if msg.added is None {
            assert(mid =~= Seq::<(Nlri, Option<RouteModel>)>::empty());
        }
    }
    modified
}

} // verus!
