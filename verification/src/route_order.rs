//! The preference order between routes to the same prefix.
use vstd::prelude::*;
use std::cmp::Ordering;
use crate::attributes::aspath_len;
use crate::net::IpAddress;
use crate::attributes::aspath_length;
use crate::rib::{route_wf, PathType, PeeringType, RouteAttributes, RouteModel};

verus! {

/// The order of two 8-bit numbers.
pub open spec fn u8_order(a: u8, b: u8) -> Ordering {
    if a < b {
        Ordering::Less
    } else if a == b {
        Ordering::Equal
    } else {
        Ordering::Greater
    }
}

/// The order of two 32-bit numbers.
pub open spec fn u32_order(a: u32, b: u32) -> Ordering {
    if a < b {
        Ordering::Less
    } else if a == b {
        Ordering::Equal
    } else {
        Ordering::Greater
    }
}

/// The order of two 64-bit numbers.
pub open spec fn u64_order(a: u64, b: u64) -> Ordering {
    if a < b {
        Ordering::Less
    } else if a == b {
        Ordering::Equal
    } else {
        Ordering::Greater
    }
}

/// The order of two natural numbers.
pub open spec fn nat_order(a: nat, b: nat) -> Ordering {
    if a < b {
        Ordering::Less
    } else if a == b {
        Ordering::Equal
    } else {
        Ordering::Greater
    }
}

/// The order of two optional numbers: absence first.
pub open spec fn option_order(a: Option<u32>, b: Option<u32>) -> Ordering {
    match (a, b) {
        (None, None) => Ordering::Equal,
        (None, Some(_)) => Ordering::Less,
        (Some(_), None) => Ordering::Greater,
        (Some(x), Some(y)) => u32_order(x, y),
    }
}

/// The order of two addresses: IPv4 before IPv6, then by value.
pub open spec fn address_order(a: IpAddress, b: IpAddress) -> Ordering {
    match (a, b) {
        (IpAddress::V4(x), IpAddress::V4(y)) => u32_order(x, y),
        (IpAddress::V4(_), IpAddress::V6(_)) => Ordering::Less,
        (IpAddress::V6(_), IpAddress::V4(_)) => Ordering::Greater,
        (IpAddress::V6(x), IpAddress::V6(y)) => if x < y {
            Ordering::Less
        } else if x == y {
            Ordering::Equal
        } else {
            Ordering::Greater
        },
    }
}

/// External paths before internal ones.
pub open spec fn path_type_rank(t: PathType) -> u8 {
    match t {
        PathType::External => 0,
        PathType::Internal => 1,
    }
}

/// iBGP peers before eBGP ones.
pub open spec fn peering_rank(t: PeeringType) -> u8 {
    match t {
        PeeringType::Ibgp => 0,
        PeeringType::Ebgp => 1,
    }
}

/// The order of two routes, compared field after field until one differs:
/// the higher local preference, the path type, the shorter AS_PATH, the
/// lower origin code, the lower MED (a route without one before a route
/// with one), eBGP before iBGP, the time of receipt (between eBGP routes
/// only), the lower router identifier of the peer, the lower address of the
/// peer. The best route is the greatest.
pub open spec fn route_order(a: RouteModel, b: RouteModel) -> Ordering {
    let lp = option_order(a.local_pref, b.local_pref);
    let pt = u8_order(path_type_rank(a.path_type), path_type_rank(b.path_type));
    let pl = nat_order(aspath_len(b.as_path), aspath_len(a.as_path));
    let og = u8_order(crate::attributes::origin_code(b.origin), crate::attributes::origin_code(a.origin));
    let med = option_order(b.multi_exit_disc, a.multi_exit_disc);
    let peer = u8_order(peering_rank(a.peer_type), peering_rank(b.peer_type));
    let tm = if a.peer_type == PeeringType::Ebgp {
        u64_order(a.recv_time, b.recv_time)
    } else {
        Ordering::Equal
    };
    let rid = u32_order(b.peer_rid, a.peer_rid);
    if lp != Ordering::Equal {
        lp
    } else if pt != Ordering::Equal {
        pt
    } else if pl != Ordering::Equal {
        pl
    } else if og != Ordering::Equal {
        og
    } else if med != Ordering::Equal {
        med
    } else if peer != Ordering::Equal {
        peer
    } else if tm != Ordering::Equal {
        tm
    } else if rid != Ordering::Equal {
        rid
    } else {
        address_order(b.peer_ip, a.peer_ip)
    }
}

/// Route `a` is better than route `b`.
pub open spec fn route_better(a: RouteModel, b: RouteModel) -> bool {
    route_order(a, b) == Ordering::Greater
}

/// Compares two 8-bit numbers.
fn u8_compare(a: u8, b: u8) -> (r: Ordering)
    ensures
        r == u8_order(a, b),
{
    if a < b {
        Ordering::Less
    } else if a == b {
        Ordering::Equal
    } else {
        Ordering::Greater
    }
}

/// Compares two 32-bit numbers.
fn u32_compare(a: u32, b: u32) -> (r: Ordering)
    ensures
        r == u32_order(a, b),
{
    if a < b {
        Ordering::Less
    } else if a == b {
        Ordering::Equal
    } else {
        Ordering::Greater
    }
}

/// Compares two 64-bit numbers.
fn u64_compare(a: u64, b: u64) -> (r: Ordering)
    ensures
        r == u64_order(a, b),
{
    if a < b {
        Ordering::Less
    } else if a == b {
        Ordering::Equal
    } else {
        Ordering::Greater
    }
}

/// Compares two optional numbers.
fn option_compare(a: Option<u32>, b: Option<u32>) -> (r: Ordering)
    ensures
        r == option_order(a, b),
{
    match (a, b) {
        (None, None) => Ordering::Equal,
        (None, Some(_)) => Ordering::Less,
        (Some(_), None) => Ordering::Greater,
        (Some(x), Some(y)) => u32_compare(x, y),
    }
}

/// Compares two addresses.
fn address_compare(a: IpAddress, b: IpAddress) -> (r: Ordering)
    ensures
        r == address_order(a, b),
{
    match (a, b) {
        (IpAddress::V4(x), IpAddress::V4(y)) => u32_compare(x, y),
        (IpAddress::V4(_), IpAddress::V6(_)) => Ordering::Less,
        (IpAddress::V6(_), IpAddress::V4(_)) => Ordering::Greater,
        (IpAddress::V6(x), IpAddress::V6(y)) => if x < y {
            Ordering::Less
        } else if x == y {
            Ordering::Equal
        } else {
            Ordering::Greater
        },
    }
}

impl RouteAttributes {
    /// Compares two routes (see [`route_order`]); the better route is the
    /// greater.
    pub fn compare(&self, other: &RouteAttributes) -> (r: Ordering)
        requires
            route_wf(self@),
            route_wf(other@),
        ensures
            r == route_order(self@, other@),
    {
        let lp = option_compare(self.local_pref, other.local_pref);
        match lp {
            Ordering::Equal => {},
            _ => return lp,
        }
        let pt = u8_compare(
            match self.path_type {
                PathType::External => 0,
                PathType::Internal => 1,
            },
            match other.path_type {
                PathType::External => 0,
                PathType::Internal => 1,
            },
        );
        match pt {
            Ordering::Equal => {},
            _ => return pt,
        }
        let pl = u64_compare(aspath_length(&other.as_path), aspath_length(&self.as_path));
        match pl {
            Ordering::Equal => {},
            _ => return pl,
        }
        let og = u8_compare(other.origin.to_u8(), self.origin.to_u8());
        match og {
            Ordering::Equal => {},
            _ => return og,
        }
        let med = option_compare(other.multi_exit_disc, self.multi_exit_disc);
        match med {
            Ordering::Equal => {},
            _ => return med,
        }
        let peer = u8_compare(
            match self.peer_type {
                PeeringType::Ibgp => 0,
                PeeringType::Ebgp => 1,
            },
            match other.peer_type {
                PeeringType::Ibgp => 0,
                PeeringType::Ebgp => 1,
            },
        );
        match peer {
            Ordering::Equal => {},
            _ => return peer,
        }
        if self.peer_type == PeeringType::Ebgp {
            let tm = u64_compare(self.recv_time, other.recv_time);
            match tm {
                Ordering::Equal => {},
                _ => return tm,
            }
        }
        let rid = u32_compare(other.peer_rid, self.peer_rid);
        match rid {
            Ordering::Equal => {},
            _ => return rid,
        }
        address_compare(other.peer_ip, self.peer_ip)
    }

    /// Whether this route is better than `other`.
    pub fn is_better(&self, other: &RouteAttributes) -> (r: bool)
        requires
            route_wf(self@),
            route_wf(other@),
        ensures
            r == route_better(self@, other@),
    {
        match self.compare(other) {
            Ordering::Greater => true,
            _ => false,
        }
    }
}

/// Every route is as good as itself.
pub proof fn lemma_route_order_reflexive(a: RouteModel)
    ensures
        route_order(a, a) == Ordering::Equal,
{
}

/// Comparing the other way round gives the opposite answer.
pub proof fn lemma_route_order_antisymmetric(a: RouteModel, b: RouteModel)
    ensures
        route_order(a, b) == Ordering::Less <==> route_order(b, a) == Ordering::Greater,
        route_order(a, b) == Ordering::Equal <==> route_order(b, a) == Ordering::Equal,
{
}

/// The order is transitive: a route no better than a second, itself no
/// better than a third, is no better than the third; and strictly so if
/// either step is strict.
pub proof fn lemma_route_order_transitive(a: RouteModel, b: RouteModel, c: RouteModel)
    requires
        route_order(a, b) != Ordering::Greater,
        route_order(b, c) != Ordering::Greater,
    ensures
        route_order(a, c) != Ordering::Greater,
        route_order(a, b) == Ordering::Less || route_order(b, c) == Ordering::Less ==> route_order(
            a,
            c,
        ) == Ordering::Less,
{
}

} // verus!
