//! IP addresses and prefixes as plain integers, with the prefix arithmetic
//! of the `ipnet` crate.
use vstd::prelude::*;

verus! {

/// An IPv4 or IPv6 address, held as its integer value.
#[derive(Debug, Clone, Copy, PartialEq, Eq, Hash, Structural)]
pub enum IpAddress {
    V4(u32),
    V6(u128),
}

/// An IPv4 prefix: an address and a prefix length.
#[derive(Debug, Clone, Copy, PartialEq, Eq, Hash, Structural)]
pub struct Ipv4Prefix {
    pub addr: u32,
    pub prefix_len: u8,
}

/// An IPv6 prefix: an address and a prefix length.
#[derive(Debug, Clone, Copy, PartialEq, Eq, Hash, Structural)]
pub struct Ipv6Prefix {
    pub addr: u128,
    pub prefix_len: u8,
}

/// An IPv4 or IPv6 prefix.
#[derive(Debug, Clone, Copy, PartialEq, Eq, Hash, Structural)]
pub enum IpPrefix {
    V4(Ipv4Prefix),
    V6(Ipv6Prefix),
}

/// The netmask of an IPv4 prefix of `plen` bits.
pub open spec fn v4_netmask(plen: u8) -> u32 {
    if plen == 0 {
        0
    } else {
        0xffff_ffffu32 << ((32 - plen) as u32)
    }
}

/// The netmask of an IPv6 prefix of `plen` bits.
pub open spec fn v6_netmask(plen: u8) -> u128 {
    if plen == 0 {
        0
    } else {
        0xffff_ffff_ffff_ffff_ffff_ffff_ffff_ffffu128 << ((128 - plen) as u128)
    }
}

/// The network address of an IPv4 prefix: its host bits cleared.
pub open spec fn v4_network(addr: u32, plen: u8) -> u32 {
    addr & v4_netmask(plen)
}

/// The network address of an IPv6 prefix: its host bits cleared.
pub open spec fn v6_network(addr: u128, plen: u8) -> u128 {
    addr & v6_netmask(plen)
}

/// The host mask of an IPv4 prefix of `plen` bits.
pub open spec fn v4_hostmask(plen: u8) -> u32 {
    if plen >= 32 {
        0
    } else {
        0xffff_ffffu32 >> (plen as u32)
    }
}

/// The host mask of an IPv6 prefix of `plen` bits.
pub open spec fn v6_hostmask(plen: u8) -> u128 {
    if plen >= 128 {
        0
    } else {
        0xffff_ffff_ffff_ffff_ffff_ffff_ffff_ffffu128 >> (plen as u128)
    }
}

/// The broadcast (last) address of an IPv4 prefix.
pub open spec fn v4_broadcast(addr: u32, plen: u8) -> u32 {
    addr | v4_hostmask(plen)
}

/// The last address of an IPv6 prefix.
pub open spec fn v6_broadcast(addr: u128, plen: u8) -> u128 {
    addr | v6_hostmask(plen)
}

impl IpPrefix {
    pub open spec fn spec_prefix_len(self) -> u8 {
        match self {
            IpPrefix::V4(p) => p.prefix_len,
            IpPrefix::V6(p) => p.prefix_len,
        }
    }

    /// The prefix length fits the address family.
    pub open spec fn valid(self) -> bool {
        match self {
            IpPrefix::V4(p) => p.prefix_len <= 32,
            IpPrefix::V6(p) => p.prefix_len <= 128,
        }
    }

    /// The network address with the host bits cleared.
    pub open spec fn spec_network(self) -> IpAddress {
        match self {
            IpPrefix::V4(p) => IpAddress::V4(v4_network(p.addr, p.prefix_len)),
            IpPrefix::V6(p) => IpAddress::V6(v6_network(p.addr, p.prefix_len)),
        }
    }

    /// Whether `a` lies within the prefix (same family, between the network
    /// and the broadcast address).
    pub open spec fn spec_contains(self, a: IpAddress) -> bool {
        match (self, a) {
            (IpPrefix::V4(p), IpAddress::V4(x)) => v4_network(p.addr, p.prefix_len) <= x && x
                <= v4_broadcast(p.addr, p.prefix_len),
            (IpPrefix::V6(p), IpAddress::V6(x)) => v6_network(p.addr, p.prefix_len) <= x && x
                <= v6_broadcast(p.addr, p.prefix_len),
            _ => false,
        }
    }

    /// The prefix length.
    pub fn prefix_len(&self) -> (r: u8)
        ensures
            r == self.spec_prefix_len(),
    {
        match self {
            IpPrefix::V4(p) => p.prefix_len,
            IpPrefix::V6(p) => p.prefix_len,
        }
    }

    /// The network address.
    pub fn network(&self) -> (r: IpAddress)
        requires
            self.valid(),
        ensures
            r == self.spec_network(),
    {
        match self {
            IpPrefix::V4(p) => IpAddress::V4(ipv4_network(p.addr, p.prefix_len)),
            IpPrefix::V6(p) => IpAddress::V6(ipv6_network(p.addr, p.prefix_len)),
        }
    }

    /// Whether the address `a` lies within this prefix.
    pub fn contains(&self, a: &IpAddress) -> (r: bool)
        requires
            self.valid(),
        ensures
            r == self.spec_contains(*a),
    {
        match (self, a) {
            (IpPrefix::V4(p), IpAddress::V4(x)) => ipv4_contains(p.addr, p.prefix_len, *x),
            (IpPrefix::V6(p), IpAddress::V6(x)) => ipv6_contains(p.addr, p.prefix_len, *x),
            _ => false,
        }
    }
}

/// `ipnet::Ipv4Net::new`: a prefix length above 32 is refused; otherwise
/// the address is kept as given.
#[verifier::external_body]
pub(crate) fn ipv4_prefix_new(addr: u32, plen: u8) -> (r: Option<Ipv4Prefix>)
    ensures
        r is Some <==> plen <= 32,
        r matches Some(p) ==> p == (Ipv4Prefix { addr, prefix_len: plen }),
{
    match ipnet::Ipv4Net::new(addr.into(), plen) {
        Ok(n) => Some(Ipv4Prefix { addr: n.addr().into(), prefix_len: n.prefix_len() }),
        Err(_) => None,
    }
}

/// `ipnet::Ipv6Net::new`: a prefix length above 128 is refused; otherwise
/// the address is kept as given.
#[verifier::external_body]
pub(crate) fn ipv6_prefix_new(addr: u128, plen: u8) -> (r: Option<Ipv6Prefix>)
    ensures
        r is Some <==> plen <= 128,
        r matches Some(p) ==> p == (Ipv6Prefix { addr, prefix_len: plen }),
{
    match ipnet::Ipv6Net::new(addr.into(), plen) {
        Ok(n) => Some(Ipv6Prefix { addr: n.addr().into(), prefix_len: n.prefix_len() }),
        Err(_) => None,
    }
}

/// `ipnet::Ipv4Net::network`: the address masked with the netmask, which
/// `ipnet` computes as `u32::MAX` shifted left by `32 - plen` (zero when the
/// shift is 32).
#[verifier::external_body]
pub(crate) fn ipv4_network(addr: u32, plen: u8) -> (r: u32)
    requires
        plen <= 32,
    ensures
        r == v4_network(addr, plen),
{
    ipnet::Ipv4Net::new_assert(addr.into(), plen).network().into()
}

/// `ipnet::Ipv6Net::network`: the address masked with the netmask, which
/// `ipnet` computes as `u128::MAX` shifted left by `128 - plen` (zero when
/// the shift is 128).
#[verifier::external_body]
pub(crate) fn ipv6_network(addr: u128, plen: u8) -> (r: u128)
    requires
        plen <= 128,
    ensures
        r == v6_network(addr, plen),
{
    ipnet::Ipv6Net::new_assert(addr.into(), plen).network().into()
}

/// Whether `x` lies between the network and the broadcast address of the
/// IPv4 prefix `addr/plen`.
fn ipv4_contains(addr: u32, plen: u8, x: u32) -> (r: bool)
    requires
        plen <= 32,
    ensures
        r == (v4_network(addr, plen) <= x && x <= v4_broadcast(addr, plen)),
{
    let hostmask: u32 = if plen >= 32 {
        0
    } else {
        0xffff_ffffu32 >> (plen as u32)
    };
    let network = ipv4_network(addr, plen);
    network <= x && x <= (addr | hostmask)
}

/// Whether `x` lies between the network and the last address of the IPv6
/// prefix `addr/plen`.
fn ipv6_contains(addr: u128, plen: u8, x: u128) -> (r: bool)
    requires
        plen <= 128,
    ensures
        r == (v6_network(addr, plen) <= x && x <= v6_broadcast(addr, plen)),
{
    let hostmask: u128 = if plen >= 128 {
        0
    } else {
        0xffff_ffff_ffff_ffff_ffff_ffff_ffff_ffffu128 >> (plen as u128)
    };
    let network = ipv6_network(addr, plen);
    network <= x && x <= (addr | hostmask)
}

} // verus!
