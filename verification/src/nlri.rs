//! Network layer reachability information: prefixes on the wire, and the
//! multiprotocol reachable / unreachable attribute values.
use vstd::prelude::*;
use crate::error::{message_error, BgpError};
use crate::net::{
    ipv4_prefix_new, ipv6_prefix_new, v4_network, v6_network, IpAddress, IpPrefix, Ipv4Prefix,
    Ipv6Prefix,
};
use crate::types::{
    afi_code, afi_from_code, max_prefix_len, prefix_octets, safi_code, safi_from_code,
    AddressFamily, Afi, Safi,
};
use crate::wire::{
    be_bytes, be_value, copy_range, lemma_be_bytes_index, lemma_be_bytes_len, lemma_be_roundtrip_small,
    lemma_be_value_bound, lemma_pow256_pos, lemma_pow256_pow2, pow256, push_all,
    push_be, push_u16, read_be, read_u16,
};

verus! {

/// One announced or withdrawn prefix.
#[derive(Debug, Clone, Copy, PartialEq, Eq, Hash, Structural)]
pub struct Nlri {
    pub net: IpPrefix,
}

/// The wire form of an IPv4 prefix: the length octet and the prefix octets.
pub struct Ipv4Octets {
    pub octets: Vec<u8>,
}

/// The wire form of an IPv6 prefix: the length octet and the prefix octets.
pub struct Ipv6Octets {
    pub octets: Vec<u8>,
}

/// Builds an [`Nlri`] field by field.
pub struct NlriBuilder {
    pub net: Option<IpPrefix>,
}

impl Default for NlriBuilder {
    fn default() -> (r: Self)
        ensures
            r.net is None,
    {
        NlriBuilder { net: None }
    }
}

impl NlriBuilder {
    /// Sets the prefix.
    pub fn net(self, net: IpPrefix) -> (r: Self)
        ensures
            r.net == Some(net),
    {
        NlriBuilder { net: Some(net) }
    }

    /// The NLRI, once the prefix has been set.
    pub fn build(&self) -> (r: Result<Nlri, String>)
        ensures
            r is Ok <==> self.net is Some,
            r matches Ok(n) ==> Some(n.net) == self.net,
    {
        match self.net {
            Some(net) => Ok(Nlri { net }),
            None => Err("`net` must be initialized".to_owned()),
        }
    }
}

impl Nlri {
    pub open spec fn valid(self) -> bool {
        self.net.valid()
    }

    /// Whether the prefix length fits the address family.
    pub fn is_valid(&self) -> (r: bool)
        ensures
            r == self.valid(),
    {
        match self.net {
            IpPrefix::V4(p) => p.prefix_len <= 32,
            IpPrefix::V6(p) => p.prefix_len <= 128,
        }
    }

    /// The prefix.
    pub fn to_prefix(&self) -> (r: IpPrefix)
        ensures
            r == self.net,
    {
        self.net
    }
}

impl From<Nlri> for IpPrefix {
    fn from(n: Nlri) -> (r: IpPrefix) {
        n.net
    }
}

impl vstd::std_specs::convert::FromSpecImpl<Nlri> for IpPrefix {
    open spec fn obeys_from_spec() -> bool {
        true
    }

    open spec fn from_spec(n: Nlri) -> IpPrefix {
        n.net
    }
}

/// The number of octets of a prefix of `plen` bits, rounded up.
pub fn prefix_bytes(plen: u8) -> (r: usize)
    ensures
        r == prefix_octets(plen),
{
    (plen as usize + 7) / 8
}

/// `s` cut or padded with zeros to `n` octets.
pub open spec fn pad(s: Seq<u8>, n: nat) -> Seq<u8> {
    Seq::new(n, |i: int| if i < s.len() { s[i] } else { 0u8 })
}

/// The prefix of family `afi` with length `plen` whose significant octets
/// are `bytes`.
pub open spec fn prefix_from_octets(afi: Afi, plen: u8, bytes: Seq<u8>) -> Nlri {
    match afi {
        Afi::Ipv4 => Nlri {
            net: IpPrefix::V4(Ipv4Prefix { addr: be_value(pad(bytes, 4)) as u32, prefix_len: plen }),
        },
        Afi::Ipv6 => Nlri {
            net: IpPrefix::V6(
                Ipv6Prefix { addr: be_value(pad(bytes, 16)) as u128, prefix_len: plen },
            ),
        },
    }
}

/// Decodes `octets` (length octet, then address octets) as a prefix of
/// family `afi`.
pub open spec fn spec_nlri_from_octets(afi: Afi, octets: Seq<u8>) -> Option<Nlri> {
    if octets.len() == 0 {
        None
    } else {
        let plen = octets[0];
        let rest = octets.drop_first();
        if rest.len() < prefix_octets(plen) || plen > max_prefix_len(afi) {
            None
        } else {
            Some(prefix_from_octets(afi, plen, rest))
        }
    }
}

/// The wire form of a prefix: its length, then the significant octets of
/// its network address.
pub open spec fn nlri_wire(n: Nlri) -> Seq<u8> {
    match n.net {
        IpPrefix::V4(p) => seq![p.prefix_len] + be_bytes(
            v4_network(p.addr, p.prefix_len) as nat,
            4,
        ).take(prefix_octets(p.prefix_len) as int),
        IpPrefix::V6(p) => seq![p.prefix_len] + be_bytes(
            v6_network(p.addr, p.prefix_len) as nat,
            16,
        ).take(prefix_octets(p.prefix_len) as int),
    }
}

/// The wire forms of `ns`, one after the other.
pub open spec fn nlris_wire(ns: Seq<Nlri>) -> Seq<u8>
    decreases ns.len(),
{
    if ns.len() == 0 {
        Seq::empty()
    } else {
        nlris_wire(ns.drop_last()) + nlri_wire(ns.last())
    }
}

/// Decodes the prefixes of family `afi` found in `s` from position `i` up
/// to position `end`.
pub open spec fn parse_prefixes(s: Seq<u8>, i: int, end: int, afi: Afi) -> Option<Seq<Nlri>>
    decreases s.len() - i,
{
    if i >= end || i < 0 {
        Some(Seq::empty())
    } else if i >= s.len() {
        None
    } else {
        let plen = s[i];
        if plen > max_prefix_len(afi) {
            None
        } else {
            let e = i + 1 + prefix_octets(plen);
            if e > s.len() {
                None
            } else {
                match parse_prefixes(s, e, end, afi) {
                    Some(rest) => Some(
                        seq![prefix_from_octets(afi, plen, s.subrange(i + 1, e))] + rest,
                    ),
                    None => None,
                }
            }
        }
    }
}

/// The position where decoding the prefixes between `i` and `end` stops.
pub open spec fn prefixes_end(s: Seq<u8>, i: int, end: int, afi: Afi) -> int
    decreases s.len() - i,
{
    if i >= end || i < 0 || i >= s.len() {
        i
    } else {
        let plen = s[i];
        let e = i + 1 + prefix_octets(plen);
        if plen > max_prefix_len(afi) || e > s.len() {
            i
        } else {
            prefixes_end(s, e, end, afi)
        }
    }
}

/// Whether decoding the prefixes of `s` between `i` and `end` never reads
/// past the end of `s` (a prefix length that is too long stops the decoding
/// before it reads further).
pub open spec fn prefixes_in_bounds(s: Seq<u8>, i: int, end: int, afi: Afi) -> bool
    decreases s.len() - i,
{
    if i >= end || i < 0 {
        true
    } else if i >= s.len() {
        false
    } else {
        let plen = s[i];
        if plen > max_prefix_len(afi) {
            true
        } else {
            let e = i + 1 + prefix_octets(plen);
            if e > s.len() {
                false
            } else {
                prefixes_in_bounds(s, e, end, afi)
            }
        }
    }
}

/// Copies `n` octets of `src` from `start`, padding with zeros past its end.
fn pad_copy(src: &[u8], start: usize, n: usize) -> (r: Vec<u8>)
    requires
        start <= src.len(),
    ensures
        r@ == pad(src@.subrange(start as int, src.len() as int), n as nat),
{
    let mut r: Vec<u8> = Vec::new();
    let mut i: usize = 0;
    let ghost s = src@.subrange(start as int, src.len() as int);
    while i < n
        invariant
            i <= n,
            start <= src.len(),
            s == src@.subrange(start as int, src.len() as int),
            r@ == pad(s, n as nat).take(i as int),
        decreases n - i,
    {
        let b: u8 = if i < src.len() - start {
            src[start + i]
        } else {
            0
        };
        r.push(b);
        i = i + 1;
        assert(r@ =~= pad(s, n as nat).take(i as int));
    }
    assert(r@ =~= pad(s, n as nat));
    r
}

proof fn lemma_pad_value_bound(s: Seq<u8>, n: nat)
    ensures
        be_value(pad(s, n)) < pow256(n),
{
    lemma_be_value_bound(pad(s, n));
}

/// The prefix of family `afi` and length `plen` whose octets are
/// `src[start..end]`.
fn prefix_from_slice(afi: Afi, plen: u8, src: &[u8], start: usize, end: usize) -> (r: Nlri)
    requires
        start <= end <= src.len(),
    ensures
        r == prefix_from_octets(afi, plen, src@.subrange(start as int, end as int)),
{
    let bytes = copy_range(src, start, end);
    match afi {
        Afi::Ipv4 => {
            let p = pad_copy(bytes.as_slice(), 0, 4);
            proof {
                assert(bytes@.subrange(0, bytes@.len() as int) =~= bytes@);
                assert(p@.subrange(0, 4) =~= p@);
                lemma_pad_value_bound(bytes@, 4);
                assert(pow256(4) == 0x1_0000_0000) by {
                    reveal_with_fuel(pow256, 5);
                }
            }
            let v = read_be(p.as_slice(), 0, 4);
            Nlri { net: IpPrefix::V4(Ipv4Prefix { addr: v as u32, prefix_len: plen }) }
        },
        Afi::Ipv6 => {
            let p = pad_copy(bytes.as_slice(), 0, 16);
            proof {
                assert(bytes@.subrange(0, bytes@.len() as int) =~= bytes@);
                assert(p@.subrange(0, 16) =~= p@);
            }
            let v = read_be(p.as_slice(), 0, 16);
            Nlri { net: IpPrefix::V6(Ipv6Prefix { addr: v, prefix_len: plen }) }
        },
    }
}

/// Decodes a prefix of family `afi` from its wire form.
fn nlri_from_octets(afi: Afi, octets: &[u8]) -> (r: Result<Nlri, BgpError>)
    ensures
        r is Ok <==> spec_nlri_from_octets(afi, octets@) is Some,
        r matches Ok(n) ==> spec_nlri_from_octets(afi, octets@) == Some(n),
        r matches Err(e) ==> e is Message,
{
    if octets.len() == 0 {
        return Err(message_error("Empty octets data"));
    }
    let plen = octets[0];
    let expected_bytes = prefix_bytes(plen);
    if octets.len() - 1 < expected_bytes {
        return Err(message_error("Insufficient octets for prefix length"));
    }
    let n = prefix_from_slice(afi, plen, octets, 1, octets.len());
    proof {
        assert(octets@.drop_first() =~= octets@.subrange(1, octets@.len() as int));
    }
    match afi {
        Afi::Ipv4 => {
            match ipv4_prefix_new(
                match n.net {
                    IpPrefix::V4(p) => p.addr,
                    IpPrefix::V6(_) => 0,
                },
                plen,
            ) {
                Some(_) => Ok(n),
                None => Err(message_error("Invalid IPv4 network")),
            }
        },
        Afi::Ipv6 => {
            match ipv6_prefix_new(
                match n.net {
                    IpPrefix::V6(p) => p.addr,
                    IpPrefix::V4(_) => 0,
                },
                plen,
            ) {
                Some(_) => Ok(n),
                None => Err(message_error("Invalid IPv6 network")),
            }
        },
    }
}

impl Nlri {
    /// Decodes an IPv4 prefix from its wire form: a length octet, then at
    /// least as many octets as the length needs; further octets past the
    /// fourth are ignored.
    pub fn try_from_ipv4_octets(src: Ipv4Octets) -> (r: Result<Nlri, BgpError>)
        ensures
            r is Ok <==> spec_nlri_from_octets(Afi::Ipv4, src.octets@) is Some,
            r matches Ok(n) ==> spec_nlri_from_octets(Afi::Ipv4, src.octets@) == Some(n),
            r matches Err(e) ==> e is Message,
    {
        nlri_from_octets(Afi::Ipv4, src.octets.as_slice())
    }

    /// Decodes an IPv6 prefix from its wire form.
    pub fn try_from_ipv6_octets(src: Ipv6Octets) -> (r: Result<Nlri, BgpError>)
        ensures
            r is Ok <==> spec_nlri_from_octets(Afi::Ipv6, src.octets@) is Some,
            r matches Ok(n) ==> spec_nlri_from_octets(Afi::Ipv6, src.octets@) == Some(n),
            r matches Err(e) ==> e is Message,
    {
        nlri_from_octets(Afi::Ipv6, src.octets.as_slice())
    }

    /// Appends the wire form of the prefix to `buf`.
    pub fn write_to(&self, buf: &mut Vec<u8>)
        requires
            self.valid(),
        ensures
            final(buf)@ == old(buf)@ + nlri_wire(*self),
    {
        let plen = self.net.prefix_len();
        buf.push(plen);
        let blen = prefix_bytes(plen);
        let mut tmp: Vec<u8> = Vec::new();
        match self.net.network() {
            IpAddress::V4(a) => {
                push_be(&mut tmp, a as u128, 4);
                proof {
                    lemma_be_bytes_len(a as nat, 4);
                }
            },
            IpAddress::V6(a) => {
                push_be(&mut tmp, a, 16);
                proof {
                    lemma_be_bytes_len(a as nat, 16);
                }
            },
        }
        let head = copy_range(tmp.as_slice(), 0, blen);
        push_all(buf, head.as_slice());
        proof {
            assert(head@ =~= tmp@.take(blen as int));
            assert(buf@ =~= old(buf)@ + nlri_wire(*self));
        }
    }

    /// The wire form of the prefix.
    pub fn to_bytes(&self) -> (r: Vec<u8>)
        requires
            self.valid(),
        ensures
            r@ == nlri_wire(*self),
    {
        let mut buf: Vec<u8> = Vec::new();
        self.write_to(&mut buf);
        assert(buf@ =~= nlri_wire(*self));
        buf
    }
}

/// Appends the wire forms of all `ns` to `buf`.
pub fn write_nlris(ns: &Vec<Nlri>, buf: &mut Vec<u8>)
    requires
        forall|i: int| 0 <= i < ns@.len() ==> (#[trigger] ns@[i]).valid(),
    ensures
        final(buf)@ == old(buf)@ + nlris_wire(ns@),
{
    let mut i: usize = 0;
    while i < ns.len()
        invariant
            i <= ns.len(),
            forall|j: int| 0 <= j < ns@.len() ==> (#[trigger] ns@[j]).valid(),
            buf@ == old(buf)@ + nlris_wire(ns@.take(i as int)),
        decreases ns.len() - i,
    {
        ns[i].write_to(buf);
        proof {
            assert(ns@.take(i + 1).drop_last() =~= ns@.take(i as int));
            assert(buf@ =~= old(buf)@ + nlris_wire(ns@.take(i + 1)));
        }
        i = i + 1;
    }
    assert(ns@.take(ns@.len() as int) =~= ns@);
}

/// Decodes the prefixes of family `afi` in `s` from `start` up to `end`;
/// a prefix that runs past the end of `s` is refused.
pub fn decode_prefixes(s: &[u8], start: usize, end: usize, afi: Afi) -> (r: Result<
    (Vec<Nlri>, usize),
    BgpError,
>)
    ensures
        r is Ok <==> parse_prefixes(s@, start as int, end as int, afi) is Some,
        r matches Ok((v, p)) ==> parse_prefixes(s@, start as int, end as int, afi) == Some(v@)
            && p == prefixes_end(s@, start as int, end as int, afi),
{
    let mut out: Vec<Nlri> = Vec::new();
    if start > s.len() {
        if start < end {
            return Err(message_error("Insufficient data for NLRI prefix length"));
        }
        proof {
            assert(out@ + Seq::<Nlri>::empty() =~= out@);
        }
        return Ok((out, start));
    }
    let mut i: usize = start;
    while i < end
        invariant
            start <= i || i >= end,
            parse_prefixes(s@, start as int, end as int, afi) is Some <==> parse_prefixes(
                s@,
                i as int,
                end as int,
                afi,
            ) is Some,
            parse_prefixes(s@, start as int, end as int, afi) is Some ==> parse_prefixes(
                s@,
                start as int,
                end as int,
                afi,
            ) == Some(out@ + parse_prefixes(s@, i as int, end as int, afi).unwrap()),
            parse_prefixes(s@, start as int, end as int, afi) is Some ==> prefixes_end(
                s@,
                start as int,
                end as int,
                afi,
            ) == prefixes_end(s@, i as int, end as int, afi),
            i <= s@.len(),
        decreases s@.len() - i,
    {
        if i >= s.len() {
            return Err(message_error("Insufficient data for NLRI prefix length"));
        }
        let plen = s[i];
        let max: u8 = match afi {
            Afi::Ipv4 => 32,
            Afi::Ipv6 => 128,
        };
        if plen > max {
            return Err(message_error("Invalid NLRI prefix length"));
        }
        let blen = prefix_bytes(plen);
        if blen + 1 > s.len() - i {
            return Err(message_error("Insufficient data for NLRI prefix"));
        }
        let e = i + 1 + blen;
        let n = prefix_from_slice(afi, plen, s, i + 1, e);
        proof {
            let rest = parse_prefixes(s@, e as int, end as int, afi);
            if rest is Some {
                assert(out@.push(n) + rest.unwrap() =~= out@ + (seq![n] + rest.unwrap()));
            }
        }
        out.push(n);
        assert(e <= s.len() && e > i);
        i = e;
    }
    proof {
        assert(out@ + Seq::<Nlri>::empty() =~= out@);
    }
    Ok((out, i))
}

/// The multiprotocol reachable NLRI attribute value, as a model.
pub struct MpnlriModel {
    pub af: AddressFamily,
    pub nh: IpAddress,
    pub nlris: Seq<Nlri>,
}

/// The multiprotocol unreachable NLRI attribute value, as a model.
pub struct MpunlriModel {
    pub af: AddressFamily,
    pub nlris: Seq<Nlri>,
}

/// The multiprotocol reachable NLRI attribute value: an address family,
/// a next hop and the reachable prefixes.
#[derive(Debug, Clone, PartialEq)]
pub struct Mpnlri {
    pub af: AddressFamily,
    pub nh: IpAddress,
    pub nlris: Vec<Nlri>,
}

/// The multiprotocol unreachable NLRI attribute value: an address family
/// and the withdrawn prefixes.
#[derive(Debug, Clone, PartialEq)]
pub struct Mpunlri {
    pub af: AddressFamily,
    pub nlris: Vec<Nlri>,
}

impl View for Mpnlri {
    type V = MpnlriModel;

    open spec fn view(&self) -> MpnlriModel {
        MpnlriModel { af: self.af, nh: self.nh, nlris: self.nlris@ }
    }
}

impl View for Mpunlri {
    type V = MpunlriModel;

    open spec fn view(&self) -> MpunlriModel {
        MpunlriModel { af: self.af, nlris: self.nlris@ }
    }
}

impl Default for Mpnlri {
    fn default() -> (r: Self)
        ensures
            r@.af == (AddressFamily { afi: Afi::Ipv6, safi: Safi::NLRIUnicast }),
            r@.nh == IpAddress::V6(0),
            r@.nlris.len() == 0,
    {
        Mpnlri {
            af: AddressFamily { afi: Afi::Ipv6, safi: Safi::NLRIUnicast },
            nh: IpAddress::V6(0),
            nlris: Vec::new(),
        }
    }
}

impl Default for Mpunlri {
    fn default() -> (r: Self)
        ensures
            r@.af == (AddressFamily { afi: Afi::Ipv6, safi: Safi::NLRIUnicast }),
            r@.nlris.len() == 0,
    {
        Mpunlri { af: AddressFamily { afi: Afi::Ipv6, safi: Safi::NLRIUnicast }, nlris: Vec::new() }
    }
}

/// The next hop of family `afi` whose octets are `addr`.
pub open spec fn next_hop_from_octets(afi: Afi, addr: Seq<u8>) -> IpAddress {
    match afi {
        Afi::Ipv4 => IpAddress::V4(be_value(pad(addr, 4)) as u32),
        Afi::Ipv6 => IpAddress::V6(be_value(pad(addr, 16)) as u128),
    }
}

/// Decodes the MP_REACH_NLRI value `src`: a total length octet, the AFI
/// (two octets), the SAFI, the next hop length and next hop, then the
/// prefixes up to the total length.
pub open spec fn spec_mp_reach(src: Seq<u8>) -> Option<MpnlriModel> {
    if src.len() == 0 {
        None
    } else {
        let total = src[0] as int;
        let s = src.drop_first();
        if s.len() < 4 {
            None
        } else {
            match (afi_from_code(be_value(s.subrange(0, 2)) as u16), safi_from_code(s[2])) {
                (Some(afi), Some(safi)) => {
                    let nhl = s[3] as int;
                    if s.len() < 4 + nhl {
                        None
                    } else {
                        match parse_prefixes(s, 4 + nhl, total, afi) {
                            Some(ns) => Some(
                                MpnlriModel {
                                    af: AddressFamily { afi, safi },
                                    nh: next_hop_from_octets(afi, s.subrange(4, 4 + nhl)),
                                    nlris: ns,
                                },
                            ),
                            None => None,
                        }
                    }
                },
                _ => None,
            }
        }
    }
}

/// Decoding `src` as MP_REACH_NLRI never reads past its end.
pub open spec fn mp_reach_in_bounds(src: Seq<u8>) -> bool {
    src.len() > 0 && src.len() - 1 >= 4 && afi_from_code(
        be_value(src.drop_first().subrange(0, 2)) as u16,
    ) is Some && safi_from_code(src.drop_first()[2]) is Some && src.len() - 1 >= 4
        + src.drop_first()[3] ==> prefixes_in_bounds(
        src.drop_first(),
        4 + src.drop_first()[3],
        src[0] as int,
        afi_from_code(be_value(src.drop_first().subrange(0, 2)) as u16).unwrap(),
    )
}

/// Decodes the MP_UNREACH_NLRI value `src`: a total length octet, the AFI,
/// the SAFI, then the withdrawn prefixes up to the total length.
pub open spec fn spec_mp_unreach(src: Seq<u8>) -> Option<MpunlriModel> {
    if src.len() == 0 {
        None
    } else {
        let total = src[0] as int;
        let s = src.drop_first();
        if s.len() < 3 {
            None
        } else {
            match (afi_from_code(be_value(s.subrange(0, 2)) as u16), safi_from_code(s[2])) {
                (Some(afi), Some(safi)) => match parse_prefixes(s, 3, total, afi) {
                    Some(ns) => Some(MpunlriModel { af: AddressFamily { afi, safi }, nlris: ns }),
                    None => None,
                },
                _ => None,
            }
        }
    }
}

/// The wire form of a next hop: its length octet, then its octets.
pub open spec fn next_hop_wire(nh: IpAddress) -> Seq<u8> {
    match nh {
        IpAddress::V4(a) => seq![4u8] + be_bytes(a as nat, 4),
        IpAddress::V6(a) => seq![16u8] + be_bytes(a as nat, 16),
    }
}

/// The octets of an MP_REACH_NLRI value after its length octet.
pub open spec fn mp_reach_body(m: MpnlriModel) -> Seq<u8> {
    be_bytes(afi_code(m.af.afi) as nat, 2) + seq![safi_code(m.af.safi)] + next_hop_wire(m.nh)
        + nlris_wire(m.nlris)
}

/// The wire form of an MP_REACH_NLRI value: its length (modulo 256), then
/// its body.
pub open spec fn mp_reach_wire(m: MpnlriModel) -> Seq<u8> {
    seq![(mp_reach_body(m).len() % 256) as u8] + mp_reach_body(m)
}

/// The octets of an MP_UNREACH_NLRI value after its length octet.
pub open spec fn mp_unreach_body(m: MpunlriModel) -> Seq<u8> {
    be_bytes(afi_code(m.af.afi) as nat, 2) + seq![safi_code(m.af.safi)] + nlris_wire(m.nlris)
}

/// The wire form of an MP_UNREACH_NLRI value: its length (modulo 256), then
/// its body.
pub open spec fn mp_unreach_wire(m: MpunlriModel) -> Seq<u8> {
    seq![(mp_unreach_body(m).len() % 256) as u8] + mp_unreach_body(m)
}

/// The value of an MP_REACH_NLRI path attribute (RFC 4760): the AFI, the
/// SAFI, the next hop with its length octet, one reserved octet, then the
/// prefixes.
pub open spec fn mp_reach_value(m: MpnlriModel) -> Seq<u8> {
    be_bytes(afi_code(m.af.afi) as nat, 2) + seq![safi_code(m.af.safi)] + next_hop_wire(m.nh)
        + seq![0u8] + nlris_wire(m.nlris)
}

/// Decodes the value of an MP_REACH_NLRI path attribute: the AFI, the
/// SAFI, the next hop length and next hop, a reserved octet (whatever it
/// holds), then the prefixes up to the end of the value.
pub open spec fn spec_mp_reach_value(v: Seq<u8>) -> Option<MpnlriModel> {
    if v.len() < 4 {
        None
    } else {
        match (afi_from_code(be_value(v.subrange(0, 2)) as u16), safi_from_code(v[2])) {
            (Some(afi), Some(safi)) => {
                let nhl = v[3] as int;
                if v.len() < 5 + nhl {
                    None
                } else {
                    match parse_prefixes(v, 5 + nhl, v.len() as int, afi) {
                        Some(ns) => Some(
                            MpnlriModel {
                                af: AddressFamily { afi, safi },
                                nh: next_hop_from_octets(afi, v.subrange(4, 4 + nhl)),
                                nlris: ns,
                            },
                        ),
                        None => None,
                    }
                }
            },
            _ => None,
        }
    }
}

/// Decodes the value of an MP_UNREACH_NLRI path attribute: the AFI, the
/// SAFI, then the withdrawn prefixes up to the end of the value.
pub open spec fn spec_mp_unreach_value(v: Seq<u8>) -> Option<MpunlriModel> {
    if v.len() < 3 {
        None
    } else {
        match (afi_from_code(be_value(v.subrange(0, 2)) as u16), safi_from_code(v[2])) {
            (Some(afi), Some(safi)) => match parse_prefixes(v, 3, v.len() as int, afi) {
                Some(ns) => Some(MpunlriModel { af: AddressFamily { afi, safi }, nlris: ns }),
                None => None,
            },
            _ => None,
        }
    }
}

/// Reads the AFI and SAFI at `s[0..3]`.
fn read_value_af(s: &[u8]) -> (r: Result<AddressFamily, BgpError>)
    requires
        s.len() >= 3,
    ensures
        r is Ok <==> (afi_from_code(be_value(s@.subrange(0, 2)) as u16) is Some && safi_from_code(
            s@[2],
        ) is Some),
        r matches Ok(af) ==> Some(af.afi) == afi_from_code(be_value(s@.subrange(0, 2)) as u16)
            && Some(af.safi) == safi_from_code(s@[2]),
{
    let afi = read_u16(s, 0);
    let afi = match Afi::from_u16(afi) {
        Some(a) => a,
        None => return Err(message_error("Invalid AFI")),
    };
    let safi = match Safi::from_u8(s[2]) {
        Some(x) => x,
        None => return Err(message_error("Invalid SAFI")),
    };
    Ok(AddressFamily { afi, safi })
}

/// Decodes the value of an MP_REACH_NLRI path attribute.
pub fn decode_mp_reach_value(s: &[u8]) -> (r: Result<Mpnlri, BgpError>)
    ensures
        r is Ok <==> spec_mp_reach_value(s@) is Some,
        r matches Ok(m) ==> spec_mp_reach_value(s@) == Some(m@),
{
    if s.len() < 4 {
        return Err(message_error("Insufficient data for MP_REACH_NLRI header"));
    }
    let af = read_value_af(s)?;
    let nhl = s[3] as usize;
    if s.len() < 5 + nhl {
        return Err(message_error("Insufficient data for next hop address"));
    }
    let nh = match af.afi {
        Afi::Ipv4 => {
            let n = prefix_from_slice(Afi::Ipv4, 0, s, 4, 4 + nhl);
            match n.net {
                IpPrefix::V4(p) => IpAddress::V4(p.addr),
                IpPrefix::V6(p) => IpAddress::V6(p.addr),
            }
        },
        Afi::Ipv6 => {
            let n = prefix_from_slice(Afi::Ipv6, 0, s, 4, 4 + nhl);
            match n.net {
                IpPrefix::V4(p) => IpAddress::V4(p.addr),
                IpPrefix::V6(p) => IpAddress::V6(p.addr),
            }
        },
    };
    let (nlris, _) = decode_prefixes(s, 5 + nhl, s.len(), af.afi)?;
    Ok(Mpnlri { af, nh, nlris })
}

/// Decodes the value of an MP_UNREACH_NLRI path attribute.
pub fn decode_mp_unreach_value(s: &[u8]) -> (r: Result<Mpunlri, BgpError>)
    ensures
        r is Ok <==> spec_mp_unreach_value(s@) is Some,
        r matches Ok(m) ==> spec_mp_unreach_value(s@) == Some(m@),
{
    if s.len() < 3 {
        return Err(message_error("Insufficient data for MP_UNREACH_NLRI header"));
    }
    let af = read_value_af(s)?;
    let (nlris, _) = decode_prefixes(s, 3, s.len(), af.afi)?;
    Ok(Mpunlri { af, nlris })
}

/// Reads the AFI and SAFI at `s[1..4]`.
fn read_af(s: &[u8]) -> (r: Result<AddressFamily, BgpError>)
    requires
        s.len() >= 4,
    ensures
        r is Ok <==> (afi_from_code(be_value(s@.drop_first().subrange(0, 2)) as u16) is Some
            && safi_from_code(s@.drop_first()[2]) is Some),
        r matches Ok(af) ==> Some(af.afi) == afi_from_code(
            be_value(s@.drop_first().subrange(0, 2)) as u16,
        ) && Some(af.safi) == safi_from_code(s@.drop_first()[2]),
{
    let afi = read_u16(s, 1);
    proof {
        assert(s@.drop_first().subrange(0, 2) =~= s@.subrange(1, 3));
    }
    let afi = match Afi::from_u16(afi) {
        Some(a) => a,
        None => return Err(message_error("Invalid AFI")),
    };
    let safi = match Safi::from_u8(s[3]) {
        Some(x) => x,
        None => return Err(message_error("Invalid SAFI")),
    };
    Ok(AddressFamily { afi, safi })
}

/// Whether all prefixes in `ns` have a length that fits their family.
pub open spec fn all_valid(ns: Seq<Nlri>) -> bool {
    forall|i: int| 0 <= i < ns.len() ==> (#[trigger] ns[i]).valid()
}

/// Decodes an MP_REACH_NLRI value; prefixes that run past the end of the
/// data are refused.
pub(crate) fn decode_mp_reach(s: &[u8]) -> (r: Result<Mpnlri, BgpError>)
    ensures
        r is Ok <==> spec_mp_reach(s@) is Some,
        r matches Ok(m) ==> spec_mp_reach(s@) == Some(m@),
{
    if s.len() == 0 {
        return Err(message_error("Empty MP_REACH_NLRI data"));
    }
    let total_len = s[0] as usize;
    if s.len() - 1 < 4 {
        return Err(message_error("Insufficient data for MP_REACH_NLRI header"));
    }
    let af = read_af(s)?;
    let nhl = s[4] as usize;
    if s.len() - 1 < 4 + nhl {
        return Err(message_error("Insufficient data for next hop address"));
    }
    let ghost t = s@.drop_first();
    proof {
        assert(t.subrange(4, 4 + nhl) =~= s@.subrange(5, 5 + nhl));
    }
    let nh = match af.afi {
        Afi::Ipv4 => {
            let n = prefix_from_slice(Afi::Ipv4, 0, s, 5, 5 + nhl);
            match n.net {
                IpPrefix::V4(p) => IpAddress::V4(p.addr),
                IpPrefix::V6(p) => IpAddress::V6(p.addr),
            }
        },
        Afi::Ipv6 => {
            let n = prefix_from_slice(Afi::Ipv6, 0, s, 5, 5 + nhl);
            match n.net {
                IpPrefix::V4(p) => IpAddress::V4(p.addr),
                IpPrefix::V6(p) => IpAddress::V6(p.addr),
            }
        },
    };
    let rest = copy_range(s, 1, s.len());
    proof {
        assert(rest@ =~= t);
    }
    let (nlris, _) = decode_prefixes(rest.as_slice(), 4 + nhl, total_len, af.afi)?;
    Ok(Mpnlri { af, nh, nlris })
}

impl Mpnlri {
    /// Decodes an MP_REACH_NLRI value. Inputs whose prefixes run past the
    /// end of the data are left out.
    pub fn try_from_bytes(src: Vec<u8>) -> (r: Result<Mpnlri, BgpError>)
        requires
            mp_reach_in_bounds(src@),
        ensures
            r is Ok <==> spec_mp_reach(src@) is Some,
            r matches Ok(m) ==> spec_mp_reach(src@) == Some(m@),
    {
        decode_mp_reach(src.as_slice())
    }

    /// Appends the wire form to `buf`.
    pub fn write_to(&self, buf: &mut Vec<u8>)
        requires
            all_valid(self.nlris@),
        ensures
            final(buf)@ == old(buf)@ + mp_reach_wire(self@),
    {
        let mut body: Vec<u8> = Vec::new();
        push_u16(&mut body, self.af.afi.to_u16());
        body.push(self.af.safi.to_u8());
        match self.nh {
            IpAddress::V4(a) => {
                body.push(4);
                push_be(&mut body, a as u128, 4);
            },
            IpAddress::V6(a) => {
                body.push(16);
                push_be(&mut body, a, 16);
            },
        }
        write_nlris(&self.nlris, &mut body);
        proof {
            assert(body@ =~= mp_reach_body(self@));
        }
        let blen = body.len();
        buf.push((blen % 256) as u8);
        push_all(buf, body.as_slice());
        proof {
            assert(buf@ =~= old(buf)@ + mp_reach_wire(self@));
        }
    }
}

impl Mpnlri {
    /// Appends the value of the MP_REACH_NLRI path attribute that carries
    /// these prefixes to `buf`.
    pub fn write_value_to(&self, buf: &mut Vec<u8>)
        requires
            all_valid(self.nlris@),
        ensures
            final(buf)@ == old(buf)@ + mp_reach_value(self@),
    {
        push_u16(buf, self.af.afi.to_u16());
        buf.push(self.af.safi.to_u8());
        match self.nh {
            IpAddress::V4(a) => {
                buf.push(4);
                push_be(buf, a as u128, 4);
            },
            IpAddress::V6(a) => {
                buf.push(16);
                push_be(buf, a, 16);
            },
        }
        buf.push(0);
        write_nlris(&self.nlris, buf);
        proof {
            assert(buf@ =~= old(buf)@ + mp_reach_value(self@));
        }
    }
}

impl Mpunlri {
    /// Decodes an MP_UNREACH_NLRI value.
    pub fn try_from_bytes(src: Vec<u8>) -> (r: Result<Mpunlri, BgpError>)
        ensures
            r is Ok <==> spec_mp_unreach(src@) is Some,
            r matches Ok(m) ==> spec_mp_unreach(src@) == Some(m@),
    {
        let s = src.as_slice();
        if s.len() == 0 {
            return Err(message_error("Empty MP_UNREACH_NLRI data"));
        }
        let total_len = s[0] as usize;
        if s.len() - 1 < 3 {
            return Err(message_error("Insufficient data for MP_UNREACH_NLRI header"));
        }
        let afi = read_u16(s, 1);
        proof {
            assert(s@.drop_first().subrange(0, 2) =~= s@.subrange(1, 3));
        }
        let afi = match Afi::from_u16(afi) {
            Some(a) => a,
            None => return Err(message_error("Invalid AFI")),
        };
        let safi = match Safi::from_u8(s[3]) {
            Some(x) => x,
            None => return Err(message_error("Invalid SAFI")),
        };
        let rest = copy_range(s, 1, s.len());
        proof {
            assert(rest@ =~= s@.drop_first());
        }
        let (nlris, _) = decode_prefixes(rest.as_slice(), 3, total_len, afi)?;
        Ok(Mpunlri { af: AddressFamily { afi, safi }, nlris })
    }

    /// Appends the wire form to `buf`.
    pub fn write_to(&self, buf: &mut Vec<u8>)
        requires
            all_valid(self.nlris@),
        ensures
            final(buf)@ == old(buf)@ + mp_unreach_wire(self@),
    {
        let mut body: Vec<u8> = Vec::new();
        push_u16(&mut body, self.af.afi.to_u16());
        body.push(self.af.safi.to_u8());
        write_nlris(&self.nlris, &mut body);
        proof {
            assert(body@ =~= mp_unreach_body(self@));
        }
        let blen = body.len();
        buf.push((blen % 256) as u8);
        push_all(buf, body.as_slice());
        proof {
            assert(buf@ =~= old(buf)@ + mp_unreach_wire(self@));
        }
    }

    /// Appends the value of the MP_UNREACH_NLRI path attribute that
    /// withdraws these prefixes to `buf`.
    pub fn write_value_to(&self, buf: &mut Vec<u8>)
        requires
            all_valid(self.nlris@),
        ensures
            final(buf)@ == old(buf)@ + mp_unreach_body(self@),
    {
        push_u16(buf, self.af.afi.to_u16());
        buf.push(self.af.safi.to_u8());
        write_nlris(&self.nlris, buf);
        proof {
            assert(buf@ =~= old(buf)@ + mp_unreach_body(self@));
        }
    }
}

/// Whether every prefix of `ns` fits its family.
pub fn all_valid_nlris(ns: &Vec<Nlri>) -> (r: bool)
    ensures
        r == all_valid(ns@),
{
    let mut i: usize = 0;
    while i < ns.len()
        invariant
            i <= ns.len(),
            forall|k: int| 0 <= k < i ==> (#[trigger] ns@[k]).valid(),
        decreases ns.len() - i,
    {
        if !ns[i].is_valid() {
            return false;
        }
        i = i + 1;
    }
    true
}

/// The bytes of the network address of an IPv4 prefix past its prefix
/// octets are zero: byte `j` from the right is zero for `j` below the
/// number of trailing octets.
proof fn lemma_v4_network_low_bytes(addr: u32, plen: u8, j: nat)
    requires
        plen <= 32,
        j < 4 - prefix_octets(plen),
    ensures
        ((v4_network(addr, plen) as nat) / pow256(j)) % 256 == 0,
{
    let net = v4_network(addr, plen);
    lemma_pow256_pos(j);
    if plen == 0 {
        assert(addr & 0u32 == 0) by (bit_vector);
    } else {
        let s = (32 - plen) as u32;
        let sh = (8 * j) as u32;
        assert(8 * j + 8 <= 32 - plen);
        assert(((addr & (0xffff_ffffu32 << s)) >> sh) & 0xff == 0) by (bit_vector)
            requires
                s < 32,
                sh + 8 <= s,
        ;
        vstd::bits::lemma_u32_shr_is_div(net, sh);
        lemma_pow256_pow2(j);
        let y = net >> sh;
        assert(y & 0xff == y % 256) by (bit_vector);
    }
}

/// The same for the network address of an IPv6 prefix.
proof fn lemma_v6_network_low_bytes(addr: u128, plen: u8, j: nat)
    requires
        plen <= 128,
        j < 16 - prefix_octets(plen),
    ensures
        ((v6_network(addr, plen) as nat) / pow256(j)) % 256 == 0,
{
    let net = v6_network(addr, plen);
    lemma_pow256_pos(j);
    if plen == 0 {
        assert(addr & 0u128 == 0) by (bit_vector);
    } else {
        let s = (128 - plen) as u128;
        let sh = (8 * j) as u128;
        assert(8 * j + 8 <= 128 - plen);
        assert(((addr & (0xffff_ffff_ffff_ffff_ffff_ffff_ffff_ffffu128 << s)) >> sh) & 0xff == 0)
            by (bit_vector)
            requires
                s < 128,
                sh + 8 <= s,
        ;
        vstd::bits::lemma_u128_shr_is_div(net, sh);
        lemma_pow256_pow2(j);
        let y = net >> sh;
        assert(y & 0xff == y % 256) by (bit_vector);
    }
}

/// Cutting `s` to its first `k` bytes and padding it back to its length
/// gives `s` when the bytes from `k` on are zero.
proof fn lemma_pad_take(s: Seq<u8>, k: int)
    requires
        0 <= k <= s.len(),
        forall|i: int| k <= i < s.len() ==> s[i] == 0,
    ensures
        pad(s.take(k), s.len()) == s,
{
    assert(pad(s.take(k), s.len()) =~= s);
}

/// The prefix with its host bits cleared.
pub open spec fn normalized(n: Nlri) -> Nlri {
    match n.net {
        IpPrefix::V4(p) => Nlri {
            net: IpPrefix::V4(
                Ipv4Prefix { addr: v4_network(p.addr, p.prefix_len), prefix_len: p.prefix_len },
            ),
        },
        IpPrefix::V6(p) => Nlri {
            net: IpPrefix::V6(
                Ipv6Prefix { addr: v6_network(p.addr, p.prefix_len), prefix_len: p.prefix_len },
            ),
        },
    }
}

/// The address family of a prefix.
pub open spec fn nlri_afi(n: Nlri) -> Afi {
    match n.net {
        IpPrefix::V4(_) => Afi::Ipv4,
        IpPrefix::V6(_) => Afi::Ipv6,
    }
}

/// A prefix written on the wire is read back as its network: the same
/// length, the host bits cleared.
#[verifier::spinoff_prover]
pub proof fn lemma_nlri_roundtrip(n: Nlri)
    requires
        n.valid(),
    ensures
        spec_nlri_from_octets(nlri_afi(n), nlri_wire(n)) == Some(normalized(n)),
{
    let w = nlri_wire(n);
    match n.net {
        IpPrefix::V4(p) => {
            let net = v4_network(p.addr, p.prefix_len);
            let k = prefix_octets(p.prefix_len) as int;
            let b = be_bytes(net as nat, 4);
            lemma_be_bytes_len(net as nat, 4);
            assert(w.drop_first() =~= b.take(k));
            assert forall|i: int| k <= i < 4 implies b[i] == 0 by {
                lemma_be_bytes_index(net as nat, 4, i);
                lemma_v4_network_low_bytes(p.addr, p.prefix_len, (3 - i) as nat);
            }
            lemma_pad_take(b, k);
            assert(pow256(4) == 0x1_0000_0000) by {
                reveal_with_fuel(pow256, 5);
            }
            lemma_be_roundtrip_small(net as nat, 4);
        },
        IpPrefix::V6(p) => {
            let net = v6_network(p.addr, p.prefix_len);
            let k = prefix_octets(p.prefix_len) as int;
            let b = be_bytes(net as nat, 16);
            lemma_be_bytes_len(net as nat, 16);
            assert(w.drop_first() =~= b.take(k));
            assert forall|i: int| k <= i < 16 implies b[i] == 0 by {
                lemma_be_bytes_index(net as nat, 16, i);
                lemma_v6_network_low_bytes(p.addr, p.prefix_len, (15 - i) as nat);
            }
            lemma_pad_take(b, k);
            assert(pow256(16) == 0x1_0000_0000_0000_0000_0000_0000_0000_0000) by {
                reveal_with_fuel(pow256, 17);
            }
            lemma_be_roundtrip_small(net as nat, 16);
        },
    }
}

proof fn lemma_nlri_wire_len(n: Nlri)
    requires
        n.valid(),
    ensures
        nlri_wire(n).len() == 1 + prefix_octets(n.net.spec_prefix_len()),
{
    match n.net {
        IpPrefix::V4(p) => lemma_be_bytes_len(v4_network(p.addr, p.prefix_len) as nat, 4),
        IpPrefix::V6(p) => lemma_be_bytes_len(v6_network(p.addr, p.prefix_len) as nat, 16),
    }
}

proof fn lemma_nlris_wire_front(ns: Seq<Nlri>)
    requires
        ns.len() > 0,
    ensures
        nlris_wire(ns) == nlri_wire(ns[0]) + nlris_wire(ns.drop_first()),
    decreases ns.len(),
{
    if ns.len() == 1 {
        assert(ns.drop_first() =~= Seq::<Nlri>::empty());
        assert(ns.drop_last() =~= Seq::<Nlri>::empty());
        assert(nlris_wire(ns) =~= nlri_wire(ns[0]) + nlris_wire(ns.drop_first()));
    } else {
        lemma_nlris_wire_front(ns.drop_last());
        assert(ns.drop_last().drop_first() =~= ns.drop_first().drop_last());
        assert(ns.drop_first().last() == ns.last());
        assert(ns.drop_last()[0] == ns[0]);
        assert(nlris_wire(ns) =~= nlri_wire(ns[0]) + nlris_wire(ns.drop_first()));
    }
}

/// Prefixes of one family written one after the other, wherever they
/// stand in `s`, are read back as their networks.
#[verifier::spinoff_prover]
pub proof fn lemma_parse_prefixes_wire(s: Seq<u8>, i: int, afi: Afi, ns: Seq<Nlri>)
    requires
        0 <= i,
        forall|k: int| 0 <= k < ns.len() ==> (#[trigger] ns[k]).valid() && nlri_afi(ns[k]) == afi,
        i + nlris_wire(ns).len() <= s.len(),
        s.subrange(i, i + nlris_wire(ns).len()) == nlris_wire(ns),
    ensures
        parse_prefixes(s, i, i + nlris_wire(ns).len(), afi) == Some(
            ns.map_values(|n: Nlri| normalized(n)),
        ),
        prefixes_end(s, i, i + nlris_wire(ns).len(), afi) == i + nlris_wire(ns).len(),
    decreases ns.len(),
{
    let w = nlris_wire(ns);
    let end = i + w.len();
    if ns.len() == 0 {
        assert(ns.map_values(|n: Nlri| normalized(n)) =~= Seq::<Nlri>::empty());
    } else {
        let n0 = ns[0];
        let rest = ns.drop_first();
        assert(n0.valid() && nlri_afi(n0) == afi);
        lemma_nlris_wire_front(ns);
        lemma_nlri_wire_len(n0);
        lemma_nlri_roundtrip(n0);
        let w0 = nlri_wire(n0);
        let e = i + w0.len();
        assert(s[i] == w[0]);
        assert(w[0] == w0[0]);
        assert forall|k: int| 0 <= k < w0.len() - 1 implies #[trigger] s.subrange(i + 1, e)[k]
            == w0.drop_first()[k] by {
            assert(s.subrange(i + 1, e)[k] == s[i + 1 + k]);
            assert(s[i + 1 + k] == s.subrange(i, end)[1 + k]);
            assert(w[1 + k] == w0[1 + k]);
        }
        assert(s.subrange(i + 1, e) =~= w0.drop_first());
        assert(n0.net.spec_prefix_len() == w0[0]);
        let wr = nlris_wire(rest);
        assert forall|k: int| 0 <= k < wr.len() implies #[trigger] s.subrange(e, e + wr.len())[k]
            == wr[k] by {
            assert(s.subrange(e, e + wr.len())[k] == s[e + k]);
            assert(s[e + k] == w[w0.len() + k]);
        }
        assert(s.subrange(e, e + wr.len()) =~= wr);
        assert forall|k: int| 0 <= k < rest.len() implies (#[trigger] rest[k]).valid() && nlri_afi(
            rest[k],
        ) == afi by {
            assert(rest[k] == ns[k + 1]);
        }
        lemma_parse_prefixes_wire(s, e, afi, rest);
        assert(seq![normalized(n0)] + rest.map_values(|n: Nlri| normalized(n)) =~= ns.map_values(
            |n: Nlri| normalized(n),
        ));
    }
}

/// The family of a next hop address.
pub open spec fn address_afi(a: IpAddress) -> Afi {
    match a {
        IpAddress::V4(_) => Afi::Ipv4,
        IpAddress::V6(_) => Afi::Ipv6,
    }
}

/// A multiprotocol value reads back when its prefixes are valid prefixes of
/// its family, its next hop is an address of that family, and its body fits
/// the one-octet length written before it.
pub open spec fn mp_reach_reads_back(m: MpnlriModel) -> bool {
    &&& forall|k: int|
        0 <= k < m.nlris.len() ==> (#[trigger] m.nlris[k]).valid() && nlri_afi(m.nlris[k])
            == m.af.afi
    &&& address_afi(m.nh) == m.af.afi
    &&& mp_reach_body(m).len() <= 255
}

/// An MP_REACH_NLRI value written with its own length octet is read back
/// (by [`Mpnlri::try_from_bytes`]) with the same family and next hop, and
/// its prefixes as their networks.
#[verifier::spinoff_prover]
pub proof fn lemma_mp_reach_roundtrip(m: MpnlriModel)
    requires
        mp_reach_reads_back(m),
    ensures
        spec_mp_reach(mp_reach_wire(m)) == Some(
            MpnlriModel {
                af: m.af,
                nh: m.nh,
                nlris: m.nlris.map_values(|n: Nlri| normalized(n)),
            },
        ),
{
    let src = mp_reach_wire(m);
    let body = mp_reach_body(m);
    let afi = m.af.afi;
    let ac = afi_code(afi);
    lemma_be_bytes_len(ac as nat, 2);
    assert(pow256(2) == 65536) by {
        reveal_with_fuel(pow256, 3);
    }
    lemma_be_roundtrip_small(ac as nat, 2);
    assert(src.drop_first() =~= body);
    assert(body.subrange(0, 2) =~= be_bytes(ac as nat, 2));
    assert(afi_from_code(ac) == Some(afi));
    assert(safi_from_code(safi_code(m.af.safi)) == Some(m.af.safi));
    let nw = next_hop_wire(m.nh);
    let w = nlris_wire(m.nlris);
    let nhl: int = match m.nh {
        IpAddress::V4(_) => 4,
        IpAddress::V6(_) => 16,
    };
    match m.nh {
        IpAddress::V4(a) => {
            lemma_be_bytes_len(a as nat, 4);
            assert(pow256(4) == 0x1_0000_0000) by {
                reveal_with_fuel(pow256, 5);
            }
            lemma_be_roundtrip_small(a as nat, 4);
            assert(pad(be_bytes(a as nat, 4), 4) =~= be_bytes(a as nat, 4));
            assert(afi == Afi::Ipv4);
            assert(nw.drop_first() =~= be_bytes(a as nat, 4));
            assert(next_hop_from_octets(afi, nw.drop_first()) == m.nh);
        },
        IpAddress::V6(a) => {
            lemma_be_bytes_len(a as nat, 16);
            assert(pow256(16) == 0x1_0000_0000_0000_0000_0000_0000_0000_0000) by {
                reveal_with_fuel(pow256, 17);
            }
            lemma_be_roundtrip_small(a as nat, 16);
            assert(pad(be_bytes(a as nat, 16), 16) =~= be_bytes(a as nat, 16));
            assert(afi == Afi::Ipv6);
            assert(nw.drop_first() =~= be_bytes(a as nat, 16));
            assert(next_hop_from_octets(afi, nw.drop_first()) == m.nh);
        },
    }
    assert(body[3] == nhl);
    assert(body.subrange(4, 4 + nhl) =~= nw.drop_first());
    assert(body.subrange(4 + nhl, body.len() as int) =~= w);
    assert(body.len() == 4 + nhl + w.len());
    assert(src[0] == body.len());
    lemma_parse_prefixes_wire(body, 4 + nhl, afi, m.nlris);
    assert(parse_prefixes(body, 4 + nhl, body.len() as int, afi) == Some(
        m.nlris.map_values(|n: Nlri| normalized(n)),
    ));
}

/// An MP_UNREACH_NLRI value whose prefixes are valid prefixes of its
/// family, and whose body fits its one-octet length, is read back (by
/// [`Mpunlri::try_from_bytes`]) with the same family and its prefixes as
/// their networks.
#[verifier::spinoff_prover]
pub proof fn lemma_mp_unreach_roundtrip(m: MpunlriModel)
    requires
        forall|k: int|
            0 <= k < m.nlris.len() ==> (#[trigger] m.nlris[k]).valid() && nlri_afi(m.nlris[k])
                == m.af.afi,
        mp_unreach_body(m).len() <= 255,
    ensures
        spec_mp_unreach(mp_unreach_wire(m)) == Some(
            MpunlriModel { af: m.af, nlris: m.nlris.map_values(|n: Nlri| normalized(n)) },
        ),
{
    let src = mp_unreach_wire(m);
    let body = mp_unreach_body(m);
    let afi = m.af.afi;
    let ac = afi_code(afi);
    lemma_be_bytes_len(ac as nat, 2);
    assert(pow256(2) == 65536) by {
        reveal_with_fuel(pow256, 3);
    }
    lemma_be_roundtrip_small(ac as nat, 2);
    assert(src.drop_first() =~= body);
    assert(body.subrange(0, 2) =~= be_bytes(ac as nat, 2));
    assert(afi_from_code(ac) == Some(afi));
    assert(safi_from_code(safi_code(m.af.safi)) == Some(m.af.safi));
    let w = nlris_wire(m.nlris);
    assert(body.subrange(3, body.len() as int) =~= w);
    lemma_parse_prefixes_wire(body, 3, afi, m.nlris);
}

/// The value of an MP_REACH_NLRI path attribute is read back with the
/// same family and next hop, and its prefixes as their networks, where the
/// prefixes and the next hop are of its family.
#[verifier::spinoff_prover]
pub proof fn lemma_mp_reach_value_roundtrip(m: MpnlriModel)
    requires
        forall|k: int|
            0 <= k < m.nlris.len() ==> (#[trigger] m.nlris[k]).valid() && nlri_afi(m.nlris[k])
                == m.af.afi,
        address_afi(m.nh) == m.af.afi,
    ensures
        spec_mp_reach_value(mp_reach_value(m)) == Some(
            MpnlriModel {
                af: m.af,
                nh: m.nh,
                nlris: m.nlris.map_values(|n: Nlri| normalized(n)),
            },
        ),
{
    let v = mp_reach_value(m);
    let afi = m.af.afi;
    let ac = afi_code(afi);
    lemma_be_bytes_len(ac as nat, 2);
    assert(pow256(2) == 65536) by {
        reveal_with_fuel(pow256, 3);
    }
    lemma_be_roundtrip_small(ac as nat, 2);
    assert(v.subrange(0, 2) =~= be_bytes(ac as nat, 2));
    assert(afi_from_code(ac) == Some(afi));
    assert(safi_from_code(safi_code(m.af.safi)) == Some(m.af.safi));
    let nw = next_hop_wire(m.nh);
    let w = nlris_wire(m.nlris);
    let nhl: int = match m.nh {
        IpAddress::V4(_) => 4,
        IpAddress::V6(_) => 16,
    };
    match m.nh {
        IpAddress::V4(a) => {
            lemma_be_bytes_len(a as nat, 4);
            assert(pow256(4) == 0x1_0000_0000) by {
                reveal_with_fuel(pow256, 5);
            }
            lemma_be_roundtrip_small(a as nat, 4);
            assert(pad(be_bytes(a as nat, 4), 4) =~= be_bytes(a as nat, 4));
            assert(nw.drop_first() =~= be_bytes(a as nat, 4));
            assert(next_hop_from_octets(afi, nw.drop_first()) == m.nh);
        },
        IpAddress::V6(a) => {
            lemma_be_bytes_len(a as nat, 16);
            assert(pow256(16) == 0x1_0000_0000_0000_0000_0000_0000_0000_0000) by {
                reveal_with_fuel(pow256, 17);
            }
            lemma_be_roundtrip_small(a as nat, 16);
            assert(pad(be_bytes(a as nat, 16), 16) =~= be_bytes(a as nat, 16));
            assert(nw.drop_first() =~= be_bytes(a as nat, 16));
            assert(next_hop_from_octets(afi, nw.drop_first()) == m.nh);
        },
    }
    assert(v[3] == nhl);
    assert(v.subrange(4, 4 + nhl) =~= nw.drop_first());
    assert(v.subrange(5 + nhl, v.len() as int) =~= w);
    assert(v.len() == 5 + nhl + w.len());
    lemma_parse_prefixes_wire(v, 5 + nhl, afi, m.nlris);
    assert(parse_prefixes(v, 5 + nhl, v.len() as int, afi) == Some(
        m.nlris.map_values(|n: Nlri| normalized(n)),
    ));
}

/// The value of an MP_UNREACH_NLRI path attribute is read back with the
/// same family and its prefixes as their networks, where the prefixes are
/// of its family.
#[verifier::spinoff_prover]
pub proof fn lemma_mp_unreach_value_roundtrip(m: MpunlriModel)
    requires
        forall|k: int|
            0 <= k < m.nlris.len() ==> (#[trigger] m.nlris[k]).valid() && nlri_afi(m.nlris[k])
                == m.af.afi,
    ensures
        spec_mp_unreach_value(mp_unreach_body(m)) == Some(
            MpunlriModel { af: m.af, nlris: m.nlris.map_values(|n: Nlri| normalized(n)) },
        ),
{
    let v = mp_unreach_body(m);
    let afi = m.af.afi;
    let ac = afi_code(afi);
    lemma_be_bytes_len(ac as nat, 2);
    assert(pow256(2) == 65536) by {
        reveal_with_fuel(pow256, 3);
    }
    lemma_be_roundtrip_small(ac as nat, 2);
    assert(v.subrange(0, 2) =~= be_bytes(ac as nat, 2));
    assert(afi_from_code(ac) == Some(afi));
    assert(safi_from_code(safi_code(m.af.safi)) == Some(m.af.safi));
    let w = nlris_wire(m.nlris);
    assert(v.subrange(3, v.len() as int) =~= w);
    lemma_parse_prefixes_wire(v, 3, afi, m.nlris);
}

} // verus!
