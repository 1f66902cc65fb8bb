//! Optional parameters of OPEN messages, the capabilities they carry, and
//! the capabilities a neighbor has advertised.
use vstd::prelude::*;
use crate::types::{afi_code, afi_from_code, safi_code, safi_from_code, AddressFamily, Afi, Safi};
use crate::text::{decimal, push_decimal, push_str};
use crate::wire::{be_bytes, be_value, copy_range, push_all, push_u16, read_u16, read_u32};

verus! {

/// The type of an optional parameter.
#[derive(Debug, Clone, Copy, PartialEq, Eq, Structural)]
pub enum BGPOptionalParameterType {
    Authentication,
    Capability,
}

pub open spec fn opt_param_type_code(t: BGPOptionalParameterType) -> u8 {
    match t {
        BGPOptionalParameterType::Authentication => 1,
        BGPOptionalParameterType::Capability => 2,
    }
}

pub open spec fn opt_param_type_from_code(v: u8) -> Option<BGPOptionalParameterType> {
    if v == 1 {
        Some(BGPOptionalParameterType::Authentication)
    } else if v == 2 {
        Some(BGPOptionalParameterType::Capability)
    } else {
        None
    }
}

impl BGPOptionalParameterType {
    /// The parameter type code.
    pub fn to_u8(&self) -> (r: u8)
        ensures
            r == opt_param_type_code(*self),
    {
        match self {
            BGPOptionalParameterType::Authentication => 1,
            BGPOptionalParameterType::Capability => 2,
        }
    }

    /// The parameter type with code `v`, if there is one.
    pub fn from_u8(v: u8) -> (r: Option<BGPOptionalParameterType>)
        ensures
            r == opt_param_type_from_code(v),
    {
        if v == 1 {
            Some(BGPOptionalParameterType::Authentication)
        } else if v == 2 {
            Some(BGPOptionalParameterType::Capability)
        } else {
            None
        }
    }
}

/// The capability codes this speaker knows.
#[derive(Debug, Clone, Copy, PartialEq, Eq, Structural)]
pub enum BGPCapabilityCode {
    Multiprotocol,
    RouteRefresh,
    OutboundRouteFiltering,
    ExtendedNextHopEncoding,
    GracefulRestart,
    FourOctectASN,
    DynamicCapability,
    MultisessionBGP,
    AddPath,
    EnhancedRouteRefresh,
    LongLivedGracefulRestart,
    FQDNCapability,
    Unknown,
}

pub open spec fn capability_code_value(c: BGPCapabilityCode) -> u8 {
    match c {
        BGPCapabilityCode::Multiprotocol => 1,
        BGPCapabilityCode::RouteRefresh => 2,
        BGPCapabilityCode::OutboundRouteFiltering => 3,
        BGPCapabilityCode::ExtendedNextHopEncoding => 5,
        BGPCapabilityCode::GracefulRestart => 64,
        BGPCapabilityCode::FourOctectASN => 65,
        BGPCapabilityCode::DynamicCapability => 67,
        BGPCapabilityCode::MultisessionBGP => 68,
        BGPCapabilityCode::AddPath => 69,
        BGPCapabilityCode::EnhancedRouteRefresh => 70,
        BGPCapabilityCode::LongLivedGracefulRestart => 71,
        BGPCapabilityCode::FQDNCapability => 73,
        BGPCapabilityCode::Unknown => 255,
    }
}

pub open spec fn capability_code_from_value(v: u8) -> Option<BGPCapabilityCode> {
    if v == 1 {
        Some(BGPCapabilityCode::Multiprotocol)
    } else if v == 2 {
        Some(BGPCapabilityCode::RouteRefresh)
    } else if v == 3 {
        Some(BGPCapabilityCode::OutboundRouteFiltering)
    } else if v == 5 {
        Some(BGPCapabilityCode::ExtendedNextHopEncoding)
    } else if v == 64 {
        Some(BGPCapabilityCode::GracefulRestart)
    } else if v == 65 {
        Some(BGPCapabilityCode::FourOctectASN)
    } else if v == 67 {
        Some(BGPCapabilityCode::DynamicCapability)
    } else if v == 68 {
        Some(BGPCapabilityCode::MultisessionBGP)
    } else if v == 69 {
        Some(BGPCapabilityCode::AddPath)
    } else if v == 70 {
        Some(BGPCapabilityCode::EnhancedRouteRefresh)
    } else if v == 71 {
        Some(BGPCapabilityCode::LongLivedGracefulRestart)
    } else if v == 73 {
        Some(BGPCapabilityCode::FQDNCapability)
    } else if v == 255 {
        Some(BGPCapabilityCode::Unknown)
    } else {
        None
    }
}

impl BGPCapabilityCode {
    /// The capability code.
    pub fn to_u8(&self) -> (r: u8)
        ensures
            r == capability_code_value(*self),
    {
        match self {
            BGPCapabilityCode::Multiprotocol => 1,
            BGPCapabilityCode::RouteRefresh => 2,
            BGPCapabilityCode::OutboundRouteFiltering => 3,
            BGPCapabilityCode::ExtendedNextHopEncoding => 5,
            BGPCapabilityCode::GracefulRestart => 64,
            BGPCapabilityCode::FourOctectASN => 65,
            BGPCapabilityCode::DynamicCapability => 67,
            BGPCapabilityCode::MultisessionBGP => 68,
            BGPCapabilityCode::AddPath => 69,
            BGPCapabilityCode::EnhancedRouteRefresh => 70,
            BGPCapabilityCode::LongLivedGracefulRestart => 71,
            BGPCapabilityCode::FQDNCapability => 73,
            BGPCapabilityCode::Unknown => 255,
        }
    }

    /// The capability with code `v`, if it is known.
    pub fn from_u8(v: u8) -> (r: Option<BGPCapabilityCode>)
        ensures
            r == capability_code_from_value(v),
    {
        if v == 1 {
            Some(BGPCapabilityCode::Multiprotocol)
        } else if v == 2 {
            Some(BGPCapabilityCode::RouteRefresh)
        } else if v == 3 {
            Some(BGPCapabilityCode::OutboundRouteFiltering)
        } else if v == 5 {
            Some(BGPCapabilityCode::ExtendedNextHopEncoding)
        } else if v == 64 {
            Some(BGPCapabilityCode::GracefulRestart)
        } else if v == 65 {
            Some(BGPCapabilityCode::FourOctectASN)
        } else if v == 67 {
            Some(BGPCapabilityCode::DynamicCapability)
        } else if v == 68 {
            Some(BGPCapabilityCode::MultisessionBGP)
        } else if v == 69 {
            Some(BGPCapabilityCode::AddPath)
        } else if v == 70 {
            Some(BGPCapabilityCode::EnhancedRouteRefresh)
        } else if v == 71 {
            Some(BGPCapabilityCode::LongLivedGracefulRestart)
        } else if v == 73 {
            Some(BGPCapabilityCode::FQDNCapability)
        } else if v == 255 {
            Some(BGPCapabilityCode::Unknown)
        } else {
            None
        }
    }
}

/// An optional parameter of an OPEN message.
#[derive(Debug, Clone, PartialEq)]
pub struct BGPOptionalParameter {
    pub param_type: BGPOptionalParameterType,
    pub param_length: usize,
    pub param_value: Vec<u8>,
}

/// The model of an optional parameter.
pub struct OptParamModel {
    pub param_type: BGPOptionalParameterType,
    pub param_length: usize,
    pub param_value: Seq<u8>,
}

impl View for BGPOptionalParameter {
    type V = OptParamModel;

    open spec fn view(&self) -> OptParamModel {
        OptParamModel {
            param_type: self.param_type,
            param_length: self.param_length,
            param_value: self.param_value@,
        }
    }
}

/// The optional parameters of an OPEN message with their total length.
#[derive(Debug, Clone)]
pub struct BGPOptionalParameters {
    pub len: usize,
    pub params: Vec<BGPOptionalParameter>,
}

/// The model of the optional parameters.
pub struct OptParamsModel {
    pub len: usize,
    pub params: Seq<OptParamModel>,
}

pub open spec fn opt_params_view(s: Seq<BGPOptionalParameter>) -> Seq<OptParamModel> {
    s.map_values(|p: BGPOptionalParameter| p@)
}

impl View for BGPOptionalParameters {
    type V = OptParamsModel;

    open spec fn view(&self) -> OptParamsModel {
        OptParamsModel { len: self.len, params: opt_params_view(self.params@) }
    }
}

/// The name of an optional parameter type.
pub open spec fn opt_param_type_text(t: BGPOptionalParameterType) -> Seq<char> {
    match t {
        BGPOptionalParameterType::Authentication => "Authentication"@,
        BGPOptionalParameterType::Capability => "Capability"@,
    }
}

/// The octets of `s` in decimal, separated by a comma and a space.
pub open spec fn byte_list_text(s: Seq<u8>) -> Seq<char>
    decreases s.len(),
{
    if s.len() == 0 {
        Seq::empty()
    } else if s.len() == 1 {
        decimal(s[0] as nat)
    } else {
        byte_list_text(s.drop_last()) + ", "@ + decimal(s.last() as nat)
    }
}

/// The text of one optional parameter: its type, its length and its value.
pub open spec fn opt_param_text(p: OptParamModel) -> Seq<char> {
    "BGPOptionalParameter { param_type: "@ + opt_param_type_text(p.param_type)
        + ", param_length: "@ + decimal(p.param_length as nat) + ", param_value: ["@
        + byte_list_text(p.param_value) + "] }"@
}

/// The texts of the parameters `s`, separated by a comma and a space.
pub open spec fn opt_param_list_text(s: Seq<OptParamModel>) -> Seq<char>
    decreases s.len(),
{
    if s.len() == 0 {
        Seq::empty()
    } else if s.len() == 1 {
        opt_param_text(s[0])
    } else {
        opt_param_list_text(s.drop_last()) + ", "@ + opt_param_text(s.last())
    }
}

/// The text of the optional parameters: their total length and the list of
/// parameters in brackets.
pub open spec fn params_text(o: OptParamsModel) -> Seq<char> {
    "BGPOptionalParameters { len: "@ + decimal(o.len as nat) + ", params: ["@
        + opt_param_list_text(o.params) + "] }"@
}

/// Appends the octets of `v` in decimal, separated by a comma and a space.
fn push_byte_list(out: &mut Vec<char>, v: &Vec<u8>)
    ensures
        final(out)@ == old(out)@ + byte_list_text(v@),
{
    let mut i: usize = 0;
    while i < v.len()
        invariant
            i <= v.len(),
            out@ == old(out)@ + byte_list_text(v@.take(i as int)),
        decreases v.len() - i,
    {
        let ghost before = out@;
        if i > 0 {
            push_str(out, ", ");
        }
        push_decimal(out, v[i] as u64);
        proof {
            let t = v@.take(i + 1);
            assert(t.drop_last() =~= v@.take(i as int));
            assert(t.last() == v@[i as int]);
            if i == 0 {
                assert(byte_list_text(t) == decimal(v@[0] as nat));
                assert(out@ =~= old(out)@ + byte_list_text(t));
            } else {
                assert(byte_list_text(t) == byte_list_text(v@.take(i as int)) + ", "@ + decimal(
                    v@[i as int] as nat,
                ));
                assert(out@ =~= old(out)@ + byte_list_text(t));
            }
        }
        i = i + 1;
    }
    assert(v@.take(v@.len() as int) =~= v@);
}

impl BGPOptionalParameter {
    /// Appends the text of the parameter to `out`.
    pub fn push_text(&self, out: &mut Vec<char>)
        ensures
            final(out)@ == old(out)@ + opt_param_text(self@),
    {
        push_str(out, "BGPOptionalParameter { param_type: ");
        match self.param_type {
            BGPOptionalParameterType::Authentication => push_str(out, "Authentication"),
            BGPOptionalParameterType::Capability => push_str(out, "Capability"),
        }
        push_str(out, ", param_length: ");
        push_decimal(out, self.param_length as u64);
        push_str(out, ", param_value: [");
        push_byte_list(out, &self.param_value);
        push_str(out, "] }");
        assert(out@ =~= old(out)@ + opt_param_text(self@));
    }
}

impl BGPOptionalParameters {
    /// Appends the text of the parameters to `out`.
    pub fn push_text(&self, out: &mut Vec<char>)
        ensures
            final(out)@ == old(out)@ + params_text(self@),
    {
        push_str(out, "BGPOptionalParameters { len: ");
        push_decimal(out, self.len as u64);
        push_str(out, ", params: [");
        let ghost head = out@;
        let mut i: usize = 0;
        while i < self.params.len()
            invariant
                i <= self.params.len(),
                out@ == head + opt_param_list_text(self@.params.take(i as int)),
            decreases self.params.len() - i,
        {
            if i > 0 {
                push_str(out, ", ");
            }
            self.params[i].push_text(out);
            proof {
                let t = self@.params.take(i + 1);
                assert(t.drop_last() =~= self@.params.take(i as int));
                assert(t.last() == self.params@[i as int]@);
                if i == 0 {
                    assert(opt_param_list_text(t) == opt_param_text(t[0]));
                    assert(out@ =~= head + opt_param_list_text(t));
                } else {
                    assert(opt_param_list_text(t) == opt_param_list_text(self@.params.take(i as int))
                        + ", "@ + opt_param_text(t.last()));
                    assert(out@ =~= head + opt_param_list_text(t));
                }
            }
            i = i + 1;
        }
        assert(self@.params.take(self@.params.len() as int) =~= self@.params);
        push_str(out, "] }");
        assert(out@ =~= old(out)@ + params_text(self@));
    }
}

/// A capability: its code, its announced length and its value.
#[derive(Debug, Clone, PartialEq)]
pub struct BGPCapability {
    pub capability_code: BGPCapabilityCode,
    pub capability_length: usize,
    pub capability_value: Vec<u8>,
}

/// The model of a capability.
pub struct CapabilityModel {
    pub capability_code: BGPCapabilityCode,
    pub capability_length: usize,
    pub capability_value: Seq<u8>,
}

impl View for BGPCapability {
    type V = CapabilityModel;

    open spec fn view(&self) -> CapabilityModel {
        CapabilityModel {
            capability_code: self.capability_code,
            capability_length: self.capability_length,
            capability_value: self.capability_value@,
        }
    }
}

pub open spec fn capabilities_view(s: Seq<BGPCapability>) -> Seq<CapabilityModel> {
    s.map_values(|c: BGPCapability| c@)
}

/// The multiprotocol capability value: one address family.
#[derive(Debug, Clone, Copy, PartialEq, Eq, Structural)]
pub struct BGPCapabilityMultiprotocol {
    pub afi: Afi,
    pub safi: Safi,
}

/// The route refresh capability.
#[derive(Debug, Clone, Copy, PartialEq, Eq, Structural)]
pub struct BGPCapabilityRouteRefresh {
    pub supported: bool,
}

/// The outbound route filtering capability.
#[derive(Debug, Clone, Copy, PartialEq, Eq, Structural)]
pub struct BGPCapabilityOutboundRouteFiltering {
    pub supported: bool,
}

/// The graceful restart capability.
#[derive(Debug, Clone, Copy, PartialEq, Eq, Structural)]
pub struct BGPCapabilityGracefulRestart {
    pub supported: bool,
}

/// The four-octet AS number capability.
#[derive(Debug, Clone, Copy, PartialEq, Eq, Structural)]
pub struct BGPCapabilityFourOctectASN {
    pub supported: bool,
}

/// The capabilities found in the optional parameters of an OPEN message.
#[derive(Debug, Clone)]
pub struct BGPCapabilities {
    pub params: Vec<BGPCapability>,
}

impl Default for BGPCapabilities {
    fn default() -> (r: Self)
        ensures
            r.params@.len() == 0,
    {
        BGPCapabilities { params: Vec::new() }
    }
}

/// The wire form of a multiprotocol capability value: AFI on two octets, a
/// reserved zero octet, SAFI.
pub open spec fn multiprotocol_wire(afi: Afi, safi: Safi) -> Seq<u8> {
    be_bytes(afi_code(afi) as nat, 2) + seq![0u8, safi_code(safi)]
}

/// The wire form of a capability: code, length (modulo 256), value.
pub open spec fn capability_wire(c: CapabilityModel) -> Seq<u8> {
    seq![capability_code_value(c.capability_code), (c.capability_length % 256) as u8]
        + c.capability_value
}

/// The wire form of an optional parameter: type, value length (modulo
/// 256), value.
pub open spec fn opt_param_wire(p: OptParamModel) -> Seq<u8> {
    seq![opt_param_type_code(p.param_type), (p.param_value.len() % 256) as u8] + p.param_value
}

/// The wire forms of the parameters, one after the other.
pub open spec fn opt_param_list_wire(s: Seq<OptParamModel>) -> Seq<u8>
    decreases s.len(),
{
    if s.len() == 0 {
        Seq::empty()
    } else {
        opt_param_list_wire(s.drop_last()) + opt_param_wire(s.last())
    }
}

/// The wire form of the optional parameters: their length field (modulo
/// 256) followed by each parameter.
pub open spec fn opt_params_wire(o: OptParamsModel) -> Seq<u8> {
    seq![(o.len % 256) as u8] + opt_param_list_wire(o.params)
}

/// The total length of a list of parameters: two octets of header and the
/// announced length of each.
pub open spec fn params_total_len(s: Seq<OptParamModel>) -> nat
    decreases s.len(),
{
    if s.len() == 0 {
        0
    } else {
        params_total_len(s.drop_last()) + 2 + s.last().param_length as nat
    }
}

/// Decodes an optional parameter: type, length, then the rest as value.
pub open spec fn spec_parse_opt_param(s: Seq<u8>) -> Option<OptParamModel> {
    if s.len() < 2 {
        None
    } else {
        match opt_param_type_from_code(s[0]) {
            Some(t) => Some(
                OptParamModel {
                    param_type: t,
                    param_length: s[1] as usize,
                    param_value: s.subrange(2, s.len() as int),
                },
            ),
            None => None,
        }
    }
}

/// Decodes parameters from `s` at `i` while `used < len`; the count of
/// used octets must stay within one octet. Returns the parameters and the
/// position after them.
pub open spec fn parse_param_list(s: Seq<u8>, i: int, used: int, len: int) -> Option<
    (Seq<OptParamModel>, int),
>
    decreases 256 - used,
{
    if len <= used {
        Some((Seq::empty(), i))
    } else if i < 0 || i + 2 > s.len() {
        None
    } else {
        let optlen = s[i + 1] as int;
        let end = i + optlen + 2;
        if optlen + 2 > 255 || used + optlen + 2 > 255 || end > s.len() {
            None
        } else {
            match spec_parse_opt_param(s.subrange(i, end)) {
                None => None,
                Some(p) => match parse_param_list(s, end, used + optlen + 2, len) {
                    Some((rest, fi)) => Some((seq![p] + rest, fi)),
                    None => None,
                },
            }
        }
    }
}

/// Decodes the optional parameters field: its length octet, then the
/// parameters. The length recorded is the position after the last one.
pub open spec fn spec_parse_opt_params(s: Seq<u8>) -> Option<OptParamsModel> {
    if s.len() < 1 {
        None
    } else {
        match parse_param_list(s, 1, 0, s[0] as int) {
            Some((ps, fi)) => Some(OptParamsModel { len: fi as usize, params: ps }),
            None => None,
        }
    }
}

/// The capability decoded from `s`: a short buffer or an unknown code give
/// an empty multiprotocol capability; a value shorter than announced is
/// left empty.
pub open spec fn spec_capability_from(s: Seq<u8>) -> CapabilityModel {
    let empty = CapabilityModel {
        capability_code: BGPCapabilityCode::Multiprotocol,
        capability_length: 0,
        capability_value: Seq::empty(),
    };
    if s.len() < 2 {
        empty
    } else {
        match capability_code_from_value(s[0]) {
            None => empty,
            Some(c) => CapabilityModel {
                capability_code: c,
                capability_length: s[1] as usize,
                capability_value: if s.len() >= 2 + s[1] {
                    s.subrange(2, 2 + s[1])
                } else {
                    Seq::empty()
                },
            },
        }
    }
}

/// The capabilities carried in the value of one capability parameter,
/// from `offset`. Decoding stops at a capability whose header is
/// truncated; a capability announcing more octets than are left is taken
/// from what is left (see [`spec_capability_from`]) and ends the decoding.
pub open spec fn capabilities_in(data: Seq<u8>, offset: int) -> Seq<CapabilityModel>
    decreases data.len() - offset,
{
    if offset < 0 || offset >= data.len() || offset + 2 > data.len() {
        Seq::empty()
    } else {
        let l = data[offset + 1] as int;
        if offset + 2 + l > data.len() {
            seq![spec_capability_from(data.subrange(offset, data.len() as int))]
        } else {
            seq![spec_capability_from(data.subrange(offset, offset + 2 + l))] + capabilities_in(
                data,
                offset + 2 + l,
            )
        }
    }
}

/// The capabilities carried by all capability parameters, in order.
pub open spec fn capabilities_of_params(ps: Seq<OptParamModel>) -> Seq<CapabilityModel>
    decreases ps.len(),
{
    if ps.len() == 0 {
        Seq::empty()
    } else {
        capabilities_of_params(ps.drop_last()) + if ps.last().param_type
            == BGPOptionalParameterType::Capability {
            capabilities_in(ps.last().param_value, 0)
        } else {
            Seq::empty()
        }
    }
}

impl BGPCapabilityMultiprotocol {
    /// The wire form of the value.
    pub fn to_bytes(&self) -> (r: Vec<u8>)
        ensures
            r@ == multiprotocol_wire(self.afi, self.safi),
    {
        let mut buf: Vec<u8> = Vec::new();
        push_u16(&mut buf, self.afi.to_u16());
        buf.push(0);
        buf.push(self.safi.to_u8());
        assert(buf@ =~= multiprotocol_wire(self.afi, self.safi));
        buf
    }
}

impl BGPCapability {
    /// Decodes a capability; never fails (see [`spec_capability_from`]).
    pub fn from_bytes(src: &[u8]) -> (r: BGPCapability)
        ensures
            r@ == spec_capability_from(src@),
    {
        if src.len() < 2 {
            return BGPCapability {
                capability_code: BGPCapabilityCode::Multiprotocol,
                capability_length: 0,
                capability_value: Vec::new(),
            };
        }
        let code = src[0];
        let length = src[1] as usize;
        let cap_code = match BGPCapabilityCode::from_u8(code) {
            Some(c) => c,
            None => {
                return BGPCapability {
                    capability_code: BGPCapabilityCode::Multiprotocol,
                    capability_length: 0,
                    capability_value: Vec::new(),
                };
            },
        };
        let value = if src.len() >= 2 + length {
            copy_range(src, 2, 2 + length)
        } else {
            Vec::new()
        };
        BGPCapability { capability_code: cap_code, capability_length: length, capability_value: value }
    }

    /// Appends the wire form to `buf`.
    pub fn write_to(&self, buf: &mut Vec<u8>)
        ensures
            final(buf)@ == old(buf)@ + capability_wire(self@),
    {
        buf.push(self.capability_code.to_u8());
        buf.push((self.capability_length % 256) as u8);
        push_all(buf, self.capability_value.as_slice());
        assert(buf@ =~= old(buf)@ + capability_wire(self@));
    }

    /// The wire form.
    pub fn to_bytes(&self) -> (r: Vec<u8>)
        ensures
            r@ == capability_wire(self@),
    {
        let mut buf: Vec<u8> = Vec::new();
        self.write_to(&mut buf);
        assert(buf@ =~= capability_wire(self@));
        buf
    }
}

impl Default for BGPOptionalParameter {
    fn default() -> (r: Self)
        ensures
            r@ == default_opt_param(),
    {
        let cv = BGPCapabilityMultiprotocol { afi: Afi::Ipv4, safi: Safi::NLRIUnicast };
        let cv = cv.to_bytes();
        let pc = BGPCapability {
            capability_code: BGPCapabilityCode::Multiprotocol,
            capability_length: cv.len(),
            capability_value: cv,
        };
        let pc = pc.to_bytes();
        proof {
            assert(multiprotocol_wire(Afi::Ipv4, Safi::NLRIUnicast) =~= seq![0u8, 1, 0, 1]) by {
                reveal_with_fuel(be_bytes, 3);
            }
            assert(pc@ =~= seq![1u8, 4, 0, 1, 0, 1]);
        }
        BGPOptionalParameter {
            param_type: BGPOptionalParameterType::Capability,
            param_length: pc.len(),
            param_value: pc,
        }
    }
}

/// The default parameter: one capability parameter announcing IPv4
/// unicast.
pub open spec fn default_opt_param() -> OptParamModel {
    OptParamModel {
        param_type: BGPOptionalParameterType::Capability,
        param_length: 6,
        param_value: seq![1u8, 4, 0, 1, 0, 1],
    }
}

impl BGPOptionalParameter {
    /// Decodes an optional parameter; `None` for fewer than two octets or an
    /// unknown type.
    pub fn parse(src: &[u8]) -> (r: Option<BGPOptionalParameter>)
        ensures
            r is Some <==> spec_parse_opt_param(src@) is Some,
            r matches Some(p) ==> spec_parse_opt_param(src@) == Some(p@),
    {
        if src.len() < 2 {
            return None;
        }
        let t = match BGPOptionalParameterType::from_u8(src[0]) {
            Some(t) => t,
            None => return None,
        };
        let value = copy_range(src, 2, src.len());
        Some(BGPOptionalParameter { param_type: t, param_length: src[1] as usize, param_value: value })
    }

    /// Decodes an optional parameter. Forms shorter than two octets or of an
    /// unknown type are left out.
    pub fn from_bytes(src: Vec<u8>) -> (r: BGPOptionalParameter)
        requires
            spec_parse_opt_param(src@) is Some,
        ensures
            spec_parse_opt_param(src@) == Some(r@),
    {
        match BGPOptionalParameter::parse(src.as_slice()) {
            Some(p) => p,
            None => {
                assert(false);
                BGPOptionalParameter::default()
            },
        }
    }

    /// Appends the wire form to `buf`.
    pub fn write_to(&self, buf: &mut Vec<u8>)
        ensures
            final(buf)@ == old(buf)@ + opt_param_wire(self@),
    {
        buf.push(self.param_type.to_u8());
        buf.push((self.param_value.len() % 256) as u8);
        push_all(buf, self.param_value.as_slice());
        assert(buf@ =~= old(buf)@ + opt_param_wire(self@));
    }

    /// The wire form.
    pub fn to_bytes(&self) -> (r: Vec<u8>)
        ensures
            r@ == opt_param_wire(self@),
    {
        let mut buf: Vec<u8> = Vec::new();
        self.write_to(&mut buf);
        assert(buf@ =~= opt_param_wire(self@));
        buf
    }
}

impl BGPOptionalParameters {
    /// The parameters, with their total length: two header octets plus the
    /// announced length of each.
    pub fn new(params: Vec<BGPOptionalParameter>) -> (r: BGPOptionalParameters)
        requires
            params_total_len(opt_params_view(params@)) <= usize::MAX,
        ensures
            r.len == params_total_len(opt_params_view(params@)),
            opt_params_view(r.params@) == opt_params_view(params@),
    {
        let mut len: usize = 0;
        let mut i: usize = 0;
        while i < params.len()
            invariant
                i <= params.len(),
                params_total_len(opt_params_view(params@)) <= usize::MAX,
                len == params_total_len(opt_params_view(params@.take(i as int))),
            decreases params.len() - i,
        {
            proof {
                assert(opt_params_view(params@.take(i + 1)).drop_last() =~= opt_params_view(
                    params@.take(i as int),
                ));
                lemma_params_total_len_prefix(opt_params_view(params@), i + 1);
                assert(opt_params_view(params@.take(i + 1)) =~= opt_params_view(params@).take(
                    i + 1,
                ));
            }
            len = len + 2 + params[i].param_length;
            i = i + 1;
        }
        assert(params@.take(params@.len() as int) =~= params@);
        BGPOptionalParameters { len, params }
    }

    /// Decodes the optional parameters field; `None` where the original
    /// form is truncated, holds an unknown parameter type, or its octet
    /// count overflows one octet.
    pub fn parse(src: &[u8]) -> (r: Option<BGPOptionalParameters>)
        ensures
            r is Some <==> spec_parse_opt_params(src@) is Some,
            r matches Some(p) ==> spec_parse_opt_params(src@) == Some(p@),
    {
        if src.len() < 1 {
            return None;
        }
        let len = src[0] as usize;
        let mut used: usize = 0;
        let mut i: usize = 1;
        let mut out: Vec<BGPOptionalParameter> = Vec::new();
        while len > used
            invariant
                src@.len() >= 1,
                len == src@[0] as int,
                used <= 255,
                parse_param_list(src@, 1, 0, len as int) is Some <==> parse_param_list(
                    src@,
                    i as int,
                    used as int,
                    len as int,
                ) is Some,
                parse_param_list(src@, 1, 0, len as int) is Some ==> ({
                    let whole = parse_param_list(src@, 1, 0, len as int).unwrap();
                    let part = parse_param_list(src@, i as int, used as int, len as int).unwrap();
                    whole.0 == opt_params_view(out@) + part.0 && whole.1 == part.1
                }),
            decreases 255 - used,
        {
            if i >= src.len() || src.len() - i < 2 {
                return None;
            }
            let optlen = src[i + 1] as usize;
            if optlen + 2 > 255 || used + optlen + 2 > 255 || src.len() - i < optlen + 2 {
                return None;
            }
            let end = i + optlen + 2;
            let p = match BGPOptionalParameter::parse(copy_range(src, i, end).as_slice()) {
                Some(p) => p,
                None => return None,
            };
            proof {
                let rest = parse_param_list(src@, end as int, used + optlen + 2, len as int);
                if rest is Some {
                    assert(opt_params_view(out@.push(p)) =~= opt_params_view(out@).push(p@));
                    assert(opt_params_view(out@).push(p@) + rest.unwrap().0 =~= opt_params_view(
                        out@,
                    ) + (seq![p@] + rest.unwrap().0));
                }
            }
            out.push(p);
            used = used + optlen + 2;
            i = end;
        }
        proof {
            assert(opt_params_view(out@) + Seq::<OptParamModel>::empty() =~= opt_params_view(
                out@,
            ));
        }
        Some(BGPOptionalParameters { len: i, params: out })
    }

    /// Decodes the optional parameters field. Truncated forms, unknown
    /// parameter types and octet counts beyond one octet are left out.
    pub fn from_bytes(src: Vec<u8>) -> (r: BGPOptionalParameters)
        requires
            spec_parse_opt_params(src@) is Some,
        ensures
            spec_parse_opt_params(src@) == Some(r@),
    {
        match BGPOptionalParameters::parse(src.as_slice()) {
            Some(p) => p,
            None => {
                assert(false);
                BGPOptionalParameters { len: 0, params: Vec::new() }
            },
        }
    }

    /// Appends the wire form to `buf`.
    pub fn write_to(&self, buf: &mut Vec<u8>)
        ensures
            final(buf)@ == old(buf)@ + opt_params_wire(self@),
    {
        buf.push((self.len % 256) as u8);
        let mut i: usize = 0;
        while i < self.params.len()
            invariant
                i <= self.params.len(),
                buf@ == old(buf)@ + seq![(self.len % 256) as u8] + opt_param_list_wire(
                    opt_params_view(self.params@.take(i as int)),
                ),
            decreases self.params.len() - i,
        {
            self.params[i].write_to(buf);
            proof {
                assert(opt_params_view(self.params@.take(i + 1)).drop_last() =~= opt_params_view(
                    self.params@.take(i as int),
                ));
            }
            i = i + 1;
        }
        assert(self.params@.take(self.params@.len() as int) =~= self.params@);
        assert(buf@ =~= old(buf)@ + opt_params_wire(self@));
    }

    /// The wire form.
    pub fn to_bytes(&self) -> (r: Vec<u8>)
        ensures
            r@ == opt_params_wire(self@),
    {
        let mut buf: Vec<u8> = Vec::new();
        self.write_to(&mut buf);
        assert(buf@ =~= opt_params_wire(self@));
        buf
    }
}

impl Default for BGPOptionalParameters {
    fn default() -> (r: Self)
        ensures
            r.len == 5,
            opt_params_view(r.params@) == seq![default_opt_param()],
    {
        let p = BGPOptionalParameter::default();
        let len = p.param_value[1] as usize + 1;
        let mut params: Vec<BGPOptionalParameter> = Vec::new();
        params.push(p);
        proof {
            assert(opt_params_view(params@) =~= seq![default_opt_param()]);
        }
        BGPOptionalParameters { len, params }
    }
}

proof fn lemma_params_total_len_prefix(s: Seq<OptParamModel>, k: int)
    requires
        0 <= k <= s.len(),
    ensures
        params_total_len(s.take(k)) <= params_total_len(s),
    decreases s.len(),
{
    if k < s.len() {
        assert(s.drop_last().take(k) =~= s.take(k));
        lemma_params_total_len_prefix(s.drop_last(), k);
    } else {
        assert(s.take(k) =~= s);
    }
}

/// Collects the capabilities of the value of one capability parameter.
fn push_capabilities_in(data: &[u8], out: &mut Vec<BGPCapability>)
    ensures
        capabilities_view(final(out)@) == capabilities_view(old(out)@) + capabilities_in(data@, 0),
{
    let mut offset: usize = 0;
    let ghost start = capabilities_view(out@);
    while offset < data.len()
        invariant
            offset <= data.len(),
            capabilities_view(out@) + capabilities_in(data@, offset as int) == start
                + capabilities_in(data@, 0),
        ensures
            capabilities_in(data@, offset as int) =~= Seq::<CapabilityModel>::empty(),
            capabilities_view(out@) + capabilities_in(data@, offset as int) == start
                + capabilities_in(data@, 0),
        decreases data.len() - offset,
    {
        if data.len() - offset < 2 {
            break;
        }
        let cap_len = data[offset + 1] as usize;
        if cap_len > data.len() - offset - 2 {
            let cap = BGPCapability::from_bytes(copy_range(data, offset, data.len()).as_slice());
            proof {
                assert(capabilities_view(out@.push(cap)) =~= capabilities_view(out@).push(cap@));
                assert(capabilities_view(out@).push(cap@) =~= capabilities_view(out@)
                    + capabilities_in(data@, offset as int));
            }
            out.push(cap);
            offset = data.len();
            break;
        }
        let end = offset + 2 + cap_len;
        let cap = BGPCapability::from_bytes(copy_range(data, offset, end).as_slice());
        proof {
            assert(capabilities_view(out@.push(cap)) =~= capabilities_view(out@).push(cap@));
            assert(capabilities_view(out@).push(cap@) + capabilities_in(data@, end as int)
                =~= capabilities_view(out@) + capabilities_in(data@, offset as int));
        }
        out.push(cap);
        offset = end;
    }
    proof {
        assert(capabilities_in(data@, offset as int) =~= Seq::<CapabilityModel>::empty());
        assert(capabilities_view(out@) + Seq::<CapabilityModel>::empty() =~= capabilities_view(
            out@,
        ));
    }
}

impl BGPCapabilities {
    /// The capabilities carried by the capability parameters among `src`,
    /// in order; other parameters are skipped.
    pub fn from_optional_parameters(src: &BGPOptionalParameters) -> (r: BGPCapabilities)
        ensures
            capabilities_view(r.params@) == capabilities_of_params(opt_params_view(src.params@)),
    {
        let mut all_caps: Vec<BGPCapability> = Vec::new();
        let mut i: usize = 0;
        while i < src.params.len()
            invariant
                i <= src.params.len(),
                capabilities_view(all_caps@) == capabilities_of_params(
                    opt_params_view(src.params@.take(i as int)),
                ),
            decreases src.params.len() - i,
        {
            let param = &src.params[i];
            proof {
                assert(opt_params_view(src.params@.take(i + 1)).drop_last() =~= opt_params_view(
                    src.params@.take(i as int),
                ));
            }
            if param.param_type == BGPOptionalParameterType::Capability {
                push_capabilities_in(param.param_value.as_slice(), &mut all_caps);
            } else {
                proof {
                    assert(capabilities_view(all_caps@) + Seq::<CapabilityModel>::empty()
                        =~= capabilities_view(all_caps@));
                }
            }
            i = i + 1;
        }
        assert(src.params@.take(src.params@.len() as int) =~= src.params@);
        BGPCapabilities { params: all_caps }
    }
}

/// The capabilities a neighbor advertised or that are advertised to it.
#[derive(Debug, Clone)]
pub struct Capabilities {
    pub multiprotocol: Option<Vec<AddressFamily>>,
    pub route_refresh: bool,
    pub outbound_route_filtering: bool,
    pub extended_next_hop_encoding: bool,
    pub graceful_restart: bool,
    pub four_octect_asn: Option<u32>,
}

/// The model of a neighbor's capabilities.
pub struct CapabilitiesModel {
    pub multiprotocol: Option<Seq<AddressFamily>>,
    pub route_refresh: bool,
    pub outbound_route_filtering: bool,
    pub extended_next_hop_encoding: bool,
    pub graceful_restart: bool,
    pub four_octect_asn: Option<u32>,
}

impl View for Capabilities {
    type V = CapabilitiesModel;

    open spec fn view(&self) -> CapabilitiesModel {
        CapabilitiesModel {
            multiprotocol: match self.multiprotocol {
                Some(v) => Some(v@),
                None => None,
            },
            route_refresh: self.route_refresh,
            outbound_route_filtering: self.outbound_route_filtering,
            extended_next_hop_encoding: self.extended_next_hop_encoding,
            graceful_restart: self.graceful_restart,
            four_octect_asn: self.four_octect_asn,
        }
    }
}

impl Default for Capabilities {
    fn default() -> (r: Self)
        ensures
            r@ == no_capabilities(),
    {
        Capabilities {
            multiprotocol: None,
            route_refresh: false,
            outbound_route_filtering: false,
            extended_next_hop_encoding: false,
            graceful_restart: false,
            four_octect_asn: None,
        }
    }
}

/// No capability at all.
pub open spec fn no_capabilities() -> CapabilitiesModel {
    CapabilitiesModel {
        multiprotocol: None,
        route_refresh: false,
        outbound_route_filtering: false,
        extended_next_hop_encoding: false,
        graceful_restart: false,
        four_octect_asn: None,
    }
}

/// `s` without repetitions, each element kept at its first occurrence.
pub open spec fn dedup<T>(s: Seq<T>) -> Seq<T>
    decreases s.len(),
{
    if s.len() == 0 {
        Seq::empty()
    } else {
        let d = dedup(s.drop_last());
        if d.contains(s.last()) {
            d
        } else {
            d.push(s.last())
        }
    }
}

/// The address family announced by a multiprotocol capability value.
pub open spec fn multiprotocol_family(v: Seq<u8>) -> AddressFamily {
    AddressFamily {
        afi: afi_from_code(be_value(v.subrange(0, 2)) as u16).unwrap(),
        safi: safi_from_code(v[3]).unwrap(),
    }
}

/// A capability can be taken in: a multiprotocol capability announces
/// four octets naming a known family, a four-octet AS capability announces
/// and holds four octets.
pub open spec fn capability_acceptable(c: CapabilityModel) -> bool {
    match c.capability_code {
        BGPCapabilityCode::Multiprotocol => c.capability_length == 4 && c.capability_value.len()
            >= 4 && afi_from_code(be_value(c.capability_value.subrange(0, 2)) as u16) is Some
            && safi_from_code(c.capability_value[3]) is Some,
        BGPCapabilityCode::FourOctectASN => c.capability_length == 4
            && c.capability_value.len() == 4,
        _ => true,
    }
}

/// Takes in one capability.
pub open spec fn apply_capability(m: CapabilitiesModel, c: CapabilityModel) -> CapabilitiesModel {
    match c.capability_code {
        BGPCapabilityCode::Multiprotocol => CapabilitiesModel {
            multiprotocol: Some(
                m.multiprotocol.unwrap_or(Seq::empty()).push(
                    multiprotocol_family(c.capability_value),
                ),
            ),
            ..m
        },
        BGPCapabilityCode::RouteRefresh => CapabilitiesModel { route_refresh: true, ..m },
        BGPCapabilityCode::ExtendedNextHopEncoding => CapabilitiesModel {
            extended_next_hop_encoding: true,
            ..m
        },
        BGPCapabilityCode::OutboundRouteFiltering => CapabilitiesModel {
            outbound_route_filtering: true,
            ..m
        },
        BGPCapabilityCode::GracefulRestart => CapabilitiesModel { graceful_restart: true, ..m },
        BGPCapabilityCode::FourOctectASN => CapabilitiesModel {
            four_octect_asn: Some(be_value(c.capability_value) as u32),
            ..m
        },
        _ => m,
    }
}

/// Takes in all capabilities in order, starting from none, collecting the
/// families of multiprotocol capabilities.
pub open spec fn fold_capabilities(caps: Seq<CapabilityModel>) -> CapabilitiesModel
    decreases caps.len(),
{
    if caps.len() == 0 {
        CapabilitiesModel { multiprotocol: Some(Seq::empty()), ..no_capabilities() }
    } else {
        apply_capability(fold_capabilities(caps.drop_last()), caps.last())
    }
}

/// The capabilities of a neighbor from those received: the multiprotocol
/// families without repetitions, the flags of the others, the last four
/// octet AS number.
pub open spec fn capabilities_from(caps: Seq<CapabilityModel>) -> CapabilitiesModel {
    let f = fold_capabilities(caps);
    CapabilitiesModel { multiprotocol: Some(dedup(f.multiprotocol.unwrap())), ..f }
}

proof fn lemma_fold_has_families(caps: Seq<CapabilityModel>)
    ensures
        fold_capabilities(caps).multiprotocol is Some,
    decreases caps.len(),
{
    if caps.len() > 0 {
        lemma_fold_has_families(caps.drop_last());
    }
}

/// Removes repetitions from `v`, keeping first occurrences.
fn dedup_families(v: &Vec<AddressFamily>) -> (r: Vec<AddressFamily>)
    ensures
        r@ == dedup(v@),
{
    let mut r: Vec<AddressFamily> = Vec::new();
    let mut i: usize = 0;
    while i < v.len()
        invariant
            i <= v.len(),
            r@ == dedup(v@.take(i as int)),
        decreases v.len() - i,
    {
        let x = v[i];
        let mut found = false;
        let mut j: usize = 0;
        while j < r.len()
            invariant
                j <= r.len(),
                found <==> exists|k: int| 0 <= k < j && #[trigger] r@[k] == x,
            decreases r.len() - j,
        {
            if r[j] == x {
                found = true;
            }
            j = j + 1;
        }
        proof {
            assert(v@.take(i + 1).drop_last() =~= v@.take(i as int));
            assert(v@.take(i + 1).last() == x);
        }
        if !found {
            r.push(x);
        }
        i = i + 1;
    }
    assert(v@.take(v@.len() as int) =~= v@);
    r
}

impl Capabilities {
    /// The capabilities of a neighbor from the capabilities it sent.
    /// Multiprotocol capabilities of the wrong length or naming an unknown
    /// family, and four-octet AS capabilities of the wrong length, are left
    /// out.
    pub fn from_capabilities(src: &BGPCapabilities) -> (r: Capabilities)
        requires
            forall|i: int|
                0 <= i < src.params@.len() ==> capability_acceptable(#[trigger] src.params@[i]@),
        ensures
            r@ == capabilities_from(capabilities_view(src.params@)),
    {
        let mut afs: Vec<AddressFamily> = Vec::new();
        let mut route_refresh = false;
        let mut outbound_route_filtering = false;
        let mut extended_next_hop_encoding = false;
        let mut graceful_restart = false;
        let mut four_octect_asn: Option<u32> = None;
        let mut i: usize = 0;
        while i < src.params.len()
            invariant
                i <= src.params.len(),
                forall|k: int|
                    0 <= k < src.params@.len() ==> capability_acceptable(
                        #[trigger] src.params@[k]@,
                    ),
                fold_capabilities(capabilities_view(src.params@.take(i as int))) == (
                CapabilitiesModel {
                    multiprotocol: Some(afs@),
                    route_refresh,
                    outbound_route_filtering,
                    extended_next_hop_encoding,
                    graceful_restart,
                    four_octect_asn,
                }),
            decreases src.params.len() - i,
        {
            let c = &src.params[i];
            proof {
                assert(capabilities_view(src.params@.take(i + 1)).drop_last() =~= capabilities_view(
                    src.params@.take(i as int),
                ));
                assert(capability_acceptable(src.params@[i as int]@));
            }
            match c.capability_code {
                BGPCapabilityCode::Multiprotocol => {
                    let afi = read_u16(c.capability_value.as_slice(), 0);
                    proof {
                        assert(c.capability_value@.subrange(0, 2) =~= c.capability_value@.subrange(
                            0,
                            2,
                        ));
                    }
                    let afi = match Afi::from_u16(afi) {
                        Some(a) => a,
                        None => Afi::Ipv4,
                    };
                    let safi = match Safi::from_u8(c.capability_value[3]) {
                        Some(s) => s,
                        None => Safi::NLRIUnicast,
                    };
                    afs.push(AddressFamily { afi, safi });
                },
                BGPCapabilityCode::RouteRefresh => {
                    route_refresh = true;
                },
                BGPCapabilityCode::ExtendedNextHopEncoding => {
                    extended_next_hop_encoding = true;
                },
                BGPCapabilityCode::OutboundRouteFiltering => {
                    outbound_route_filtering = true;
                },
                BGPCapabilityCode::GracefulRestart => {
                    graceful_restart = true;
                },
                BGPCapabilityCode::FourOctectASN => {
                    let asn = read_u32(c.capability_value.as_slice(), 0);
                    proof {
                        assert(c.capability_value@.subrange(0, 4) =~= c.capability_value@);
                    }
                    four_octect_asn = Some(asn);
                },
                _ => {},
            }
            i = i + 1;
        }
        assert(src.params@.take(src.params@.len() as int) =~= src.params@);
        let families = dedup_families(&afs);
        Capabilities {
            multiprotocol: Some(families),
            route_refresh,
            outbound_route_filtering,
            extended_next_hop_encoding,
            graceful_restart,
            four_octect_asn,
        }
    }
}

impl BGPCapability {
    /// Whether a neighbor's capabilities can take this one in (see
    /// [`capability_acceptable`]).
    pub fn is_acceptable(&self) -> (r: bool)
        ensures
            r == capability_acceptable(self@),
    {
        match self.capability_code {
            BGPCapabilityCode::Multiprotocol => {
                if self.capability_length != 4 || self.capability_value.len() < 4 {
                    return false;
                }
                let afi = read_u16(self.capability_value.as_slice(), 0);
                Afi::from_u16(afi).is_some() && Safi::from_u8(self.capability_value[3]).is_some()
            },
            BGPCapabilityCode::FourOctectASN => self.capability_length == 4
                && self.capability_value.len() == 4,
            _ => true,
        }
    }
}

impl BGPCapabilities {
    /// Whether every capability can be taken in.
    pub fn all_acceptable(&self) -> (r: bool)
        ensures
            r == forall|i: int|
                0 <= i < self.params@.len() ==> capability_acceptable(#[trigger] self.params@[i]@),
    {
        let mut i: usize = 0;
        while i < self.params.len()
            invariant
                i <= self.params.len(),
                forall|k: int| 0 <= k < i ==> capability_acceptable(#[trigger] self.params@[k]@),
            decreases self.params.len() - i,
        {
            if !self.params[i].is_acceptable() {
                return false;
            }
            i = i + 1;
        }
        true
    }
}


/// A parameter is written as it will be read: its announced length is the
/// length of its value, and the two header octets and the value fit in the
/// one-octet count of the parameters field.
pub open spec fn param_canonical(p: OptParamModel) -> bool {
    p.param_length == p.param_value.len() && p.param_value.len() <= 253
}

pub open spec fn params_canonical(ps: Seq<OptParamModel>) -> bool {
    forall|k: int| 0 <= k < ps.len() ==> param_canonical(#[trigger] ps[k])
}

proof fn lemma_opt_param_list_wire_front(ps: Seq<OptParamModel>)
    requires
        ps.len() > 0,
    ensures
        opt_param_list_wire(ps) == opt_param_wire(ps[0]) + opt_param_list_wire(ps.drop_first()),
        params_total_len(ps) == params_total_len(ps.drop_first()) + 2 + ps[0].param_length,
    decreases ps.len(),
{
    if ps.len() == 1 {
        assert(ps.drop_first() =~= Seq::<OptParamModel>::empty());
        assert(ps.drop_last() =~= Seq::<OptParamModel>::empty());
        assert(opt_param_list_wire(ps) =~= opt_param_wire(ps[0]) + opt_param_list_wire(
            ps.drop_first(),
        ));
    } else {
        lemma_opt_param_list_wire_front(ps.drop_last());
        assert(ps.drop_last().drop_first() =~= ps.drop_first().drop_last());
        assert(ps.drop_first().last() == ps.last());
        assert(ps.drop_last()[0] == ps[0]);
        assert(opt_param_list_wire(ps) =~= opt_param_wire(ps[0]) + opt_param_list_wire(
            ps.drop_first(),
        ));
    }
}

#[verifier::spinoff_prover]
proof fn lemma_parse_param_list_wire(
    s: Seq<u8>,
    i: int,
    used: int,
    len: int,
    ps: Seq<OptParamModel>,
)
    requires
        0 <= i,
        0 <= used,
        params_canonical(ps),
        len == used + params_total_len(ps),
        len <= 255,
        i + params_total_len(ps) <= s.len(),
        s.subrange(i, i + params_total_len(ps)) == opt_param_list_wire(ps),
    ensures
        parse_param_list(s, i, used, len) == Some((ps, i + params_total_len(ps))),
    decreases ps.len(),
{
    if ps.len() > 0 {
        let p = ps[0];
        let rest = ps.drop_first();
        lemma_opt_param_list_wire_front(ps);
        assert(param_canonical(ps[0]));
        let l = p.param_value.len() as int;
        let end = i + l + 2;
        let w = opt_param_list_wire(ps);
        assert(s[i] == w[0]);
        assert(s[i + 1] == w[1]);
        assert(s[i + 1] == l);
        assert(s.subrange(i, end) =~= opt_param_wire(p));
        assert(opt_param_type_from_code(opt_param_type_code(p.param_type)) == Some(p.param_type));
        assert(opt_param_wire(p).subrange(2, l + 2) =~= p.param_value);
        assert(spec_parse_opt_param(s.subrange(i, end)) == Some(p));
        assert forall|k: int| 0 <= k < rest.len() implies param_canonical(#[trigger] rest[k]) by {
            assert(rest[k] == ps[k + 1]);
        }
        lemma_opt_param_list_wire_len(rest);
        let tr = params_total_len(rest) as int;
        assert forall|k: int| 0 <= k < tr implies #[trigger] s.subrange(end, end + tr)[k]
            == opt_param_list_wire(rest)[k] by {
            assert(s.subrange(end, end + tr)[k] == s[end + k]);
            assert(s[end + k] == w[l + 2 + k]);
        }
        assert(s.subrange(end, end + tr) =~= opt_param_list_wire(rest));
        lemma_parse_param_list_wire(s, end, used + l + 2, len, rest);
        assert(seq![p] + rest =~= ps);
    }
}

/// Optional parameters written from canonical parameters whose count field
/// holds their total length are read back with the same parameters; the
/// length recorded is the position after the last one, one more than the
/// count written.
pub proof fn lemma_opt_params_roundtrip(o: OptParamsModel)
    requires
        params_canonical(o.params),
        o.len == params_total_len(o.params),
        o.len <= 255,
    ensures
        spec_parse_opt_params(opt_params_wire(o)) == Some(
            OptParamsModel { len: (o.len + 1) as usize, params: o.params },
        ),
{
    let s = opt_params_wire(o);
    let t = params_total_len(o.params) as int;
    lemma_opt_param_list_wire_len(o.params);
    assert(s[0] == o.len);
    assert(s.subrange(1, 1 + t) =~= opt_param_list_wire(o.params));
    lemma_parse_param_list_wire(s, 1, 0, t, o.params);
}

proof fn lemma_opt_param_list_wire_len(ps: Seq<OptParamModel>)
    requires
        params_canonical(ps),
    ensures
        opt_param_list_wire(ps).len() == params_total_len(ps),
    decreases ps.len(),
{
    if ps.len() > 0 {
        assert forall|k: int| 0 <= k < ps.drop_last().len() implies param_canonical(
            #[trigger] ps.drop_last()[k],
        ) by {
            assert(ps.drop_last()[k] == ps[k]);
        }
        lemma_opt_param_list_wire_len(ps.drop_last());
        assert(param_canonical(ps[ps.len() - 1]));
    }
}

} // verus!
