//! The BGP messages: OPEN, UPDATE, NOTIFICATION and KEEPALIVE, their wire
//! forms, and whole messages framed with the common header.
use vstd::prelude::*;
use crate::capabilities::{
    lemma_opt_params_roundtrip, capabilities_from, capabilities_in, capabilities_of_params,
    capability_acceptable, capability_code_from_value, capability_code_value, dedup,
    fold_capabilities, multiprotocol_family, spec_capability_from, capability_wire, default_opt_param, multiprotocol_wire, opt_params_view, opt_params_wire,
    params_canonical, params_total_len, spec_parse_opt_params, BGPCapability, BGPCapabilityCode,
    BGPCapabilityMultiprotocol, BGPOptionalParameter, BGPOptionalParameterType,
    BGPOptionalParameters, Capabilities, CapabilityModel, OptParamModel, OptParamsModel,
    params_text,
};
use crate::text::{decimal, dotted_quad, push_decimal, push_dotted_quad, push_str, string_from_chars};
use crate::types::{
    error_code_from_value, error_code_value, AddressFamily, ErrorCode, MessageType, VERSION,
};
use crate::attributes::{
    attribute_reads_back, attribute_wire, attributes_view, attributes_wire, flags_octet,
    lemma_attribute_layout, lemma_attribute_roundtrip, spec_parse_attribute, value_wire, AttributeModel, PathAttribute,
};
use crate::error::{message_error, BgpError};
use crate::nlri::{
    all_valid, decode_prefixes, lemma_parse_prefixes_wire, nlri_afi, nlris_wire, normalized,
    parse_prefixes, prefixes_end, write_nlris, Nlri,
};
use crate::types::{
    is_extended_len, marker_seq, message_type_code, message_type_from_code, spec_is_extended_len,
    validate_message_length, Afi, BgpValidationError, MAX_MESSAGE_LENGTH, MIN_MESSAGE_LENGTH,
};
use crate::codec::{frame_decision, frame_wire, lemma_frame_roundtrip, FrameDecision};
use crate::wire::{
    be_bytes, be_value, copy_range, lemma_be_bytes_len, lemma_be_roundtrip_small, pow256, push_all,
    push_u16, push_u32, read_u16, read_u32,
};

verus! {

/// The header of a message, reduced to its type: the marker and the length
/// are added when the message is framed.
#[derive(Debug, Clone, Copy, PartialEq, Eq, Structural)]
pub struct BGPMessageHeader {
    pub message_type: MessageType,
}

impl Default for BGPMessageHeader {
    fn default() -> (r: Self)
        ensures
            r.message_type == MessageType::Update,
    {
        BGPMessageHeader { message_type: MessageType::default() }
    }
}

/// Builds a [`BGPMessageHeader`] field by field.
pub struct BGPMessageHeaderBuilder {
    pub message_type: Option<MessageType>,
}

impl Default for BGPMessageHeaderBuilder {
    fn default() -> (r: Self)
        ensures
            r.message_type is None,
    {
        BGPMessageHeaderBuilder { message_type: None }
    }
}

impl BGPMessageHeaderBuilder {
    /// Sets the message type.
    pub fn message_type(self, t: MessageType) -> (r: Self)
        ensures
            r.message_type == Some(t),
    {
        BGPMessageHeaderBuilder { message_type: Some(t) }
    }

    /// The header, once the message type has been set.
    pub fn build(&self) -> (r: Result<BGPMessageHeader, String>)
        ensures
            r is Ok <==> self.message_type is Some,
            r matches Ok(h) ==> Some(h.message_type) == self.message_type,
    {
        match self.message_type {
            Some(t) => Ok(BGPMessageHeader { message_type: t }),
            None => Err("`message_type` must be initialized".to_owned()),
        }
    }
}

/// A KEEPALIVE message: it has no body.
#[derive(Debug, Clone, Copy, PartialEq, Eq, Structural)]
pub struct BGPKeepaliveMessage {}

impl Default for BGPKeepaliveMessage {
    fn default() -> (r: Self) {
        BGPKeepaliveMessage {  }
    }
}

/// Builds a [`BGPKeepaliveMessage`].
pub struct BGPKeepaliveMessageBuilder {}

impl Default for BGPKeepaliveMessageBuilder {
    fn default() -> (r: Self) {
        BGPKeepaliveMessageBuilder {  }
    }
}

impl BGPKeepaliveMessageBuilder {
    /// The message; there is nothing to set.
    pub fn build(&self) -> (r: Result<BGPKeepaliveMessage, String>)
        ensures
            r is Ok,
    {
        Ok(BGPKeepaliveMessage {  })
    }
}

impl BGPKeepaliveMessage {
    /// The length of the body.
    pub fn byte_len(&self) -> (r: u16)
        ensures
            r == 0,
    {
        0
    }

    /// A KEEPALIVE message.
    pub fn new() -> (r: Result<BGPKeepaliveMessage, String>)
        ensures
            r is Ok,
    {
        Ok(BGPKeepaliveMessage {  })
    }

    /// The wire form of the body: empty.
    pub fn to_bytes(&self) -> (r: Vec<u8>)
        ensures
            r@ == Seq::<u8>::empty(),
    {
        Vec::new()
    }
}

/// A NOTIFICATION message.
#[derive(Debug, Clone, PartialEq)]
pub struct BGPNotificationMessage {
    pub error_code: ErrorCode,
    pub error_subcode: u8,
    pub data: Vec<u8>,
}

/// The model of a NOTIFICATION message.
pub struct NotificationModel {
    pub error_code: ErrorCode,
    pub error_subcode: u8,
    pub data: Seq<u8>,
}

impl View for BGPNotificationMessage {
    type V = NotificationModel;

    open spec fn view(&self) -> NotificationModel {
        NotificationModel {
            error_code: self.error_code,
            error_subcode: self.error_subcode,
            data: self.data@,
        }
    }
}

/// The wire form of a NOTIFICATION body: code, subcode, data.
pub open spec fn notification_wire(n: NotificationModel) -> Seq<u8> {
    seq![error_code_value(n.error_code), n.error_subcode] + n.data
}

/// Decodes a NOTIFICATION body: a known code and a subcode are needed; the
/// data is not kept.
pub open spec fn spec_parse_notification(s: Seq<u8>) -> Option<NotificationModel> {
    if s.len() < 2 {
        None
    } else {
        match error_code_from_value(s[0]) {
            Some(c) => Some(
                NotificationModel { error_code: c, error_subcode: s[1], data: Seq::empty() },
            ),
            None => None,
        }
    }
}

/// Builds a [`BGPNotificationMessage`] field by field.
pub struct BGPNotificationMessageBuilder {
    pub error_code: Option<ErrorCode>,
    pub error_subcode: Option<u8>,
    pub data: Option<Vec<u8>>,
}

impl Default for BGPNotificationMessageBuilder {
    fn default() -> (r: Self)
        ensures
            r.error_code is None,
            r.error_subcode is None,
            r.data is None,
    {
        BGPNotificationMessageBuilder { error_code: None, error_subcode: None, data: None }
    }
}

impl BGPNotificationMessageBuilder {
    /// Sets the error code.
    pub fn error_code(self, c: ErrorCode) -> (r: Self)
        ensures
            r.error_code == Some(c),
            r.error_subcode == self.error_subcode,
            r.data == self.data,
    {
        BGPNotificationMessageBuilder { error_code: Some(c), ..self }
    }

    /// Sets the error subcode.
    pub fn error_subcode(self, s: u8) -> (r: Self)
        ensures
            r.error_subcode == Some(s),
            r.error_code == self.error_code,
            r.data == self.data,
    {
        BGPNotificationMessageBuilder { error_subcode: Some(s), ..self }
    }

    /// Sets the data.
    pub fn data(self, d: Vec<u8>) -> (r: Self)
        ensures
            r.data == Some(d),
            r.error_code == self.error_code,
            r.error_subcode == self.error_subcode,
    {
        BGPNotificationMessageBuilder { data: Some(d), ..self }
    }

    /// The message, once every field has been set.
    pub fn build(&self) -> (r: Result<BGPNotificationMessage, String>)
        ensures
            r is Ok <==> (self.error_code is Some && self.error_subcode is Some
                && self.data is Some),
            r matches Ok(n) ==> Some(n.error_code) == self.error_code && Some(n.error_subcode)
                == self.error_subcode && n.data@ == self.data.unwrap()@,
    {
        let c = match self.error_code {
            Some(c) => c,
            None => return Err("`error_code` must be initialized".to_owned()),
        };
        let s = match self.error_subcode {
            Some(s) => s,
            None => return Err("`error_subcode` must be initialized".to_owned()),
        };
        let d = match &self.data {
            Some(d) => copy_range(d.as_slice(), 0, d.len()),
            None => return Err("`data` must be initialized".to_owned()),
        };
        proof {
            assert(self.data.unwrap()@.subrange(0, self.data.unwrap()@.len() as int)
                =~= self.data.unwrap()@);
        }
        Ok(BGPNotificationMessage { error_code: c, error_subcode: s, data: d })
    }
}

impl BGPNotificationMessage {
    /// The length of the body: code, subcode and data.
    pub fn byte_len(&self) -> (r: usize)
        requires
            self.data.len() + 2 <= usize::MAX,
        ensures
            r == 2 + self.data.len(),
    {
        2 + self.data.len()
    }

    /// A NOTIFICATION with `code`, subcode `sub` (kept modulo 256) and no
    /// data.
    pub fn new(code: ErrorCode, sub: usize) -> (r: Result<BGPNotificationMessage, String>)
        ensures
            r matches Ok(n) && n@ == (NotificationModel {
                error_code: code,
                error_subcode: (sub % 256) as u8,
                data: Seq::empty(),
            }),
    {
        Ok(
            BGPNotificationMessage {
                error_code: code,
                error_subcode: (sub % 256) as u8,
                data: Vec::new(),
            },
        )
    }

    /// Decodes a NOTIFICATION body; `None` for fewer than two octets or an
    /// unknown error code.
    pub fn parse(src: &[u8]) -> (r: Option<BGPNotificationMessage>)
        ensures
            r is Some <==> spec_parse_notification(src@) is Some,
            r matches Some(n) ==> spec_parse_notification(src@) == Some(n@),
    {
        if src.len() < 2 {
            return None;
        }
        match ErrorCode::from_u8(src[0]) {
            Some(c) => Some(
                BGPNotificationMessage { error_code: c, error_subcode: src[1], data: Vec::new() },
            ),
            None => None,
        }
    }

    /// Decodes a NOTIFICATION body. Bodies shorter than two octets or with
    /// an unknown error code are left out.
    pub fn from_bytes(src: Vec<u8>) -> (r: BGPNotificationMessage)
        requires
            spec_parse_notification(src@) is Some,
        ensures
            spec_parse_notification(src@) == Some(r@),
    {
        match BGPNotificationMessage::parse(src.as_slice()) {
            Some(n) => n,
            None => {
                assert(false);
                BGPNotificationMessage {
                    error_code: ErrorCode::Cease,
                    error_subcode: 0,
                    data: Vec::new(),
                }
            },
        }
    }

    /// Appends the wire form of the body to `buf`.
    pub fn write_to(&self, buf: &mut Vec<u8>)
        ensures
            final(buf)@ == old(buf)@ + notification_wire(self@),
    {
        buf.push(self.error_code.to_u8());
        buf.push(self.error_subcode);
        push_all(buf, self.data.as_slice());
        assert(buf@ =~= old(buf)@ + notification_wire(self@));
    }

    /// The wire form of the body.
    pub fn to_bytes(&self) -> (r: Vec<u8>)
        ensures
            r@ == notification_wire(self@),
    {
        let mut buf: Vec<u8> = Vec::new();
        self.write_to(&mut buf);
        assert(buf@ =~= notification_wire(self@));
        buf
    }
}

/// An OPEN message.
#[derive(Debug, Clone)]
pub struct BGPOpenMessage {
    pub version: u8,
    pub asn: u16,
    pub hold_time: u16,
    pub router_id: u32,
    pub opt_params: BGPOptionalParameters,
}

/// The model of an OPEN message.
pub struct OpenModel {
    pub version: u8,
    pub asn: u16,
    pub hold_time: u16,
    pub router_id: u32,
    pub opt_params: OptParamsModel,
}

impl View for BGPOpenMessage {
    type V = OpenModel;

    open spec fn view(&self) -> OpenModel {
        OpenModel {
            version: self.version,
            asn: self.asn,
            hold_time: self.hold_time,
            router_id: self.router_id,
            opt_params: self.opt_params@,
        }
    }
}

impl Default for BGPOpenMessage {
    fn default() -> (r: Self)
        ensures
            r.version == 0,
            r.asn == 0,
            r.hold_time == 0,
            r.router_id == 0,
            r.opt_params.len == 5,
            opt_params_view(r.opt_params.params@) == seq![default_opt_param()],
    {
        BGPOpenMessage {
            version: 0,
            asn: 0,
            hold_time: 0,
            router_id: 0,
            opt_params: BGPOptionalParameters::default(),
        }
    }
}

/// The wire form of an OPEN body: version, AS number, hold time, router
/// identifier, optional parameters.
pub open spec fn open_wire(m: OpenModel) -> Seq<u8> {
    seq![m.version] + be_bytes(m.asn as nat, 2) + be_bytes(m.hold_time as nat, 2) + be_bytes(
        m.router_id as nat,
        4,
    ) + opt_params_wire(m.opt_params)
}

/// Decodes an OPEN body: nine octets of fixed fields, then the optional
/// parameters (at least their length octet).
pub open spec fn spec_parse_open(s: Seq<u8>) -> Option<OpenModel> {
    if s.len() < 10 {
        None
    } else {
        match spec_parse_opt_params(s.subrange(9, s.len() as int)) {
            Some(o) => Some(
                OpenModel {
                    version: s[0],
                    asn: be_value(s.subrange(1, 3)) as u16,
                    hold_time: be_value(s.subrange(3, 5)) as u16,
                    router_id: be_value(s.subrange(5, 9)) as u32,
                    opt_params: o,
                },
            ),
            None => None,
        }
    }
}

/// The multiprotocol capability announcing the family `f`.
pub open spec fn multiprotocol_capability(f: AddressFamily) -> CapabilityModel {
    CapabilityModel {
        capability_code: BGPCapabilityCode::Multiprotocol,
        capability_length: 4,
        capability_value: multiprotocol_wire(f.afi, f.safi),
    }
}

/// The multiprotocol capabilities announcing `fs`, one after the other.
pub open spec fn families_wire(fs: Seq<AddressFamily>) -> Seq<u8>
    decreases fs.len(),
{
    if fs.len() == 0 {
        Seq::empty()
    } else {
        families_wire(fs.drop_last()) + capability_wire(multiprotocol_capability(fs.last()))
    }
}

/// The optional parameters an OPEN carries for the families of a neighbor:
/// the default parameter where none are given, else one capability
/// parameter with a multiprotocol capability for each family.
pub open spec fn open_params(families: Option<Seq<AddressFamily>>) -> Seq<OptParamModel> {
    match families {
        None => seq![default_opt_param()],
        Some(fs) => seq![
            OptParamModel {
                param_type: BGPOptionalParameterType::Capability,
                param_length: families_wire(fs).len() as usize,
                param_value: families_wire(fs),
            },
        ],
    }
}

/// Each announced family takes six octets.
pub proof fn lemma_families_wire_len(fs: Seq<AddressFamily>)
    ensures
        families_wire(fs).len() == 6 * fs.len(),
    decreases fs.len(),
{
    if fs.len() > 0 {
        lemma_families_wire_len(fs.drop_last());
        lemma_be_bytes_len(0, 2);
        let f = fs.last();
        lemma_be_bytes_len(crate::types::afi_code(f.afi) as nat, 2);
    }
}

/// The text that starts the description of an OPEN message; the optional
/// parameters follow it.
pub open spec fn open_text_head(m: OpenModel) -> Seq<char> {
    "version : "@ + decimal(m.version as nat) + " local_asn : "@ + decimal(m.asn as nat)
        + " hold_time : "@ + decimal(m.hold_time as nat) + " router_id : "@ + dotted_quad(
        m.router_id,
    ) + " opt_params : "@
}

/// Builds a [`BGPOpenMessage`] field by field.
pub struct BGPOpenMessageBuilder {
    pub version: Option<u8>,
    pub asn: Option<u16>,
    pub hold_time: Option<u16>,
    pub router_id: Option<u32>,
    pub opt_params: Option<BGPOptionalParameters>,
}

impl Default for BGPOpenMessageBuilder {
    fn default() -> (r: Self)
        ensures
            r.version is None,
            r.asn is None,
            r.hold_time is None,
            r.router_id is None,
            r.opt_params is None,
    {
        BGPOpenMessageBuilder {
            version: None,
            asn: None,
            hold_time: None,
            router_id: None,
            opt_params: None,
        }
    }
}

impl BGPOpenMessageBuilder {
    /// Sets the version.
    pub fn version(self, v: u8) -> (r: Self)
        ensures
            r.version == Some(v),
            r.asn == self.asn,
            r.hold_time == self.hold_time,
            r.router_id == self.router_id,
            r.opt_params == self.opt_params,
    {
        BGPOpenMessageBuilder { version: Some(v), ..self }
    }

    /// Sets the AS number.
    pub fn asn(self, v: u16) -> (r: Self)
        ensures
            r.asn == Some(v),
            r.version == self.version,
            r.hold_time == self.hold_time,
            r.router_id == self.router_id,
            r.opt_params == self.opt_params,
    {
        BGPOpenMessageBuilder { asn: Some(v), ..self }
    }

    /// Sets the hold time.
    pub fn hold_time(self, v: u16) -> (r: Self)
        ensures
            r.hold_time == Some(v),
            r.version == self.version,
            r.asn == self.asn,
            r.router_id == self.router_id,
            r.opt_params == self.opt_params,
    {
        BGPOpenMessageBuilder { hold_time: Some(v), ..self }
    }

    /// Sets the router identifier.
    pub fn router_id(self, v: u32) -> (r: Self)
        ensures
            r.router_id == Some(v),
            r.version == self.version,
            r.asn == self.asn,
            r.hold_time == self.hold_time,
            r.opt_params == self.opt_params,
    {
        BGPOpenMessageBuilder { router_id: Some(v), ..self }
    }

    /// Sets the optional parameters.
    pub fn opt_params(self, v: BGPOptionalParameters) -> (r: Self)
        ensures
            r.opt_params == Some(v),
            r.version == self.version,
            r.asn == self.asn,
            r.hold_time == self.hold_time,
            r.router_id == self.router_id,
    {
        BGPOpenMessageBuilder { opt_params: Some(v), ..self }
    }

    /// The message, once every field has been set.
    pub fn build(self) -> (r: Result<BGPOpenMessage, String>)
        ensures
            r is Ok <==> (self.version is Some && self.asn is Some && self.hold_time is Some
                && self.router_id is Some && self.opt_params is Some),
            r matches Ok(m) ==> Some(m.version) == self.version && Some(m.asn) == self.asn
                && Some(m.hold_time) == self.hold_time && Some(m.router_id) == self.router_id
                && Some(m.opt_params) == self.opt_params,
    {
        let version = match self.version {
            Some(v) => v,
            None => return Err("`version` must be initialized".to_owned()),
        };
        let asn = match self.asn {
            Some(v) => v,
            None => return Err("`asn` must be initialized".to_owned()),
        };
        let hold_time = match self.hold_time {
            Some(v) => v,
            None => return Err("`hold_time` must be initialized".to_owned()),
        };
        let router_id = match self.router_id {
            Some(v) => v,
            None => return Err("`router_id` must be initialized".to_owned()),
        };
        match self.opt_params {
            Some(opt_params) => Ok(
                BGPOpenMessage { version, asn, hold_time, router_id, opt_params },
            ),
            None => Err("`opt_params` must be initialized".to_owned()),
        }
    }
}

impl BGPOpenMessage {
    /// The length of the message: the optional parameters and twenty
    /// octets.
    pub fn byte_len(&self) -> (r: usize)
        requires
            self.opt_params.len + 20 <= usize::MAX,
        ensures
            r == self.opt_params.len + 20,
    {
        self.opt_params.len + 20
    }

    /// The OPEN this speaker sends: version 4, the given AS number, router
    /// identifier and hold time, and the optional parameters announcing the
    /// families of `capabilities` (see [`open_params`]).
    pub fn new(asn: u16, rid: u32, hold: u16, capabilities: Capabilities) -> (r: Result<
        BGPOpenMessage,
        String,
    >)
        requires
            capabilities.multiprotocol matches Some(v) ==> 6 * v@.len() + 2 <= usize::MAX,
        ensures
            r matches Ok(m) && m.version == VERSION && m.asn == asn && m.hold_time == hold
                && m.router_id == rid && opt_params_view(m.opt_params.params@) == open_params(
                capabilities@.multiprotocol,
            ) && m.opt_params.len == params_total_len(open_params(capabilities@.multiprotocol)),
    {
        let mut params: Vec<BGPOptionalParameter> = Vec::new();
        match &capabilities.multiprotocol {
            None => {
                params.push(BGPOptionalParameter::default());
                proof {
                    assert(opt_params_view(params@) =~= open_params(capabilities@.multiprotocol));
                }
            },
            Some(families) => {
                let mut caps: Vec<u8> = Vec::new();
                let mut i: usize = 0;
                while i < families.len()
                    invariant
                        i <= families.len(),
                        caps@ == families_wire(families@.take(i as int)),
                    decreases families.len() - i,
                {
                    let fam = families[i];
                    let mp = BGPCapabilityMultiprotocol { afi: fam.afi, safi: fam.safi };
                    let mp = mp.to_bytes();
                    proof {
                        lemma_be_bytes_len(crate::types::afi_code(fam.afi) as nat, 2);
                    }
                    let pc = BGPCapability {
                        capability_code: BGPCapabilityCode::Multiprotocol,
                        capability_length: mp.len(),
                        capability_value: mp,
                    };
                    pc.write_to(&mut caps);
                    proof {
                        assert(families@.take(i + 1).drop_last() =~= families@.take(i as int));
                        assert(pc@ == multiprotocol_capability(families@[i as int]));
                    }
                    i = i + 1;
                }
                proof {
                    assert(families@.take(families@.len() as int) =~= families@);
                    lemma_families_wire_len(families@);
                }
                let o = BGPOptionalParameter {
                    param_type: BGPOptionalParameterType::Capability,
                    param_length: caps.len(),
                    param_value: caps,
                };
                params.push(o);
                proof {
                    assert(opt_params_view(params@) =~= open_params(capabilities@.multiprotocol));
                }
            },
        }
        proof {
            reveal_with_fuel(params_total_len, 2);
        }
        let opt = BGPOptionalParameters::new(params);
        BGPOpenMessageBuilder::default().version(VERSION).asn(asn).hold_time(hold).router_id(
            rid,
        ).opt_params(opt).build()
    }

    /// Decodes an OPEN body; `None` where it is shorter than ten octets or
    /// its optional parameters cannot be decoded.
    pub fn parse(src: &[u8]) -> (r: Option<BGPOpenMessage>)
        ensures
            r is Some <==> spec_parse_open(src@) is Some,
            r matches Some(m) ==> spec_parse_open(src@) == Some(m@),
    {
        if src.len() < 10 {
            return None;
        }
        let version = src[0];
        let asn = read_u16(src, 1);
        let hold_time = read_u16(src, 3);
        let router_id = read_u32(src, 5);
        let rest = copy_range(src, 9, src.len());
        match BGPOptionalParameters::parse(rest.as_slice()) {
            Some(opt_params) => Some(
                BGPOpenMessage { version, asn, hold_time, router_id, opt_params },
            ),
            None => None,
        }
    }

    /// Decodes an OPEN body. Bodies that [`BGPOpenMessage::parse`] refuses
    /// are left out.
    pub fn from_bytes(src: Vec<u8>) -> (r: BGPOpenMessage)
        requires
            spec_parse_open(src@) is Some,
        ensures
            spec_parse_open(src@) == Some(r@),
    {
        match BGPOpenMessage::parse(src.as_slice()) {
            Some(m) => m,
            None => {
                assert(false);
                BGPOpenMessage::default()
            },
        }
    }

    /// Appends the wire form of the body to `buf`.
    pub fn write_to(&self, buf: &mut Vec<u8>)
        ensures
            final(buf)@ == old(buf)@ + open_wire(self@),
    {
        buf.push(self.version);
        push_u16(buf, self.asn);
        push_u16(buf, self.hold_time);
        push_u32(buf, self.router_id);
        self.opt_params.write_to(buf);
        assert(buf@ =~= old(buf)@ + open_wire(self@));
    }

    /// The wire form of the body.
    pub fn to_bytes(&self) -> (r: Vec<u8>)
        ensures
            r@ == open_wire(self@),
    {
        let mut buf: Vec<u8> = Vec::new();
        self.write_to(&mut buf);
        assert(buf@ =~= open_wire(self@));
        buf
    }

    /// A description of the message: its fields, the router identifier in
    /// dotted-quad form, then the text of the optional parameters.
    pub fn message(&self) -> (r: String)
        ensures
            r@ == open_text_head(self@) + params_text(self.opt_params@),
    {
        let mut out: Vec<char> = Vec::new();
        push_str(&mut out, "version : ");
        push_decimal(&mut out, self.version as u64);
        push_str(&mut out, " local_asn : ");
        push_decimal(&mut out, self.asn as u64);
        push_str(&mut out, " hold_time : ");
        push_decimal(&mut out, self.hold_time as u64);
        push_str(&mut out, " router_id : ");
        push_dotted_quad(&mut out, self.router_id);
        push_str(&mut out, " opt_params : ");
        assert(out@ =~= open_text_head(self@));
        self.opt_params.push_text(&mut out);
        string_from_chars(&out)
    }
}

/// An UPDATE message.
#[derive(Debug, Clone, PartialEq)]
pub struct BGPUpdateMessage {
    pub withdrawn_routes: Vec<Nlri>,
    pub path_attributes: Vec<PathAttribute>,
    pub nlri: Vec<Nlri>,
}

/// The model of an UPDATE message.
pub struct UpdateModel {
    pub withdrawn_routes: Seq<Nlri>,
    pub path_attributes: Seq<AttributeModel>,
    pub nlri: Seq<Nlri>,
}

impl View for BGPUpdateMessage {
    type V = UpdateModel;

    open spec fn view(&self) -> UpdateModel {
        UpdateModel {
            withdrawn_routes: self.withdrawn_routes@,
            path_attributes: attributes_view(self.path_attributes@),
            nlri: self.nlri@,
        }
    }
}

/// The UPDATE with nothing in it.
pub open spec fn empty_update() -> UpdateModel {
    UpdateModel {
        withdrawn_routes: Seq::empty(),
        path_attributes: Seq::empty(),
        nlri: Seq::empty(),
    }
}

impl Default for BGPUpdateMessage {
    fn default() -> (r: Self)
        ensures
            r@ == empty_update(),
    {
        let r = BGPUpdateMessage {
            withdrawn_routes: Vec::new(),
            path_attributes: Vec::new(),
            nlri: Vec::new(),
        };
        assert(r@.path_attributes =~= Seq::<AttributeModel>::empty());
        r
    }
}

/// The wire form of an UPDATE body: the length of the withdrawn routes on
/// two octets (modulo 65536), the withdrawn routes, the length of the path
/// attributes likewise, the path attributes, then the announced prefixes.
pub open spec fn update_wire(u: UpdateModel) -> Seq<u8> {
    be_bytes(nlris_wire(u.withdrawn_routes).len() % 65536, 2) + nlris_wire(u.withdrawn_routes)
        + be_bytes(attributes_wire(u.path_attributes).len() % 65536, 2) + attributes_wire(
        u.path_attributes,
    ) + nlris_wire(u.nlri)
}

/// Decodes path attributes from `s` at `j` while fewer than `total` octets
/// of them have been used (`used`); returns them with the position after
/// the last one.
pub open spec fn parse_attribute_list(s: Seq<u8>, j: int, used: int, total: int) -> Option<
    (Seq<AttributeModel>, int),
>
    decreases s.len() - j,
{
    if used >= total {
        Some((Seq::empty(), j))
    } else if j < 0 || j + 3 > s.len() {
        None
    } else {
        let ext = spec_is_extended_len(s[j]);
        let head: int = if ext {
            4
        } else {
            3
        };
        if j + head > s.len() {
            None
        } else {
            let atn: int = if ext {
                be_value(s.subrange(j + 2, j + 4)) as int
            } else {
                s[j + 2] as int
            };
            let e = j + head + atn;
            if e > s.len() {
                None
            } else {
                match spec_parse_attribute(s.subrange(j, e)) {
                    None => None,
                    Some(a) => match parse_attribute_list(s, e, used + head + atn, total) {
                        Some((rest, k)) => Some((seq![a] + rest, k)),
                        None => None,
                    },
                }
            }
        }
    }
}

/// Decodes an UPDATE body: withdrawn IPv4 prefixes, path attributes and
/// announced IPv4 prefixes, each part as long as its length field says
/// (the announced prefixes run to the end).
pub open spec fn spec_parse_update(s: Seq<u8>) -> Option<UpdateModel> {
    if s.len() < 2 {
        None
    } else {
        let wend = 2 + be_value(s.subrange(0, 2)) as int;
        match parse_prefixes(s, 2, wend, Afi::Ipv4) {
            None => None,
            Some(ws) => {
                let i = prefixes_end(s, 2, wend, Afi::Ipv4);
                if i + 2 > s.len() {
                    None
                } else {
                    let total = be_value(s.subrange(i, i + 2)) as int;
                    match parse_attribute_list(s, i + 2, 0, total) {
                        None => None,
                        Some((pa, k)) => match parse_prefixes(s, k, s.len() as int, Afi::Ipv4) {
                            None => None,
                            Some(nl) => Some(
                                UpdateModel { withdrawn_routes: ws, path_attributes: pa, nlri: nl },
                            ),
                        },
                    }
                }
            },
        }
    }
}

/// Builds a [`BGPUpdateMessage`] field by field; a field left unset is
/// empty.
pub struct BGPUpdateMessageBuilder {
    pub withdrawn_routes: Option<Vec<Nlri>>,
    pub path_attributes: Option<Vec<PathAttribute>>,
    pub nlri: Option<Vec<Nlri>>,
}

impl Default for BGPUpdateMessageBuilder {
    fn default() -> (r: Self)
        ensures
            r.withdrawn_routes is None,
            r.path_attributes is None,
            r.nlri is None,
    {
        BGPUpdateMessageBuilder { withdrawn_routes: None, path_attributes: None, nlri: None }
    }
}

impl BGPUpdateMessageBuilder {
    /// Sets the withdrawn routes.
    pub fn withdrawn_routes(self, v: Vec<Nlri>) -> (r: Self)
        ensures
            r.withdrawn_routes == Some(v),
            r.path_attributes == self.path_attributes,
            r.nlri == self.nlri,
    {
        BGPUpdateMessageBuilder { withdrawn_routes: Some(v), ..self }
    }

    /// Sets the path attributes.
    pub fn path_attributes(self, v: Vec<PathAttribute>) -> (r: Self)
        ensures
            r.path_attributes == Some(v),
            r.withdrawn_routes == self.withdrawn_routes,
            r.nlri == self.nlri,
    {
        BGPUpdateMessageBuilder { path_attributes: Some(v), ..self }
    }

    /// Sets the announced prefixes.
    pub fn nlri(self, v: Vec<Nlri>) -> (r: Self)
        ensures
            r.nlri == Some(v),
            r.withdrawn_routes == self.withdrawn_routes,
            r.path_attributes == self.path_attributes,
    {
        BGPUpdateMessageBuilder { nlri: Some(v), ..self }
    }

    /// The message; fields left unset are empty.
    pub fn build(self) -> (r: Result<BGPUpdateMessage, String>)
        ensures
            r matches Ok(u) && u.withdrawn_routes@ == (match self.withdrawn_routes {
                Some(v) => v@,
                None => Seq::empty(),
            }) && u.path_attributes@ == (match self.path_attributes {
                Some(v) => v@,
                None => Seq::empty(),
            }) && u.nlri@ == (match self.nlri {
                Some(v) => v@,
                None => Seq::empty(),
            }),
    {
        let withdrawn_routes = match self.withdrawn_routes {
            Some(v) => v,
            None => Vec::new(),
        };
        let path_attributes = match self.path_attributes {
            Some(v) => v,
            None => Vec::new(),
        };
        let nlri = match self.nlri {
            Some(v) => v,
            None => Vec::new(),
        };
        Ok(BGPUpdateMessage { withdrawn_routes, path_attributes, nlri })
    }
}

/// Decodes path attributes from `s` at `start`, `total` octets of them.
fn decode_attribute_list(s: &[u8], start: usize, total: usize) -> (r: Option<
    (Vec<PathAttribute>, usize),
>)
    requires
        start <= s.len(),
        total <= 65535,
    ensures
        r is Some <==> parse_attribute_list(s@, start as int, 0, total as int) is Some,
        r matches Some((v, k)) ==> parse_attribute_list(s@, start as int, 0, total as int) == Some(
            (attributes_view(v@), k as int),
        ),
{
    let mut out: Vec<PathAttribute> = Vec::new();
    let mut used: usize = 0;
    let mut j: usize = start;
    while used < total
        invariant
            j <= s.len(),
            total <= 65535,
            used < 65535 + 65540,
            parse_attribute_list(s@, start as int, 0, total as int) is Some <==> parse_attribute_list(
                s@,
                j as int,
                used as int,
                total as int,
            ) is Some,
            parse_attribute_list(s@, start as int, 0, total as int) is Some ==> ({
                let whole = parse_attribute_list(s@, start as int, 0, total as int).unwrap();
                let part = parse_attribute_list(s@, j as int, used as int, total as int).unwrap();
                whole.0 == attributes_view(out@) + part.0 && whole.1 == part.1
            }),
        decreases s.len() - j,
    {
        if s.len() - j < 3 {
            return None;
        }
        let ext = is_extended_len(s[j]);
        let head: usize = if ext {
            4
        } else {
            3
        };
        if s.len() - j < head {
            return None;
        }
        let atn: usize = if ext {
            read_u16(s, j + 2) as usize
        } else {
            s[j + 2] as usize
        };
        if s.len() - j - head < atn {
            return None;
        }
        let e = j + head + atn;
        let a = match PathAttribute::parse(copy_range(s, j, e).as_slice()) {
            Some(a) => a,
            None => return None,
        };
        proof {
            let rest = parse_attribute_list(s@, e as int, used + head + atn, total as int);
            if rest is Some {
                assert(attributes_view(out@.push(a)) =~= attributes_view(out@).push(a@));
                assert(attributes_view(out@).push(a@) + rest.unwrap().0 =~= attributes_view(out@)
                    + (seq![a@] + rest.unwrap().0));
            }
        }
        out.push(a);
        used = used + head + atn;
        j = e;
    }
    proof {
        assert(attributes_view(out@) + Seq::<AttributeModel>::empty() =~= attributes_view(out@));
    }
    Some((out, j))
}

impl BGPUpdateMessage {
    /// The message can be written: its prefixes fit their family and its
    /// attributes can be written.
    pub open spec fn writable(self) -> bool {
        &&& all_valid(self.withdrawn_routes@)
        &&& all_valid(self.nlri@)
        &&& forall|i: int|
            0 <= i < self.path_attributes@.len() ==> (#[trigger] self.path_attributes@[i]).writable()
    }

    /// The number of withdrawn routes, path attributes and announced
    /// prefixes, plus four.
    pub fn byte_len(&self) -> (r: usize)
        requires
            self.withdrawn_routes.len() + self.path_attributes.len() + self.nlri.len() + 4
                <= usize::MAX,
        ensures
            r == self.withdrawn_routes.len() + self.path_attributes.len() + self.nlri.len() + 4,
    {
        self.withdrawn_routes.len() + self.path_attributes.len() + self.nlri.len() + 4
    }

    /// The empty UPDATE.
    pub fn new() -> (r: Result<BGPUpdateMessage, String>)
        ensures
            r matches Ok(u) && u@ == empty_update(),
    {
        Ok(BGPUpdateMessage::default())
    }

    /// Appends the wire form of the body to `buf`.
    pub fn write_to(&self, buf: &mut Vec<u8>)
        requires
            self.writable(),
        ensures
            final(buf)@ == old(buf)@ + update_wire(self@),
    {
        let mut wd: Vec<u8> = Vec::new();
        write_nlris(&self.withdrawn_routes, &mut wd);
        let mut pa: Vec<u8> = Vec::new();
        let mut i: usize = 0;
        while i < self.path_attributes.len()
            invariant
                i <= self.path_attributes.len(),
                forall|k: int|
                    0 <= k < self.path_attributes@.len() ==> (
                    #[trigger] self.path_attributes@[k]).writable(),
                pa@ == attributes_wire(attributes_view(self.path_attributes@.take(i as int))),
            decreases self.path_attributes.len() - i,
        {
            self.path_attributes[i].write_to(&mut pa);
            proof {
                assert(attributes_view(self.path_attributes@.take(i + 1)).drop_last()
                    =~= attributes_view(self.path_attributes@.take(i as int)));
            }
            i = i + 1;
        }
        proof {
            assert(self.path_attributes@.take(self.path_attributes@.len() as int)
                =~= self.path_attributes@);
        }
        push_u16(buf, (wd.len() % 65536) as u16);
        push_all(buf, wd.as_slice());
        push_u16(buf, (pa.len() % 65536) as u16);
        push_all(buf, pa.as_slice());
        write_nlris(&self.nlri, buf);
        assert(buf@ =~= old(buf)@ + update_wire(self@));
    }

    /// The wire form of the body.
    pub fn to_bytes(&self) -> (r: Vec<u8>)
        requires
            self.writable(),
        ensures
            r@ == update_wire(self@),
    {
        let mut buf: Vec<u8> = Vec::new();
        self.write_to(&mut buf);
        assert(buf@ =~= update_wire(self@));
        buf
    }

    /// Decodes an UPDATE body (see [`spec_parse_update`]); a body that is
    /// truncated, whose length fields run past its end, or that holds a
    /// malformed prefix or attribute is refused.
    pub fn try_from_bytes(src: Vec<u8>) -> (r: Result<BGPUpdateMessage, BgpError>)
        ensures
            r is Ok <==> spec_parse_update(src@) is Some,
            r matches Ok(u) ==> spec_parse_update(src@) == Some(u@),
            r matches Err(e) ==> e is Message,
    {
        let s = src.as_slice();
        if s.len() < 2 {
            return Err(message_error("UPDATE message too short"));
        }
        let wdl = read_u16(s, 0) as usize;
        let (withdrawn_routes, i) = match decode_prefixes(s, 2, 2 + wdl, Afi::Ipv4) {
            Ok(x) => x,
            Err(_) => return Err(message_error("Malformed withdrawn routes")),
        };
        proof {
            assert(i <= s.len()) by {
                lemma_prefixes_end_bound(s@, 2, 2 + wdl, Afi::Ipv4);
            }
        }
        if s.len() - i < 2 {
            return Err(message_error("Missing path attribute length"));
        }
        let total = read_u16(s, i) as usize;
        let (path_attributes, k) = match decode_attribute_list(s, i + 2, total) {
            Some(x) => x,
            None => return Err(message_error("Malformed path attributes")),
        };
        proof {
            assert(k <= s.len()) by {
                lemma_attribute_list_end_bound(s@, i + 2, 0, total as int);
            }
        }
        let (nlri, _) = match decode_prefixes(s, k, s.len(), Afi::Ipv4) {
            Ok(x) => x,
            Err(_) => return Err(message_error("Malformed NLRI")),
        };
        Ok(BGPUpdateMessage { withdrawn_routes, path_attributes, nlri })
    }
}

/// Where decoding prefixes stops lies within the data.
proof fn lemma_prefixes_end_bound(s: Seq<u8>, i: int, end: int, afi: Afi)
    requires
        0 <= i <= s.len(),
    ensures
        i <= prefixes_end(s, i, end, afi) <= s.len(),
    decreases s.len() - i,
{
    if !(i >= end || i >= s.len()) {
        let plen = s[i];
        let e = i + 1 + crate::types::prefix_octets(plen);
        if !(plen > crate::types::max_prefix_len(afi) || e > s.len()) {
            lemma_prefixes_end_bound(s, e, end, afi);
        }
    }
}

/// Where decoding path attributes stops lies within the data.
proof fn lemma_attribute_list_end_bound(s: Seq<u8>, j: int, used: int, total: int)
    requires
        0 <= j <= s.len(),
        parse_attribute_list(s, j, used, total) is Some,
    ensures
        j <= parse_attribute_list(s, j, used, total).unwrap().1 <= s.len(),
    decreases s.len() - j,
{
    if used < total {
        let ext = spec_is_extended_len(s[j]);
        let head: int = if ext {
            4
        } else {
            3
        };
        let atn: int = if ext {
            be_value(s.subrange(j + 2, j + 4)) as int
        } else {
            s[j + 2] as int
        };
        lemma_attribute_list_end_bound(s, j + head + atn, used + head + atn, total);
    }
}

/// The body of a message.
#[derive(Debug, Clone)]
pub enum BGPMessageBody {
    Open(BGPOpenMessage),
    Update(BGPUpdateMessage),
    Notification(BGPNotificationMessage),
    Keepalive(BGPKeepaliveMessage),
}

/// The model of a message body.
pub enum BodyModel {
    Open(OpenModel),
    Update(UpdateModel),
    Notification(NotificationModel),
    Keepalive,
}

impl View for BGPMessageBody {
    type V = BodyModel;

    open spec fn view(&self) -> BodyModel {
        match self {
            BGPMessageBody::Open(m) => BodyModel::Open(m@),
            BGPMessageBody::Update(m) => BodyModel::Update(m@),
            BGPMessageBody::Notification(m) => BodyModel::Notification(m@),
            BGPMessageBody::Keepalive(_) => BodyModel::Keepalive,
        }
    }
}

impl Default for BGPMessageBody {
    fn default() -> (r: Self)
        ensures
            r@ == BodyModel::Keepalive,
    {
        BGPMessageBody::Keepalive(BGPKeepaliveMessage {  })
    }
}

/// The wire form of a body.
pub open spec fn body_wire(b: BodyModel) -> Seq<u8> {
    match b {
        BodyModel::Open(m) => open_wire(m),
        BodyModel::Update(m) => update_wire(m),
        BodyModel::Notification(m) => notification_wire(m),
        BodyModel::Keepalive => Seq::empty(),
    }
}

/// Decodes the body of a message of type `t`; the body of a KEEPALIVE is
/// not looked at.
pub open spec fn spec_parse_body(t: MessageType, s: Seq<u8>) -> Option<BodyModel> {
    match t {
        MessageType::Open => match spec_parse_open(s) {
            Some(m) => Some(BodyModel::Open(m)),
            None => None,
        },
        MessageType::Update => match spec_parse_update(s) {
            Some(m) => Some(BodyModel::Update(m)),
            None => None,
        },
        MessageType::Notification => match spec_parse_notification(s) {
            Some(m) => Some(BodyModel::Notification(m)),
            None => None,
        },
        MessageType::Keepalive => Some(BodyModel::Keepalive),
    }
}

impl BGPMessageBody {
    /// The body can be written.
    pub open spec fn writable(self) -> bool {
        match self {
            BGPMessageBody::Update(m) => m.writable(),
            _ => true,
        }
    }

    /// Appends the wire form of the body to `buf`.
    pub fn write_to(&self, buf: &mut Vec<u8>)
        requires
            self.writable(),
        ensures
            final(buf)@ == old(buf)@ + body_wire(self@),
    {
        match self {
            BGPMessageBody::Open(m) => m.write_to(buf),
            BGPMessageBody::Update(m) => m.write_to(buf),
            BGPMessageBody::Notification(m) => m.write_to(buf),
            BGPMessageBody::Keepalive(_) => {
                assert(buf@ =~= old(buf)@ + body_wire(self@));
            },
        }
    }

    /// The wire form of the body.
    pub fn to_bytes(&self) -> (r: Vec<u8>)
        requires
            self.writable(),
        ensures
            r@ == body_wire(self@),
    {
        let mut buf: Vec<u8> = Vec::new();
        self.write_to(&mut buf);
        assert(buf@ =~= body_wire(self@));
        buf
    }
}

/// A message: its header and its body.
#[derive(Debug, Clone)]
pub struct Message {
    pub header: BGPMessageHeader,
    pub body: BGPMessageBody,
}

/// The model of a message.
pub struct MessageModel {
    pub message_type: MessageType,
    pub body: BodyModel,
}

impl View for Message {
    type V = MessageModel;

    open spec fn view(&self) -> MessageModel {
        MessageModel { message_type: self.header.message_type, body: self.body@ }
    }
}

impl Default for Message {
    fn default() -> (r: Self)
        ensures
            r@ == (MessageModel { message_type: MessageType::Update, body: BodyModel::Keepalive }),
    {
        Message { header: BGPMessageHeader::default(), body: BGPMessageBody::default() }
    }
}

/// The form a message is handed to the framing in: its type octet, then
/// its body. The marker and the length are added by the framing.
pub open spec fn message_wire(m: MessageModel) -> Seq<u8> {
    seq![message_type_code(m.message_type)] + body_wire(m.body)
}

/// What is wrong with the header of a framed message, if anything: it is
/// shorter than a header, its marker is wrong, its length field lies out
/// of bounds or differs from its actual length, or its type is unknown.
pub open spec fn spec_header_error(s: Seq<u8>) -> Option<BgpValidationError> {
    if s.len() < 19 {
        Some(BgpValidationError::MessageTooShort { actual: s.len() as usize, minimum: 19 })
    } else if s.subrange(0, 16) != marker_seq() {
        Some(BgpValidationError::InvalidMarker)
    } else {
        let length = be_value(s.subrange(16, 18));
        if length < 19 {
            Some(BgpValidationError::MessageTooShort { actual: length as usize, minimum: 19 })
        } else if length > 4096 {
            Some(BgpValidationError::MessageTooLong { actual: length as usize, maximum: 4096 })
        } else if length != s.len() {
            Some(
                BgpValidationError::InvalidBufferBounds {
                    offset: 0,
                    length: length as usize,
                    buffer_size: s.len() as usize,
                },
            )
        } else if message_type_from_code(s[18]) is None {
            Some(BgpValidationError::InvalidMessageType(s[18]))
        } else {
            None
        }
    }
}

/// Decodes a framed message whose header is sound.
pub open spec fn spec_parse_message(s: Seq<u8>) -> Option<MessageModel> {
    let t = message_type_from_code(s[18]).unwrap();
    match spec_parse_body(t, s.subrange(19, s.len() as int)) {
        Some(b) => Some(MessageModel { message_type: t, body: b }),
        None => None,
    }
}

/// Builds a [`Message`] field by field.
pub struct MessageBuilder {
    pub header: Option<BGPMessageHeader>,
    pub body: Option<BGPMessageBody>,
}

impl Default for MessageBuilder {
    fn default() -> (r: Self)
        ensures
            r.header is None,
            r.body is None,
    {
        MessageBuilder { header: None, body: None }
    }
}

impl MessageBuilder {
    /// Sets the header.
    pub fn header(self, h: BGPMessageHeader) -> (r: Self)
        ensures
            r.header == Some(h),
            r.body == self.body,
    {
        MessageBuilder { header: Some(h), ..self }
    }

    /// Sets the body.
    pub fn body(self, b: BGPMessageBody) -> (r: Self)
        ensures
            r.body == Some(b),
            r.header == self.header,
    {
        MessageBuilder { body: Some(b), ..self }
    }

    /// The message, once the header and the body have been set.
    pub fn build(self) -> (r: Result<Message, String>)
        ensures
            r is Ok <==> (self.header is Some && self.body is Some),
            r matches Ok(m) ==> Some(m.header) == self.header && Some(m.body) == self.body,
    {
        let header = match self.header {
            Some(h) => h,
            None => return Err("`header` must be initialized".to_owned()),
        };
        match self.body {
            Some(body) => Ok(Message { header, body }),
            None => Err("`body` must be initialized".to_owned()),
        }
    }
}

impl Message {
    /// A message of type `mtype` with `body`; the two are not checked
    /// against each other.
    pub fn new(mtype: MessageType, body: BGPMessageBody) -> (r: Result<Message, BgpError>)
        ensures
            r matches Ok(m) && m.header.message_type == mtype && m.body == body,
    {
        let header = BGPMessageHeaderBuilder::default().message_type(mtype);
        let header = match header.build() {
            Ok(h) => h,
            Err(_) => return Err(message_error("`message_type` must be initialized")),
        };
        match MessageBuilder::default().header(header).body(body).build() {
            Ok(m) => Ok(m),
            Err(_) => Err(message_error("`body` must be initialized")),
        }
    }

    /// The type octet followed by the wire form of the body.
    pub fn to_bytes(&self) -> (r: Vec<u8>)
        requires
            self.body.writable(),
        ensures
            r@ == message_wire(self@),
    {
        let mut buf: Vec<u8> = Vec::new();
        buf.push(self.header.message_type.to_u8());
        self.body.write_to(&mut buf);
        assert(buf@ =~= message_wire(self@));
        buf
    }

    /// Decodes a framed message: marker, length, type, body. A header fault
    /// (see [`spec_header_error`]) is answered with the validation error it
    /// names; a body that cannot be decoded with a message error.
    pub fn try_from_bytes(src: Vec<u8>) -> (r: Result<Message, BgpError>)
        ensures
            spec_header_error(src@) matches Some(e) ==> (r matches Err(BgpError::Validation(e2))
                && e2 == e),
            spec_header_error(src@) is None ==> (r is Ok <==> spec_parse_message(src@) is Some),
            r matches Ok(m) ==> spec_parse_message(src@) == Some(m@),
            spec_header_error(src@) is None && spec_parse_message(src@) is None ==> (r matches Err(
                e,
            ) && e is Message),
    {
        let s = src.as_slice();
        if s.len() < MIN_MESSAGE_LENGTH {
            return Err(
                BgpError::Validation(
                    BgpValidationError::MessageTooShort {
                        actual: s.len(),
                        minimum: MIN_MESSAGE_LENGTH,
                    },
                ),
            );
        }
        let mut i: usize = 0;
        while i < 16
            invariant
                i <= 16,
                s@ == src@,
                s@.len() >= 19,
                forall|k: int| 0 <= k < i ==> s@[k] == 0xffu8,
            decreases 16 - i,
        {
            if s[i] != 0xff {
                proof {
                    assert(s@.subrange(0, 16)[i as int] != marker_seq()[i as int]);
                }
                return Err(BgpError::Validation(BgpValidationError::InvalidMarker));
            }
            i = i + 1;
        }
        assert(s@.subrange(0, 16) =~= marker_seq());
        let length = read_u16(s, 16) as usize;
        match validate_message_length(length) {
            Ok(()) => {},
            Err(e) => return Err(BgpError::Validation(e)),
        }
        if length != s.len() {
            return Err(
                BgpError::Validation(
                    BgpValidationError::InvalidBufferBounds {
                        offset: 0,
                        length,
                        buffer_size: s.len(),
                    },
                ),
            );
        }
        let t = match MessageType::from_u8(s[18]) {
            Some(t) => t,
            None => return Err(BgpError::Validation(BgpValidationError::InvalidMessageType(s[18]))),
        };
        let rest = copy_range(s, 19, s.len());
        let body = match t {
            MessageType::Open => match BGPOpenMessage::parse(rest.as_slice()) {
                Some(m) => BGPMessageBody::Open(m),
                None => return Err(message_error("Malformed OPEN message")),
            },
            MessageType::Update => match BGPUpdateMessage::try_from_bytes(rest) {
                Ok(m) => BGPMessageBody::Update(m),
                Err(_) => return Err(message_error("Malformed UPDATE message")),
            },
            MessageType::Notification => match BGPNotificationMessage::parse(rest.as_slice()) {
                Some(m) => BGPMessageBody::Notification(m),
                None => return Err(message_error("Malformed NOTIFICATION message")),
            },
            MessageType::Keepalive => BGPMessageBody::Keepalive(BGPKeepaliveMessage {  }),
        };
        Ok(Message { header: BGPMessageHeader { message_type: t }, body })
    }
}


/// A NOTIFICATION is read back with its code and subcode; the data it
/// carried is not kept.
pub proof fn lemma_notification_roundtrip(n: NotificationModel)
    ensures
        spec_parse_notification(notification_wire(n)) == Some(
            NotificationModel {
                error_code: n.error_code,
                error_subcode: n.error_subcode,
                data: Seq::empty(),
            },
        ),
{
    let s = notification_wire(n);
    assert(s[0] == error_code_value(n.error_code));
    assert(s[1] == n.error_subcode);
}

/// A message written and framed is read back whole: the header of the frame
/// is sound and decodes to the message, provided the frame fits the length
/// limit and the body decodes back to itself.
pub proof fn lemma_message_roundtrip(m: MessageModel)
    requires
        body_wire(m.body).len() + 19 <= 4096,
        spec_parse_body(m.message_type, body_wire(m.body)) == Some(m.body),
    ensures
        spec_header_error(frame_wire(message_wire(m))) is None,
        spec_parse_message(frame_wire(message_wire(m))) == Some(m),
{
    let data = message_wire(m);
    let s = frame_wire(data);
    let n = (data.len() + 18) as nat;
    lemma_be_bytes_len(n, 2);
    assert(pow256(2) == 65536) by {
        reveal_with_fuel(pow256, 3);
    }
    lemma_be_roundtrip_small(n, 2);
    assert(s.subrange(0, 16) =~= marker_seq());
    assert(s.subrange(16, 18) =~= be_bytes(n, 2));
    assert(s.len() == n);
    assert(s[18] == message_type_code(m.message_type));
    assert(message_type_from_code(message_type_code(m.message_type)) == Some(m.message_type));
    assert(s.subrange(19, s.len() as int) =~= body_wire(m.body));
}

/// An OPEN message whose optional parameters are canonical and whose count
/// field holds their total length is read back with the same fields and
/// parameters; the parameters' recorded length is one more than the count
/// written.
#[verifier::spinoff_prover]
pub proof fn lemma_open_roundtrip(m: OpenModel)
    requires
        params_canonical(m.opt_params.params),
        m.opt_params.len == params_total_len(m.opt_params.params),
        m.opt_params.len <= 255,
    ensures
        spec_parse_open(open_wire(m)) == Some(
            OpenModel {
                version: m.version,
                asn: m.asn,
                hold_time: m.hold_time,
                router_id: m.router_id,
                opt_params: OptParamsModel {
                    len: (m.opt_params.len + 1) as usize,
                    params: m.opt_params.params,
                },
            },
        ),
{
    let s = open_wire(m);
    lemma_opt_params_roundtrip(m.opt_params);
    lemma_be_bytes_len(m.asn as nat, 2);
    lemma_be_bytes_len(m.hold_time as nat, 2);
    lemma_be_bytes_len(m.router_id as nat, 4);
    assert(pow256(2) == 65536) by {
        reveal_with_fuel(pow256, 3);
    }
    assert(pow256(4) == 0x1_0000_0000) by {
        reveal_with_fuel(pow256, 5);
    }
    lemma_be_roundtrip_small(m.asn as nat, 2);
    lemma_be_roundtrip_small(m.hold_time as nat, 2);
    lemma_be_roundtrip_small(m.router_id as nat, 4);
    assert(s.subrange(1, 3) =~= be_bytes(m.asn as nat, 2));
    assert(s.subrange(3, 5) =~= be_bytes(m.hold_time as nat, 2));
    assert(s.subrange(5, 9) =~= be_bytes(m.router_id as nat, 4));
    assert(s.subrange(9, s.len() as int) =~= opt_params_wire(m.opt_params));
}

/// The OPEN this speaker sends (see [`BGPOpenMessage::new`]) for at most
/// forty-two families, or for none, is read back by its neighbor with the
/// same fields and parameters.
pub proof fn lemma_sent_open_roundtrip(
    asn: u16,
    rid: u32,
    hold: u16,
    families: Option<Seq<AddressFamily>>,
)
    requires
        families matches Some(fs) ==> fs.len() <= 42,
    ensures
        ({
            let params = open_params(families);
            let t = params_total_len(params);
            let m = OpenModel {
                version: VERSION,
                asn,
                hold_time: hold,
                router_id: rid,
                opt_params: OptParamsModel { len: t as usize, params },
            };
            spec_parse_open(open_wire(m)) == Some(
                OpenModel {
                    version: VERSION,
                    asn,
                    hold_time: hold,
                    router_id: rid,
                    opt_params: OptParamsModel { len: (t + 1) as usize, params },
                },
            )
        }),
{
    let params = open_params(families);
    reveal_with_fuel(params_total_len, 2);
    match families {
        Some(fs) => lemma_families_wire_len(fs),
        None => {},
    }
    assert(params_canonical(params));
    let t = params_total_len(params);
    let m = OpenModel {
        version: VERSION,
        asn,
        hold_time: hold,
        router_id: rid,
        opt_params: OptParamsModel { len: t as usize, params },
    };
    lemma_open_roundtrip(m);
}

proof fn lemma_attributes_wire_front(s: Seq<AttributeModel>)
    requires
        s.len() > 0,
    ensures
        attributes_wire(s) == attribute_wire(s[0]) + attributes_wire(s.drop_first()),
    decreases s.len(),
{
    if s.len() == 1 {
        assert(s.drop_first() =~= Seq::<AttributeModel>::empty());
        assert(s.drop_last() =~= Seq::<AttributeModel>::empty());
        assert(attributes_wire(s) =~= attribute_wire(s[0]) + attributes_wire(s.drop_first()));
    } else {
        lemma_attributes_wire_front(s.drop_last());
        assert(s.drop_last().drop_first() =~= s.drop_first().drop_last());
        assert(s.drop_first().last() == s.last());
        assert(s.drop_last()[0] == s[0]);
        assert(attributes_wire(s) =~= attribute_wire(s[0]) + attributes_wire(s.drop_first()));
    }
}

/// The octets of an attribute that reads back, written at `j` in `s`: a
/// flags octet without the extended length bit, the value length, and an
/// attribute that decodes to it.
proof fn lemma_attribute_at(s: Seq<u8>, j: int, a: AttributeModel)
    requires
        0 <= j,
        attribute_reads_back(a),
        j + attribute_wire(a).len() <= s.len(),
        s.subrange(j, j + attribute_wire(a).len()) == attribute_wire(a),
    ensures
        ({
            let h: int = if a.extended_length {
                4
            } else {
                3
            };
            let l = value_wire(a.value).len() as int;
            &&& attribute_wire(a).len() == h + l
            &&& spec_is_extended_len(s[j]) == a.extended_length
            &&& (a.extended_length ==> be_value(s.subrange(j + 2, j + 4)) == l)
            &&& (!a.extended_length ==> s[j + 2] == l)
            &&& spec_parse_attribute(s.subrange(j, j + h + l)) == Some(a)
        }),
{
    let aw = attribute_wire(a);
    lemma_attribute_roundtrip(a);
    lemma_attribute_layout(a);
    assert(s[j] == s.subrange(j, j + aw.len())[0]);
    assert(s[j + 2] == s.subrange(j, j + aw.len())[2]);
    if a.extended_length {
        assert(s.subrange(j + 2, j + 4) =~= aw.subrange(2, 4));
    }
}

/// Attributes that read back, written one after the other wherever they
/// stand in `s`, are read back as a list, up to the count of octets that
/// the list takes.
#[verifier::spinoff_prover]
proof fn lemma_parse_attribute_list_wire(s: Seq<u8>, j: int, used: int, pa: Seq<AttributeModel>)
    requires
        0 <= j,
        forall|k: int| 0 <= k < pa.len() ==> attribute_reads_back(#[trigger] pa[k]),
        j + attributes_wire(pa).len() <= s.len(),
        s.subrange(j, j + attributes_wire(pa).len()) == attributes_wire(pa),
    ensures
        parse_attribute_list(s, j, used, used + attributes_wire(pa).len()) == Some(
            (pa, j + attributes_wire(pa).len()),
        ),
    decreases pa.len(),
{
    let w = attributes_wire(pa);
    if pa.len() > 0 {
        let a = pa[0];
        let rest = pa.drop_first();
        assert(attribute_reads_back(a));
        lemma_attributes_wire_front(pa);
        let aw = attribute_wire(a);
        let wr = attributes_wire(rest);
        assert(s.subrange(j, j + aw.len()) =~= w.subrange(0, aw.len() as int));
        assert(w.subrange(0, aw.len() as int) =~= aw);
        lemma_attribute_at(s, j, a);
        let e = j + aw.len();
        assert(s.subrange(e, e + wr.len()) =~= w.subrange(aw.len() as int, w.len() as int));
        assert(w.subrange(aw.len() as int, w.len() as int) =~= wr);
        assert forall|k: int| 0 <= k < rest.len() implies attribute_reads_back(#[trigger] rest[k]) by {
            assert(rest[k] == pa[k + 1]);
        }
        lemma_parse_attribute_list_wire(s, e, used + aw.len(), rest);
        assert(seq![a] + rest =~= pa);
    }
}

/// An UPDATE is written so that it reads back: its prefixes are IPv4
/// prefixes of valid length, its attributes read back, and the withdrawn
/// routes and the attributes each fit their two-octet length field.
pub open spec fn update_reads_back(u: UpdateModel) -> bool {
    &&& forall|k: int|
        0 <= k < u.withdrawn_routes.len() ==> (#[trigger] u.withdrawn_routes[k]).valid()
            && nlri_afi(u.withdrawn_routes[k]) == Afi::Ipv4
    &&& forall|k: int|
        0 <= k < u.nlri.len() ==> (#[trigger] u.nlri[k]).valid() && nlri_afi(u.nlri[k])
            == Afi::Ipv4
    &&& forall|k: int|
        0 <= k < u.path_attributes.len() ==> attribute_reads_back(#[trigger] u.path_attributes[k])
    &&& nlris_wire(u.withdrawn_routes).len() < 65536
    &&& attributes_wire(u.path_attributes).len() < 65536
}

/// Where the parts of an UPDATE stand in its wire form.
/// Where the parts lie in two length-prefixed blocks followed by a tail.
#[verifier::spinoff_prover]
proof fn lemma_prefixed_blocks_layout(ww: Seq<u8>, aw: Seq<u8>, nw: Seq<u8>)
    requires
        ww.len() < 65536,
        aw.len() < 65536,
    ensures
        ({
            let s = be_bytes(ww.len() % 65536, 2) + ww + be_bytes(aw.len() % 65536, 2) + aw + nw;
            let wl = ww.len() as int;
            let al = aw.len() as int;
            let nl = nw.len() as int;
            &&& s.len() == 4 + wl + al + nl
            &&& be_value(s.subrange(0, 2)) == wl
            &&& s.subrange(2, 2 + wl) == ww
            &&& be_value(s.subrange(2 + wl, 4 + wl)) == al
            &&& s.subrange(4 + wl, 4 + wl + al) == aw
            &&& s.subrange(4 + wl + al, 4 + wl + al + nl) == nw
        }),
{
    let hw = be_bytes(ww.len() % 65536, 2);
    let ha = be_bytes(aw.len() % 65536, 2);
    let s = hw + ww + ha + aw + nw;
    let wl = ww.len() as int;
    let al = aw.len() as int;
    lemma_be_bytes_len(ww.len() % 65536, 2);
    lemma_be_bytes_len(aw.len() % 65536, 2);
    assert(pow256(2) == 65536) by {
        reveal_with_fuel(pow256, 3);
    }
    assert(ww.len() % 65536 == ww.len());
    assert(aw.len() % 65536 == aw.len());
    lemma_be_roundtrip_small(ww.len(), 2);
    lemma_be_roundtrip_small(aw.len(), 2);
    assert(s.subrange(0, 2) =~= hw);
    assert(s.subrange(2, 2 + wl) =~= ww);
    assert(s.subrange(2 + wl, 4 + wl) =~= ha);
    assert(s.subrange(4 + wl, 4 + wl + al) =~= aw);
    assert(s.subrange(4 + wl + al, s.len() as int) =~= nw);
}

#[verifier::spinoff_prover]
proof fn lemma_update_wire_layout(u: UpdateModel)
    requires
        nlris_wire(u.withdrawn_routes).len() < 65536,
        attributes_wire(u.path_attributes).len() < 65536,
    ensures
        ({
            let s = update_wire(u);
            let wl = nlris_wire(u.withdrawn_routes).len() as int;
            let al = attributes_wire(u.path_attributes).len() as int;
            let nl = nlris_wire(u.nlri).len() as int;
            &&& s.len() == 4 + wl + al + nl
            &&& be_value(s.subrange(0, 2)) == wl
            &&& s.subrange(2, 2 + wl) == nlris_wire(u.withdrawn_routes)
            &&& be_value(s.subrange(2 + wl, 4 + wl)) == al
            &&& s.subrange(4 + wl, 4 + wl + al) == attributes_wire(u.path_attributes)
            &&& s.subrange(4 + wl + al, 4 + wl + al + nl) == nlris_wire(u.nlri)
        }),
{
    lemma_prefixed_blocks_layout(
        nlris_wire(u.withdrawn_routes),
        attributes_wire(u.path_attributes),
        nlris_wire(u.nlri),
    );
}

/// An UPDATE written as [`update_reads_back`] asks is read back with the
/// same attributes and its prefixes as their networks.
#[verifier::spinoff_prover]
pub proof fn lemma_update_roundtrip(u: UpdateModel)
    requires
        update_reads_back(u),
    ensures
        spec_parse_update(update_wire(u)) == Some(
            UpdateModel {
                withdrawn_routes: u.withdrawn_routes.map_values(|n: Nlri| normalized(n)),
                path_attributes: u.path_attributes,
                nlri: u.nlri.map_values(|n: Nlri| normalized(n)),
            },
        ),
{
    let s = update_wire(u);
    let wl = nlris_wire(u.withdrawn_routes).len() as int;
    let al = attributes_wire(u.path_attributes).len() as int;
    let nl = nlris_wire(u.nlri).len() as int;
    lemma_update_wire_layout(u);
    let i = 2 + wl;
    let j = i + 2;
    let k = j + al;
    lemma_parse_prefixes_wire(s, 2, Afi::Ipv4, u.withdrawn_routes);
    lemma_parse_attribute_list_wire(s, j, 0, u.path_attributes);
    lemma_parse_prefixes_wire(s, k, Afi::Ipv4, u.nlri);
    assert(parse_prefixes(s, 2, i, Afi::Ipv4) == Some(
        u.withdrawn_routes.map_values(|n: Nlri| normalized(n)),
    ));
    assert(prefixes_end(s, 2, i, Afi::Ipv4) == i);
    assert(parse_attribute_list(s, j, 0, al) == Some((u.path_attributes, k)));
    assert(parse_prefixes(s, k, s.len() as int, Afi::Ipv4) == Some(
        u.nlri.map_values(|n: Nlri| normalized(n)),
    ));
}

proof fn lemma_families_wire_front(fs: Seq<AddressFamily>)
    requires
        fs.len() > 0,
    ensures
        families_wire(fs) == capability_wire(multiprotocol_capability(fs[0])) + families_wire(
            fs.drop_first(),
        ),
    decreases fs.len(),
{
    if fs.len() == 1 {
        assert(fs.drop_first() =~= Seq::<AddressFamily>::empty());
        assert(fs.drop_last() =~= Seq::<AddressFamily>::empty());
        assert(families_wire(fs) =~= capability_wire(multiprotocol_capability(fs[0]))
            + families_wire(fs.drop_first()));
    } else {
        lemma_families_wire_front(fs.drop_last());
        assert(fs.drop_last().drop_first() =~= fs.drop_first().drop_last());
        assert(fs.drop_first().last() == fs.last());
        assert(fs.drop_last()[0] == fs[0]);
        assert(families_wire(fs) =~= capability_wire(multiprotocol_capability(fs[0]))
            + families_wire(fs.drop_first()));
    }
}

/// The multiprotocol capabilities announcing `fs`, written from `offset`
/// to the end of `data`, are read back one by one.
#[verifier::spinoff_prover]
proof fn lemma_capabilities_in_families(data: Seq<u8>, offset: int, fs: Seq<AddressFamily>)
    requires
        0 <= offset <= data.len(),
        data.subrange(offset, data.len() as int) == families_wire(fs),
    ensures
        capabilities_in(data, offset) == fs.map_values(
            |f: AddressFamily| multiprotocol_capability(f),
        ),
    decreases fs.len(),
{
    lemma_families_wire_len(fs);
    if fs.len() == 0 {
        assert(fs.map_values(|f: AddressFamily| multiprotocol_capability(f)) =~= Seq::<
            CapabilityModel,
        >::empty());
    } else {
        let f = fs[0];
        let c = multiprotocol_capability(f);
        let w = families_wire(fs);
        lemma_families_wire_front(fs);
        lemma_be_bytes_len(crate::types::afi_code(f.afi) as nat, 2);
        let cw = capability_wire(c);
        assert(cw.len() == 6);
        assert(data[offset + 1] == w[1] && w[1] == cw[1]);
        assert(cw[1] == 4);
        assert(data.subrange(offset, offset + 6) =~= cw);
        assert(capability_code_from_value(capability_code_value(BGPCapabilityCode::Multiprotocol))
            == Some(BGPCapabilityCode::Multiprotocol));
        assert(cw.subrange(2, 6) =~= multiprotocol_wire(f.afi, f.safi));
        assert(spec_capability_from(cw) == c);
        assert(data.subrange(offset, data.len() as int) == w);
        assert(data.subrange(offset + 6, data.len() as int) =~= w.subrange(6, w.len() as int));
        assert(w.subrange(6, w.len() as int) =~= families_wire(fs.drop_first()));
        lemma_capabilities_in_families(data, offset + 6, fs.drop_first());
        assert(seq![c] + fs.drop_first().map_values(|f: AddressFamily| multiprotocol_capability(f))
            =~= fs.map_values(|f: AddressFamily| multiprotocol_capability(f)));
    }
}

/// Taking in multiprotocol capabilities collects their families in order.
proof fn lemma_fold_families(fs: Seq<AddressFamily>)
    ensures
        fold_capabilities(fs.map_values(|f: AddressFamily| multiprotocol_capability(f))).multiprotocol
            == Some(fs),
    decreases fs.len(),
{
    let caps = fs.map_values(|f: AddressFamily| multiprotocol_capability(f));
    if fs.len() == 0 {
    } else {
        let f = fs.last();
        assert(caps.drop_last() =~= fs.drop_last().map_values(
            |f: AddressFamily| multiprotocol_capability(f),
        ));
        lemma_fold_families(fs.drop_last());
        lemma_be_bytes_len(crate::types::afi_code(f.afi) as nat, 2);
        assert(pow256(2) == 65536) by {
            reveal_with_fuel(pow256, 3);
        }
        lemma_be_roundtrip_small(crate::types::afi_code(f.afi) as nat, 2);
        let v = multiprotocol_wire(f.afi, f.safi);
        assert(v.subrange(0, 2) =~= be_bytes(crate::types::afi_code(f.afi) as nat, 2));
        assert(crate::types::afi_from_code(crate::types::afi_code(f.afi)) == Some(f.afi));
        assert(crate::types::safi_from_code(crate::types::safi_code(f.safi)) == Some(f.safi));
        assert(multiprotocol_family(v) == f);
        assert(fs.drop_last().push(f) =~= fs);
    }
}

/// The families a speaker announces in its OPEN (see [`open_params`]) are
/// carried by capabilities its neighbor can take in, and the neighbor then
/// records exactly those families, without repetitions.
pub proof fn lemma_announced_families_received(fs: Seq<AddressFamily>)
    ensures
        forall|i: int|
            0 <= i < capabilities_of_params(open_params(Some(fs))).len() ==> capability_acceptable(
                #[trigger] capabilities_of_params(open_params(Some(fs)))[i],
            ),
        capabilities_from(capabilities_of_params(open_params(Some(fs)))).multiprotocol == Some(
            dedup(fs),
        ),
{
    let ps = open_params(Some(fs));
    let data = families_wire(fs);
    lemma_families_wire_len(fs);
    assert(data.subrange(0, data.len() as int) =~= data);
    lemma_capabilities_in_families(data, 0, fs);
    reveal_with_fuel(capabilities_of_params, 2);
    assert(ps.drop_last() =~= Seq::<OptParamModel>::empty());
    let caps = capabilities_of_params(ps);
    assert(caps =~= fs.map_values(|f: AddressFamily| multiprotocol_capability(f)));
    lemma_fold_families(fs);
    assert(pow256(2) == 65536) by {
        reveal_with_fuel(pow256, 3);
    }
    assert forall|i: int| 0 <= i < caps.len() implies capability_acceptable(#[trigger] caps[i]) by {
        let f = fs[i];
        lemma_be_bytes_len(crate::types::afi_code(f.afi) as nat, 2);
        lemma_be_roundtrip_small(crate::types::afi_code(f.afi) as nat, 2);
        let v = multiprotocol_wire(f.afi, f.safi);
        assert(v.subrange(0, 2) =~= be_bytes(crate::types::afi_code(f.afi) as nat, 2));
        assert(crate::types::afi_from_code(crate::types::afi_code(f.afi)) == Some(f.afi));
        assert(crate::types::safi_from_code(crate::types::safi_code(f.safi)) == Some(f.safi));
    }
}

/// A message sent on a stream is received whole: once its frame, and
/// whatever follows it, has arrived, the framing takes exactly that frame,
/// and the frame decodes to the message; provided the frame fits the length
/// limit and the body decodes back to itself.
pub proof fn lemma_stream_roundtrip(m: MessageModel, rest: Seq<u8>)
    requires
        body_wire(m.body).len() + 19 <= 4096,
        spec_parse_body(m.message_type, body_wire(m.body)) == Some(m.body),
    ensures
        frame_decision(frame_wire(message_wire(m)) + rest) == FrameDecision::Take(
            (message_wire(m).len() + 18) as nat,
        ),
        (frame_wire(message_wire(m)) + rest).take(message_wire(m).len() + 18int) == frame_wire(
            message_wire(m),
        ),
        spec_header_error(frame_wire(message_wire(m))) is None,
        spec_parse_message(frame_wire(message_wire(m))) == Some(m),
{
    let data = message_wire(m);
    assert(data[0] == message_type_code(m.message_type));
    assert(message_type_from_code(message_type_code(m.message_type)) == Some(m.message_type));
    lemma_frame_roundtrip(data, rest);
    lemma_message_roundtrip(m);
}

} // verus!
