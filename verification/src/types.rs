//! Protocol constants, code points and header validation.
use vstd::prelude::*;
use crate::text::{decimal, push_decimal, push_str, string_from_chars};

verus! {

/// The header marker: sixteen bytes of `0xff`.
pub const MARKER: [u8; 16] = [
    0xff, 0xff, 0xff, 0xff, 0xff, 0xff, 0xff, 0xff, 0xff, 0xff, 0xff, 0xff, 0xff, 0xff, 0xff, 0xff,
];

/// The BGP version this speaker implements.
pub const VERSION: u8 = 4;

/// Length of the smallest message (a bare header).
pub const MIN_MESSAGE_LENGTH: usize = 19;

/// Length of the largest message.
pub const MAX_MESSAGE_LENGTH: usize = 4096;

/// The sixteen marker bytes as a sequence.
pub open spec fn marker_seq() -> Seq<u8> {
    Seq::new(16, |i: int| 0xffu8)
}

/// Address family identifier.
#[derive(Debug, Clone, Copy, PartialEq, Eq, Hash, Structural)]
pub enum Afi {
    Ipv4,
    Ipv6,
}

/// Subsequent address family identifier.
#[derive(Debug, Clone, Copy, PartialEq, Eq, Hash, Structural)]
pub enum Safi {
    NLRIUnicast,
    NLRIMulticast,
}

/// An (AFI, SAFI) pair.
#[derive(Debug, Clone, Copy, PartialEq, Eq, Hash, Structural)]
pub struct AddressFamily {
    pub afi: Afi,
    pub safi: Safi,
}

/// The type field of the message header.
#[derive(Debug, Clone, Copy, PartialEq, Eq, Structural)]
pub enum MessageType {
    Open,
    Update,
    Notification,
    Keepalive,
}

/// Error codes of NOTIFICATION messages.
#[derive(Debug, Clone, Copy, PartialEq, Eq, Structural)]
pub enum ErrorCode {
    MessageHeader,
    OpenMessage,
    UpdateMessage,
    HoldTimerExpired,
    FSMError,
    Cease,
}

/// Subcodes of the message header error.
#[derive(Debug, Clone, Copy, PartialEq, Eq, Structural)]
pub enum HeaderSubCode {
    ConnectionNotSynchronized,
    BadMessageLength,
    BadMessageType,
}

/// Subcodes of the OPEN message error.
#[derive(Debug, Clone, Copy, PartialEq, Eq, Structural)]
pub enum OpenSubCode {
    UnsupportedVersionNumber,
    BadPeerAS,
    BadBGPIdentifier,
    UnsupportedOptionalParameter,
    Deprecated,
    UnacceptableHoldTime,
}

/// Subcodes of the UPDATE message error.
#[derive(Debug, Clone, Copy, PartialEq, Eq, Structural)]
pub enum UpdateSubCode {
    MalformedAttributeList,
    UnrecognizedWellKnownAttribute,
    MissingWellKnownAttribute,
    AttributeFlagsError,
    AttributeLengthError,
    InvalidORIGINAttribute,
    Deprecated,
    InvalidNEXTHOPAttribute,
    OptionalAttributeError,
    InvalidNetworkField,
    MalformedASPATH,
}

pub open spec fn afi_code(a: Afi) -> u16 {
    match a {
        Afi::Ipv4 => 1,
        Afi::Ipv6 => 2,
    }
}

pub open spec fn afi_from_code(v: u16) -> Option<Afi> {
    if v == 1 {
        Some(Afi::Ipv4)
    } else if v == 2 {
        Some(Afi::Ipv6)
    } else {
        None
    }
}

pub open spec fn safi_code(s: Safi) -> u8 {
    match s {
        Safi::NLRIUnicast => 1,
        Safi::NLRIMulticast => 2,
    }
}

pub open spec fn safi_from_code(v: u8) -> Option<Safi> {
    if v == 1 {
        Some(Safi::NLRIUnicast)
    } else if v == 2 {
        Some(Safi::NLRIMulticast)
    } else {
        None
    }
}

pub open spec fn message_type_code(t: MessageType) -> u8 {
    match t {
        MessageType::Open => 1,
        MessageType::Update => 2,
        MessageType::Notification => 3,
        MessageType::Keepalive => 4,
    }
}

pub open spec fn message_type_from_code(v: u8) -> Option<MessageType> {
    if v == 1 {
        Some(MessageType::Open)
    } else if v == 2 {
        Some(MessageType::Update)
    } else if v == 3 {
        Some(MessageType::Notification)
    } else if v == 4 {
        Some(MessageType::Keepalive)
    } else {
        None
    }
}

pub open spec fn error_code_value(e: ErrorCode) -> u8 {
    match e {
        ErrorCode::MessageHeader => 1,
        ErrorCode::OpenMessage => 2,
        ErrorCode::UpdateMessage => 3,
        ErrorCode::HoldTimerExpired => 4,
        ErrorCode::FSMError => 5,
        ErrorCode::Cease => 6,
    }
}

pub open spec fn error_code_from_value(v: u8) -> Option<ErrorCode> {
    if v == 1 {
        Some(ErrorCode::MessageHeader)
    } else if v == 2 {
        Some(ErrorCode::OpenMessage)
    } else if v == 3 {
        Some(ErrorCode::UpdateMessage)
    } else if v == 4 {
        Some(ErrorCode::HoldTimerExpired)
    } else if v == 5 {
        Some(ErrorCode::FSMError)
    } else if v == 6 {
        Some(ErrorCode::Cease)
    } else {
        None
    }
}

impl Afi {
    /// The AFI number of this family.
    pub fn to_u16(&self) -> (r: u16)
        ensures
            r == afi_code(*self),
    {
        match self {
            Afi::Ipv4 => 1,
            Afi::Ipv6 => 2,
        }
    }

    /// The family with AFI number `v`, if there is one.
    pub fn from_u16(v: u16) -> (r: Option<Afi>)
        ensures
            r == afi_from_code(v),
    {
        if v == 1 {
            Some(Afi::Ipv4)
        } else if v == 2 {
            Some(Afi::Ipv6)
        } else {
            None
        }
    }
}

impl Safi {
    /// The SAFI number of this sub-family.
    pub fn to_u8(&self) -> (r: u8)
        ensures
            r == safi_code(*self),
    {
        match self {
            Safi::NLRIUnicast => 1,
            Safi::NLRIMulticast => 2,
        }
    }

    /// The sub-family with SAFI number `v`, if there is one.
    pub fn from_u8(v: u8) -> (r: Option<Safi>)
        ensures
            r == safi_from_code(v),
    {
        if v == 1 {
            Some(Safi::NLRIUnicast)
        } else if v == 2 {
            Some(Safi::NLRIMulticast)
        } else {
            None
        }
    }
}

impl MessageType {
    /// The type number carried in the header.
    pub fn to_u8(&self) -> (r: u8)
        ensures
            r == message_type_code(*self),
    {
        match self {
            MessageType::Open => 1,
            MessageType::Update => 2,
            MessageType::Notification => 3,
            MessageType::Keepalive => 4,
        }
    }

    /// The message type with number `v`, if there is one.
    pub fn from_u8(v: u8) -> (r: Option<MessageType>)
        ensures
            r == message_type_from_code(v),
    {
        if v == 1 {
            Some(MessageType::Open)
        } else if v == 2 {
            Some(MessageType::Update)
        } else if v == 3 {
            Some(MessageType::Notification)
        } else if v == 4 {
            Some(MessageType::Keepalive)
        } else {
            None
        }
    }
}

impl Default for MessageType {
    fn default() -> (r: Self)
        ensures
            r == MessageType::Update,
    {
        MessageType::Update
    }
}

impl ErrorCode {
    /// The error code number.
    pub fn to_u8(&self) -> (r: u8)
        ensures
            r == error_code_value(*self),
    {
        match self {
            ErrorCode::MessageHeader => 1,
            ErrorCode::OpenMessage => 2,
            ErrorCode::UpdateMessage => 3,
            ErrorCode::HoldTimerExpired => 4,
            ErrorCode::FSMError => 5,
            ErrorCode::Cease => 6,
        }
    }

    /// The error code with number `v`, if there is one.
    pub fn from_u8(v: u8) -> (r: Option<ErrorCode>)
        ensures
            r == error_code_from_value(v),
    {
        if v == 1 {
            Some(ErrorCode::MessageHeader)
        } else if v == 2 {
            Some(ErrorCode::OpenMessage)
        } else if v == 3 {
            Some(ErrorCode::UpdateMessage)
        } else if v == 4 {
            Some(ErrorCode::HoldTimerExpired)
        } else if v == 5 {
            Some(ErrorCode::FSMError)
        } else if v == 6 {
            Some(ErrorCode::Cease)
        } else {
            None
        }
    }
}

pub open spec fn header_subcode_value(c: HeaderSubCode) -> u8 {
    match c {
        HeaderSubCode::ConnectionNotSynchronized => 1,
        HeaderSubCode::BadMessageLength => 2,
        HeaderSubCode::BadMessageType => 3,
    }
}

pub open spec fn open_subcode_value(c: OpenSubCode) -> u8 {
    match c {
        OpenSubCode::UnsupportedVersionNumber => 1,
        OpenSubCode::BadPeerAS => 2,
        OpenSubCode::BadBGPIdentifier => 3,
        OpenSubCode::UnsupportedOptionalParameter => 4,
        OpenSubCode::Deprecated => 5,
        OpenSubCode::UnacceptableHoldTime => 6,
    }
}

pub open spec fn update_subcode_value(c: UpdateSubCode) -> u8 {
    match c {
        UpdateSubCode::MalformedAttributeList => 1,
        UpdateSubCode::UnrecognizedWellKnownAttribute => 2,
        UpdateSubCode::MissingWellKnownAttribute => 3,
        UpdateSubCode::AttributeFlagsError => 4,
        UpdateSubCode::AttributeLengthError => 5,
        UpdateSubCode::InvalidORIGINAttribute => 6,
        UpdateSubCode::Deprecated => 7,
        UpdateSubCode::InvalidNEXTHOPAttribute => 8,
        UpdateSubCode::OptionalAttributeError => 9,
        UpdateSubCode::InvalidNetworkField => 10,
        UpdateSubCode::MalformedASPATH => 11,
    }
}

impl HeaderSubCode {
    /// The subcode number.
    pub fn to_u8(&self) -> (r: u8)
        ensures
            r == header_subcode_value(*self),
    {
        match self {
            HeaderSubCode::ConnectionNotSynchronized => 1,
            HeaderSubCode::BadMessageLength => 2,
            HeaderSubCode::BadMessageType => 3,
        }
    }
}

impl OpenSubCode {
    /// The subcode number.
    pub fn to_u8(&self) -> (r: u8)
        ensures
            r == open_subcode_value(*self),
    {
        match self {
            OpenSubCode::UnsupportedVersionNumber => 1,
            OpenSubCode::BadPeerAS => 2,
            OpenSubCode::BadBGPIdentifier => 3,
            OpenSubCode::UnsupportedOptionalParameter => 4,
            OpenSubCode::Deprecated => 5,
            OpenSubCode::UnacceptableHoldTime => 6,
        }
    }
}

impl UpdateSubCode {
    /// The subcode number.
    pub fn to_u8(&self) -> (r: u8)
        ensures
            r == update_subcode_value(*self),
    {
        match self {
            UpdateSubCode::MalformedAttributeList => 1,
            UpdateSubCode::UnrecognizedWellKnownAttribute => 2,
            UpdateSubCode::MissingWellKnownAttribute => 3,
            UpdateSubCode::AttributeFlagsError => 4,
            UpdateSubCode::AttributeLengthError => 5,
            UpdateSubCode::InvalidORIGINAttribute => 6,
            UpdateSubCode::Deprecated => 7,
            UpdateSubCode::InvalidNEXTHOPAttribute => 8,
            UpdateSubCode::OptionalAttributeError => 9,
            UpdateSubCode::InvalidNetworkField => 10,
            UpdateSubCode::MalformedASPATH => 11,
        }
    }
}

/// A violation of the protocol found while validating a message.
#[derive(Debug, Clone)]
pub enum BgpValidationError {
    MessageTooShort { actual: usize, minimum: usize },
    MessageTooLong { actual: usize, maximum: usize },
    InvalidMarker,
    InvalidMessageType(u8),
    InvalidVersion { actual: u8, expected: u8 },
    InvalidAsn(u16),
    InvalidHoldTime(u16),
    InvalidRouterId(u32),
    InvalidOptionalParameterLength(u8),
    InvalidPathAttributeLength(usize),
    InvalidNlriPrefixLength(u8),
    InvalidBufferBounds { offset: usize, length: usize, buffer_size: usize },
    MissingRequiredAttribute(String),
    MalformedAsPath(String),
    InvalidNextHop(String),
    InvalidCapability(String),
}

/// The NOTIFICATION (code, subcode) that reports a validation error.
pub open spec fn notification_codes(e: BgpValidationError) -> (ErrorCode, u8) {
    match e {
        BgpValidationError::MessageTooShort { .. } | BgpValidationError::MessageTooLong {
            ..
        } => (ErrorCode::MessageHeader, 2),
        BgpValidationError::InvalidMarker => (ErrorCode::MessageHeader, 1),
        BgpValidationError::InvalidMessageType(_) => (ErrorCode::MessageHeader, 3),
        BgpValidationError::InvalidVersion { .. } => (ErrorCode::OpenMessage, 1),
        BgpValidationError::InvalidAsn(_) => (ErrorCode::OpenMessage, 2),
        BgpValidationError::InvalidHoldTime(_) => (ErrorCode::OpenMessage, 6),
        BgpValidationError::InvalidRouterId(_) => (ErrorCode::OpenMessage, 3),
        BgpValidationError::InvalidOptionalParameterLength(_)
        | BgpValidationError::InvalidCapability(_) => (ErrorCode::OpenMessage, 4),
        BgpValidationError::InvalidPathAttributeLength(_)
        | BgpValidationError::InvalidBufferBounds { .. } => (ErrorCode::UpdateMessage, 5),
        BgpValidationError::InvalidNlriPrefixLength(_) => (ErrorCode::UpdateMessage, 10),
        BgpValidationError::MissingRequiredAttribute(_) => (ErrorCode::UpdateMessage, 3),
        BgpValidationError::MalformedAsPath(_) => (ErrorCode::UpdateMessage, 11),
        BgpValidationError::InvalidNextHop(_) => (ErrorCode::UpdateMessage, 8),
    }
}

impl BgpValidationError {
    /// The NOTIFICATION error code and subcode to send for this error.
    pub fn to_notification_codes(&self) -> (r: (ErrorCode, u8))
        ensures
            r == notification_codes(*self),
    {
        match self {
            BgpValidationError::MessageTooShort { .. } | BgpValidationError::MessageTooLong {
                ..
            } => (ErrorCode::MessageHeader, HeaderSubCode::BadMessageLength.to_u8()),
            BgpValidationError::InvalidMarker => (
                ErrorCode::MessageHeader,
                HeaderSubCode::ConnectionNotSynchronized.to_u8(),
            ),
            BgpValidationError::InvalidMessageType(_) => (
                ErrorCode::MessageHeader,
                HeaderSubCode::BadMessageType.to_u8(),
            ),
            BgpValidationError::InvalidVersion { .. } => (
                ErrorCode::OpenMessage,
                OpenSubCode::UnsupportedVersionNumber.to_u8(),
            ),
            BgpValidationError::InvalidAsn(_) => (
                ErrorCode::OpenMessage,
                OpenSubCode::BadPeerAS.to_u8(),
            ),
            BgpValidationError::InvalidHoldTime(_) => (
                ErrorCode::OpenMessage,
                OpenSubCode::UnacceptableHoldTime.to_u8(),
            ),
            BgpValidationError::InvalidRouterId(_) => (
                ErrorCode::OpenMessage,
                OpenSubCode::BadBGPIdentifier.to_u8(),
            ),
            BgpValidationError::InvalidOptionalParameterLength(_)
            | BgpValidationError::InvalidCapability(_) => (
                ErrorCode::OpenMessage,
                OpenSubCode::UnsupportedOptionalParameter.to_u8(),
            ),
            BgpValidationError::InvalidPathAttributeLength(_)
            | BgpValidationError::InvalidBufferBounds { .. } => (
                ErrorCode::UpdateMessage,
                UpdateSubCode::AttributeLengthError.to_u8(),
            ),
            BgpValidationError::InvalidNlriPrefixLength(_) => (
                ErrorCode::UpdateMessage,
                UpdateSubCode::InvalidNetworkField.to_u8(),
            ),
            BgpValidationError::MissingRequiredAttribute(_) => (
                ErrorCode::UpdateMessage,
                UpdateSubCode::MissingWellKnownAttribute.to_u8(),
            ),
            BgpValidationError::MalformedAsPath(_) => (
                ErrorCode::UpdateMessage,
                UpdateSubCode::MalformedASPATH.to_u8(),
            ),
            BgpValidationError::InvalidNextHop(_) => (
                ErrorCode::UpdateMessage,
                UpdateSubCode::InvalidNEXTHOPAttribute.to_u8(),
            ),
        }
    }
}

/// The text that describes a validation error.
pub open spec fn validation_error_text(e: BgpValidationError) -> Seq<char> {
    match e {
        BgpValidationError::MessageTooShort { actual, minimum } => "Message too short: got "@
            + decimal(actual as nat) + ", minimum "@ + decimal(minimum as nat),
        BgpValidationError::MessageTooLong { actual, maximum } => "Message too long: got "@
            + decimal(actual as nat) + ", maximum "@ + decimal(maximum as nat),
        BgpValidationError::InvalidMarker => "Invalid marker: expected all 0xFF"@,
        BgpValidationError::InvalidMessageType(t) => "Invalid message type: "@ + decimal(
            t as nat,
        ),
        BgpValidationError::InvalidVersion { actual, expected } => "Invalid BGP version: got "@
            + decimal(actual as nat) + ", expected "@ + decimal(expected as nat),
        BgpValidationError::InvalidAsn(a) => "Invalid AS number: "@ + decimal(a as nat),
        BgpValidationError::InvalidHoldTime(h) => "Invalid hold time: "@ + decimal(h as nat),
        BgpValidationError::InvalidRouterId(r) => "Invalid router ID: "@ + decimal(r as nat),
        BgpValidationError::InvalidOptionalParameterLength(l) =>
            "Invalid optional parameter length: "@ + decimal(l as nat),
        BgpValidationError::InvalidPathAttributeLength(l) => "Invalid path attribute length: "@
            + decimal(l as nat),
        BgpValidationError::InvalidNlriPrefixLength(l) => "Invalid NLRI prefix length: "@
            + decimal(l as nat),
        BgpValidationError::InvalidBufferBounds { offset, length, buffer_size } =>
            "Invalid buffer bounds: offset "@ + decimal(offset as nat) + ", length "@ + decimal(
            length as nat,
        ) + ", buffer size "@ + decimal(buffer_size as nat),
        BgpValidationError::MissingRequiredAttribute(s) => "Missing required path attribute: "@
            + s@,
        BgpValidationError::MalformedAsPath(s) => "Malformed AS_PATH: "@ + s@,
        BgpValidationError::InvalidNextHop(s) => "Invalid next hop: "@ + s@,
        BgpValidationError::InvalidCapability(s) => "Invalid capability: "@ + s@,
    }
}

impl BgpValidationError {
    /// The text that describes the error.
    pub fn message(&self) -> (r: String)
        ensures
            r@ == validation_error_text(*self),
    {
        let mut out: Vec<char> = Vec::new();
        match self {
            BgpValidationError::MessageTooShort { actual, minimum } => {
                push_str(&mut out, "Message too short: got ");
                push_decimal(&mut out, *actual as u64);
                push_str(&mut out, ", minimum ");
                push_decimal(&mut out, *minimum as u64);
            },
            BgpValidationError::MessageTooLong { actual, maximum } => {
                push_str(&mut out, "Message too long: got ");
                push_decimal(&mut out, *actual as u64);
                push_str(&mut out, ", maximum ");
                push_decimal(&mut out, *maximum as u64);
            },
            BgpValidationError::InvalidMarker => {
                push_str(&mut out, "Invalid marker: expected all 0xFF");
            },
            BgpValidationError::InvalidMessageType(t) => {
                push_str(&mut out, "Invalid message type: ");
                push_decimal(&mut out, *t as u64);
            },
            BgpValidationError::InvalidVersion { actual, expected } => {
                push_str(&mut out, "Invalid BGP version: got ");
                push_decimal(&mut out, *actual as u64);
                push_str(&mut out, ", expected ");
                push_decimal(&mut out, *expected as u64);
            },
            BgpValidationError::InvalidAsn(a) => {
                push_str(&mut out, "Invalid AS number: ");
                push_decimal(&mut out, *a as u64);
            },
            BgpValidationError::InvalidHoldTime(h) => {
                push_str(&mut out, "Invalid hold time: ");
                push_decimal(&mut out, *h as u64);
            },
            BgpValidationError::InvalidRouterId(r) => {
                push_str(&mut out, "Invalid router ID: ");
                push_decimal(&mut out, *r as u64);
            },
            BgpValidationError::InvalidOptionalParameterLength(l) => {
                push_str(&mut out, "Invalid optional parameter length: ");
                push_decimal(&mut out, *l as u64);
            },
            BgpValidationError::InvalidPathAttributeLength(l) => {
                push_str(&mut out, "Invalid path attribute length: ");
                push_decimal(&mut out, *l as u64);
            },
            BgpValidationError::InvalidNlriPrefixLength(l) => {
                push_str(&mut out, "Invalid NLRI prefix length: ");
                push_decimal(&mut out, *l as u64);
            },
            BgpValidationError::InvalidBufferBounds { offset, length, buffer_size } => {
                push_str(&mut out, "Invalid buffer bounds: offset ");
                push_decimal(&mut out, *offset as u64);
                push_str(&mut out, ", length ");
                push_decimal(&mut out, *length as u64);
                push_str(&mut out, ", buffer size ");
                push_decimal(&mut out, *buffer_size as u64);
            },
            BgpValidationError::MissingRequiredAttribute(s) => {
                push_str(&mut out, "Missing required path attribute: ");
                push_str(&mut out, s.as_str());
            },
            BgpValidationError::MalformedAsPath(s) => {
                push_str(&mut out, "Malformed AS_PATH: ");
                push_str(&mut out, s.as_str());
            },
            BgpValidationError::InvalidNextHop(s) => {
                push_str(&mut out, "Invalid next hop: ");
                push_str(&mut out, s.as_str());
            },
            BgpValidationError::InvalidCapability(s) => {
                push_str(&mut out, "Invalid capability: ");
                push_str(&mut out, s.as_str());
            },
        }
        string_from_chars(&out)
    }
}

/// Every validation error is reported as a header, OPEN or UPDATE error
/// with a subcode between 1 and 11.
pub proof fn lemma_notification_codes_range(e: BgpValidationError)
    ensures
        notification_codes(e).0 == ErrorCode::MessageHeader || notification_codes(e).0
            == ErrorCode::OpenMessage || notification_codes(e).0 == ErrorCode::UpdateMessage,
        1 <= notification_codes(e).1 <= 11,
{
}

/// Checks that a message length lies within the limits of the protocol.
pub fn validate_message_length(length: usize) -> (r: Result<(), BgpValidationError>)
    ensures
        r is Ok <==> MIN_MESSAGE_LENGTH <= length <= MAX_MESSAGE_LENGTH,
        length < MIN_MESSAGE_LENGTH ==> r == Err::<(), BgpValidationError>(
            BgpValidationError::MessageTooShort { actual: length, minimum: MIN_MESSAGE_LENGTH },
        ),
        length > MAX_MESSAGE_LENGTH ==> r == Err::<(), BgpValidationError>(
            BgpValidationError::MessageTooLong { actual: length, maximum: MAX_MESSAGE_LENGTH },
        ),
{
    if length < MIN_MESSAGE_LENGTH {
        return Err(
            BgpValidationError::MessageTooShort { actual: length, minimum: MIN_MESSAGE_LENGTH },
        );
    }
    if length > MAX_MESSAGE_LENGTH {
        return Err(
            BgpValidationError::MessageTooLong { actual: length, maximum: MAX_MESSAGE_LENGTH },
        );
    }
    Ok(())
}

/// Checks that the marker is sixteen bytes of `0xff`.
pub fn validate_marker(marker: &[u8; 16]) -> (r: Result<(), BgpValidationError>)
    ensures
        r is Ok <==> marker@ == marker_seq(),
        r is Err ==> r == Err::<(), BgpValidationError>(BgpValidationError::InvalidMarker),
{
    let mut i: usize = 0;
    while i < 16
        invariant
            i <= 16,
            marker@.len() == 16,
            forall|j: int| 0 <= j < i ==> marker@[j] == 0xffu8,
        decreases 16 - i,
    {
        if marker[i] != 0xff {
            proof {
                assert(marker@[i as int] != marker_seq()[i as int]);
            }
            return Err(BgpValidationError::InvalidMarker);
        }
        i = i + 1;
    }
    assert(marker@ =~= marker_seq());
    Ok(())
}

/// Whether the flags octet of a path attribute has the extended length bit.
pub open spec fn spec_is_extended_len(mask: u8) -> bool {
    (mask / 16) % 2 == 1
}

/// Reads the extended-length bit from the flags octet of a path attribute.
pub fn is_extended_len(mask: u8) -> (r: bool)
    ensures
        r == spec_is_extended_len(mask),
{
    let m = mask >> 4;
    let r = (m & 1) != 0;
    assert(((mask >> 4) & 1 != 0) == ((mask / 16) % 2 == 1)) by (bit_vector);
    r
}

/// The longest prefix of an address family.
pub open spec fn max_prefix_len(afi: Afi) -> u8 {
    match afi {
        Afi::Ipv4 => 32,
        Afi::Ipv6 => 128,
    }
}

/// The number of octets that hold a prefix of `plen` bits.
pub open spec fn prefix_octets(plen: u8) -> nat {
    ((plen as nat) + 7) / 8
}

/// The number of octets of a prefix of `plen` bits, refused when `plen`
/// exceeds the address length of `afi`.
pub fn prefix_bytes(plen: u8, afi: &Afi) -> (r: Result<usize, BgpValidationError>)
    ensures
        r is Ok <==> plen <= max_prefix_len(*afi),
        r matches Ok(n) ==> n == prefix_octets(plen),
        r is Err ==> r == Err::<usize, BgpValidationError>(
            BgpValidationError::InvalidNlriPrefixLength(plen),
        ),
{
    let max_len: u8 = match afi {
        Afi::Ipv4 => 32,
        Afi::Ipv6 => 128,
    };
    if plen > max_len {
        return Err(BgpValidationError::InvalidNlriPrefixLength(plen));
    }
    Ok((plen as usize + 7) / 8)
}

} // verus!
