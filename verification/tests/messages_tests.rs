use ubgp::error::BgpError;
use ubgp::types::BgpValidationError;
use ubgp::attributes::{ASPATHSegment, ASPATHSegmentType, OriginType, PathAttribute};
use ubgp::capabilities::Capabilities;
use ubgp::messages::{
    BGPKeepaliveMessage, BGPMessageBody, BGPMessageHeaderBuilder, BGPNotificationMessage,
    BGPNotificationMessageBuilder, BGPOpenMessage, BGPUpdateMessage, BGPUpdateMessageBuilder,
    Message,
};
use ubgp::net::{IpPrefix, Ipv4Prefix};
use ubgp::nlri::Nlri;
use ubgp::types::{AddressFamily, Afi, ErrorCode, MessageType, Safi, MARKER, VERSION};

fn ipv4(a: u8, b: u8, c: u8, d: u8) -> u32 {
    u32::from_be_bytes([a, b, c, d])
}

fn net(a: u8, b: u8, c: u8, d: u8, plen: u8) -> Nlri {
    Nlri { net: IpPrefix::V4(Ipv4Prefix { addr: ipv4(a, b, c, d), prefix_len: plen }) }
}

fn framed(mtype: MessageType, body: &[u8]) -> Vec<u8> {
    let mut msg_bytes = vec![];
    msg_bytes.extend_from_slice(&MARKER);
    msg_bytes.extend_from_slice(&[0, (19 + body.len()) as u8]);
    msg_bytes.push(mtype.to_u8());
    msg_bytes.extend_from_slice(body);
    msg_bytes
}

#[test]
fn test_bgp_open_message_new() {
    let caps = Capabilities {
        multiprotocol: Some(vec![AddressFamily { afi: Afi::Ipv4, safi: Safi::NLRIUnicast }]),
        ..Default::default()
    };
    let open = BGPOpenMessage::new(65000, 16843009, 180, caps).unwrap();
    assert_eq!(open.version, VERSION);
    assert_eq!(open.asn, 65000);
    assert_eq!(open.hold_time, 180);
    assert_eq!(open.router_id, 16843009);
}

#[test]
fn test_bgp_open_message_serialization() {
    let caps = Capabilities::default();
    let open = BGPOpenMessage::new(65000, 16843009, 180, caps).unwrap();
    let bytes: Vec<u8> = open.clone().to_bytes();
    let parsed: BGPOpenMessage = BGPOpenMessage::from_bytes(bytes);
    assert_eq!(parsed.version, open.version);
    assert_eq!(parsed.asn, open.asn);
    assert_eq!(parsed.hold_time, open.hold_time);
    assert_eq!(parsed.router_id, open.router_id);
}

#[test]
fn test_bgp_update_message_empty() {
    let update = BGPUpdateMessage::new().unwrap();
    assert!(update.withdrawn_routes.is_empty());
    assert!(update.path_attributes.is_empty());
    assert!(update.nlri.is_empty());
}

#[test]
fn test_bgp_update_message_with_routes() {
    let nlri1 = net(10, 0, 0, 0, 24);
    let nlri2 = net(10, 1, 0, 0, 24);
    let attr = PathAttribute::origin(OriginType::Igp);
    let update = BGPUpdateMessageBuilder::default()
        .withdrawn_routes(vec![nlri1])
        .path_attributes(vec![attr])
        .nlri(vec![nlri2])
        .build()
        .unwrap();
    assert_eq!(update.withdrawn_routes.len(), 1);
    assert_eq!(update.path_attributes.len(), 1);
    assert_eq!(update.nlri.len(), 1);
}

#[test]
fn test_bgp_update_message_serialization() {
    let nlri = net(192, 0, 2, 0, 24);
    let attrs = vec![
        PathAttribute::origin(OriginType::Igp),
        PathAttribute::aspath(vec![ASPATHSegment {
            segment_type: ASPATHSegmentType::AsSequence,
            as_list: vec![65000],
        }]),
        PathAttribute::nexthop(ipv4(192, 0, 2, 1)),
    ];
    let update = BGPUpdateMessageBuilder::default()
        .withdrawn_routes(vec![])
        .path_attributes(attrs)
        .nlri(vec![nlri])
        .build()
        .unwrap();
    let bytes: Vec<u8> = update.clone().to_bytes();
    let parsed: BGPUpdateMessage = BGPUpdateMessage::try_from_bytes(bytes).unwrap();
    assert_eq!(parsed.withdrawn_routes.len(), 0);
    assert_eq!(parsed.path_attributes.len(), 3);
    assert_eq!(parsed.nlri.len(), 1);
}

#[test]
fn test_bgp_notification_message() {
    let notif = BGPNotificationMessage::new(ErrorCode::UpdateMessage, 3).unwrap();
    assert_eq!(notif.error_code, ErrorCode::UpdateMessage);
    assert_eq!(notif.error_subcode, 3);
    assert!(notif.data.is_empty());
}

#[test]
fn test_bgp_notification_message_serialization() {
    let notif = BGPNotificationMessageBuilder::default()
        .error_code(ErrorCode::HoldTimerExpired)
        .error_subcode(0)
        .data(vec![1, 2, 3])
        .build()
        .unwrap();
    let bytes: Vec<u8> = notif.clone().to_bytes();
    assert_eq!(bytes[0], ErrorCode::HoldTimerExpired.to_u8());
    assert_eq!(bytes[1], 0);
    assert_eq!(&bytes[2..], &[1, 2, 3]);
    let parsed: BGPNotificationMessage = BGPNotificationMessage::from_bytes(bytes[0..2].to_vec());
    assert_eq!(parsed.error_code, ErrorCode::HoldTimerExpired);
    assert_eq!(parsed.error_subcode, 0);
}

#[test]
fn test_bgp_keepalive_message() {
    let keepalive = BGPKeepaliveMessage::new().unwrap();
    assert_eq!(keepalive.byte_len(), 0);
    let bytes: Vec<u8> = keepalive.to_bytes();
    assert!(bytes.is_empty());
}

#[test]
fn test_message_complete_serialization() {
    let body = BGPKeepaliveMessage::new().unwrap();
    let msg = Message::new(MessageType::Keepalive, BGPMessageBody::Keepalive(body)).unwrap();
    let bytes: Vec<u8> = msg.to_bytes();
    assert_eq!(bytes[0], MessageType::Keepalive.to_u8());
}

#[test]
fn test_message_from_bytes() {
    let msg_bytes = framed(MessageType::Keepalive, &[]);
    let msg: Message = Message::try_from_bytes(msg_bytes).unwrap();
    assert_eq!(msg.header.message_type, MessageType::Keepalive);
}

#[test]
fn test_bgp_message_header_valid() {
    let header = BGPMessageHeaderBuilder::default().message_type(MessageType::Open).build().unwrap();
    assert_eq!(header.message_type, MessageType::Open);
}

#[test]
fn test_bgp_open_message_new_valid() {
    let caps = Capabilities {
        multiprotocol: Some(vec![AddressFamily { afi: Afi::Ipv4, safi: Safi::NLRIUnicast }]),
        ..Default::default()
    };
    let open = BGPOpenMessage::new(65000, 0x01020304, 180, caps).unwrap();
    assert_eq!(open.version, VERSION);
    assert_eq!(open.asn, 65000);
    assert_eq!(open.hold_time, 180);
    assert_eq!(open.router_id, 0x01020304);
}

#[test]
fn test_bgp_open_message_display_valid() {
    let caps = Capabilities::default();
    let open = BGPOpenMessage::new(65000, 0x01020304, 180, caps).unwrap();
    let display = open.message();
    assert!(display.contains("version : 4"));
    assert!(display.contains("local_asn : 65000"));
    assert!(display.contains("hold_time : 180"));
    assert!(display.contains("router_id : 1.2.3.4"));
}

#[test]
fn test_bgp_open_message_byte_len_valid() {
    let caps = Capabilities::default();
    let open = BGPOpenMessage::new(65000, 0x01020304, 180, caps).unwrap();
    let byte_len = open.byte_len();
    assert!(byte_len > 10);
}

#[test]
fn test_bgp_open_message_serialization_valid() {
    let caps = Capabilities::default();
    let open = BGPOpenMessage::new(65000, 0x01020304, 180, caps).unwrap();
    let bytes: Vec<u8> = open.clone().to_bytes();
    let parsed: BGPOpenMessage = BGPOpenMessage::from_bytes(bytes);
    assert_eq!(parsed.version, open.version);
    assert_eq!(parsed.asn, open.asn);
    assert_eq!(parsed.hold_time, open.hold_time);
    assert_eq!(parsed.router_id, open.router_id);
}

#[test]
fn test_bgp_update_message_new_valid() {
    let update = BGPUpdateMessage::new().unwrap();
    assert!(update.withdrawn_routes.is_empty());
    assert!(update.path_attributes.is_empty());
    assert!(update.nlri.is_empty());
}

#[test]
fn test_bgp_update_message_byte_len_valid() {
    let update = BGPUpdateMessage::new().unwrap();
    let byte_len = update.byte_len();
    assert_eq!(byte_len, 4);
}

#[test]
fn test_bgp_update_message_with_routes_valid() {
    let nlri1 = net(10, 0, 0, 0, 24);
    let nlri2 = net(10, 1, 0, 0, 24);
    let attr = PathAttribute::origin(OriginType::Igp);
    let update = BGPUpdateMessageBuilder::default()
        .withdrawn_routes(vec![nlri1])
        .path_attributes(vec![attr])
        .nlri(vec![nlri2])
        .build()
        .unwrap();
    assert_eq!(update.withdrawn_routes.len(), 1);
    assert_eq!(update.path_attributes.len(), 1);
    assert_eq!(update.nlri.len(), 1);
}

#[test]
fn test_bgp_update_message_serialization_valid() {
    let nlri = net(192, 0, 2, 0, 24);
    let attrs = vec![
        PathAttribute::origin(OriginType::Igp),
        PathAttribute::aspath(vec![ASPATHSegment {
            segment_type: ASPATHSegmentType::AsSequence,
            as_list: vec![65000],
        }]),
        PathAttribute::nexthop(ipv4(192, 0, 2, 1)),
    ];
    let update = BGPUpdateMessageBuilder::default()
        .withdrawn_routes(vec![])
        .path_attributes(attrs)
        .nlri(vec![nlri])
        .build()
        .unwrap();
    let bytes: Vec<u8> = update.clone().to_bytes();
    let parsed: BGPUpdateMessage = BGPUpdateMessage::try_from_bytes(bytes).unwrap();
    assert_eq!(parsed.withdrawn_routes.len(), 0);
    assert_eq!(parsed.path_attributes.len(), 3);
    assert_eq!(parsed.nlri.len(), 1);
}

#[test]
fn test_bgp_notification_message_new_valid() {
    let notif = BGPNotificationMessage::new(ErrorCode::UpdateMessage, 3).unwrap();
    assert_eq!(notif.error_code, ErrorCode::UpdateMessage);
    assert_eq!(notif.error_subcode, 3);
    assert!(notif.data.is_empty());
}

#[test]
fn test_bgp_notification_message_byte_len_valid() {
    let notif = BGPNotificationMessage::new(ErrorCode::UpdateMessage, 3).unwrap();
    let byte_len = notif.byte_len();
    assert_eq!(byte_len, 2);
}

#[test]
fn test_bgp_notification_message_serialization_valid() {
    let notif = BGPNotificationMessageBuilder::default()
        .error_code(ErrorCode::HoldTimerExpired)
        .error_subcode(0)
        .data(vec![1, 2, 3])
        .build()
        .unwrap();
    let bytes: Vec<u8> = notif.clone().to_bytes();
    assert_eq!(bytes[0], ErrorCode::HoldTimerExpired.to_u8());
    assert_eq!(bytes[1], 0);
    assert_eq!(&bytes[2..], &[1, 2, 3]);
    let parsed: BGPNotificationMessage = BGPNotificationMessage::from_bytes(bytes[0..2].to_vec());
    assert_eq!(parsed.error_code, ErrorCode::HoldTimerExpired);
    assert_eq!(parsed.error_subcode, 0);
}

#[test]
fn test_bgp_keepalive_message_new_valid() {
    let keepalive = BGPKeepaliveMessage::new().unwrap();
    assert_eq!(keepalive.byte_len(), 0);
    let bytes: Vec<u8> = keepalive.to_bytes();
    assert!(bytes.is_empty());
}

#[test]
fn test_bgp_message_body_default_valid() {
    let body = BGPMessageBody::default();
    match body {
        BGPMessageBody::Keepalive(_) => {}
        _ => panic!("Expected default to be Keepalive"),
    }
}

#[test]
fn test_bgp_message_body_serialization_valid() {
    let keepalive = BGPKeepaliveMessage::new().unwrap();
    let body = BGPMessageBody::Keepalive(keepalive);
    let bytes: Vec<u8> = body.to_bytes();
    assert!(bytes.is_empty());
    let open = BGPOpenMessage::new(65000, 0x01020304, 180, Capabilities::default()).unwrap();
    let body = BGPMessageBody::Open(open);
    let bytes: Vec<u8> = body.to_bytes();
    assert!(!bytes.is_empty());
}

#[test]
fn test_message_new_valid() {
    let body = BGPKeepaliveMessage::new().unwrap();
    let msg = Message::new(MessageType::Keepalive, BGPMessageBody::Keepalive(body)).unwrap();
    assert_eq!(msg.header.message_type, MessageType::Keepalive);
    match msg.body {
        BGPMessageBody::Keepalive(_) => {}
        _ => panic!("Expected Keepalive body"),
    }
}

#[test]
fn test_message_serialization_valid() {
    let body = BGPKeepaliveMessage::new().unwrap();
    let msg = Message::new(MessageType::Keepalive, BGPMessageBody::Keepalive(body)).unwrap();
    let bytes: Vec<u8> = msg.to_bytes();
    assert_eq!(bytes[0], MessageType::Keepalive.to_u8());
}

#[test]
fn test_message_complete_bgp_message_valid() {
    let msg_bytes = framed(MessageType::Keepalive, &[]);
    let msg: Message = Message::try_from_bytes(msg_bytes).unwrap();
    assert_eq!(msg.header.message_type, MessageType::Keepalive);
    match msg.body {
        BGPMessageBody::Keepalive(_) => {}
        _ => panic!("Expected Keepalive body"),
    }
}

#[test]
fn test_message_open_complete_valid() {
    let open = BGPOpenMessage::new(65000, 0x01020304, 180, Capabilities::default()).unwrap();
    let open_bytes: Vec<u8> = open.to_bytes();
    let msg_bytes = framed(MessageType::Open, &open_bytes);
    let msg: Message = Message::try_from_bytes(msg_bytes).unwrap();
    assert_eq!(msg.header.message_type, MessageType::Open);
    match msg.body {
        BGPMessageBody::Open(open_msg) => {
            assert_eq!(open_msg.version, VERSION);
            assert_eq!(open_msg.asn, 65000);
        }
        _ => panic!("Expected Open body"),
    }
}

#[test]
fn test_message_update_complete_valid() {
    let update = BGPUpdateMessage::new().unwrap();
    let update_bytes: Vec<u8> = update.to_bytes();
    let msg_bytes = framed(MessageType::Update, &update_bytes);
    let msg: Message = Message::try_from_bytes(msg_bytes).unwrap();
    assert_eq!(msg.header.message_type, MessageType::Update);
    match msg.body {
        BGPMessageBody::Update(update_msg) => {
            assert!(update_msg.withdrawn_routes.is_empty());
            assert!(update_msg.path_attributes.is_empty());
            assert!(update_msg.nlri.is_empty());
        }
        _ => panic!("Expected Update body"),
    }
}

#[test]
fn test_message_notification_complete_valid() {
    let notif = BGPNotificationMessage::new(ErrorCode::UpdateMessage, 3).unwrap();
    let notif_bytes: Vec<u8> = notif.to_bytes();
    let msg_bytes = framed(MessageType::Notification, &notif_bytes);
    let msg: Message = Message::try_from_bytes(msg_bytes).unwrap();
    assert_eq!(msg.header.message_type, MessageType::Notification);
    match msg.body {
        BGPMessageBody::Notification(notif_msg) => {
            assert_eq!(notif_msg.error_code, ErrorCode::UpdateMessage);
            assert_eq!(notif_msg.error_subcode, 3);
        }
        _ => panic!("Expected Notification body"),
    }
}

#[test]
fn test_bgp_update_message_from_empty_bytes_invalid() {
    let empty_bytes: Vec<u8> = vec![];
    let result = BGPUpdateMessage::try_from_bytes(empty_bytes);
    assert!(result.is_err());
}

#[test]
fn test_bgp_update_message_from_insufficient_bytes_invalid() {
    let insufficient_bytes: Vec<u8> = vec![0];
    let result = BGPUpdateMessage::try_from_bytes(insufficient_bytes);
    assert!(result.is_err());
}

#[test]
fn test_bgp_update_message_invalid_withdrawn_routes_length_invalid() {
    let invalid_bytes: Vec<u8> = vec![0, 10, 0, 0];
    let result = BGPUpdateMessage::try_from_bytes(invalid_bytes);
    assert!(result.is_err());
}

#[test]
fn test_bgp_update_message_invalid_path_attributes_length_invalid() {
    let invalid_bytes: Vec<u8> = vec![0, 0, 0, 10];
    let result = BGPUpdateMessage::try_from_bytes(invalid_bytes);
    assert!(result.is_err());
}

#[test]
fn test_message_from_empty_bytes_invalid() {
    let empty_bytes: Vec<u8> = vec![];
    let result = Message::try_from_bytes(empty_bytes);
    assert!(result.is_err());
}

#[test]
fn test_message_from_insufficient_bytes_invalid() {
    let insufficient_bytes: Vec<u8> = vec![0xff, 0xff, 0xff];
    let result = Message::try_from_bytes(insufficient_bytes);
    assert!(result.is_err());
}

#[test]
fn test_message_invalid_marker_invalid() {
    let mut invalid_bytes = vec![0xfe];
    invalid_bytes.extend_from_slice(&[0xff; 15]);
    invalid_bytes.extend_from_slice(&[0, 19]);
    invalid_bytes.push(MessageType::Keepalive.to_u8());
    let result = Message::try_from_bytes(invalid_bytes);
    assert!(result.is_err());
}

#[test]
fn test_message_invalid_length_invalid() {
    let mut invalid_bytes = vec![];
    invalid_bytes.extend_from_slice(&MARKER);
    invalid_bytes.extend_from_slice(&[0, 5]);
    invalid_bytes.push(MessageType::Keepalive.to_u8());
    let result = Message::try_from_bytes(invalid_bytes);
    assert!(result.is_err());
}

#[test]
fn test_message_invalid_message_type_invalid() {
    let mut invalid_bytes = vec![];
    invalid_bytes.extend_from_slice(&MARKER);
    invalid_bytes.extend_from_slice(&[0, 19]);
    invalid_bytes.push(99);
    let result = Message::try_from_bytes(invalid_bytes);
    assert!(result.is_err());
}

#[test]
fn test_message_length_mismatch_invalid() {
    let mut invalid_bytes = vec![];
    invalid_bytes.extend_from_slice(&MARKER);
    invalid_bytes.extend_from_slice(&[0, 25]);
    invalid_bytes.push(MessageType::Keepalive.to_u8());
    let result = Message::try_from_bytes(invalid_bytes);
    assert!(result.is_err());
}

#[test]
fn test_bgp_open_message_minimum_values_valid() {
    let caps = Capabilities::default();
    let open = BGPOpenMessage::new(1, 1, 0, caps).unwrap();
    assert_eq!(open.version, VERSION);
    assert_eq!(open.asn, 1);
    assert_eq!(open.hold_time, 0);
    assert_eq!(open.router_id, 1);
}

#[test]
fn test_bgp_open_message_maximum_values_valid() {
    let caps = Capabilities::default();
    let open = BGPOpenMessage::new(65535, 0xFFFFFFFF, 65535, caps).unwrap();
    assert_eq!(open.version, VERSION);
    assert_eq!(open.asn, 65535);
    assert_eq!(open.hold_time, 65535);
    assert_eq!(open.router_id, 0xFFFFFFFF);
}

#[test]
fn test_bgp_update_message_large_nlri_count_valid() {
    let mut nlris = vec![];
    for i in 1..=100 {
        nlris.push(net(i, 0, 0, 0, 8));
    }
    let update = BGPUpdateMessageBuilder::default()
        .withdrawn_routes(vec![])
        .path_attributes(vec![])
        .nlri(nlris)
        .build()
        .unwrap();
    assert_eq!(update.nlri.len(), 100);
}

#[test]
fn test_bgp_update_message_large_withdrawn_routes_valid() {
    let mut withdrawn = vec![];
    for i in 1..=50 {
        withdrawn.push(net(i, 0, 0, 0, 8));
    }
    let update = BGPUpdateMessageBuilder::default()
        .withdrawn_routes(withdrawn)
        .path_attributes(vec![])
        .nlri(vec![])
        .build()
        .unwrap();
    assert_eq!(update.withdrawn_routes.len(), 50);
}

#[test]
fn test_bgp_update_message_large_path_attributes_valid() {
    let mut attrs = vec![];
    for i in 1..=10 {
        attrs.push(PathAttribute::med(i));
    }
    let update = BGPUpdateMessageBuilder::default()
        .withdrawn_routes(vec![])
        .path_attributes(attrs)
        .nlri(vec![])
        .build()
        .unwrap();
    assert_eq!(update.path_attributes.len(), 10);
}

#[test]
fn test_bgp_notification_message_all_error_codes_valid() {
    let error_codes = vec![
        ErrorCode::MessageHeader,
        ErrorCode::OpenMessage,
        ErrorCode::UpdateMessage,
        ErrorCode::HoldTimerExpired,
        ErrorCode::FSMError,
        ErrorCode::Cease,
    ];
    for error_code in error_codes {
        let notif = BGPNotificationMessage::new(error_code, 0).unwrap();
        assert_eq!(notif.error_code, error_code);
        assert_eq!(notif.error_subcode, 0);
    }
}

#[test]
fn test_bgp_notification_message_with_data_valid() {
    let data = vec![1, 2, 3, 4, 5];
    let notif = BGPNotificationMessageBuilder::default()
        .error_code(ErrorCode::UpdateMessage)
        .error_subcode(1)
        .data(data.clone())
        .build()
        .unwrap();
    assert_eq!(notif.data, data);
    assert_eq!(notif.byte_len(), 2 + data.len());
}

#[test]
fn test_message_all_types_valid() {
    let types = vec![
        MessageType::Open,
        MessageType::Update,
        MessageType::Notification,
        MessageType::Keepalive,
    ];
    for msg_type in types {
        let body = match msg_type {
            MessageType::Open => {
                let open = BGPOpenMessage::new(65000, 0x01020304, 180, Capabilities::default()).unwrap();
                BGPMessageBody::Open(open)
            }
            MessageType::Update => BGPMessageBody::Update(BGPUpdateMessage::new().unwrap()),
            MessageType::Notification => {
                BGPMessageBody::Notification(BGPNotificationMessage::new(ErrorCode::UpdateMessage, 1).unwrap())
            }
            MessageType::Keepalive => BGPMessageBody::Keepalive(BGPKeepaliveMessage::new().unwrap()),
        };
        let msg = Message::new(msg_type, body).unwrap();
        assert_eq!(msg.header.message_type, msg_type);
    }
}

#[test]
fn test_message_round_trip_serialization_valid() {
    let original_body = BGPKeepaliveMessage::new().unwrap();
    let _original_msg =
        Message::new(MessageType::Keepalive, BGPMessageBody::Keepalive(original_body)).unwrap();
    let complete_msg = framed(MessageType::Keepalive, &[]);
    let parsed_msg: Message = Message::try_from_bytes(complete_msg).unwrap();
    assert_eq!(parsed_msg.header.message_type, MessageType::Keepalive);
    match parsed_msg.body {
        BGPMessageBody::Keepalive(_) => {}
        _ => panic!("Expected Keepalive body"),
    }
}

#[test]
fn test_keepalive_message() {
    let body = BGPKeepaliveMessage::new().unwrap();
    let test_msg: Vec<u8> =
        Message::new(MessageType::Keepalive, BGPMessageBody::Keepalive(body)).unwrap().to_bytes();
    let keepalive: Vec<u8> = vec![0x4];
    assert_eq!(test_msg, keepalive)
}

#[test]
fn test_open_message() {
    let body = BGPOpenMessage::new(123, 345, 3, Capabilities::default()).unwrap();
    let test_msg: Vec<u8> =
        Message::new(MessageType::Open, BGPMessageBody::Open(body)).unwrap().to_bytes();
    let open: Vec<u8> = vec![
        0x1, 0x4, 0x0, 0x7b, 0x0, 0x3, 0x0, 0x0, 0x1, 0x59, 0x8, 0x2, 0x6, 0x1, 0x4, 0x0, 0x1,
        0x0, 0x1,
    ];
    assert_eq!(test_msg, open)
}

#[test]
fn open_message_text_is_exact() {
    let open = BGPOpenMessage::new(65000, 0x01020304, 180, Capabilities::default()).unwrap();
    assert!(open
        .message()
        .starts_with("version : 4 local_asn : 65000 hold_time : 180 router_id : 1.2.3.4 opt_params : "));
}

#[test]
fn update_parse_of_captured_message() {
    let v: Vec<u8> = vec![
        0x00, 0x00, 0x00, 0x14, 0x40, 0x01, 0x01, 0x00, 0x40, 0x02, 0x06, 0x02, 0x02, 0xfe, 0xb0,
        0xfe, 0x4c, 0x40, 0x03, 0x04, 0x02, 0x02, 0x02, 0x02, 0x18, 0x0a, 0x0a, 0x01, 0x18, 0x0a,
        0x0a, 0x02, 0x18, 0x0a, 0x0a, 0x03,
    ];
    let u = BGPUpdateMessage::try_from_bytes(v.clone()).unwrap();
    assert_eq!(u.withdrawn_routes.len(), 0);
    assert_eq!(u.path_attributes.len(), 3);
    assert_eq!(u.nlri, vec![net(10, 10, 1, 0, 24), net(10, 10, 2, 0, 24), net(10, 10, 3, 0, 24)]);
    assert_eq!(u.to_bytes(), v);
}

#[test]
fn message_errors_name_the_fault() {
    match Message::try_from_bytes(vec![0xff, 0xff, 0xff]) {
        Err(BgpError::Validation(BgpValidationError::MessageTooShort { actual: 3, minimum: 19 })) => {}
        other => panic!("unexpected {:?}", other),
    }
    let mut b = MARKER.to_vec();
    b.extend_from_slice(&[0, 25, 4]);
    match Message::try_from_bytes(b) {
        Err(BgpError::Validation(BgpValidationError::InvalidBufferBounds {
            offset: 0,
            length: 25,
            buffer_size: 19,
        })) => {}
        other => panic!("unexpected {:?}", other),
    }
    let mut b = MARKER.to_vec();
    b.extend_from_slice(&[0, 19, 99]);
    match Message::try_from_bytes(b) {
        Err(BgpError::Validation(BgpValidationError::InvalidMessageType(99))) => {}
        other => panic!("unexpected {:?}", other),
    }
    match Message::try_from_bytes(framed(MessageType::Open, &[4, 0])) {
        Err(BgpError::Message(_)) => {}
        other => panic!("unexpected {:?}", other),
    }
}

// Malformed OPEN and NOTIFICATION bodies: the parsers refuse them instead of panicking.
#[test]
fn test_bgp_open_message_from_empty_bytes_invalid() {
    let empty_bytes: Vec<u8> = vec![];
    assert!(BGPOpenMessage::parse(&empty_bytes).is_none(), "Should fail on empty bytes");
}

#[test]
fn test_bgp_open_message_from_insufficient_bytes_invalid() {
    let insufficient_bytes: Vec<u8> = vec![4, 0xFD];
    assert!(BGPOpenMessage::parse(&insufficient_bytes).is_none(), "Should fail on insufficient bytes");
}

#[test]
fn test_bgp_notification_message_from_empty_bytes_invalid() {
    let empty_bytes: Vec<u8> = vec![];
    assert!(BGPNotificationMessage::parse(&empty_bytes).is_none(), "Should fail on empty bytes");
}

#[test]
fn test_bgp_notification_message_from_insufficient_bytes_invalid() {
    let insufficient_bytes: Vec<u8> = vec![3];
    assert!(
        BGPNotificationMessage::parse(&insufficient_bytes).is_none(),
        "Should fail on insufficient bytes"
    );
}

#[test]
fn test_bgp_notification_message_invalid_error_code_invalid() {
    let invalid_bytes: Vec<u8> = vec![99, 0];
    assert!(
        BGPNotificationMessage::parse(&invalid_bytes).is_none(),
        "Should fail on invalid error code"
    );
}

#[test]
fn update_written_then_read_gives_the_same_routes() {
    let attrs = vec![
        PathAttribute::origin(OriginType::Egp),
        PathAttribute::aspath(vec![ASPATHSegment {
            segment_type: ASPATHSegmentType::AsSequence,
            as_list: vec![65001, 65002],
        }]),
        PathAttribute::nexthop(ipv4(10, 0, 0, 1)),
        PathAttribute::med(7),
    ];
    let u = BGPUpdateMessageBuilder::default()
        .withdrawn_routes(vec![net(10, 1, 0, 0, 16)])
        .path_attributes(attrs.clone())
        .nlri(vec![net(172, 16, 5, 9, 24)])
        .build()
        .unwrap();
    let back = BGPUpdateMessage::try_from_bytes(u.to_bytes()).unwrap();
    assert_eq!(back.withdrawn_routes, vec![net(10, 1, 0, 0, 16)]);
    assert_eq!(back.path_attributes, attrs);
    assert_eq!(back.nlri, vec![net(172, 16, 5, 0, 24)]);
}

#[test]
fn test_open_message_text_names_every_parameter() {
    let caps = Capabilities {
        multiprotocol: Some(vec![
            AddressFamily { afi: Afi::Ipv4, safi: Safi::NLRIUnicast },
            AddressFamily { afi: Afi::Ipv6, safi: Safi::NLRIUnicast },
        ]),
        ..Default::default()
    };
    let open = BGPOpenMessage::new(65000, 0x01020304, 180, caps).unwrap();
    let expected = format!(
        "version : 4 local_asn : 65000 hold_time : 180 router_id : 1.2.3.4 opt_params : {:?}",
        open.opt_params
    );
    assert_eq!(open.message(), expected);
}

#[test]
fn test_open_message_text_default_parameters() {
    let open = BGPOpenMessage::new(1, 0, 90, Capabilities::default()).unwrap();
    assert_eq!(
        open.message(),
        "version : 4 local_asn : 1 hold_time : 90 router_id : 0.0.0.0 opt_params : \
         BGPOptionalParameters { len: 8, params: [BGPOptionalParameter { param_type: Capability, \
         param_length: 6, param_value: [1, 4, 0, 1, 0, 1] }] }"
    );
    let expected = format!(
        "version : 4 local_asn : 1 hold_time : 90 router_id : 0.0.0.0 opt_params : {:?}",
        open.opt_params
    );
    assert_eq!(open.message(), expected);
}
