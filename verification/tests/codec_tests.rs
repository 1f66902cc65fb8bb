use bytes::BytesMut;
use ubgp::codec::BGPMessageCodec;
use ubgp::error::BgpError;
use ubgp::capabilities::Capabilities;
use ubgp::messages::{BGPMessageBody, BGPNotificationMessage, BGPOpenMessage, Message};
use ubgp::types::{
    AddressFamily, Afi, BgpValidationError, ErrorCode, MessageType, Safi, MARKER, MAX_MESSAGE_LENGTH,
};

#[test]
fn test_decoder_minimum_length() {
    let mut codec = BGPMessageCodec;
    let mut buf = BytesMut::new();
    buf.extend_from_slice(&[0xff; 10]);
    assert!(codec.decode(&mut buf).unwrap().is_none());
}

#[test]
fn test_decoder_invalid_marker() {
    let mut codec = BGPMessageCodec;
    let mut buf = BytesMut::new();
    let mut invalid_msg = vec![0xfe; 16];
    invalid_msg.extend_from_slice(&[0, 19]);
    invalid_msg.push(4);
    buf.extend_from_slice(&invalid_msg);
    assert!(codec.decode(&mut buf).is_err());
}

#[test]
fn test_decoder_invalid_message_type() {
    let mut codec = BGPMessageCodec;
    let mut buf = BytesMut::new();
    let mut invalid_msg = MARKER.to_vec();
    invalid_msg.extend_from_slice(&[0, 19]);
    invalid_msg.push(99);
    buf.extend_from_slice(&invalid_msg);
    assert!(codec.decode(&mut buf).is_err());
}

#[test]
fn test_decoder_valid_keepalive() {
    let mut codec = BGPMessageCodec;
    let mut buf = BytesMut::new();
    let mut valid_msg = MARKER.to_vec();
    valid_msg.extend_from_slice(&[0, 19]);
    valid_msg.push(4);
    buf.extend_from_slice(&valid_msg);
    let result = codec.decode(&mut buf).unwrap();
    assert!(result.is_some());
    assert_eq!(result.unwrap().len(), 19);
}

#[test]
fn test_encoder_message_too_large() {
    let mut codec = BGPMessageCodec;
    let mut buf = BytesMut::new();
    let large_data = vec![0; MAX_MESSAGE_LENGTH];
    assert!(codec.encode(large_data, &mut buf).is_err());
}

#[test]
fn test_encoder_valid_message() {
    let mut codec = BGPMessageCodec;
    let mut buf = BytesMut::new();
    let keepalive_body = vec![4];
    assert!(codec.encode(keepalive_body, &mut buf).is_ok());
    assert_eq!(buf.len(), 19);
    assert_eq!(&buf[0..16], &MARKER);
    assert_eq!(&buf[16..18], &[0, 19]);
    assert_eq!(buf[18], 4);
}

#[test]
fn decoder_waits_for_the_rest_of_a_message_and_keeps_the_bytes() {
    let mut codec = BGPMessageCodec;
    let mut buf = BytesMut::new();
    let mut partial = MARKER.to_vec();
    partial.extend_from_slice(&[0, 23]);
    partial.push(3);
    partial.push(6);
    buf.extend_from_slice(&partial);
    assert!(codec.decode(&mut buf).unwrap().is_none());
    assert_eq!(buf.len(), 20);
}

#[test]
fn decoder_takes_one_message_and_leaves_the_next() {
    let mut codec = BGPMessageCodec;
    let mut buf = BytesMut::new();
    let mut two = MARKER.to_vec();
    two.extend_from_slice(&[0, 19, 4]);
    two.extend_from_slice(&MARKER);
    two.extend_from_slice(&[0, 19, 4]);
    two.push(0xaa);
    buf.extend_from_slice(&two);
    let first = codec.decode(&mut buf).unwrap().unwrap();
    assert_eq!(first, two[0..19].to_vec());
    assert_eq!(buf.len(), 20);
    assert_eq!(buf[19], 0xaa);
}

#[test]
fn decoder_refuses_out_of_bounds_lengths() {
    let mut codec = BGPMessageCodec;
    let mut buf = BytesMut::new();
    let mut short = MARKER.to_vec();
    short.extend_from_slice(&[0, 18, 4]);
    buf.extend_from_slice(&short);
    match codec.decode(&mut buf) {
        Err(BgpError::Validation(BgpValidationError::MessageTooShort { actual, minimum })) => {
            assert_eq!(actual, 18);
            assert_eq!(minimum, 19);
        }
        _ => panic!("expected a too-short error"),
    }
    let mut buf = BytesMut::new();
    let mut long = MARKER.to_vec();
    long.extend_from_slice(&[0x10, 0x01, 4]);
    buf.extend_from_slice(&long);
    match codec.decode(&mut buf) {
        Err(BgpError::Validation(BgpValidationError::MessageTooLong { actual, maximum })) => {
            assert_eq!(actual, 4097);
            assert_eq!(maximum, 4096);
        }
        _ => panic!("expected a too-long error"),
    }
}

#[test]
fn encoded_frame_decodes_back_whole() {
    let mut codec = BGPMessageCodec;
    let mut buf = BytesMut::new();
    let body = vec![3, 6, 0];
    codec.encode(body.clone(), &mut buf).unwrap();
    let frame = codec.decode(&mut buf).unwrap().unwrap();
    assert_eq!(frame.len(), 21);
    assert_eq!(&frame[18..], &body[..]);
    assert_eq!(buf.len(), 0);
}

#[test]
fn encoder_refuses_an_empty_body_and_leaves_the_buffer() {
    let mut codec = BGPMessageCodec;
    let mut buf = BytesMut::new();
    buf.extend_from_slice(&[1, 2]);
    assert!(codec.encode(vec![], &mut buf).is_err());
    assert_eq!(buf.len(), 2);
}

#[test]
fn messages_survive_framing_and_decoding() {
    let caps = Capabilities {
        multiprotocol: Some(vec![AddressFamily { afi: Afi::Ipv6, safi: Safi::NLRIUnicast }]),
        ..Capabilities::default()
    };
    let open = BGPOpenMessage::new(65000, 0x01020304, 90, caps).unwrap();
    let notif = BGPNotificationMessage::new(ErrorCode::Cease, 2).unwrap();
    let msgs = vec![
        Message::new(MessageType::Open, BGPMessageBody::Open(open)).unwrap(),
        Message::new(MessageType::Notification, BGPMessageBody::Notification(notif)).unwrap(),
    ];
    let mut codec = BGPMessageCodec;
    for m in msgs {
        let mut buf = BytesMut::new();
        codec.encode(m.to_bytes(), &mut buf).unwrap();
        let frame = codec.decode(&mut buf).unwrap().unwrap();
        let back = Message::try_from_bytes(frame).unwrap();
        assert_eq!(back.header.message_type, m.header.message_type);
        match (&back.body, &m.body) {
            (BGPMessageBody::Open(a), BGPMessageBody::Open(b)) => {
                assert_eq!(a.asn, b.asn);
                assert_eq!(a.router_id, b.router_id);
                assert_eq!(a.hold_time, b.hold_time);
                assert_eq!(a.opt_params.params.len(), b.opt_params.params.len());
                assert_eq!(a.opt_params.params[0].param_value, b.opt_params.params[0].param_value);
                assert_eq!(a.opt_params.len, b.opt_params.len + 1);
            }
            (BGPMessageBody::Notification(a), BGPMessageBody::Notification(b)) => {
                assert_eq!(a.error_code, b.error_code);
                assert_eq!(a.error_subcode, b.error_subcode);
            }
            _ => panic!("body kind changed"),
        }
    }
}
