use ubgp::attributes::{
    AggregatorValue, ASPATHSegment, ASPATHSegmentType, Flatten, OriginType, PathAttribute,
    PathAttributeType, PathAttributeValue,
};

fn ipv4(a: u8, b: u8, c: u8, d: u8) -> u32 {
    u32::from_be_bytes([a, b, c, d])
}

#[test]
fn test_origin_type_valid() {
    let origin = OriginType::Igp;
    assert_eq!(origin.to_u8(), 0);
    let origin = OriginType::Egp;
    assert_eq!(origin.to_u8(), 1);
    let origin = OriginType::Incomplete;
    assert_eq!(origin.to_u8(), 2);
}

#[test]
fn test_aspath_segment_valid() {
    let segment = ASPATHSegment {
        segment_type: ASPATHSegmentType::AsSequence,
        as_list: vec![65000, 65001, 65002],
    };
    assert_eq!(segment.len(), 3);
    assert_eq!(segment.segment_type, ASPATHSegmentType::AsSequence);
    assert_eq!(segment.as_list, vec![65000, 65001, 65002]);
}

#[test]
fn test_aspath_segment_as_set_valid() {
    let segment = ASPATHSegment {
        segment_type: ASPATHSegmentType::AsSet,
        as_list: vec![65000, 65001],
    };
    assert_eq!(segment.len(), 1);
    assert_eq!(segment.segment_type, ASPATHSegmentType::AsSet);
}

#[test]
fn test_aspath_segment_serialization_valid() {
    let segment = ASPATHSegment {
        segment_type: ASPATHSegmentType::AsSequence,
        as_list: vec![65000, 65001],
    };
    let bytes: Vec<u8> = segment.to_bytes();
    assert_eq!(bytes[0], ASPATHSegmentType::AsSequence.to_u8());
    assert_eq!(bytes[1], 2);
    assert_eq!(bytes[2..4], [0xFD, 0xE8]);
    assert_eq!(bytes[4..6], [0xFD, 0xE9]);
}

#[test]
fn test_aspath_flatten_valid() {
    let segments = vec![
        ASPATHSegment {
            segment_type: ASPATHSegmentType::AsSequence,
            as_list: vec![65000, 65001],
        },
        ASPATHSegment {
            segment_type: ASPATHSegmentType::AsSet,
            as_list: vec![65002, 65003],
        },
    ];
    let flattened = segments.flatten_aspath();
    assert_eq!(flattened, vec![65000, 65001, 65002, 65003]);
}

#[test]
fn test_aggregator_value_valid() {
    let aggregator = AggregatorValue { last_as: 65000, aggregator: ipv4(192, 0, 2, 1) };
    assert_eq!(aggregator.last_as, 65000);
    assert_eq!(aggregator.aggregator, ipv4(192, 0, 2, 1));
}

#[test]
fn test_path_attribute_origin_valid() {
    let attr = PathAttribute::origin(OriginType::Igp);
    assert_eq!(attr.type_code, PathAttributeType::Origin);
    assert_eq!(attr.value, PathAttributeValue::Origin(OriginType::Igp));
    assert!(!attr.optional);
    assert!(attr.transitive);
    assert!(!attr.partial);
    assert!(!attr.extended_length);
}

#[test]
fn test_path_attribute_aspath_valid() {
    let aspath = vec![ASPATHSegment {
        segment_type: ASPATHSegmentType::AsSequence,
        as_list: vec![65000],
    }];
    let attr = PathAttribute::aspath(aspath.clone());
    assert_eq!(attr.type_code, PathAttributeType::AsPath);
    assert_eq!(attr.value, PathAttributeValue::AsPath(aspath));
    assert!(!attr.optional);
    assert!(attr.transitive);
    assert!(!attr.partial);
    assert!(!attr.extended_length);
}

#[test]
fn test_path_attribute_nexthop_valid() {
    let nexthop = ipv4(192, 0, 2, 1);
    let attr = PathAttribute::nexthop(nexthop);
    assert_eq!(attr.type_code, PathAttributeType::NextHop);
    assert_eq!(attr.value, PathAttributeValue::NextHop(nexthop));
    assert!(!attr.optional);
    assert!(attr.transitive);
    assert!(!attr.partial);
    assert!(!attr.extended_length);
}

#[test]
fn test_path_attribute_med_valid() {
    let med = 100;
    let attr = PathAttribute::med(med);
    assert_eq!(attr.type_code, PathAttributeType::MultiExitDisc);
    assert_eq!(attr.value, PathAttributeValue::MultiExitDisc(med));
    assert!(attr.optional);
    assert!(!attr.transitive);
    assert!(!attr.partial);
    assert!(!attr.extended_length);
}

#[test]
fn test_path_attribute_local_pref_valid() {
    let pref = 100;
    let attr = PathAttribute::local_pref(pref);
    assert_eq!(attr.type_code, PathAttributeType::LocalPref);
    assert_eq!(attr.value, PathAttributeValue::LocalPref(pref));
    assert!(attr.optional);
    assert!(!attr.transitive);
    assert!(!attr.partial);
    assert!(!attr.extended_length);
}

#[test]
fn test_path_attribute_aggregator_valid() {
    let last_as = 65000;
    let aggregator_ip = ipv4(192, 0, 2, 1);
    let attr = PathAttribute::aggregator(last_as, aggregator_ip);
    assert_eq!(attr.type_code, PathAttributeType::Aggregator);
    if let PathAttributeValue::Aggregator(agg) = attr.value {
        assert_eq!(agg.last_as, last_as);
        assert_eq!(agg.aggregator, aggregator_ip);
    } else {
        panic!("Expected Aggregator value");
    }
    assert!(attr.optional);
    assert!(attr.transitive);
    assert!(!attr.partial);
    assert!(!attr.extended_length);
}

#[test]
fn test_path_attribute_transitive_check_valid() {
    let attr = PathAttribute::origin(OriginType::Igp);
    assert!(attr.is_transitive());
    let attr = PathAttribute::med(100);
    assert!(!attr.is_transitive());
}

#[test]
fn test_aspath_segment_empty_as_list_edge_case() {
    let segment = ASPATHSegment { segment_type: ASPATHSegmentType::AsSequence, as_list: vec![] };
    assert_eq!(segment.len(), 0);
    let bytes: Vec<u8> = segment.to_bytes();
    assert_eq!(bytes[0], ASPATHSegmentType::AsSequence.to_u8());
    assert_eq!(bytes[1], 0);
    assert_eq!(bytes.len(), 2);
}

#[test]
fn test_aspath_segment_large_as_list_edge_case() {
    let large_as_list: Vec<u16> = (1..=255).collect();
    let segment = ASPATHSegment {
        segment_type: ASPATHSegmentType::AsSequence,
        as_list: large_as_list.clone(),
    };
    assert_eq!(segment.len(), 255);
    let bytes: Vec<u8> = segment.to_bytes();
    assert_eq!(bytes[0], ASPATHSegmentType::AsSequence.to_u8());
    assert_eq!(bytes[1], 255);
    assert_eq!(bytes.len(), 2 + 255 * 2);
}

#[test]
fn test_aggregator_value_edge_cases() {
    let aggregator = AggregatorValue { last_as: 0, aggregator: ipv4(0, 0, 0, 0) };
    assert_eq!(aggregator.last_as, 0);
    assert_eq!(aggregator.aggregator, ipv4(0, 0, 0, 0));
    let aggregator = AggregatorValue { last_as: 65535, aggregator: ipv4(255, 255, 255, 255) };
    assert_eq!(aggregator.last_as, 65535);
    assert_eq!(aggregator.aggregator, ipv4(255, 255, 255, 255));
}

#[test]
fn path_attribute_parse_refuses_malformed_forms() {
    assert!(PathAttribute::parse(&[]).is_none());
    assert!(PathAttribute::parse(&[0x40]).is_none());
    assert!(PathAttribute::parse(&[0x40, 255, 1, 0]).is_none());
    assert!(PathAttribute::parse(&[0x40, 1, 1, 3]).is_none());
    assert!(PathAttribute::parse(&[0x40, 3, 3, 192, 0, 2]).is_none());
    assert!(PathAttribute::parse(&[0x40, 2, 4, 3, 1, 0xFD, 0xE8]).is_none());
    assert!(PathAttribute::parse(&[0x40, 2, 4, 2, 2, 0xFD, 0xE8]).is_none());
    assert!(PathAttribute::parse(&[0x80, 4, 2, 0x00, 0x64]).is_none());
}

#[test]
fn path_attribute_round_trips() {
    let attrs = vec![
        PathAttribute::origin(OriginType::Egp),
        PathAttribute::aspath(vec![
            ASPATHSegment { segment_type: ASPATHSegmentType::AsSequence, as_list: vec![65000, 65001] },
            ASPATHSegment { segment_type: ASPATHSegmentType::AsSet, as_list: vec![1] },
        ]),
        PathAttribute::nexthop(ipv4(10, 0, 0, 1)),
        PathAttribute::med(42),
        PathAttribute::local_pref(200),
        PathAttribute::aggregator(65000, ipv4(192, 0, 2, 1)),
    ];
    for a in attrs {
        let bytes = a.to_bytes();
        let b = PathAttribute::from_bytes(bytes);
        assert_eq!(a, b);
    }
}

#[test]
fn path_attribute_wire_forms() {
    assert_eq!(PathAttribute::origin(OriginType::Igp).to_bytes(), vec![0x40, 1, 1, 0]);
    assert_eq!(PathAttribute::nexthop(ipv4(2, 2, 2, 2)).to_bytes(), vec![0x40, 3, 4, 2, 2, 2, 2]);
    assert_eq!(PathAttribute::med(0xf2).to_bytes(), vec![0x80, 4, 4, 0, 0, 0, 0xf2]);
    let p = PathAttribute::parse(&[0x40, 2, 6, 2, 2, 0xfe, 0xb0, 0xfe, 0x4c]).unwrap();
    assert_eq!(
        p.value,
        PathAttributeValue::AsPath(vec![ASPATHSegment {
            segment_type: ASPATHSegmentType::AsSequence,
            as_list: vec![65200, 65100],
        }])
    );
}

// Malformed attributes: the parser refuses them instead of panicking.
#[test]
fn test_path_attribute_from_empty_bytes_invalid() {
    let empty_bytes: Vec<u8> = vec![];
    assert!(PathAttribute::parse(&empty_bytes).is_none(), "Should fail on empty input");
}

#[test]
fn test_path_attribute_from_insufficient_bytes_invalid() {
    let insufficient_bytes: Vec<u8> = vec![0x40];
    assert!(PathAttribute::parse(&insufficient_bytes).is_none(), "Should fail on insufficient input");
}

#[test]
fn test_path_attribute_from_invalid_type_code_invalid() {
    let invalid_bytes: Vec<u8> = vec![0x40, 255, 1, 0];
    assert!(PathAttribute::parse(&invalid_bytes).is_none(), "Should fail on invalid type code");
}

#[test]
fn test_path_attribute_origin_invalid_value() {
    let invalid_bytes: Vec<u8> = vec![0x40, 1, 1, 3];
    assert!(PathAttribute::parse(&invalid_bytes).is_none(), "Should fail on invalid origin value");
}

#[test]
fn test_path_attribute_nexthop_insufficient_bytes_invalid() {
    let invalid_bytes: Vec<u8> = vec![0x40, 3, 3, 192, 0, 2];
    assert!(
        PathAttribute::parse(&invalid_bytes).is_none(),
        "Should fail on insufficient bytes for nexthop"
    );
}

#[test]
fn test_path_attribute_aspath_invalid_segment_type() {
    let invalid_bytes: Vec<u8> = vec![0x40, 2, 4, 3, 1, 0xFD, 0xE8];
    assert!(
        PathAttribute::parse(&invalid_bytes).is_none(),
        "Should fail on invalid AS_PATH segment type"
    );
}

#[test]
fn test_path_attribute_aspath_inconsistent_length_invalid() {
    let invalid_bytes: Vec<u8> = vec![0x40, 2, 4, 2, 2, 0xFD, 0xE8];
    assert!(
        PathAttribute::parse(&invalid_bytes).is_none(),
        "Should fail on inconsistent AS_PATH length"
    );
}

#[test]
fn test_path_attribute_med_insufficient_bytes_invalid() {
    let invalid_bytes: Vec<u8> = vec![0x80, 4, 2, 0x00, 0x64];
    assert!(
        PathAttribute::parse(&invalid_bytes).is_none(),
        "Should fail on insufficient bytes for MED"
    );
}

#[test]
fn extended_length_attribute_has_a_two_octet_length_and_reads_back() {
    let mut a = PathAttribute::aspath(vec![ASPATHSegment {
        segment_type: ASPATHSegmentType::AsSequence,
        as_list: vec![65001, 65002],
    }]);
    a.extended_length = true;
    let bytes = a.to_bytes();
    assert_ne!(bytes[0] & 0x10, 0);
    assert_eq!(&bytes[2..4], &[0, 6]);
    assert_eq!(bytes.len(), 4 + 6);
    assert_eq!(PathAttribute::parse(&bytes), Some(a));

    let mut m = PathAttribute::med(300);
    m.extended_length = true;
    let bytes = m.to_bytes();
    assert_eq!(bytes.len(), 8);
    assert_eq!(&bytes[2..4], &[0, 4]);
    assert_eq!(PathAttribute::parse(&bytes), Some(m));
}
