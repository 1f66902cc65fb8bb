use ubgp::net::{IpAddress, IpPrefix, Ipv4Prefix, Ipv6Prefix};
use ubgp::nlri::{prefix_bytes, Ipv4Octets, Ipv6Octets, Mpnlri, Mpunlri, Nlri, NlriBuilder};
use ubgp::types::{AddressFamily, Afi, Safi};

fn ipv4(a: u8, b: u8, c: u8, d: u8) -> u32 {
    u32::from_be_bytes([a, b, c, d])
}

fn v4net(a: u8, b: u8, c: u8, d: u8, plen: u8) -> IpPrefix {
    IpPrefix::V4(Ipv4Prefix { addr: ipv4(a, b, c, d), prefix_len: plen })
}

fn v6net(addr: u128, plen: u8) -> IpPrefix {
    IpPrefix::V6(Ipv6Prefix { addr, prefix_len: plen })
}

const DB8: u128 = 0x2001_0db8_0000_0000_0000_0000_0000_0000;

#[test]
fn test_nlri_ipv4_valid() {
    let nlri = NlriBuilder::default().net(v4net(192, 0, 2, 0, 24)).build().unwrap();
    assert_eq!(nlri.net.prefix_len(), 24);
    if let IpPrefix::V4(v4_net) = nlri.net {
        assert_eq!(nlri.net.network(), IpAddress::V4(ipv4(192, 0, 2, 0)));
        assert_eq!(v4_net.prefix_len, 24);
    } else {
        panic!("Expected IPv4 network");
    }
}

#[test]
fn test_nlri_ipv6_valid() {
    let nlri = NlriBuilder::default().net(v6net(DB8, 32)).build().unwrap();
    assert_eq!(nlri.net.prefix_len(), 32);
    if let IpPrefix::V6(v6_net) = nlri.net {
        assert_eq!(nlri.net.network(), IpAddress::V6(DB8));
        assert_eq!(v6_net.prefix_len, 32);
    } else {
        panic!("Expected IPv6 network");
    }
}

#[test]
fn test_nlri_serialization_ipv4_valid() {
    let nlri = NlriBuilder::default().net(v4net(192, 0, 2, 0, 24)).build().unwrap();
    let bytes: Vec<u8> = nlri.to_bytes();
    assert_eq!(bytes[0], 24);
    assert_eq!(bytes[1], 192);
    assert_eq!(bytes[2], 0);
    assert_eq!(bytes[3], 2);
    assert_eq!(bytes.len(), 4);
}

#[test]
fn test_nlri_serialization_ipv6_valid() {
    let nlri = NlriBuilder::default().net(v6net(DB8, 32)).build().unwrap();
    let bytes: Vec<u8> = nlri.to_bytes();
    assert_eq!(bytes[0], 32);
    assert_eq!(bytes[1], 0x20);
    assert_eq!(bytes[2], 0x01);
    assert_eq!(bytes[3], 0x0d);
    assert_eq!(bytes[4], 0xb8);
    assert_eq!(bytes.len(), 5);
}

#[test]
fn test_nlri_from_ipv4_octets_valid() {
    let octets = Ipv4Octets { octets: vec![24, 192, 0, 2] };
    let nlri: Nlri = Nlri::try_from_ipv4_octets(octets).unwrap();
    assert_eq!(nlri.net.prefix_len(), 24);
    assert_eq!(nlri.net.network(), IpAddress::V4(ipv4(192, 0, 2, 0)));
}

#[test]
fn test_nlri_from_ipv6_octets_valid() {
    let octets = Ipv6Octets { octets: vec![32, 0x20, 0x01, 0x0d, 0xb8] };
    let nlri: Nlri = Nlri::try_from_ipv6_octets(octets).unwrap();
    assert_eq!(nlri.net.prefix_len(), 32);
    assert_eq!(nlri.net.network(), IpAddress::V6(DB8));
}

#[test]
fn test_nlri_ipv4_host_route_valid() {
    let octets = Ipv4Octets { octets: vec![32, 192, 0, 2, 1] };
    let nlri: Nlri = Nlri::try_from_ipv4_octets(octets).unwrap();
    assert_eq!(nlri.net.prefix_len(), 32);
    assert_eq!(nlri.net.network(), IpAddress::V4(ipv4(192, 0, 2, 1)));
}

#[test]
fn test_nlri_ipv4_default_route_valid() {
    let octets = Ipv4Octets { octets: vec![0] };
    let nlri: Nlri = Nlri::try_from_ipv4_octets(octets).unwrap();
    assert_eq!(nlri.net.prefix_len(), 0);
    assert_eq!(nlri.net.network(), IpAddress::V4(0));
}

#[test]
fn test_nlri_ipv6_host_route_valid() {
    let mut octets = vec![128];
    octets.extend_from_slice(&[0x20, 0x01, 0x0d, 0xb8, 0, 0, 0, 0, 0, 0, 0, 0, 0, 0, 0, 1]);
    let ipv6_octets = Ipv6Octets { octets };
    let nlri: Nlri = Nlri::try_from_ipv6_octets(ipv6_octets).unwrap();
    assert_eq!(nlri.net.prefix_len(), 128);
    assert_eq!(nlri.net.network(), IpAddress::V6(DB8 + 1));
}

#[test]
fn test_nlri_conversion_to_ipnet_valid() {
    let net = v4net(10, 0, 0, 0, 8);
    let nlri = NlriBuilder::default().net(net).build().unwrap();
    let ipnet: IpPrefix = nlri.into();
    let ipnet_ref: IpPrefix = nlri.to_prefix();
    assert_eq!(ipnet, net);
    assert_eq!(ipnet_ref, net);
}

#[test]
fn test_mpnlri_ipv4_valid() {
    let af = AddressFamily { afi: Afi::Ipv4, safi: Safi::NLRIUnicast };
    let nh = IpAddress::V4(ipv4(192, 0, 2, 1));
    let nlri = NlriBuilder::default().net(v4net(10, 0, 0, 0, 8)).build().unwrap();
    let mp_nlri = Mpnlri { af, nh, nlris: vec![nlri] };
    assert_eq!(mp_nlri.af.afi, Afi::Ipv4);
    assert_eq!(mp_nlri.af.safi, Safi::NLRIUnicast);
    assert_eq!(mp_nlri.nh, IpAddress::V4(ipv4(192, 0, 2, 1)));
    assert_eq!(mp_nlri.nlris.len(), 1);
}

#[test]
fn test_mpnlri_ipv6_valid() {
    let af = AddressFamily { afi: Afi::Ipv6, safi: Safi::NLRIUnicast };
    let nh = IpAddress::V6(DB8 + 1);
    let nlri = NlriBuilder::default().net(v6net(DB8, 32)).build().unwrap();
    let mp_nlri = Mpnlri { af, nh, nlris: vec![nlri] };
    assert_eq!(mp_nlri.af.afi, Afi::Ipv6);
    assert_eq!(mp_nlri.af.safi, Safi::NLRIUnicast);
    assert_eq!(mp_nlri.nh, IpAddress::V6(DB8 + 1));
    assert_eq!(mp_nlri.nlris.len(), 1);
}

#[test]
fn test_prefix_bytes_calculation_valid() {
    assert_eq!(prefix_bytes(0), 0);
    assert_eq!(prefix_bytes(1), 1);
    assert_eq!(prefix_bytes(8), 1);
    assert_eq!(prefix_bytes(9), 2);
    assert_eq!(prefix_bytes(16), 2);
    assert_eq!(prefix_bytes(17), 3);
    assert_eq!(prefix_bytes(24), 3);
    assert_eq!(prefix_bytes(25), 4);
    assert_eq!(prefix_bytes(32), 4);
    assert_eq!(prefix_bytes(33), 5);
    assert_eq!(prefix_bytes(64), 8);
    assert_eq!(prefix_bytes(128), 16);
}

#[test]
fn test_nlri_from_empty_ipv4_octets_invalid() {
    let octets = Ipv4Octets { octets: vec![] };
    let result = Nlri::try_from_ipv4_octets(octets);
    assert!(result.is_err(), "Should return error on empty octets");
}

#[test]
fn test_nlri_from_empty_ipv6_octets_invalid() {
    let octets = Ipv6Octets { octets: vec![] };
    let result = Nlri::try_from_ipv6_octets(octets);
    assert!(result.is_err(), "Should return error on empty octets");
}

#[test]
fn test_nlri_from_invalid_ipv4_prefix_length_invalid() {
    let octets = Ipv4Octets { octets: vec![33, 192, 0, 2, 1] };
    let result = Nlri::try_from_ipv4_octets(octets);
    assert!(result.is_err(), "Should return error on invalid IPv4 prefix length");
}

#[test]
fn test_nlri_from_invalid_ipv6_prefix_length_invalid() {
    let mut octets = vec![129];
    octets.extend_from_slice(&[0x20, 0x01, 0x0d, 0xb8, 0, 0, 0, 0, 0, 0, 0, 0, 0, 0, 0, 1]);
    let ipv6_octets = Ipv6Octets { octets };
    let result = Nlri::try_from_ipv6_octets(ipv6_octets);
    assert!(result.is_err(), "Should return error on invalid IPv6 prefix length");
}

#[test]
fn test_nlri_from_insufficient_ipv4_octets_invalid() {
    let octets = Ipv4Octets { octets: vec![24, 192] };
    let result = Nlri::try_from_ipv4_octets(octets);
    assert!(result.is_err(), "Should return error on insufficient octets");
}

#[test]
fn test_nlri_from_insufficient_ipv6_octets_invalid() {
    let octets = Ipv6Octets { octets: vec![64, 0x20, 0x01] };
    let result = Nlri::try_from_ipv6_octets(octets);
    assert!(result.is_err(), "Should return error on insufficient octets");
}

#[test]
fn test_mpnlri_from_empty_bytes_invalid() {
    let empty_bytes: Vec<u8> = vec![];
    let result = Mpnlri::try_from_bytes(empty_bytes);
    assert!(result.is_err(), "Should return error on empty bytes");
}

#[test]
fn test_mpnlri_from_insufficient_bytes_invalid() {
    let insufficient_bytes: Vec<u8> = vec![10, 0, 1];
    let result = Mpnlri::try_from_bytes(insufficient_bytes);
    assert!(result.is_err(), "Should return error on insufficient bytes");
}

#[test]
fn test_mpnlri_from_invalid_afi_invalid() {
    let invalid_bytes: Vec<u8> = vec![8, 0, 99, 1, 4, 192, 0, 2, 1];
    let result = Mpnlri::try_from_bytes(invalid_bytes);
    assert!(result.is_err(), "Should return error on invalid AFI");
}

#[test]
fn test_mpnlri_from_invalid_safi_invalid() {
    let invalid_bytes: Vec<u8> = vec![8, 0, 1, 99, 4, 192, 0, 2, 1];
    let result = Mpnlri::try_from_bytes(invalid_bytes);
    assert!(result.is_err(), "Should return error on invalid SAFI");
}

#[test]
fn test_mpnlri_inconsistent_nexthop_length_invalid() {
    let invalid_bytes: Vec<u8> = vec![8, 0, 1, 1, 10, 192, 0, 2, 1];
    let result = Mpnlri::try_from_bytes(invalid_bytes);
    assert!(result.is_err(), "Should return error on inconsistent nexthop length");
}

#[test]
fn test_mpunlri_from_empty_bytes_invalid() {
    let empty_bytes: Vec<u8> = vec![];
    let result = Mpunlri::try_from_bytes(empty_bytes);
    assert!(result.is_err(), "Should return error on empty bytes");
}

#[test]
fn test_mpunlri_from_insufficient_bytes_invalid() {
    let insufficient_bytes: Vec<u8> = vec![10, 0, 1];
    let result = Mpunlri::try_from_bytes(insufficient_bytes);
    assert!(result.is_err(), "Should return error on insufficient bytes");
}

#[test]
fn test_mpunlri_from_invalid_afi_invalid() {
    let invalid_bytes: Vec<u8> = vec![5, 0, 99, 1, 8, 10];
    let result = Mpunlri::try_from_bytes(invalid_bytes);
    assert!(result.is_err(), "Should return error on invalid AFI");
}

#[test]
fn test_mpunlri_from_invalid_safi_invalid() {
    let invalid_bytes: Vec<u8> = vec![5, 0, 1, 99, 8, 10];
    let result = Mpunlri::try_from_bytes(invalid_bytes);
    assert!(result.is_err(), "Should return error on invalid SAFI");
}

#[test]
fn test_nlri_ipv4_partial_octet_valid() {
    let octets = Ipv4Octets { octets: vec![12, 172, 16] };
    let nlri: Nlri = Nlri::try_from_ipv4_octets(octets).unwrap();
    assert_eq!(nlri.net.prefix_len(), 12);
    assert_eq!(nlri.net.network(), IpAddress::V4(ipv4(172, 16, 0, 0)));
}

#[test]
fn test_nlri_ipv6_partial_octet_valid() {
    let octets = Ipv6Octets { octets: vec![48, 0x20, 0x01, 0x0d, 0xb8, 0x12, 0x34] };
    let nlri: Nlri = Nlri::try_from_ipv6_octets(octets).unwrap();
    assert_eq!(nlri.net.prefix_len(), 48);
    let expected = DB8 | (0x1234u128 << 80);
    assert_eq!(nlri.net.network(), IpAddress::V6(expected));
}

#[test]
fn test_mpnlri_with_multiple_nlris_valid() {
    let nlri1 = NlriBuilder::default().net(v4net(10, 0, 0, 0, 8)).build().unwrap();
    let nlri2 = NlriBuilder::default().net(v4net(192, 168, 0, 0, 16)).build().unwrap();
    let mp_nlri = Mpnlri {
        af: AddressFamily { afi: Afi::Ipv4, safi: Safi::NLRIUnicast },
        nh: IpAddress::V4(ipv4(192, 0, 2, 1)),
        nlris: vec![nlri1, nlri2],
    };
    assert_eq!(mp_nlri.nlris.len(), 2);
    assert_eq!(mp_nlri.nlris[0].net.prefix_len(), 8);
    assert_eq!(mp_nlri.nlris[1].net.prefix_len(), 16);
}

#[test]
fn test_mpnlri_serialization_ipv4_valid() {
    let nlri = NlriBuilder::default().net(v4net(10, 0, 0, 0, 8)).build().unwrap();
    let mp_nlri = Mpnlri {
        af: AddressFamily { afi: Afi::Ipv4, safi: Safi::NLRIUnicast },
        nh: IpAddress::V4(ipv4(192, 0, 2, 1)),
        nlris: vec![nlri],
    };
    let mut bytes: Vec<u8> = vec![];
    mp_nlri.write_to(&mut bytes);
    assert!(bytes.len() > 8);
    assert_eq!(bytes[1], 0);
    assert_eq!(bytes[2], 1);
    assert_eq!(bytes[3], 1);
    assert_eq!(bytes[4], 4);
    assert_eq!(bytes[5], 192);
    assert_eq!(bytes[6], 0);
    assert_eq!(bytes[7], 2);
    assert_eq!(bytes[8], 1);
}

#[test]
fn test_mpunlri_serialization_ipv4_valid() {
    let nlri = NlriBuilder::default().net(v4net(10, 0, 0, 0, 8)).build().unwrap();
    let mp_unlri = Mpunlri {
        af: AddressFamily { afi: Afi::Ipv4, safi: Safi::NLRIUnicast },
        nlris: vec![nlri],
    };
    let mut bytes: Vec<u8> = vec![];
    mp_unlri.write_to(&mut bytes);
    assert!(bytes.len() > 5);
    assert_eq!(bytes[1], 0);
    assert_eq!(bytes[2], 1);
    assert_eq!(bytes[3], 1);
}

#[test]
fn test_u8_to_nlri1() {
    let n = Nlri { net: v4net(192, 168, 1, 0, 24) };
    let u = Nlri::try_from_ipv4_octets(Ipv4Octets { octets: vec![24, 192, 168, 1] }).unwrap();
    assert_eq!(n, u);
}

#[test]
fn test_u8_to_nlri2() {
    let n = Nlri { net: v4net(192, 168, 1, 1, 32) };
    let u = Nlri::try_from_ipv4_octets(Ipv4Octets { octets: vec![32, 192, 168, 1, 1] }).unwrap();
    assert_eq!(n, u);
}

#[test]
fn test_u8_to_nlri3() {
    let n = Nlri { net: v4net(192, 168, 1, 128, 25) };
    let u = Nlri::try_from_ipv4_octets(Ipv4Octets { octets: vec![25, 192, 168, 1, 128] }).unwrap();
    assert_eq!(n, u);
}

#[test]
fn mp_reach_round_trip() {
    let m = Mpnlri {
        af: AddressFamily { afi: Afi::Ipv6, safi: Safi::NLRIUnicast },
        nh: IpAddress::V6(DB8 + 1),
        nlris: vec![Nlri { net: v6net(DB8, 32) }, Nlri { net: v6net(DB8 | (0x1234u128 << 80), 48) }],
    };
    let mut bytes = vec![];
    m.write_to(&mut bytes);
    let back = Mpnlri::try_from_bytes(bytes).unwrap();
    assert_eq!(back, m);
}

#[test]
fn test_into_nlri_24() {
    let n = Nlri { net: v4net(192, 168, 1, 0, 24) };
    let n1 = Nlri::try_from_ipv4_octets(Ipv4Octets { octets: vec![24, 192, 168, 1] }).unwrap();
    assert_eq!(n.net, n1.net);
}

#[test]
fn test_into_nlri_32() {
    let n = Nlri { net: v4net(192, 168, 1, 1, 32) };
    let n1 = Nlri::try_from_ipv4_octets(Ipv4Octets { octets: vec![32, 192, 168, 1, 1] }).unwrap();
    assert_eq!(n.net, n1.net);
}

#[test]
fn test_into_nlri_25() {
    let n = Nlri { net: v4net(192, 168, 1, 128, 25) };
    let n1 = Nlri::try_from_ipv4_octets(Ipv4Octets { octets: vec![25, 192, 168, 1, 128] }).unwrap();
    assert_eq!(n.net, n1.net);
}

#[test]
fn prefix_written_with_host_bits_reads_back_as_its_network() {
    let n = Nlri { net: v4net(192, 168, 1, 77, 24) };
    let bytes = n.to_bytes();
    assert_eq!(bytes, vec![24, 192, 168, 1]);
    let back = Nlri::try_from_ipv4_octets(Ipv4Octets { octets: bytes }).unwrap();
    assert_eq!(back, Nlri { net: v4net(192, 168, 1, 0, 24) });

    let n6 = Nlri { net: v6net(0x2001_0db8_0000_0000_0000_0000_0000_0001, 33) };
    let bytes6 = n6.to_bytes();
    assert_eq!(bytes6.len(), 1 + 5);
    let back6 = Nlri::try_from_ipv6_octets(Ipv6Octets { octets: bytes6 }).unwrap();
    assert_eq!(back6, Nlri { net: v6net(0x2001_0db8_0000_0000_0000_0000_0000_0000, 33) });
}

#[test]
fn multiprotocol_values_read_back() {
    let m = Mpnlri {
        af: AddressFamily { afi: Afi::Ipv6, safi: Safi::NLRIUnicast },
        nh: IpAddress::V6(DB8 | 1),
        nlris: vec![Nlri { net: v6net(DB8, 32) }, Nlri { net: v6net(DB8 | 0xff, 64) }],
    };
    let mut buf = Vec::new();
    m.write_to(&mut buf);
    let back = Mpnlri::try_from_bytes(buf).unwrap();
    assert_eq!(back.af, m.af);
    assert_eq!(back.nh, m.nh);
    assert_eq!(back.nlris, vec![Nlri { net: v6net(DB8, 32) }, Nlri { net: v6net(DB8, 64) }]);

    let u = Mpunlri {
        af: AddressFamily { afi: Afi::Ipv4, safi: Safi::NLRIUnicast },
        nlris: vec![Nlri { net: v4net(10, 1, 2, 3, 16) }],
    };
    let mut buf = Vec::new();
    u.write_to(&mut buf);
    let back = Mpunlri::try_from_bytes(buf).unwrap();
    assert_eq!(back.af, u.af);
    assert_eq!(back.nlris, vec![Nlri { net: v4net(10, 1, 0, 0, 16) }]);
}

#[test]
fn mp_reach_attribute_follows_rfc4760_and_reads_back() {
    let af = AddressFamily { afi: Afi::Ipv4, safi: Safi::NLRIUnicast };
    let a = ubgp::attributes::PathAttribute::mp_reachable(
        af,
        IpAddress::V4(ipv4(10, 0, 0, 1)),
        vec![Nlri { net: v4net(192, 168, 1, 0, 24) }],
    );
    let bytes = a.to_bytes();
    // flags, type 14, length 13, then AFI 1, SAFI 1, next hop of four
    // octets, the reserved octet, and the prefix.
    assert_eq!(bytes, vec![0x80, 14, 13, 0, 1, 1, 4, 10, 0, 0, 1, 0, 24, 192, 168, 1]);
    let back = ubgp::attributes::PathAttribute::from_bytes(bytes);
    assert_eq!(back, a);
}

#[test]
fn mp_reach_attribute_v6_reads_back() {
    let af = AddressFamily { afi: Afi::Ipv6, safi: Safi::NLRIUnicast };
    let a = ubgp::attributes::PathAttribute::mp_reachable(
        af,
        IpAddress::V6(DB8 + 1),
        vec![Nlri { net: v6net(DB8, 32) }, Nlri { net: v6net(DB8 | (0x1234u128 << 80), 48) }],
    );
    let bytes = a.to_bytes();
    assert_eq!(bytes[2] as usize, bytes.len() - 3);
    assert_eq!(&bytes[3..7], &[0, 2, 1, 16]);
    assert_eq!(bytes[23], 0);
    let back = ubgp::attributes::PathAttribute::from_bytes(bytes);
    assert_eq!(back, a);
}

#[test]
fn mp_unreach_attribute_follows_rfc4760_and_reads_back() {
    let af = AddressFamily { afi: Afi::Ipv4, safi: Safi::NLRIUnicast };
    let a = ubgp::attributes::PathAttribute::mp_unreachable(
        af,
        vec![Nlri { net: v4net(10, 1, 0, 0, 16) }],
    );
    let bytes = a.to_bytes();
    assert_eq!(bytes, vec![0x80, 15, 6, 0, 1, 1, 16, 10, 1]);
    let back = ubgp::attributes::PathAttribute::from_bytes(bytes);
    assert_eq!(back, a);
}
