use dns_rebinder::{decode, encode, DecodeError, Ipv4};

#[test]
fn test_ipencoding() {
    let primary = Ipv4::new(127, 0, 0, 1);
    let secondary = Ipv4::new(192, 168, 1, 1);
    let domain = "rebnd.icu";

    assert_eq!(
        encode(primary, secondary, domain),
        "7f000001.c0a80101.rebnd.icu"
    );
}

#[test]
fn test_ipdecoding() {
    let encoded_domain = "7f000001.c0a80101.rebnd.icu";

    let primary = Ipv4::new(127, 0, 0, 1);
    let secondary = Ipv4::new(192, 168, 1, 1);

    let (primary_decoded, secondary_decoded) = decode(encoded_domain).unwrap();
    assert_eq!(primary, primary_decoded);
    assert_eq!(secondary, secondary_decoded);
}

#[test]
fn encode_pads_each_octet_to_two_digits() {
    let name = encode(Ipv4::new(10, 0, 255, 9), Ipv4::new(0, 0, 0, 0), "example.org");
    assert_eq!(name, "0a00ff09.00000000.example.org");
}

#[test]
fn decode_round_trips_through_encode() {
    let pairs = [
        (Ipv4::new(0, 0, 0, 0), Ipv4::new(255, 255, 255, 255)),
        (Ipv4::new(8, 8, 4, 4), Ipv4::new(1, 2, 3, 4)),
        (Ipv4::new(172, 16, 254, 1), Ipv4::new(172, 16, 254, 1)),
    ];
    for (p, s) in pairs.iter() {
        let name = encode(*p, *s, "rebnd.icu");
        assert_eq!(decode(&name), Ok((*p, *s)));
    }
}

#[test]
fn decode_accepts_upper_case_digits() {
    assert_eq!(
        decode("7F000001.C0A80101.rebnd.icu"),
        Ok((Ipv4::new(127, 0, 0, 1), Ipv4::new(192, 168, 1, 1)))
    );
}

#[test]
fn decode_rejects_signed_labels() {
    assert_eq!(decode("+7f00001.c0a80101.rebnd.icu"), Err(DecodeError::MalformedHex));
    assert_eq!(decode("7f000001.+c0a8010.rebnd.icu"), Err(DecodeError::MalformedHex));
    assert_eq!(decode("+.1.rebnd.icu"), Err(DecodeError::MalformedHex));
}

#[test]
fn decode_needs_two_separators() {
    assert_eq!(decode("7f000001"), Err(DecodeError::MalformedLabelCount));
    assert_eq!(decode("7f000001.c0a80101"), Err(DecodeError::MalformedLabelCount));
    assert_eq!(decode(""), Err(DecodeError::MalformedLabelCount));
}

#[test]
fn decode_rejects_bad_hex() {
    assert_eq!(decode("zz000001.c0a80101.rebnd.icu"), Err(DecodeError::MalformedHex));
    assert_eq!(decode("7f000001.c0a8010g.rebnd.icu"), Err(DecodeError::MalformedHex));
    assert_eq!(decode("1ffffffff.c0a80101.rebnd.icu"), Err(DecodeError::MalformedHex));
    assert_eq!(decode("..rebnd.icu"), Err(DecodeError::MalformedHex));
    assert_eq!(
        DecodeError::MalformedHex.message(),
        "incorrect format, multi-level subdomain is required"
    );
    assert_eq!(
        DecodeError::MalformedLabelCount.message(),
        "incorrect format, multi-level subdomain is required"
    );
}

#[test]
fn ipv4_number_conversions() {
    let a = Ipv4::from_u32(0xc0a80101);
    assert_eq!(a, Ipv4::new(192, 168, 1, 1));
    assert_eq!(a.to_u32(), 0xc0a80101);
    assert_eq!(a.octets(), [192, 168, 1, 1]);
    assert_eq!(Ipv4::localhost(), Ipv4::new(127, 0, 0, 1));
    assert!(a.same_as(&Ipv4::new(192, 168, 1, 1)));
    assert!(!a.same_as(&Ipv4::localhost()));
}
