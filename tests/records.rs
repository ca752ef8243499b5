use dns_codec::answer::{DnsAnswer, RData};
use dns_codec::common::{DnsClass, DnsType, Name};
use dns_codec::error::ParseError;
use dns_codec::question::DnsQuestion;

#[test]
fn record_type_codes() {
    let all = [
        DnsType::A,
        DnsType::Ns,
        DnsType::Md,
        DnsType::Mf,
        DnsType::Cname,
        DnsType::Soa,
        DnsType::Mb,
        DnsType::Mg,
        DnsType::Mr,
        DnsType::Null,
        DnsType::Wks,
        DnsType::Ptr,
        DnsType::Hinfo,
        DnsType::Minfo,
        DnsType::Mx,
        DnsType::Txt,
    ];
    for (i, t) in all.iter().enumerate() {
        let code = (i + 1) as u16;
        assert_eq!(t.code(), code);
        assert_eq!(DnsType::try_from(code), Ok(*t));
    }
    assert_eq!(DnsType::try_from(0), Err(ParseError::InvalidValue(0)));
    assert_eq!(DnsType::try_from(17), Err(ParseError::InvalidValue(17)));
    assert_eq!(DnsType::try_from(0x0102), Err(ParseError::InvalidValue(2)));
}

#[test]
fn record_class_codes() {
    let all = [DnsClass::In, DnsClass::Cs, DnsClass::Ch, DnsClass::Hs];
    for (i, c) in all.iter().enumerate() {
        let code = (i + 1) as u16;
        assert_eq!(c.code(), code);
        assert_eq!(DnsClass::try_from(code), Ok(*c));
    }
    assert_eq!(DnsClass::try_from(0), Err(ParseError::InvalidValue(0)));
    assert_eq!(DnsClass::try_from(5), Err(ParseError::InvalidValue(5)));
    assert_eq!(DnsClass::try_from(255), Err(ParseError::InvalidValue(255)));
}

#[test]
fn question_decodes_and_encodes() {
    let bytes = b"\x07example\x03com\x00\x00\x01\x00\x01";
    let q = DnsQuestion::try_from(bytes).unwrap();
    assert_eq!(q.qname.as_bytes(), b"example.com");
    assert_eq!(q.qtype, DnsType::A);
    assert_eq!(q.qclass, DnsClass::In);
    assert_eq!(q.len(), 17);
    assert_eq!(q.to_bytes(), bytes.to_vec());
    let (_, end) = DnsQuestion::decode(bytes, 0).unwrap();
    assert_eq!(end, 17);
}

#[test]
fn question_with_other_type_and_class() {
    let bytes = b"\x02mx\x00\x00\x0f\x00\x03";
    let q = DnsQuestion::try_from(bytes).unwrap();
    assert_eq!(q.qtype, DnsType::Mx);
    assert_eq!(q.qclass, DnsClass::Ch);
    assert_eq!(q.to_bytes(), bytes.to_vec());
}

#[test]
fn question_errors() {
    assert_eq!(
        DnsQuestion::try_from(b"\x01a\x00\x00\x01\x00").err(),
        Some(ParseError::InvalidLength)
    );
    assert_eq!(DnsQuestion::try_from(b"").err(), Some(ParseError::InvalidLength));
    assert_eq!(
        DnsQuestion::try_from(b"\x01a\x00\x00\x11\x00\x01").err(),
        Some(ParseError::InvalidValue(0x11))
    );
    assert_eq!(
        DnsQuestion::try_from(b"\x01a\x00\x00\x01\x00\x09").err(),
        Some(ParseError::InvalidValue(9))
    );
    assert_eq!(DnsQuestion::try_from(b"\x05a").err(), Some(ParseError::InvalidLength));
}

#[test]
fn answer_for_codecrafters_io() {
    let answer = DnsAnswer::new(
        Name::from("codecrafters.io"),
        DnsType::A,
        DnsClass::In,
        60,
        RData::A([8, 8, 8, 8]),
    );
    let mut expected = b"\x0ccodecrafters\x02io\x00".to_vec();
    expected.extend_from_slice(&[0x00, 0x01]);
    expected.extend_from_slice(&[0x00, 0x01]);
    expected.extend_from_slice(&[0x00, 0x00, 0x00, 0x3C]);
    expected.extend_from_slice(&[0x00, 0x04]);
    expected.extend_from_slice(&[0x08, 0x08, 0x08, 0x08]);
    let bytes = answer.to_bytes();
    assert_eq!(bytes, expected);
    assert_eq!(answer.len(), bytes.len());
    assert_eq!(answer.rdlength(), 4);
    assert_eq!(answer.ttl(), 60);
    assert_eq!(answer.qtype(), DnsType::A);
    assert_eq!(answer.qclass(), DnsClass::In);
    assert_eq!(answer.name().as_bytes(), b"codecrafters.io");
}

#[test]
fn answer_length_field_matches_the_data_that_follows() {
    let answer = DnsAnswer::new(
        Name::from("a.b"),
        DnsType::A,
        DnsClass::Hs,
        1,
        RData::A([192, 168, 0, 1]),
    );
    let bytes = answer.to_bytes();
    let k = answer.name().len() + 8;
    let rdlength = ((bytes[k] as usize) << 8) | bytes[k + 1] as usize;
    assert_eq!(rdlength, bytes.len() - (k + 2));
    assert_eq!(&bytes[k + 2..], &[192, 168, 0, 1]);
    match answer.rdata() {
        RData::A(ip) => assert_eq!(ip, &[192, 168, 0, 1]),
    }
}

#[test]
fn answer_keeps_the_bit_pattern_of_a_negative_ttl() {
    let answer = DnsAnswer::new(Name::from("x"), DnsType::Txt, DnsClass::Cs, -2, RData::A([1, 2, 3, 4]));
    let bytes = answer.to_bytes();
    assert_eq!(&bytes[3..13], &[0x00, 0x10, 0x00, 0x02, 0xFF, 0xFF, 0xFF, 0xFE, 0x00, 0x04]);
    let answer = DnsAnswer::new(Name::from("x"), DnsType::A, DnsClass::In, 0x01020304, RData::A([0; 4]));
    assert_eq!(&answer.to_bytes()[7..11], &[0x01, 0x02, 0x03, 0x04]);
}
