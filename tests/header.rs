use dns_codec::error::ParseError;
use dns_codec::header::{DnsHeader, OpCode, PacketType, ResponseCode};

fn assert_packet_equality(bytes: &[u8], expected: DnsHeader) {
    let actual = DnsHeader::try_from(bytes).unwrap();
    assert_eq!(actual, expected);
    let serialised = actual.to_bytes();
    assert_eq!(bytes, serialised.as_slice());
}

#[test]
fn test_parse_packet_type() {
    assert_eq!(PacketType::try_from(0), Ok(PacketType::Query));
    assert_eq!(PacketType::try_from(1), Ok(PacketType::Response));
    for i in 2..=7 {
        assert_eq!(PacketType::try_from(i), Err(ParseError::InvalidValue(i)));
    }
}

#[test]
fn test_parse_opcode() {
    assert_eq!(OpCode::try_from(0), Ok(OpCode::Query));
    assert_eq!(OpCode::try_from(1), Ok(OpCode::InverseQuery));
    assert_eq!(OpCode::try_from(2), Ok(OpCode::ServerStatus));
    for i in 3..=7 {
        assert_eq!(OpCode::try_from(i), Err(ParseError::InvalidValue(i)));
    }
}

#[test]
fn test_parse_response_code() {
    assert_eq!(ResponseCode::try_from(0), Ok(ResponseCode::NoError));
    assert_eq!(ResponseCode::try_from(1), Ok(ResponseCode::FormatError));
    assert_eq!(ResponseCode::try_from(2), Ok(ResponseCode::ServFail));
    assert_eq!(ResponseCode::try_from(3), Ok(ResponseCode::NxDomain));
    for i in 4..=15 {
        assert_eq!(ResponseCode::try_from(i), Err(ParseError::InvalidValue(i)));
    }
}

#[test]
fn test_standard_query() {
    let standard_query = &[
        0x12, 0x34, // ID: 0x1234
        0x01, 0x00, // QR = 0 (query), Opcode = 0 (standard query), AA = 0, TC = 0, RD = 1
        0x00, 0x01, // QDCOUNT = 1 (one question)
        0x00, 0x00, // ANCOUNT = 0
        0x00, 0x00, // NSCOUNT = 0
        0x00, 0x00, // ARCOUNT = 0
    ];
    let expected = DnsHeader {
        id: 0x1234,
        qr: PacketType::Query,
        opcode: OpCode::Query,
        aa: false,
        tc: false,
        rd: true,
        ra: false,
        z: 0,
        rcode: ResponseCode::NoError,
        qdcount: 1,
        ancount: 0,
        nscount: 0,
        arcount: 0,
    };
    assert_packet_equality(standard_query, expected);
}

#[test]
fn test_standard_response() {
    let standard_response = &[
        0x56, 0x78, // ID: 0x5678
        0x81, 0x80, // QR = 1 (response), Opcode = 0, AA = 0, TC = 0, RD = 1, RA = 1
        0x00, 0x01, // QDCOUNT = 1
        0x00, 0x01, // ANCOUNT = 1
        0x00, 0x00, // NSCOUNT = 0
        0x00, 0x00, // ARCOUNT = 0
    ];
    let expected = DnsHeader {
        id: 0x5678,
        qr: PacketType::Response,
        opcode: OpCode::Query,
        aa: false,
        tc: false,
        rd: true,
        ra: true,
        z: 0,
        rcode: ResponseCode::NoError,
        qdcount: 1,
        ancount: 1,
        nscount: 0,
        arcount: 0,
    };
    assert_packet_equality(standard_response, expected);
}

#[test]
fn test_truncated_query() {
    let standard_query = &[
        0x9A, 0xBC, // ID: 0x9ABC
        0x02, 0x00, // QR = 0 (query), Opcode = 0, AA = 0, TC = 1, RD = 0
        0x00, 0x01, // QDCOUNT = 1
        0x00, 0x00, // ANCOUNT = 0
        0x00, 0x00, // NSCOUNT = 0
        0x00, 0x00, // ARCOUNT = 0
    ];
    let expected = DnsHeader {
        id: 0x9ABC,
        qr: PacketType::Query,
        opcode: OpCode::Query,
        aa: false,
        tc: true,
        rd: false,
        ra: false,
        z: 0,
        rcode: ResponseCode::NoError,
        qdcount: 1,
        ancount: 0,
        nscount: 0,
        arcount: 0,
    };
    assert_packet_equality(standard_query, expected);
}

#[test]
fn test_authoritative_response_with_no_error() {
    let standard_response = &[
        0xDE, 0xF0, // ID: 0xDEF0
        0x84, 0x00, // QR = 1 (response), Opcode = 0, AA = 1, TC = 0, RD = 0, RA = 0
        0x00, 0x01, // QDCOUNT = 1
        0x00, 0x01, // ANCOUNT = 1
        0x00, 0x00, // NSCOUNT = 0
        0x00, 0x00, // ARCOUNT = 0
    ];
    let expected = DnsHeader {
        id: 0xDEF0,
        qr: PacketType::Response,
        opcode: OpCode::Query,
        aa: true,
        tc: false,
        rd: false,
        ra: false,
        z: 0,
        rcode: ResponseCode::NoError,
        qdcount: 1,
        ancount: 1,
        nscount: 0,
        arcount: 0,
    };
    assert_packet_equality(standard_response, expected);
}

#[test]
fn test_non_authoritative_response_with_name_error() {
    let standard_response = &[
        0xAB, 0xCD, // ID: 0xABCD
        0x81,
        0x83, // QR = 1 (response), Opcode = 0, AA = 0, TC = 0, RD = 1, RA = 1, RCODE = 3 (NXDOMAIN)
        0x00, 0x01, // QDCOUNT = 1
        0x00, 0x00, // ANCOUNT = 0
        0x00, 0x00, // NSCOUNT = 0
        0x00, 0x00, // ARCOUNT = 0
    ];
    let expected = DnsHeader {
        id: 0xABCD,
        qr: PacketType::Response,
        opcode: OpCode::Query,
        aa: false,
        tc: false,
        rd: true,
        ra: true,
        z: 0,
        rcode: ResponseCode::NxDomain,
        qdcount: 1,
        ancount: 0,
        nscount: 0,
        arcount: 0,
    };
    assert_packet_equality(standard_response, expected);
}

#[test]
fn header_shorter_than_twelve_bytes_is_a_length_error() {
    assert_eq!(DnsHeader::try_from(&[]), Err(ParseError::InvalidLength));
    let bytes = [0x12u8, 0x34, 0x01, 0x00, 0x00, 0x01, 0x00, 0x00, 0x00, 0x00, 0x00];
    assert_eq!(DnsHeader::try_from(&bytes), Err(ParseError::InvalidLength));
}

#[test]
fn header_with_opcode_out_of_range_is_rejected() {
    // opcode 3 in bits 6-3 of the third byte
    let bytes = [0x00u8, 0x01, 0x18, 0x00, 0, 0, 0, 0, 0, 0, 0, 0];
    assert_eq!(DnsHeader::try_from(&bytes), Err(ParseError::InvalidValue(3)));
    // opcode 15
    let bytes = [0x00u8, 0x01, 0x78, 0x00, 0, 0, 0, 0, 0, 0, 0, 0];
    assert_eq!(DnsHeader::try_from(&bytes), Err(ParseError::InvalidValue(15)));
}

#[test]
fn header_with_response_code_out_of_range_is_rejected() {
    let bytes = [0x00u8, 0x01, 0x00, 0x04, 0, 0, 0, 0, 0, 0, 0, 0];
    assert_eq!(DnsHeader::try_from(&bytes), Err(ParseError::InvalidValue(4)));
}

#[test]
fn header_round_trip_keeps_every_field_and_reserved_bits() {
    let bytes = [0xFFu8, 0xEE, 0x97, 0xF2, 0x12, 0x34, 0x56, 0x78, 0x9A, 0xBC, 0xDE, 0xF0];
    let h = DnsHeader::try_from(&bytes).unwrap();
    assert_eq!(h.id, 0xFFEE);
    assert_eq!(h.qr, PacketType::Response);
    assert_eq!(h.opcode, OpCode::ServerStatus);
    assert!(h.aa);
    assert!(h.tc);
    assert!(h.rd);
    assert!(h.ra);
    assert_eq!(h.z, 7);
    assert_eq!(h.rcode, ResponseCode::ServFail);
    assert_eq!(h.qdcount, 0x1234);
    assert_eq!(h.ancount, 0x5678);
    assert_eq!(h.nscount, 0x9ABC);
    assert_eq!(h.arcount, 0xDEF0);
    assert_eq!(h.to_bytes(), bytes.to_vec());
}

#[test]
fn header_decodes_from_a_longer_buffer() {
    let bytes = [0x12u8, 0x34, 0x01, 0x00, 0x00, 0x01, 0x00, 0x00, 0x00, 0x00, 0x00, 0x00, 7, 7];
    let h = DnsHeader::try_from(&bytes).unwrap();
    assert_eq!(h.to_bytes(), bytes[..12].to_vec());
}

#[test]
fn flip_qr_changes_only_the_top_bit_of_the_third_byte() {
    let bytes = [0x12u8, 0x34, 0x01, 0x00, 0x00, 0x01, 0x00, 0x00, 0x00, 0x00, 0x00, 0x00];
    let mut h = DnsHeader::try_from(&bytes).unwrap();
    h.flip_qr();
    assert_eq!(h.qr, PacketType::Response);
    let out = h.to_bytes();
    let mut expected = bytes.to_vec();
    expected[2] ^= 0x80;
    assert_eq!(out, expected);
    h.flip_qr();
    assert_eq!(h.qr, PacketType::Query);
    assert_eq!(h.to_bytes(), bytes.to_vec());
}

#[test]
fn reserved_bits_above_three_do_not_reach_the_wire() {
    let mut h = DnsHeader::try_from(&[0u8; 12]).unwrap();
    h.z = 0x0F;
    assert_eq!(h.to_bytes()[3], 0x70);
}
