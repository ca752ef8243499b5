use dns_codec::common::Name;
use dns_codec::error::ParseError;
use dns_codec::question::QuestionName;

#[test]
fn common_test_question_name_try_from() {
    let test_cases: Vec<(&[u8], &str)> = vec![
        (b"\x07example\x03com\x00", "example.com"),
        (b"\x03sub\x07example\x03com\x00", "sub.example.com"),
        (b"\x01a\x02co\x00", "a.co"),
        (
            b"\x04this\x02is\x01a\x04very\x04long\x06domain\x04name\x03com\x00",
            "this.is.a.very.long.domain.name.com",
        ),
        (b"\x03123\x07numbers\x03com\x00", "123.numbers.com"),
    ];
    for (bytes, expected) in test_cases {
        let name = Name::try_from(bytes).unwrap();
        assert_eq!(name.as_bytes(), expected.as_bytes());
    }
}

#[test]
fn question_test_question_name_try_from() {
    let test_cases: Vec<(&[u8], &str)> = vec![
        (b"\x07example\x03com\x00", "example.com"),
        (b"\x03sub\x07example\x03com\x00", "sub.example.com"),
        (b"\x01a\x02co\x00", "a.co"),
        (
            b"\x04this\x02is\x01a\x04very\x04long\x06domain\x04name\x03com\x00",
            "this.is.a.very.long.domain.name.com",
        ),
        (b"\x03123\x07numbers\x03com\x00", "123.numbers.com"),
    ];
    for (bytes, expected) in test_cases {
        let name = QuestionName::try_from(bytes).unwrap();
        assert_eq!(name.as_bytes(), expected.as_bytes());
    }
}

#[test]
fn example_com_decodes_and_encodes_to_the_same_bytes() {
    let bytes = [0x07u8, 0x65, 0x78, 0x61, 0x6D, 0x70, 0x6C, 0x65, 0x03, 0x63, 0x6F, 0x6D, 0x00];
    let name = Name::try_from(&bytes).unwrap();
    assert_eq!(name.as_bytes(), b"example.com");
    assert_eq!(name.to_bytes(), bytes.to_vec());
    assert_eq!(name.len(), 13);
    let (decoded, end) = Name::decode(&bytes, 0).unwrap();
    assert_eq!(decoded.as_bytes(), b"example.com");
    assert_eq!(end, 13);
}

#[test]
fn names_survive_encode_then_decode() {
    let long = "a".repeat(255);
    let texts = ["example.com", "a-b.c-d", "x", "123.numbers.com", long.as_str()];
    for text in texts {
        let name = Name::from(text);
        let bytes = name.to_bytes();
        assert_eq!(bytes.len(), name.len());
        assert_eq!(bytes.len(), text.len() + 2);
        let back = Name::try_from(&bytes).unwrap();
        assert_eq!(back.as_bytes(), text.as_bytes());
    }
}

#[test]
fn empty_input_and_empty_name() {
    let name = Name::try_from(&[]).unwrap();
    assert_eq!(name.as_bytes(), b"");
    let name = Name::try_from(&[0u8]).unwrap();
    assert_eq!(name.as_bytes(), b"");
    assert_eq!(name.to_bytes(), vec![0u8]);
    assert_eq!(name.len(), 1);
    let (_, end) = Name::decode(&[0u8, 9], 0).unwrap();
    assert_eq!(end, 1);
    let (empty, end) = Name::decode(&[1u8, 9], 2).unwrap();
    assert_eq!(empty.as_bytes(), b"");
    assert_eq!(end, 2);
}

#[test]
fn name_encoding_emits_each_label() {
    let name = Name::from("sub.example.com");
    assert_eq!(name.to_bytes(), b"\x03sub\x07example\x03com\x00".to_vec());
    let name = Name::from("a..b");
    assert_eq!(name.to_bytes(), vec![1u8, b'a', 0, 1, b'b', 0]);
    let name = Name::from("");
    assert_eq!(name.to_bytes(), vec![0u8]);
    assert_eq!(name.len(), 1);
    let root = QuestionName::from("");
    assert_eq!(root.to_bytes(), vec![0u8]);
    assert_eq!(root.len(), 1);
}

#[test]
fn name_running_out_of_bytes_is_a_length_error() {
    assert_eq!(Name::try_from(b"\x07exam").err(), Some(ParseError::InvalidLength));
    assert_eq!(Name::try_from(b"\x07example").err(), Some(ParseError::InvalidLength));
    assert_eq!(Name::try_from(b"\x03com\x05").err(), Some(ParseError::InvalidLength));
}

#[test]
fn invalid_utf8_in_a_label_is_replaced() {
    let name = Name::try_from(b"\x02a\xff\x03com\x00").unwrap();
    assert_eq!(name.as_bytes(), "a\u{FFFD}.com".as_bytes());
}

#[test]
fn question_name_from_text() {
    let name = QuestionName::from("codecrafters.io");
    assert_eq!(name.as_bytes(), b"codecrafters.io");
    assert_eq!(name.to_bytes(), b"\x0ccodecrafters\x02io\x00".to_vec());
    assert_eq!(name.len(), 17);
}
