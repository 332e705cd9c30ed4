use dns_codec::answer::{AType, Answer};
use dns_codec::errors::DecodeError;
use dns_codec::header::{Header, Opcode, RCode};
use dns_codec::name::{encode_name, parse_name};
use dns_codec::packet::{parse_response, Packet};
use dns_codec::question::{create_question, QClass, QType, Question};

fn sample_header() -> Header {
    Header {
        id: 0xBEEF,
        qr: true,
        opcode: Opcode::Standard,
        aa: true,
        tc: false,
        rd: true,
        ra: true,
        rcode: RCode::Refused,
        qdcount: 3,
        ancount: 7,
        nscount: 1,
        arcount: 65535,
    }
}

#[test]
fn header_round_trip_all_flags() {
    let h = sample_header();
    let bytes = h.serialize();
    assert_eq!(bytes.len(), 12);
    let back = Header::parse(&bytes).unwrap();
    assert_eq!(back, h);
}

#[test]
fn header_round_trip_every_rcode() {
    let rcodes = vec![
        RCode::NoError,
        RCode::FormatError,
        RCode::ServerFailure,
        RCode::NameError,
        RCode::NotImplemented,
        RCode::Refused,
    ];
    for rcode in rcodes {
        let mut h = sample_header();
        h.rcode = rcode;
        h.qr = false;
        h.aa = false;
        h.ra = false;
        let back = Header::parse(&h.serialize()).unwrap();
        assert_eq!(back, h);
    }
}

#[test]
fn header_literal_response_bytes() {
    let bytes = vec![0x00, 0x00, 0x81, 0x80, 0x00, 0x01, 0x00, 0x01, 0x00, 0x00, 0x00, 0x00];
    let h = Header::parse(&bytes).unwrap();
    assert!(h.qr);
    assert_eq!(h.rcode, RCode::NoError);
    assert_eq!(h.qdcount, 1);
    assert_eq!(h.ancount, 1);
    assert_eq!(h.id, 0);
    assert!(!h.aa);
    assert!(!h.tc);
    assert!(h.rd);
    assert!(h.ra);
}

#[test]
fn header_short_buffer_is_truncated_input() {
    let bytes = vec![0u8; 11];
    assert_eq!(Header::parse(&bytes), Err(DecodeError::TruncatedInput));
    let empty: Vec<u8> = Vec::new();
    assert_eq!(Header::parse(&empty), Err(DecodeError::TruncatedInput));
}

#[test]
fn header_unknown_opcode_is_unrecognized() {
    // bits 6..3 of byte 2 hold the opcode; 1 is outside the closed set
    let bytes = vec![0x00, 0x00, 0x08, 0x00, 0x00, 0x00, 0x00, 0x00, 0x00, 0x00, 0x00, 0x00];
    assert_eq!(Header::parse(&bytes), Err(DecodeError::UnrecognizedCode));
}

#[test]
fn header_unknown_rcode_is_unrecognized() {
    let bytes = vec![0x00, 0x00, 0x00, 0x06, 0x00, 0x00, 0x00, 0x00, 0x00, 0x00, 0x00, 0x00];
    assert_eq!(Header::parse(&bytes), Err(DecodeError::UnrecognizedCode));
}

#[test]
fn name_round_trip_three_labels() {
    let labels = vec!["www".to_string(), "example".to_string(), "com".to_string()];
    let mut wire: Vec<u8> = Vec::new();
    encode_name(&labels, &mut wire);
    assert_eq!(wire, vec![3, b'w', b'w', b'w', 7, b'e', b'x', b'a', b'm', b'p', b'l', b'e', 3,
        b'c', b'o', b'm', 0]);
    let (back, used) = parse_name(&wire).unwrap();
    assert_eq!(back, labels);
    // total label bytes + one length byte per label + the terminator
    assert_eq!(used, 13 + 3 + 1);
    assert_eq!(used, wire.len());
}

#[test]
fn name_round_trip_multibyte_label() {
    let labels = vec!["b\u{00FC}ro".to_string(), "de".to_string()];
    let mut wire: Vec<u8> = Vec::new();
    encode_name(&labels, &mut wire);
    // 'ü' takes two bytes, so the first label is five bytes long
    assert_eq!(wire[0], 5);
    let (back, used) = parse_name(&wire).unwrap();
    assert_eq!(back, labels);
    assert_eq!(used, 7 + 2 + 1);
}

#[test]
fn name_not_utf8_is_invalid_label() {
    let wire = vec![2, 0xFF, 0xFE, 0];
    assert_eq!(parse_name(&wire), Err(DecodeError::InvalidLabel));
}

#[test]
fn name_missing_terminator_is_truncated() {
    let wire = vec![3, b'w', b'w', b'w'];
    assert_eq!(parse_name(&wire), Err(DecodeError::TruncatedInput));
    let wire2 = vec![9, b'w'];
    assert_eq!(parse_name(&wire2), Err(DecodeError::TruncatedInput));
}

fn sample_answer_bytes() -> Vec<u8> {
    vec![
        0xC0, 0x0C, // compression pointer to offset 12
        0x00, 0x01, // type: address
        0x00, 0x01, // class: internet
        0x00, 0x00, 0x01, 0x2C, // ttl: 300 seconds
        0x00, 0x04, // rdlength: 4
        100, 1, 2, 3, // the address bytes
    ]
}

#[test]
fn answer_well_formed_record() {
    let bytes = sample_answer_bytes();
    let (a, used) = Answer::parse(&bytes).unwrap();
    assert_eq!(a.atype, AType::Address);
    assert_eq!(a.class, QClass::Internet);
    assert_eq!(a.ttl, 300);
    assert_eq!(a.rdlength, 4);
    assert_eq!(a.ip, vec![100, 1, 2, 3]);
    assert_eq!(used, 14);
}

#[test]
fn answer_rdlength_sixteen_is_unsupported_shape() {
    // the declared region is not even present: the decoder must fail on the
    // length field instead of reading past the buffer
    let mut bytes = sample_answer_bytes();
    bytes.truncate(12);
    bytes[10] = 0x00;
    bytes[11] = 0x10;
    assert_eq!(Answer::parse(&bytes), Err(DecodeError::UnsupportedRecordShape));
}

#[test]
fn answer_literal_name_is_unsupported_form() {
    let mut bytes = sample_answer_bytes();
    bytes[0] = 0x03; // a literal label length, not a pointer
    assert_eq!(Answer::parse(&bytes), Err(DecodeError::UnsupportedNameForm));
    bytes[0] = 0x80; // only one of the two top bits set
    assert_eq!(Answer::parse(&bytes), Err(DecodeError::UnsupportedNameForm));
}

#[test]
fn answer_unknown_type_is_unrecognized() {
    let mut bytes = sample_answer_bytes();
    bytes[3] = 0x02;
    assert_eq!(Answer::parse(&bytes), Err(DecodeError::UnrecognizedCode));
}

#[test]
fn answer_canonical_name_type_tag() {
    let mut bytes = sample_answer_bytes();
    bytes[3] = 0x05;
    let (a, _) = Answer::parse(&bytes).unwrap();
    assert_eq!(a.atype, AType::CanonicalName);
}

#[test]
fn answer_short_buffer_is_truncated() {
    let bytes = sample_answer_bytes();
    assert_eq!(Answer::parse(&bytes[..0]), Err(DecodeError::TruncatedInput));
    assert_eq!(Answer::parse(&bytes[..3]), Err(DecodeError::TruncatedInput));
    assert_eq!(Answer::parse(&bytes[..5]), Err(DecodeError::TruncatedInput));
    assert_eq!(Answer::parse(&bytes[..11]), Err(DecodeError::TruncatedInput));
    assert_eq!(Answer::parse(&bytes[..15]), Err(DecodeError::TruncatedInput));
}

#[test]
fn query_for_example_com_serializes_exactly() {
    let p = create_question("example.com".to_string());
    let bytes = p.serialize();
    let question_section = &bytes[12..];
    assert_eq!(question_section, &[
        7, b'e', b'x', b'a', b'm', b'p', b'l', b'e', 3, b'c', b'o', b'm', 0x00, // the name
        0x00, 0x01, // qtype: address
        0x00, 0x01, // qclass: internet
    ]);
    // header: the chosen id, recursion desired, one question
    assert_eq!(&bytes[..12], &[0x13, 0x37, 0x01, 0x00, 0x00, 0x01, 0x00, 0x00, 0x00, 0x00, 0x00,
        0x00]);
}

#[test]
fn create_question_fields() {
    let p = create_question("www.example.com".to_string());
    assert_eq!(p.header.id, 0x1337);
    assert!(!p.header.qr);
    assert!(p.header.rd);
    assert_eq!(p.header.qdcount, 1);
    assert_eq!(p.header.ancount, 0);
    assert_eq!(p.questions.len(), 1);
    assert_eq!(p.questions[0].name, vec!["www", "example", "com"]);
    assert_eq!(p.questions[0].qtype, QType::Address);
    assert_eq!(p.questions[0].qclass, QClass::Internet);
    assert!(p.answers.is_empty());
}

#[test]
fn create_question_empty_labels_kept() {
    let p = create_question("a..b.".to_string());
    assert_eq!(p.questions[0].name, vec!["a", "", "b", ""]);
}

#[test]
fn question_parse_rejects_unknown_type_and_class() {
    let mut wire = vec![1, b'a', 0, 0x00, 0x02, 0x00, 0x01];
    assert_eq!(Question::parse(&wire), Err(DecodeError::UnrecognizedCode));
    wire[4] = 0x01;
    wire[6] = 0x04;
    assert_eq!(Question::parse(&wire), Err(DecodeError::UnrecognizedCode));
}

#[test]
fn question_parse_round_trip() {
    let q = Question {
        name: vec!["example".to_string(), "com".to_string()],
        qtype: QType::Address,
        qclass: QClass::Internet,
    };
    let wire = q.clone().serialize();
    let (back, used) = Question::parse(&wire).unwrap();
    assert_eq!(back, q);
    assert_eq!(used, wire.len());
}

#[test]
fn parse_response_whole_message() {
    let mut bytes = vec![
        0x13, 0x37, 0x81, 0x80, 0x00, 0x01, 0x00, 0x01, 0x00, 0x00, 0x00, 0x00,
    ];
    bytes.extend_from_slice(&[7, b'e', b'x', b'a', b'm', b'p', b'l', b'e', 3, b'c', b'o', b'm',
        0x00, 0x00, 0x01, 0x00, 0x01]);
    bytes.extend_from_slice(&sample_answer_bytes());
    let p: Packet = parse_response(&bytes).unwrap();
    assert_eq!(p.header.id, 0x1337);
    assert!(p.header.qr);
    assert_eq!(p.header.rcode, RCode::NoError);
    assert_eq!(p.questions.len(), 1);
    assert_eq!(p.questions[0].name, vec!["example", "com"]);
    assert_eq!(p.answers.len(), 1);
    assert_eq!(p.answers[0].ttl, 300);
    assert_eq!(p.answers[0].ip, vec![100, 1, 2, 3]);
}

#[test]
fn parse_response_short_buffer_is_truncated() {
    let bytes = vec![0u8; 5];
    assert_eq!(parse_response(&bytes).unwrap_err(), DecodeError::TruncatedInput);
}

#[test]
fn parse_response_missing_answer_is_truncated() {
    // header promises one answer but the buffer ends after the question
    let mut bytes = vec![
        0x13, 0x37, 0x81, 0x80, 0x00, 0x01, 0x00, 0x01, 0x00, 0x00, 0x00, 0x00,
    ];
    bytes.extend_from_slice(&[3, b'c', b'o', b'm', 0x00, 0x00, 0x01, 0x00, 0x01]);
    assert_eq!(parse_response(&bytes).unwrap_err(), DecodeError::TruncatedInput);
}

#[test]
fn serialized_query_parses_as_message() {
    // a query has no answers, so its own wire form parses back whole
    let p = create_question("example.com".to_string());
    let bytes = p.clone().serialize();
    let back = parse_response(&bytes).unwrap();
    assert_eq!(back, p);
}

#[test]
fn name_round_trip_longest_label() {
    let big = "x".repeat(255);
    let labels = vec![big.clone(), "io".to_string()];
    let mut wire: Vec<u8> = Vec::new();
    encode_name(&labels, &mut wire);
    assert_eq!(wire[0], 255);
    let (back, used) = parse_name(&wire).unwrap();
    assert_eq!(back, labels);
    assert_eq!(used, 257 + 2 + 1);
}
