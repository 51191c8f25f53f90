use wire_protocols::dns::enums::{Class, QType};
use wire_protocols::dns::question::{
    Question, QuestionParseErrorKind, QuestionRecord,
};
use wire_protocols::dns::util::{
    get_pointer_offset, is_label_size, is_null_byte, is_pointer, name_to_vec8, sanitize_name,
};

fn message(body: &[u8]) -> Vec<u8> {
    let mut bytes = vec![0u8; 12];
    bytes.extend_from_slice(body);
    bytes
}

#[test]
fn one_valid_name() {
    let question = Question::from_bytes(
        &message(&[3, b'f', b'o', b'o', 2, b'b', b'a', b'\0', 0, 1, 0, 1]),
        None,
    )
    .unwrap();

    assert_eq!(question.records[0].name, "foo.ba");
    assert_eq!(question.records[0].qtype, QType::A);
    assert_eq!(question.records[0].class, Class::IN);
}

#[test]
fn two_valid_names() {
    let question = Question::from_bytes(
        &message(&[
            3, b'f', b'o', b'o', 2, b'b', b'a', b'\0', 0, 1, 0, 1, 1, b'r', 3, b'b', b'a', b'z',
            b'\0', 0, 1, 0, 1,
        ]),
        None,
    )
    .unwrap();

    assert_eq!(question.records[0].name, "foo.ba");
    assert_eq!(question.records[0].qtype, QType::A);
    assert_eq!(question.records[0].class, Class::IN);
    assert_eq!(question.records[1].name, "r.baz");
    assert_eq!(question.records[1].qtype, QType::A);
    assert_eq!(question.records[1].class, Class::IN);
}

#[test]
fn one_long_valid_name() {
    let question = Question::from_bytes(
        &message(&[
            3, b'f', b'o', b'o', 3, b'b', b'a', b'r', 3, b'b', b'a', b'z', 1, b'f', 1, b'o', 1,
            b'o', b'\0', 0, 1, 0, 1,
        ]),
        None,
    )
    .unwrap();

    assert_eq!(question.records[0].name, "foo.bar.baz.f.o.o");
    assert_eq!(question.records[0].qtype, QType::A);
    assert_eq!(question.records[0].class, Class::IN);
}

#[test]
fn two_valid_names_with_pointer() {
    let question = Question::from_bytes(
        &message(&[
            3, b'f', b'o', b'o', 2, b'b', b'a', b'\0', 0, 1, 0, 1, 3, b'b', b'a', b'z',
            0b11000000, 12, 0, 1, 0, 1,
        ]),
        None,
    )
    .unwrap();

    assert_eq!(question.records[0].name, "foo.ba");
    assert_eq!(question.records[0].qtype, QType::A);
    assert_eq!(question.records[0].class, Class::IN);
    assert_eq!(question.records[1].name, "baz.foo.ba");
    assert_eq!(question.records[1].qtype, QType::A);
    assert_eq!(question.records[1].class, Class::IN);
}

#[test]
fn three_valid_names_with_pointer_as_name() {
    let question = Question::from_bytes(
        &message(&[
            3, b'f', b'o', b'o', 2, b'b', b'a', b'\0', 0, 1, 0, 1, 3, b'b', b'a', b'z',
            0b11000000, 12, 0, 1, 0, 1, 0b11000000, 12, 0, 1, 0, 1,
        ]),
        None,
    )
    .unwrap();

    assert_eq!(question.records[0].name, "foo.ba");
    assert_eq!(question.records[0].qtype, QType::A);
    assert_eq!(question.records[0].class, Class::IN);
    assert_eq!(question.records[1].name, "baz.foo.ba");
    assert_eq!(question.records[1].qtype, QType::A);
    assert_eq!(question.records[1].class, Class::IN);
    assert_eq!(question.records[2].name, "foo.ba");
    assert_eq!(question.records[2].qtype, QType::A);
    assert_eq!(question.records[2].class, Class::IN);
}

#[test]
fn question_offset_is_behind_the_last_record() {
    let question = Question::from_bytes(
        &message(&[3, b'f', b'o', b'o', 2, b'b', b'a', b'\0', 0, 1, 0, 1]),
        None,
    )
    .unwrap();
    assert_eq!(question.records.len(), 1);
    assert_eq!(question.offset, 24);
}

#[test]
fn expected_number_limits_the_records() {
    let bytes = message(&[
        3, b'f', b'o', b'o', 2, b'b', b'a', 0, 0, 1, 0, 1, 1, b'r', 3, b'b', b'a', b'z', 0, 0, 1,
        0, 1,
    ]);
    let question = Question::from_bytes(&bytes, Some(1)).unwrap();
    assert_eq!(question.records.len(), 1);
    assert_eq!(question.offset, 24);
    let both = Question::from_bytes(&bytes, Some(2)).unwrap();
    assert_eq!(both.records.len(), 2);
    assert_eq!(both.offset, 35);
}

#[test]
fn short_message_has_no_question() {
    let err = Question::from_bytes(&[0u8; 12], None).unwrap_err();
    assert!(matches!(err.kind, QuestionParseErrorKind::QuestionNameEmpty(12)));
    assert!(err.source_error.is_none());
    assert_eq!(err.source_error_to_string(), "<nil>");
}

#[test]
fn empty_first_name_is_an_error() {
    let err = Question::from_bytes(&message(&[0, 0, 1, 0, 1]), None).unwrap_err();
    assert!(matches!(err.kind, QuestionParseErrorKind::QuestionNameEmpty(0)));
}

#[test]
fn missing_type_and_class_is_unexpected_eof() {
    let err = Question::from_bytes(&message(&[1, b'a', 0, 0, 1]), None).unwrap_err();
    assert!(matches!(err.kind, QuestionParseErrorKind::UnexpectedEof(2)));
}

#[test]
fn unknown_type_is_invalid() {
    let err = Question::from_bytes(&message(&[1, b'a', 0, 0, 3, 0, 1]), None).unwrap_err();
    assert!(matches!(err.kind, QuestionParseErrorKind::QtypeOrClassInvalid));
    let err = Question::from_bytes(&message(&[1, b'a', 0, 0, 1, 0, 3]), None).unwrap_err();
    assert!(matches!(err.kind, QuestionParseErrorKind::QtypeOrClassInvalid));
}

#[test]
fn pointer_that_does_not_point_back_is_refused() {
    // the pointer at position 0 aims at itself
    let err = Question::from_bytes(&message(&[0xC0, 12, 0, 1, 0, 1]), None).unwrap_err();
    assert!(matches!(err.kind, QuestionParseErrorKind::UnexpectedEof(0)));
    // the pointer aims into the header
    let err =
        Question::from_bytes(&message(&[1, b'a', 0xC0, 3, 0, 1, 0, 1]), None).unwrap_err();
    assert!(matches!(err.kind, QuestionParseErrorKind::UnexpectedEof(0)));
}

#[test]
fn parse_name_stops_at_the_terminator() {
    let bytes = [3, b'f', b'o', b'o', 2, b'b', b'a', 0, 9, 9];
    let (name, end) = Question::parse_name_until_terminator(&bytes, bytes.len(), 0).unwrap();
    assert_eq!(name, "foo.ba");
    assert_eq!(end, 7);
    let (name, end) = Question::parse_name_until_terminator(&bytes, bytes.len(), 4).unwrap();
    assert_eq!(name, "ba");
    assert_eq!(end, 7);
}

#[test]
fn parse_name_without_terminator_ends_at_the_last_byte() {
    let bytes = [3, b'f', b'o', b'o'];
    let (name, end) = Question::parse_name_until_terminator(&bytes, bytes.len(), 0).unwrap();
    assert_eq!(name, "foo");
    assert_eq!(end, 3);
}

#[test]
fn question_join_writes_labels_type_and_class() {
    let question = Question::from_records(vec![
        QuestionRecord { name: "foo.ba".to_string(), qtype: QType::A, class: Class::IN },
        QuestionRecord { name: "r.baz".to_string(), qtype: QType::NS, class: Class::CS },
    ]);
    assert_eq!(question.offset, 0);
    assert_eq!(
        question.join(),
        vec![
            3, b'f', b'o', b'o', 2, b'b', b'a', 0, 0, 1, 0, 1, 1, b'r', 3, b'b', b'a', b'z', 0, 0,
            2, 0, 2
        ]
    );
}

#[test]
fn question_round_trip_on_a_name() {
    let record =
        QuestionRecord { name: "example.com".to_string(), qtype: QType::A, class: Class::IN };
    let wire = Question::from_record(record.clone()).join();
    let back = Question::from_bytes(&message(&wire), None).unwrap();
    assert_eq!(back.records.len(), 1);
    assert_eq!(back.records[0].name, "example.com");
    assert_eq!(back.records[0].qtype, QType::A);
    assert_eq!(back.records[0].class, Class::IN);
}

#[test]
fn name_to_vec8_of_ascii_names() {
    assert_eq!(name_to_vec8("foo.ba"), vec![3, b'f', b'o', b'o', 2, b'b', b'a', 0]);
    assert_eq!(name_to_vec8("a"), vec![1, b'a', 0]);
    assert_eq!(name_to_vec8(""), vec![0, 0]);
    assert_eq!(name_to_vec8("a..b"), vec![1, b'a', 0, 1, b'b', 0]);
}

#[test]
fn name_to_vec8_pads_to_the_utf8_length() {
    // U+00E9 takes two bytes in UTF-8 and one byte, its low byte, on the wire
    assert_eq!(name_to_vec8("\u{e9}a"), vec![3, 0xE9, b'a', 0, 0]);
}

#[test]
fn sanitize_name_trims_and_keeps_ascii() {
    assert_eq!(sanitize_name("  foo.ba \n").unwrap(), "foo.ba");
    assert_eq!(sanitize_name("f\u{e9}o o").unwrap(), "fo o");
    assert_eq!(sanitize_name("\u{e9} a").unwrap(), " a");
    assert_eq!(sanitize_name("a\u{1}b\u{7f}c~").unwrap(), "abc~");
}

#[test]
fn sanitize_name_refuses_what_leaves_nothing() {
    assert_eq!(
        sanitize_name("  ").unwrap_err(),
        "Name must be valid ASCII string, instead received   "
    );
    assert_eq!(
        sanitize_name("\u{e9}").unwrap_err(),
        "Name must be valid ASCII string, instead received \u{e9}"
    );
    assert!(sanitize_name("").is_err());
}

#[test]
fn byte_tests() {
    assert!(is_label_size(&63));
    assert!(!is_label_size(&64));
    assert!(is_null_byte(&0));
    assert!(!is_null_byte(&1));
    assert!(is_pointer(&0xC00C));
    assert!(is_pointer(&0xFFFF));
    assert!(!is_pointer(&0x800C));
    assert!(!is_pointer(&0x400C));
    assert_eq!(get_pointer_offset(&0xC00C), 0);
    assert_eq!(get_pointer_offset(&0xC018), 12);
    assert_eq!(get_pointer_offset(&0xFFFF), 0x3FFF - 12);
}

#[test]
fn type_and_class_codes() {
    assert_eq!(QType::from_bytes(&0, &1).unwrap(), QType::A);
    assert_eq!(QType::from_bytes(&0, &15).unwrap(), QType::MX);
    assert_eq!(QType::from_bytes(&0, &255).unwrap(), QType::Asterisk);
    assert_eq!(QType::from_bytes(&0, &3).unwrap_err(), "Unsupported QTYPE: 3");
    assert_eq!(QType::from_bytes(&1, &44).unwrap_err(), "Unsupported QTYPE: 300");
    assert!(QType::from_bytes(&1, &1).is_err());
    assert_eq!(QType::Axfr.to_byte(), 252);
    assert_eq!(QType::MX.mnemonic(), "NS");
    assert_eq!(QType::Cname.mnemonic(), "CNAME");
    assert_eq!(Class::from_bytes(&0, &15).unwrap(), Class::CH);
    assert_eq!(Class::from_bytes(&0, &5).unwrap(), Class::HS);
    assert_eq!(Class::from_bytes(&0, &3).unwrap_err(), "Unsupported CLASS: 3");
    assert_eq!(Class::Asterisk.to_byte(), 255);
    assert_eq!(Class::IN.mnemonic(), "IN");
}

#[test]
fn every_type_and_class_reads_back() {
    let types = [
        QType::A, QType::NS, QType::MX, QType::Cname, QType::Soa, QType::MB, QType::MG,
        QType::MR, QType::Null, QType::Wks, QType::Ptr, QType::Hinfo, QType::Minfo, QType::Txt,
        QType::Axfr, QType::Mailb, QType::Maila, QType::Asterisk,
    ];
    for t in types {
        assert_eq!(QType::from_bytes(&0, &t.to_byte()).unwrap(), t);
    }
    for c in [Class::IN, Class::CS, Class::CH, Class::HS, Class::Asterisk] {
        assert_eq!(Class::from_bytes(&0, &c.to_byte()).unwrap(), c);
    }
}

#[test]
fn one_valid_name_in_section() {
    let (records, offset) = Question::parse_records_from_bytes(
        &[3, b'f', b'o', b'o', 2, b'b', b'a', b'\0', 0, 1, 0, 1],
        None,
    )
    .unwrap();

    assert_eq!(records[0].name, "foo.ba");
    assert_eq!(records[0].qtype, QType::A);
    assert_eq!(records[0].class, Class::IN);
    assert_eq!(offset, 12);
}

#[test]
fn two_valid_names_in_section() {
    let (records, _) = Question::parse_records_from_bytes(
        &[
            3, b'f', b'o', b'o', 2, b'b', b'a', b'\0', 0, 1, 0, 1, 1, b'r', 3, b'b', b'a', b'z',
            b'\0', 0, 1, 0, 1,
        ],
        None,
    )
    .unwrap();

    assert_eq!(records[0].name, "foo.ba");
    assert_eq!(records[0].qtype, QType::A);
    assert_eq!(records[0].class, Class::IN);
    assert_eq!(records[1].name, "r.baz");
    assert_eq!(records[1].qtype, QType::A);
    assert_eq!(records[1].class, Class::IN);
}

#[test]
fn one_long_valid_name_in_section() {
    let (records, _) = Question::parse_records_from_bytes(
        &[
            3, b'f', b'o', b'o', 3, b'b', b'a', b'r', 3, b'b', b'a', b'z', 1, b'f', 1, b'o', 1,
            b'o', b'\0', 0, 1, 0, 1,
        ],
        None,
    )
    .unwrap();

    assert_eq!(records[0].name, "foo.bar.baz.f.o.o");
    assert_eq!(records[0].qtype, QType::A);
    assert_eq!(records[0].class, Class::IN);
}

#[test]
fn two_valid_names_with_pointer_in_section() {
    let (records, _) = Question::parse_records_from_bytes(
        &[
            3, b'f', b'o', b'o', 2, b'b', b'a', b'\0', 0, 1, 0, 1, 3, b'b', b'a', b'z',
            0b11000000, 12, 0, 1, 0, 1,
        ],
        None,
    )
    .unwrap();

    assert_eq!(records[0].name, "foo.ba");
    assert_eq!(records[0].qtype, QType::A);
    assert_eq!(records[0].class, Class::IN);
    assert_eq!(records[1].name, "baz.foo.ba");
    assert_eq!(records[1].qtype, QType::A);
    assert_eq!(records[1].class, Class::IN);
}

#[test]
fn three_valid_names_with_pointer_as_name_in_section() {
    let (records, _) = Question::parse_records_from_bytes(
        &[
            3, b'f', b'o', b'o', 2, b'b', b'a', b'\0', 0, 1, 0, 1, 3, b'b', b'a', b'z',
            0b11000000, 12, 0, 1, 0, 1, 0b11000000, 12, 0, 1, 0, 1,
        ],
        None,
    )
    .unwrap();

    assert_eq!(records[0].name, "foo.ba");
    assert_eq!(records[0].qtype, QType::A);
    assert_eq!(records[0].class, Class::IN);
    assert_eq!(records[1].name, "baz.foo.ba");
    assert_eq!(records[1].qtype, QType::A);
    assert_eq!(records[1].class, Class::IN);
    assert_eq!(records[2].name, "foo.ba");
    assert_eq!(records[2].qtype, QType::A);
    assert_eq!(records[2].class, Class::IN);
}
