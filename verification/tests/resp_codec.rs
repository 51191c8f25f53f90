use bytes::BytesMut;
use wire_protocols::resp::codec::{CodecErrorKind, RespCodec};
use wire_protocols::resp::decimal::{parse_i64, parse_u64, push_decimal, push_digits};
use wire_protocols::resp::rules::{
    get_end_seq_len, is_end_seq, parse_rule_factory, ArraysParseRule, BulkStringsParseRule,
    IntegersParseRule, ParseRule, RespRule, RespRuleParseError, SimpleStringsParseRule,
};
use wire_protocols::resp::types::{RespDataType, RespTypeError};

fn bulk(text: &str) -> RespDataType {
    RespDataType::BulkStrings(Some(text.to_string()))
}

fn simple(text: &str) -> RespDataType {
    RespDataType::SimpleStrings(Some(text.to_string()))
}

fn decode_all(bytes: &[u8]) -> (Option<RespDataType>, Vec<u8>) {
    let mut codec = RespCodec::new();
    let mut buf = BytesMut::from(bytes);
    let value = codec.decode(&mut buf).unwrap();
    (value, buf.to_vec())
}

fn encode(value: RespDataType) -> Vec<u8> {
    let mut codec = RespCodec::new();
    let mut buf = BytesMut::new();
    codec.encode(value, &mut buf).unwrap();
    buf.to_vec()
}

#[test]
fn decodes_a_simple_string() {
    assert_eq!(decode_all(b"+OK\r\n"), (Some(simple("OK")), vec![]));
    assert_eq!(decode_all(b"+hello world\r\n+x"), (Some(simple("hello world")), b"+x".to_vec()));
}

#[test]
fn simple_string_waits_for_four_bytes_and_the_line_end() {
    assert_eq!(decode_all(b"+\r\n"), (None, b"+\r\n".to_vec()));
    assert_eq!(decode_all(b"+OK\r"), (None, b"+OK\r".to_vec()));
    assert_eq!(decode_all(b"+\r\n+"), (Some(simple("")), b"+".to_vec()));
}

#[test]
fn simple_string_replaces_malformed_utf8() {
    assert_eq!(decode_all(b"+a\xFFb\r\n"), (Some(simple("a\u{FFFD}b")), vec![]));
    assert_eq!(decode_all("+h\u{e9}\r\n".as_bytes()), (Some(simple("h\u{e9}")), vec![]));
}

#[test]
fn decodes_integers() {
    assert_eq!(decode_all(b":0\r\n"), (Some(RespDataType::Integers(Some(0))), vec![]));
    assert_eq!(decode_all(b":1234\r\n"), (Some(RespDataType::Integers(Some(1234))), vec![]));
    assert_eq!(decode_all(b":-17\r\nrest"), (Some(RespDataType::Integers(Some(-17))), b"rest".to_vec()));
    assert_eq!(decode_all(b":+5\r\n"), (Some(RespDataType::Integers(Some(5))), vec![]));
    assert_eq!(
        decode_all(b":-9223372036854775808\r\n"),
        (Some(RespDataType::Integers(Some(i64::MIN))), vec![])
    );
    assert_eq!(
        decode_all(b":9223372036854775807\r\n"),
        (Some(RespDataType::Integers(Some(i64::MAX))), vec![])
    );
}

#[test]
fn integer_errors_are_invalid_data() {
    for bad in [&b":12a\r\n"[..], b":9223372036854775808\r\n", b":-\r\n+", b":\xFF1\r\n", b":--5\r\n"] {
        let mut codec = RespCodec::new();
        let mut buf = BytesMut::from(bad);
        let err = codec.decode(&mut buf).unwrap_err();
        assert_eq!(err.kind, CodecErrorKind::InvalidData);
    }
}

#[test]
fn integer_rule_tells_bad_utf8_from_bad_numbers() {
    let mut rule = IntegersParseRule::new();
    let mut buf = BytesMut::from(&b":\xFF1\r\n"[..]);
    assert!(matches!(rule.next(&mut buf), Err(RespRuleParseError::Utf8ParseError(_))));
    let mut buf = BytesMut::from(&b":1x\r\n"[..]);
    let err = rule.next(&mut buf).unwrap_err();
    assert!(matches!(err, RespRuleParseError::NumericParseError(_)));
    assert_eq!(err.message(), "unable to parse numeric value: invalid decimal number");
}

#[test]
fn decodes_bulk_strings_by_their_length() {
    assert_eq!(decode_all(b"$3\r\nfoo\r\n"), (Some(bulk("foo")), vec![]));
    assert_eq!(decode_all(b"$0\r\n\r\n"), (Some(bulk("")), vec![]));
    assert_eq!(decode_all(b"$4\r\na\r\nb\r\n$"), (Some(bulk("a\r\nb")), b"$".to_vec()));
    assert_eq!(decode_all(b"$-1\r\n"), (Some(RespDataType::BulkStrings(None)), vec![]));
}

#[test]
fn bulk_string_keeps_its_length_between_calls() {
    let mut codec = RespCodec::new();
    let mut buf = BytesMut::from(&b"$5\r\nhe"[..]);
    assert_eq!(codec.decode(&mut buf).unwrap(), None);
    assert_eq!(&buf[..], b"he");
    buf.extend_from_slice(b"llo\r");
    assert_eq!(codec.decode(&mut buf).unwrap(), None);
    buf.extend_from_slice(b"\n");
    assert_eq!(codec.decode(&mut buf).unwrap(), Some(bulk("hello")));
    assert!(buf.is_empty());
    assert!(codec.rule.is_none());
}

#[test]
fn decodes_arrays() {
    assert_eq!(decode_all(b"*0\r\n"), (Some(RespDataType::Arrays(Some(vec![]))), vec![]));
    assert_eq!(
        decode_all(b"*2\r\n$4\r\nECHO\r\n$2\r\nhi\r\n"),
        (Some(RespDataType::Arrays(Some(vec![bulk("ECHO"), bulk("hi")]))), vec![])
    );
    assert_eq!(
        decode_all(b"*3\r\n:1\r\n+two\r\n*1\r\n$1\r\n3\r\n:9\r\n"),
        (
            Some(RespDataType::Arrays(Some(vec![
                RespDataType::Integers(Some(1)),
                simple("two"),
                RespDataType::Arrays(Some(vec![bulk("3")])),
            ]))),
            b":9\r\n".to_vec()
        )
    );
    assert_eq!(decode_all(b"*-1\r\n"), (Some(RespDataType::Arrays(None)), vec![]));
}

#[test]
fn array_with_an_unknown_element_type_is_refused() {
    let mut rule = ArraysParseRule::new();
    let mut buf = BytesMut::from(&b"*1\r\n?x\r\n"[..]);
    let err = rule.next(&mut buf).unwrap_err();
    assert!(matches!(err, RespRuleParseError::UnexpectedSubruleParseError(_)));
    assert_eq!(
        err.message(),
        "unable to parse with subrule: unable to get parse rule for provided type: usupported RESP type provided: ?"
    );
}

#[test]
fn unknown_prefix_is_refused() {
    let mut codec = RespCodec::new();
    let mut buf = BytesMut::from(&b"?what\r\n"[..]);
    let err = codec.decode(&mut buf).unwrap_err();
    assert_eq!(err.kind, CodecErrorKind::Other);
    assert_eq!(
        err.message,
        "unable to get parse rule for provided type: usupported RESP type provided: ?"
    );
    assert_eq!(&buf[..], b"?what\r\n");
    let mut buf = BytesMut::from(&b"-ERR\r\n"[..]);
    assert_eq!(codec.decode(&mut buf).unwrap_err().kind, CodecErrorKind::Other);
}

#[test]
fn decoder_asks_for_more_below_two_bytes() {
    assert_eq!(decode_all(b""), (None, vec![]));
    assert_eq!(decode_all(b"?"), (None, b"?".to_vec()));
}

#[test]
fn every_split_of_a_frame_gives_the_value_at_the_end_only() {
    let frame = b"*3\r\n$3\r\nSET\r\n:-12\r\n*2\r\n+a b\r\n$0\r\n\r\n";
    let expected = RespDataType::Arrays(Some(vec![
        bulk("SET"),
        RespDataType::Integers(Some(-12)),
        RespDataType::Arrays(Some(vec![simple("a b"), bulk("")])),
    ]));
    for cut in 1..frame.len() {
        for cut2 in cut..frame.len() {
            let mut codec = RespCodec::new();
            let mut buf = BytesMut::new();
            buf.extend_from_slice(&frame[..cut]);
            assert_eq!(codec.decode(&mut buf).unwrap(), None, "cut {cut}");
            buf.extend_from_slice(&frame[cut..cut2]);
            assert_eq!(codec.decode(&mut buf).unwrap(), None, "cut {cut} {cut2}");
            buf.extend_from_slice(&frame[cut2..]);
            assert_eq!(codec.decode(&mut buf).unwrap(), Some(expected.clone()));
            assert!(buf.is_empty());
        }
    }
}

#[test]
fn byte_by_byte() {
    let frame = b"*2\r\n$4\r\nPING\r\n:7\r\n";
    let mut codec = RespCodec::new();
    let mut buf = BytesMut::new();
    for (i, b) in frame.iter().enumerate() {
        buf.extend_from_slice(&[*b]);
        let got = codec.decode(&mut buf).unwrap();
        if i + 1 < frame.len() {
            assert_eq!(got, None);
        } else {
            assert_eq!(
                got,
                Some(RespDataType::Arrays(Some(vec![bulk("PING"), RespDataType::Integers(Some(7))])))
            );
        }
    }
}

#[test]
fn two_frames_in_one_buffer() {
    let mut codec = RespCodec::new();
    let mut buf = BytesMut::from(&b"+one\r\n:2\r\n"[..]);
    assert_eq!(codec.decode(&mut buf).unwrap(), Some(simple("one")));
    assert_eq!(codec.decode(&mut buf).unwrap(), Some(RespDataType::Integers(Some(2))));
    assert_eq!(codec.decode(&mut buf).unwrap(), None);
}

#[test]
fn encodes_each_type() {
    assert_eq!(encode(simple("PONG")), b"+PONG\r\n");
    assert_eq!(encode(bulk("bar")), b"$3\r\nbar\r\n");
    assert_eq!(encode(bulk("")), b"$0\r\n\r\n");
    assert_eq!(encode(bulk("h\u{e9}")), b"$3\r\nh\xC3\xA9\r\n");
    assert_eq!(encode(RespDataType::BulkStrings(None)), b"$-1\r\n");
    assert_eq!(encode(RespDataType::Integers(Some(42))), b":42\r\n");
    assert_eq!(encode(RespDataType::Integers(Some(-42))), b":-42\r\n");
    assert_eq!(encode(RespDataType::Integers(Some(0))), b":0\r\n");
    assert_eq!(encode(RespDataType::Integers(Some(i64::MIN))), b":-9223372036854775808\r\n");
    assert_eq!(encode(RespDataType::Errors("ERR oops".to_string())), b"-ERR oops\r\n");
    assert_eq!(
        encode(RespDataType::Arrays(Some(vec![bulk("a"), RespDataType::Integers(Some(1))]))),
        b"*2\r\n$1\r\na\r\n:1\r\n"
    );
    assert_eq!(encode(RespDataType::Arrays(Some(vec![]))), b"*0\r\n");
}

#[test]
fn encode_appends_to_the_buffer() {
    let mut codec = RespCodec::new();
    let mut buf = BytesMut::from(&b"+a\r\n"[..]);
    codec.encode(RespDataType::Integers(Some(1)), &mut buf).unwrap();
    assert_eq!(&buf[..], b"+a\r\n:1\r\n");
}

#[test]
fn encode_refuses_absent_values() {
    for bad in [
        RespDataType::SimpleStrings(None),
        RespDataType::Integers(None),
        RespDataType::Arrays(None),
        RespDataType::Arrays(Some(vec![bulk("a"), RespDataType::SimpleStrings(None)])),
    ] {
        let mut codec = RespCodec::new();
        let mut buf = BytesMut::from(&b"x"[..]);
        let err = codec.encode(bad, &mut buf).unwrap_err();
        assert_eq!(err.kind, CodecErrorKind::InvalidInput);
        assert_eq!(&buf[..], b"x");
    }
}

#[test]
fn encode_then_decode_gives_the_value_back() {
    let values = vec![
        simple("hello"),
        bulk("with\r\nline end"),
        bulk(""),
        RespDataType::BulkStrings(None),
        RespDataType::Integers(Some(-5)),
        RespDataType::Integers(Some(i64::MAX)),
        RespDataType::Arrays(Some(vec![])),
        RespDataType::Arrays(Some(vec![
            bulk("SET"),
            RespDataType::Arrays(Some(vec![simple("x"), RespDataType::Integers(Some(3))])),
        ])),
    ];
    for v in values {
        let wire = encode(v.clone());
        assert_eq!(decode_all(&wire), (Some(v), vec![]));
    }
}

#[test]
fn rules_by_prefix() {
    assert!(matches!(parse_rule_factory(b'+'), Ok(RespRule::SimpleStrings(_))));
    assert!(matches!(parse_rule_factory(b'$'), Ok(RespRule::BulkStrings(_))));
    assert!(matches!(parse_rule_factory(b'*'), Ok(RespRule::Arrays(_))));
    assert!(matches!(parse_rule_factory(b':'), Ok(RespRule::Integers(_))));
    assert!(parse_rule_factory(b'-').is_err());
    assert_eq!(RespDataType::from_prefix(b'+'), Ok(RespDataType::SimpleStrings(None)));
    assert_eq!(RespDataType::from_prefix(b'!'), Err(RespTypeError::UnsupportedType('!')));
    assert_eq!(simple("x").prefix(), b'+');
    assert_eq!(RespDataType::Errors(String::new()).prefix(), b'-');
}

#[test]
fn fresh_rules_know_no_size() {
    assert_eq!(BulkStringsParseRule::new().get_size(), 0);
    assert_eq!(ArraysParseRule::new().get_size(), 0);
    let mut rule = SimpleStringsParseRule::new();
    let mut buf = BytesMut::from(&b"+abc\r\n"[..]);
    assert_eq!(rule.next(&mut buf).unwrap(), Some(simple("abc")));
    assert!(buf.is_empty());
}

#[test]
fn line_ends() {
    assert!(is_end_seq(b"\r\n"));
    assert!(is_end_seq(b"abc\r\n"));
    assert!(!is_end_seq(b"\n\r"));
    assert!(!is_end_seq(b"\n"));
    assert!(!is_end_seq(b""));
    assert_eq!(get_end_seq_len(), 2);
}

#[test]
fn same_and_clone_go_by_value() {
    let a = RespDataType::Arrays(Some(vec![bulk("k"), RespDataType::Integers(Some(1))]));
    assert!(a.same(&a.clone()));
    assert!(!a.same(&RespDataType::Arrays(Some(vec![bulk("k")]))));
    assert!(!bulk("k").same(&simple("k")));
    assert!(!a.same(&RespDataType::Arrays(None)));
    assert_eq!(a.clone(), a);
}

#[test]
fn decimal_numbers() {
    let mut out = vec![b'x'];
    push_digits(&mut out, 0);
    push_digits(&mut out, 907);
    push_decimal(&mut out, -10);
    assert_eq!(out, b"x0907-10");
    assert_eq!(parse_i64(b"0012"), Some(12));
    assert_eq!(parse_i64(b"-0"), Some(0));
    assert_eq!(parse_i64(b""), None);
    assert_eq!(parse_i64(b"+"), None);
    assert_eq!(parse_i64(b"1 "), None);
    assert_eq!(parse_i64(b"99999999999999999999"), None);
    assert_eq!(parse_u64(b"18446744073709551615"), Some(u64::MAX));
    assert_eq!(parse_u64(b"18446744073709551616"), None);
    assert_eq!(parse_u64(b"+7"), Some(7));
    assert_eq!(parse_u64(b"-7"), None);
    assert_eq!(parse_u64(b""), None);
}

#[test]
fn rules_answer_through_their_trait() {
    let mut rule = IntegersParseRule::new();
    let mut buf = BytesMut::from(&b":12\r\n+"[..]);
    assert_eq!(ParseRule::next(&mut rule, &mut buf).unwrap(), Some(RespDataType::Integers(Some(12))));
    assert_eq!(&buf[..], b"+");
    let mut rule = parse_rule_factory(b'*').unwrap();
    let mut buf = BytesMut::from(&b"*1\r\n$2\r\nhi\r\n"[..]);
    assert_eq!(
        ParseRule::next(&mut rule, &mut buf).unwrap(),
        Some(RespDataType::Arrays(Some(vec![bulk("hi")])))
    );
}

#[test]
fn array_reads_one_element_at_a_time() {
    let mut rule = ArraysParseRule::new();
    let mut buf = BytesMut::from(&b":1\r\n"[..]);
    assert_eq!(rule.parse_next_rule(&mut buf).unwrap(), None);
    assert_eq!(&buf[..], b":1\r\n");
    rule.size = Some(2);
    buf.extend_from_slice(b":2");
    assert_eq!(rule.parse_next_rule(&mut buf).unwrap(), Some(RespDataType::Integers(Some(1))));
    assert_eq!(rule.get_size(), 1);
    assert!(rule.current_parse_rule.is_none());
    assert_eq!(rule.parse_next_rule(&mut buf).unwrap(), None);
    assert!(rule.current_parse_rule.is_some());
    assert_eq!(rule.get_size(), 1);
    buf.extend_from_slice(b"\r\n");
    assert_eq!(rule.parse_next_rule(&mut buf).unwrap(), Some(RespDataType::Integers(Some(2))));
    assert_eq!(rule.get_size(), 0);
    assert!(buf.is_empty());
    assert_eq!(rule.parse_next_rule(&mut buf).unwrap(), None);
}
