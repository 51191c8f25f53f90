use wire_protocols::dns::enums::{Class, QType};
use wire_protocols::dns::forward::{merge_responses, ForwardStep, Forwarding};
use wire_protocols::dns::header::{Header, HeaderField, HeaderParseError};
use wire_protocols::dns::message::MessageError;
use wire_protocols::dns::question::{
    Question, QuestionParseError, QuestionParseErrorKind, QuestionRecord,
};
use wire_protocols::dns::request::Request;
use wire_protocols::dns::response::Response;
use wire_protocols::dns::rr::{Rr, RrParseError, RrParseErrorKind};
use wire_protocols::dns::{parse_into_req, parse_into_res, reply};

fn datagram(flags: u8, qdcount: u8, body: &[u8]) -> [u8; 512] {
    let mut buf = [0u8; 512];
    buf[0] = 0x12;
    buf[1] = 0x34;
    buf[2] = flags;
    buf[5] = qdcount;
    buf[12..12 + body.len()].copy_from_slice(body);
    buf
}

const FOO_BA: [u8; 12] = [3, b'f', b'o', b'o', 2, b'b', b'a', 0, 0, 1, 0, 1];

#[test]
fn local_reply_answers_the_question() {
    let out = reply(&datagram(0, 1, &FOO_BA)).unwrap();
    let res = parse_into_res(&out).unwrap();
    assert_eq!(res.header.id, HeaderField::ID(0x1234));
    assert_eq!(res.header.qr, HeaderField::QR(1));
    assert_eq!(res.header.rcode, HeaderField::Rcode(0));
    assert_eq!(res.header.qdcount, HeaderField::Qdcount(1));
    assert_eq!(res.header.ancount, HeaderField::Ancount(1));
    assert_eq!(res.header.nscount, HeaderField::Nscount(0));
    assert_eq!(res.header.arcount, HeaderField::Arcount(0));
    assert_eq!(res.question.records.len(), 1);
    assert_eq!(res.question.records[0].name, "foo.ba");
    assert_eq!(res.answer.len(), 1);
    assert_eq!(res.answer[0], Rr::new("foo.ba", QType::A, Class::IN, 60, "8.8.8.8").unwrap());
}

#[test]
fn local_reply_bytes() {
    let out = reply(&datagram(0b0000_0001, 1, &FOO_BA)).unwrap();
    let mut expected = vec![0x12, 0x34, 0b1000_0001, 0, 0, 1, 0, 1, 0, 0, 0, 0];
    expected.extend_from_slice(&FOO_BA);
    expected.extend_from_slice(&[3, b'f', b'o', b'o', 2, b'b', b'a', 0, 0, 1, 0, 1]);
    expected.extend_from_slice(&[0, 0, 0, 60, 0, 4, 8, 8, 8, 8]);
    assert_eq!(&out[..expected.len()], &expected[..]);
    assert!(out[expected.len()..].iter().all(|b| *b == 0));
}

#[test]
fn local_reply_to_another_opcode_is_not_implemented() {
    let out = reply(&datagram(2 << 3, 1, &FOO_BA)).unwrap();
    let res = parse_into_res(&out).unwrap();
    assert_eq!(res.header.opcode, HeaderField::Opcode(2));
    assert_eq!(res.header.rcode, HeaderField::Rcode(4));
    assert_eq!(res.header.qr, HeaderField::QR(1));
}

#[test]
fn local_reply_needs_a_question() {
    let err = reply(&datagram(0, 1, &[])).unwrap_err();
    assert!(matches!(
        err,
        MessageError::Question(ref e) if matches!(e.kind, QuestionParseErrorKind::QuestionNameEmpty(0))
    ));
}

#[test]
fn local_reply_answers_only_a_questions() {
    let err = reply(&datagram(0, 1, &[1, b'a', 0, 0, 2, 0, 1])).unwrap_err();
    assert!(matches!(
        err,
        MessageError::Rr(ref e) if matches!(e.kind, RrParseErrorKind::RecordTypeIsNotSupported(QType::NS))
    ));
}

#[test]
fn parse_into_req_reads_header_and_questions() {
    let mut body = FOO_BA.to_vec();
    body.extend_from_slice(&[1, b'r', 3, b'b', b'a', b'z', 0, 0, 1, 0, 1]);
    let req = parse_into_req(&datagram(1, 2, &body)).unwrap();
    assert_eq!(req.header.id, HeaderField::ID(0x1234));
    assert_eq!(req.header.rd, HeaderField::RD(1));
    assert_eq!(req.question.records.len(), 2);
    assert_eq!(req.question.records[1].name, "r.baz");
    assert_eq!(req.question.offset, 12 + body.len());
}

#[test]
fn split_into_multiple_gives_one_request_per_question() {
    let mut body = FOO_BA.to_vec();
    body.extend_from_slice(&[1, b'r', 3, b'b', b'a', b'z', 0, 0, 1, 0, 1]);
    let req = parse_into_req(&datagram(1, 2, &body)).unwrap();
    let parts = req.split_into_multiple();
    assert_eq!(parts.len(), 2);
    for part in &parts {
        assert_eq!(part.header.id, HeaderField::ID(0x1234));
        assert_eq!(part.header.qdcount, HeaderField::Qdcount(1));
        assert_eq!(part.header.rd, HeaderField::RD(1));
        assert_eq!(part.question.records.len(), 1);
    }
    assert_eq!(parts[0].question.records[0].name, "foo.ba");
    assert_eq!(parts[1].question.records[0].name, "r.baz");
}

#[test]
fn request_to_buf_is_header_then_questions() {
    let req = parse_into_req(&datagram(1, 1, &FOO_BA)).unwrap();
    assert_eq!(req.to_buf(), datagram(1, 1, &FOO_BA));
}

#[test]
fn response_to_buf_cuts_what_does_not_fit() {
    let header = Header::from_bytes(&[0u8; 12]).unwrap();
    let long = "a".repeat(63);
    let name = format!("{long}.{long}.{long}");
    let records: Vec<QuestionRecord> = (0..4)
        .map(|_| QuestionRecord { name: name.clone(), qtype: QType::A, class: Class::IN })
        .collect();
    let question = Question::from_records(records);
    let wire = question.join();
    assert!(wire.len() > 500);
    let buf = Response::new(header, question, vec![]).to_buf();
    assert_eq!(&buf[12..], &wire[..500]);
}

fn upstream_reply(id: u16, name: &str, address: &str) -> Response {
    let mut header = Header::from_bytes(&[0u8; 12]).unwrap();
    header.set_header(HeaderField::ID(id));
    header.set_header(HeaderField::QR(1));
    header.set_header(HeaderField::Qdcount(1));
    header.set_header(HeaderField::Ancount(1));
    let record = QuestionRecord { name: name.to_string(), qtype: QType::A, class: Class::IN };
    let rr = Rr::new(name, QType::A, Class::IN, 30, address).unwrap();
    Response::new(header, Question::from_record(record), vec![rr])
}

#[test]
fn merge_gathers_questions_and_answers() {
    let merged = merge_responses(&vec![
        upstream_reply(7, "foo.ba", "1.1.1.1"),
        upstream_reply(7, "r.baz", "2.2.2.2"),
    ]);
    assert_eq!(merged.header.id, HeaderField::ID(7));
    assert_eq!(merged.header.qdcount, HeaderField::Qdcount(2));
    assert_eq!(merged.header.ancount, HeaderField::Ancount(2));
    assert_eq!(merged.question.records[0].name, "foo.ba");
    assert_eq!(merged.question.records[1].name, "r.baz");
    assert_eq!(merged.answer[0].rdata, vec![1, 1, 1, 1]);
    assert_eq!(merged.answer[1].rdata, vec![2, 2, 2, 2]);
}

#[test]
fn forwarding_counts_only_replies_with_its_id() {
    let mut body = FOO_BA.to_vec();
    body.extend_from_slice(&[1, b'r', 3, b'b', b'a', b'z', 0, 0, 1, 0, 1]);
    let req: Request = parse_into_req(&datagram(1, 2, &body)).unwrap();
    let (mut state, datagrams) = Forwarding::start(&req);
    assert_eq!(state.id, 0x1234);
    assert_eq!(state.remaining, 2);
    assert_eq!(datagrams.len(), 2);
    assert_eq!(datagrams[0], datagram(1, 1, &FOO_BA));
    assert_eq!(datagrams[1], datagram(1, 1, &[1, b'r', 3, b'b', b'a', b'z', 0, 0, 1, 0, 1]));

    assert!(matches!(state.accept(upstream_reply(9, "x", "9.9.9.9")), ForwardStep::Skip));
    assert_eq!(state.remaining, 2);
    assert!(matches!(state.accept(upstream_reply(0x1234, "r.baz", "2.2.2.2")), ForwardStep::Wait));
    assert_eq!(state.remaining, 1);
    match state.accept(upstream_reply(0x1234, "foo.ba", "1.1.1.1")) {
        ForwardStep::Send(merged) => {
            assert_eq!(merged.header.qdcount, HeaderField::Qdcount(2));
            assert_eq!(merged.header.ancount, HeaderField::Ancount(2));
            assert_eq!(merged.question.records[0].name, "r.baz");
            assert_eq!(merged.answer[1].rdata, vec![1, 1, 1, 1]);
            let back = parse_into_res(&merged.to_buf()).unwrap();
            assert_eq!(back.answer.len(), 2);
        }
        _ => panic!("the last reply completes the query"),
    }
}

#[test]
fn error_texts() {
    assert_eq!(
        HeaderParseError::bad_header_len(7, None).message(),
        "Unable to parse HEADER section: Expected the size of 12 bytes, received 7. Source error: <nil>"
    );
    assert_eq!(
        QuestionParseError::unexpected_eof(104, Some("cut".to_string())).message(),
        "Unable to parse QUESTION section: QUESTION may have incorrect align and structure, index 104. Source error: cut"
    );
    assert_eq!(
        QuestionParseError::qtype_or_class_invalid(None).kind.message(),
        "QTYPE or CLASS may be missed or improperly aligned"
    );
    assert_eq!(
        QuestionParseError::question_name_empty(0, None).kind.message(),
        "QUESTION may have incorrect align and structure, index 0"
    );
    assert_eq!(
        RrParseError::record_type_is_not_supported(QType::MX, None).message(),
        "Unable to parse RR section: RR has unsupported QTYPE NS, supported list: [A]. Source error: <nil>"
    );
    assert_eq!(
        RrParseError::unexpected_rdlen(16, None).kind.message(),
        "Unexpected value was provided for RDLENGTH 16, supported list: [A]"
    );
    assert_eq!(
        RrParseError::unexpected_empty_name(3, None).kind.message(),
        "RR may have empty name or incorrect align, index: 3"
    );
    assert_eq!(
        RrParseError::unexpected_eof(65535, None).kind.message(),
        "RR may have incorrect align and structure, index 65535"
    );
    assert_eq!(RrParseError::ttl_invalid(None).kind.message(), "TTL must be valid u32");
    assert_eq!(RrParseError::rdlen_invalid(None).kind.message(), "TTL must be valid u16");
    assert_eq!(
        RrParseError::unexpected_rdata(None).kind.message(),
        "Unexpected value was provided for RDATA"
    );
    assert_eq!(
        RrParseError::qtype_or_class_invalid(None).kind.message(),
        "QTYPE or CLASS may be missed or improperly aligned"
    );
    let err = reply(&datagram(0, 1, &[])).unwrap_err();
    assert_eq!(
        err.message(),
        "Unable to parse QUESTION section: QUESTION may have incorrect align and structure, index 0. Source error: <nil>"
    );
}
