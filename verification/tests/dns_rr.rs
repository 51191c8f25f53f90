use wire_protocols::dns::enums::{Class, QType};
use wire_protocols::dns::rr::{ipv4_text, parse_ipv4, Rr, RrParseErrorKind};

fn a_record_bytes() -> Vec<u8> {
    vec![3, b'f', b'o', b'o', 2, b'b', b'a', 0, 0, 1, 0, 1, 0, 0, 0, 60, 0, 4, 8, 8, 8, 8]
}

#[test]
fn new_builds_an_a_record() {
    let rr = Rr::new(" foo.ba ", QType::A, Class::IN, 60, "8.8.8.8").unwrap();
    assert_eq!(rr.name, "foo.ba");
    assert_eq!(rr.rrtype, QType::A);
    assert_eq!(rr.class, Class::IN);
    assert_eq!(rr.ttl, 60);
    assert_eq!(rr.rdlength, 4);
    assert_eq!(rr.rdata, vec![8, 8, 8, 8]);
}

#[test]
fn new_refuses_other_types() {
    let err = Rr::new("foo.ba", QType::MX, Class::IN, 60, "8.8.8.8").unwrap_err();
    assert!(matches!(err.kind, RrParseErrorKind::RecordTypeIsNotSupported(QType::MX)));
    assert_eq!(err.source_error_to_string(), "<nil>");
}

#[test]
fn new_refuses_bad_addresses() {
    for bad in ["", "8.8.8", "8.8.8.8.8", "256.1.1.1", "01.2.3.4", "1.2.3.", ".1.2.3", "a.b.c.d",
        "1..2.3", "1.2.3.4 ", "1234.1.1.1", "+1.2.3.4"]
    {
        let err = Rr::new("foo.ba", QType::A, Class::IN, 60, bad).unwrap_err();
        assert!(matches!(err.kind, RrParseErrorKind::UnexpectedRdata), "{bad}");
    }
}

#[test]
fn new_refuses_an_empty_name() {
    let err = Rr::new("  ", QType::A, Class::IN, 60, "8.8.8.8").unwrap_err();
    assert!(matches!(err.kind, RrParseErrorKind::UnexpectedEmptyName(0)));
}

#[test]
fn dotted_quads() {
    assert_eq!(parse_ipv4("0.0.0.0"), Some(vec![0, 0, 0, 0]));
    assert_eq!(parse_ipv4("255.255.255.255"), Some(vec![255, 255, 255, 255]));
    assert_eq!(parse_ipv4("192.168.10.1"), Some(vec![192, 168, 10, 1]));
    assert_eq!(parse_ipv4("10.0.0.09"), None);
    assert_eq!(parse_ipv4("300.0.0.1"), None);
}

#[test]
fn join_writes_the_record() {
    let rr = Rr::new("foo.ba", QType::A, Class::IN, 60, "8.8.8.8").unwrap();
    assert_eq!(rr.join(), a_record_bytes());
    let rr = Rr::new("a", QType::A, Class::CH, 0x01020304, "1.2.3.4").unwrap();
    assert_eq!(rr.join(), vec![1, b'a', 0, 0, 1, 0, 15, 1, 2, 3, 4, 0, 4, 1, 2, 3, 4]);
}

#[test]
fn record_round_trip() {
    let rr = Rr::new("foo.ba", QType::A, Class::IN, 3600, "10.20.30.40").unwrap();
    let back = Rr::from_bytes_multiple(&rr.join()).unwrap();
    assert_eq!(back, vec![rr]);
}

#[test]
fn from_bytes_reads_one_record_and_its_end() {
    let (rr, end) = Rr::from_bytes(&a_record_bytes(), 0).unwrap().unwrap();
    assert_eq!(rr.name, "foo.ba");
    assert_eq!(rr.ttl, 60);
    assert_eq!(rr.rdata, vec![8, 8, 8, 8]);
    assert_eq!(end, 22);
}

#[test]
fn from_bytes_multiple_reads_records_in_a_row() {
    let mut bytes = a_record_bytes();
    bytes.extend_from_slice(&[1, b'x', 0, 0, 1, 0, 1, 0, 0, 1, 0, 0, 4, 1, 2, 3, 4]);
    bytes.extend_from_slice(&[0, 0, 0]);
    let rrs = Rr::from_bytes_multiple(&bytes).unwrap();
    assert_eq!(rrs.len(), 2);
    assert_eq!(rrs[0].name, "foo.ba");
    assert_eq!(rrs[1].name, "x");
    assert_eq!(rrs[1].ttl, 256);
    assert_eq!(rrs[1].rdata, vec![1, 2, 3, 4]);
}

#[test]
fn from_bytes_multiple_of_nothing_is_empty() {
    assert_eq!(Rr::from_bytes_multiple(&[]).unwrap(), vec![]);
    assert_eq!(Rr::from_bytes_multiple(&[0, 0, 0, 0]).unwrap(), vec![]);
}

#[test]
fn record_errors() {
    let cut = |n: usize| Rr::from_bytes_multiple(&a_record_bytes()[..n]).unwrap_err().kind;
    assert!(matches!(cut(10), RrParseErrorKind::UnexpectedEof(8)));
    assert!(matches!(cut(14), RrParseErrorKind::UnexpectedEof(12)));
    assert!(matches!(cut(17), RrParseErrorKind::UnexpectedEof(16)));
    assert!(matches!(cut(20), RrParseErrorKind::UnexpectedEof(18)));

    let mut bad_type = a_record_bytes();
    bad_type[9] = 3;
    assert!(matches!(
        Rr::from_bytes_multiple(&bad_type).unwrap_err().kind,
        RrParseErrorKind::QtypeOrClassInvalid
    ));

    let mut bad_len = a_record_bytes();
    bad_len[17] = 5;
    assert!(matches!(
        Rr::from_bytes_multiple(&bad_len).unwrap_err().kind,
        RrParseErrorKind::UnexpectedRdlen(5)
    ));

    let mut other_type = a_record_bytes();
    other_type[9] = 2;
    assert!(matches!(
        Rr::from_bytes_multiple(&other_type).unwrap_err().kind,
        RrParseErrorKind::RecordTypeIsNotSupported(QType::NS)
    ));
}

#[test]
fn resolve_rdlength_knows_a() {
    assert_eq!(Rr::resolve_rdlength(&QType::A).unwrap(), 4);
    assert!(matches!(
        Rr::resolve_rdlength(&QType::Txt).unwrap_err().kind,
        RrParseErrorKind::RecordTypeIsNotSupported(QType::Txt)
    ));
}

#[test]
fn convert_rdata_to_bytes_reads_a_dotted_quad() {
    assert_eq!(Rr::convert_rdata_to_bytes(&QType::A, "127.0.0.1").unwrap(), vec![127, 0, 0, 1]);
    assert!(matches!(
        Rr::convert_rdata_to_bytes(&QType::A, "localhost").unwrap_err().kind,
        RrParseErrorKind::UnexpectedRdata
    ));
    assert!(matches!(
        Rr::convert_rdata_to_bytes(&QType::NS, "127.0.0.1").unwrap_err().kind,
        RrParseErrorKind::RecordTypeIsNotSupported(QType::NS)
    ));
}

#[test]
fn dotted_quad_texts() {
    assert_eq!(ipv4_text(8, 8, 8, 8), "8.8.8.8");
    assert_eq!(ipv4_text(0, 10, 100, 255), "0.10.100.255");
    for n in [0u8, 9, 10, 99, 100, 199, 200, 255] {
        assert_eq!(parse_ipv4(&ipv4_text(n, 0, n, 1)), Some(vec![n, 0, n, 1]));
    }
}
