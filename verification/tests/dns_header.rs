use wire_protocols::dns::header::{Header, HeaderField, HeaderParseErrorKind};

fn sample() -> [u8; 12] {
    [0x12, 0x34, 0b1001_0101, 0b1010_0011, 0, 1, 0, 2, 0, 3, 1, 4]
}

#[test]
fn header_fields_are_read_from_their_bits() {
    let h = Header::from_bytes(&sample()).unwrap();
    assert_eq!(h.id, HeaderField::ID(0x1234));
    assert_eq!(h.qr, HeaderField::QR(1));
    assert_eq!(h.opcode, HeaderField::Opcode(2));
    assert_eq!(h.aa, HeaderField::AA(1));
    assert_eq!(h.tc, HeaderField::TC(0));
    assert_eq!(h.rd, HeaderField::RD(1));
    assert_eq!(h.ra, HeaderField::RA(1));
    assert_eq!(h.z, HeaderField::Z(2));
    assert_eq!(h.rcode, HeaderField::Rcode(3));
    assert_eq!(h.qdcount, HeaderField::Qdcount(1));
    assert_eq!(h.ancount, HeaderField::Ancount(2));
    assert_eq!(h.nscount, HeaderField::Nscount(3));
    assert_eq!(h.arcount, HeaderField::Arcount(0x0104));
}

#[test]
fn header_round_trips_on_bytes() {
    let h = Header::from_bytes(&sample()).unwrap();
    assert_eq!(h.join(), sample());
    let all_ones = [0xFFu8; 12];
    assert_eq!(Header::from_bytes(&all_ones).unwrap().join(), all_ones);
    let zeros = [0u8; 12];
    assert_eq!(Header::from_bytes(&zeros).unwrap().join(), zeros);
}

#[test]
fn header_round_trips_on_fields() {
    let mut h = Header::from_bytes(&[0u8; 12]).unwrap();
    h.set_header(HeaderField::ID(0xBEEF));
    h.set_header(HeaderField::QR(1));
    h.set_header(HeaderField::Opcode(15));
    h.set_header(HeaderField::Z(7));
    h.set_header(HeaderField::Rcode(4));
    h.set_header(HeaderField::Ancount(513));
    let bytes = h.join();
    assert_eq!(bytes, [0xBE, 0xEF, 0b1111_1000, 0b0111_0100, 0, 0, 2, 1, 0, 0, 0, 0]);
    assert_eq!(Header::from_bytes(&bytes).unwrap(), h);
}

#[test]
fn header_reads_only_the_first_twelve_bytes() {
    let mut long = sample().to_vec();
    long.extend_from_slice(&[9, 9, 9]);
    assert_eq!(Header::from_bytes(&long).unwrap(), Header::from_bytes(&sample()).unwrap());
}

#[test]
fn short_header_is_refused_with_its_length() {
    let err = Header::from_bytes(&[0u8; 11]).unwrap_err();
    assert!(matches!(err.kind, HeaderParseErrorKind::BadHeaderLen(11)));
    assert!(err.source_error.is_none());
    assert_eq!(err.source_error_to_string(), "<nil>");
    let err = Header::from_bytes(&[]).unwrap_err();
    assert!(matches!(err.kind, HeaderParseErrorKind::BadHeaderLen(0)));
}

#[test]
fn set_header_goes_by_the_tag() {
    let mut h = Header::from_bytes(&sample()).unwrap();
    h.set_header(HeaderField::Qdcount(7));
    assert_eq!(h.qdcount, HeaderField::Qdcount(7));
    assert_eq!(h.id, HeaderField::ID(0x1234));
    assert_eq!(h.ancount, HeaderField::Ancount(2));
}

#[test]
fn join_masks_flags_to_their_width() {
    let mut h = Header::from_bytes(&[0u8; 12]).unwrap();
    h.set_header(HeaderField::QR(3));
    h.set_header(HeaderField::Opcode(0x1F));
    assert_eq!(h.join()[2], 0b1111_1000);
}

#[test]
fn to_number_is_for_id_and_qdcount() {
    assert_eq!(HeaderField::ID(5).to_number(), Some(5));
    assert_eq!(HeaderField::Qdcount(6).to_number(), Some(6));
    assert_eq!(HeaderField::Ancount(6).to_number(), None);
    assert_eq!(HeaderField::QR(1).to_number(), None);
}
