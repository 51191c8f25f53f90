//! The twelve-byte message header.

use vstd::prelude::*;
use vstd::array::*;
use vstd::string::*;
use crate::text::{number_text, push_number};

verus! {

/// One field of the header, tagged with its name.
#[derive(PartialEq, Eq, Structural, Debug, Clone, Copy)]
pub enum HeaderField {
    ID(u16),
    QR(u8),
    Opcode(u8),
    AA(u8),
    TC(u8),
    RD(u8),
    RA(u8),
    Z(u8),
    Rcode(u8),
    Qdcount(u16),
    Ancount(u16),
    Nscount(u16),
    Arcount(u16),
}

impl HeaderField {
    /// The number of an `ID` or a `Qdcount` field; no other field has one.
    pub fn to_number(&self) -> (r: Option<u16>)
        ensures
            r == match *self {
                HeaderField::ID(v) => Some(v),
                HeaderField::Qdcount(v) => Some(v),
                _ => None,
            },
    {
        match *self {
            HeaderField::ID(id) => Some(id),
            HeaderField::Qdcount(qdcount) => Some(qdcount),
            _ => None,
        }
    }
}

#[derive(PartialEq, Eq, Structural, Debug, Clone, Copy)]
pub struct Header {
    pub id: HeaderField,
    pub qr: HeaderField,
    pub opcode: HeaderField,
    pub aa: HeaderField,
    pub tc: HeaderField,
    pub rd: HeaderField,
    pub ra: HeaderField,
    pub z: HeaderField,
    pub rcode: HeaderField,
    pub qdcount: HeaderField,
    pub ancount: HeaderField,
    pub nscount: HeaderField,
    pub arcount: HeaderField,
}

#[derive(Debug)]
pub enum HeaderParseErrorKind {
    BadHeaderLen(usize),
}

#[derive(Debug)]
pub struct HeaderParseError {
    pub kind: HeaderParseErrorKind,
    pub source_error: Option<String>,
}

/// The text of a header error kind.
pub open spec fn header_kind_text(kind: HeaderParseErrorKind) -> Seq<char> {
    match kind {
        HeaderParseErrorKind::BadHeaderLen(size) => "Expected the size of 12 bytes, received "@
            + number_text(size as nat),
    }
}

impl HeaderParseErrorKind {
    /// The kind's text.
    pub fn message(&self) -> (r: String)
        ensures
            r@ == header_kind_text(*self),
    {
        match self {
            HeaderParseErrorKind::BadHeaderLen(size) => {
                let mut out = String::from_str("Expected the size of 12 bytes, received ");
                push_number(&mut out, *size as u64);
                out
            },
        }
    }
}

impl HeaderParseError {
    /// The error's text.
    pub fn message(&self) -> (r: String)
        ensures
            r@ == "Unable to parse HEADER section: "@ + header_kind_text(self.kind)
                + ". Source error: "@ + (match self.source_error {
                Some(e) => e@,
                None => "<nil>"@,
            }),
    {
        let mut out = String::from_str("Unable to parse HEADER section: ");
        out.append(self.kind.message().as_str());
        out.append(". Source error: ");
        out.append(self.source_error_to_string().as_str());
        out
    }

    pub fn from_kind(kind: HeaderParseErrorKind, source_error: Option<String>) -> (r: Self)
        ensures
            r.kind == kind,
            r.source_error == source_error,
    {
        Self { kind, source_error }
    }

    pub fn bad_header_len(size: usize, source_error: Option<String>) -> (r: Self)
        ensures
            r.kind == HeaderParseErrorKind::BadHeaderLen(size),
            r.source_error == source_error,
    {
        HeaderParseError::from_kind(HeaderParseErrorKind::BadHeaderLen(size), source_error)
    }

    /// The text of the underlying error, or `<nil>` where there is none.
    pub fn source_error_to_string(&self) -> (r: String)
        ensures
            r@ == match self.source_error {
                Some(e) => e@,
                None => "<nil>"@,
            },
    {
        match &self.source_error {
            Some(error) => error.clone(),
            None => "<nil>".to_owned(),
        }
    }
}

pub const HEADER_BYTES_SIZE: usize = 12;

/// The sixteen-bit number at bytes `i` and `i + 1`, most significant first.
pub open spec fn word_at(bytes: Seq<u8>, i: int) -> u16 {
    (bytes[i] as int * 256 + bytes[i + 1] as int) as u16
}

/// The header that the first twelve bytes of a message spell.
pub open spec fn header_of(bytes: Seq<u8>) -> Header {
    Header {
        id: HeaderField::ID(word_at(bytes, 0)),
        qr: HeaderField::QR(bytes[2] / 128),
        opcode: HeaderField::Opcode((bytes[2] / 8) % 16),
        aa: HeaderField::AA((bytes[2] / 4) % 2),
        tc: HeaderField::TC((bytes[2] / 2) % 2),
        rd: HeaderField::RD(bytes[2] % 2),
        ra: HeaderField::RA(bytes[3] / 128),
        z: HeaderField::Z((bytes[3] / 16) % 8),
        rcode: HeaderField::Rcode(bytes[3] % 16),
        qdcount: HeaderField::Qdcount(word_at(bytes, 4)),
        ancount: HeaderField::Ancount(word_at(bytes, 6)),
        nscount: HeaderField::Nscount(word_at(bytes, 8)),
        arcount: HeaderField::Arcount(word_at(bytes, 10)),
    }
}

/// The buffer after one field has been written into it. A sixteen-bit
/// field overwrites its two bytes; a flag or code is masked to its width,
/// moved to its place and or-ed into the byte that holds it.
pub open spec fn with_field(buf: Seq<u8>, f: HeaderField) -> Seq<u8> {
    match f {
        HeaderField::ID(v) => buf.update(0, (v / 256) as u8).update(1, (v % 256) as u8),
        HeaderField::QR(v) => buf.update(2, buf[2] | (((v % 2) * 128) as u8)),
        HeaderField::Opcode(v) => buf.update(2, buf[2] | (((v % 16) * 8) as u8)),
        HeaderField::AA(v) => buf.update(2, buf[2] | (((v % 2) * 4) as u8)),
        HeaderField::TC(v) => buf.update(2, buf[2] | (((v % 2) * 2) as u8)),
        HeaderField::RD(v) => buf.update(2, buf[2] | (v % 2)),
        HeaderField::RA(v) => buf.update(3, buf[3] | (((v % 2) * 128) as u8)),
        HeaderField::Z(v) => buf.update(3, buf[3] | (((v % 8) * 16) as u8)),
        HeaderField::Rcode(v) => buf.update(3, buf[3] | (v % 16)),
        HeaderField::Qdcount(v) => buf.update(4, (v / 256) as u8).update(5, (v % 256) as u8),
        HeaderField::Ancount(v) => buf.update(6, (v / 256) as u8).update(7, (v % 256) as u8),
        HeaderField::Nscount(v) => buf.update(8, (v / 256) as u8).update(9, (v % 256) as u8),
        HeaderField::Arcount(v) => buf.update(10, (v / 256) as u8).update(11, (v % 256) as u8),
    }
}

/// Twelve zero bytes.
pub open spec fn zero_header() -> Seq<u8> {
    Seq::new(12, |i: int| 0u8)
}

/// The twelve bytes of a header: its thirteen fields written in turn, each
/// by its own tag, into twelve zero bytes.
#[verifier::opaque]
pub open spec fn header_bytes(h: Header) -> Seq<u8> {
    with_field(
        with_field(
            with_field(
                with_field(
                    with_field(
                        with_field(
                            with_field(
                                with_field(
                                    with_field(
                                        with_field(
                                            with_field(
                                                with_field(with_field(zero_header(), h.id), h.qr),
                                                h.opcode,
                                            ),
                                            h.aa,
                                        ),
                                        h.tc,
                                    ),
                                    h.rd,
                                ),
                                h.ra,
                            ),
                            h.z,
                        ),
                        h.rcode,
                    ),
                    h.qdcount,
                ),
                h.ancount,
            ),
            h.nscount,
        ),
        h.arcount,
    )
}

/// The header in which the slot named by the field's tag holds the field.
pub open spec fn header_with(h: Header, f: HeaderField) -> Header {
    match f {
        HeaderField::ID(_) => Header { id: f, ..h },
        HeaderField::QR(_) => Header { qr: f, ..h },
        HeaderField::Opcode(_) => Header { opcode: f, ..h },
        HeaderField::AA(_) => Header { aa: f, ..h },
        HeaderField::TC(_) => Header { tc: f, ..h },
        HeaderField::RD(_) => Header { rd: f, ..h },
        HeaderField::RA(_) => Header { ra: f, ..h },
        HeaderField::Z(_) => Header { z: f, ..h },
        HeaderField::Rcode(_) => Header { rcode: f, ..h },
        HeaderField::Qdcount(_) => Header { qdcount: f, ..h },
        HeaderField::Ancount(_) => Header { ancount: f, ..h },
        HeaderField::Nscount(_) => Header { nscount: f, ..h },
        HeaderField::Arcount(_) => Header { arcount: f, ..h },
    }
}

fn word_of(bytes: &[u8], i: usize) -> (r: u16)
    requires
        i + 1 < bytes@.len(),
    ensures
        r == word_at(bytes@, i as int),
{
    let hi: u16 = bytes[i] as u16;
    let lo: u16 = bytes[i + 1] as u16;
    hi * 256 + lo
}

fn write_field(buf: &mut [u8; 12], field: &HeaderField)
    ensures
        final(buf)@ == with_field(old(buf)@, *field),
{
    match *field {
        HeaderField::ID(v) => {
            buf[0] = (v / 256) as u8;
            buf[1] = (v % 256) as u8;
        },
        HeaderField::QR(v) => {
            let cur: u8 = buf[2];
            buf[2] = cur | ((v % 2) * 128);
        },
        HeaderField::Opcode(v) => {
            let cur: u8 = buf[2];
            buf[2] = cur | ((v % 16) * 8);
        },
        HeaderField::AA(v) => {
            let cur: u8 = buf[2];
            buf[2] = cur | ((v % 2) * 4);
        },
        HeaderField::TC(v) => {
            let cur: u8 = buf[2];
            buf[2] = cur | ((v % 2) * 2);
        },
        HeaderField::RD(v) => {
            let cur: u8 = buf[2];
            buf[2] = cur | (v % 2);
        },
        HeaderField::RA(v) => {
            let cur: u8 = buf[3];
            buf[3] = cur | ((v % 2) * 128);
        },
        HeaderField::Z(v) => {
            let cur: u8 = buf[3];
            buf[3] = cur | ((v % 8) * 16);
        },
        HeaderField::Rcode(v) => {
            let cur: u8 = buf[3];
            buf[3] = cur | (v % 16);
        },
        HeaderField::Qdcount(v) => {
            buf[4] = (v / 256) as u8;
            buf[5] = (v % 256) as u8;
        },
        HeaderField::Ancount(v) => {
            buf[6] = (v / 256) as u8;
            buf[7] = (v % 256) as u8;
        },
        HeaderField::Nscount(v) => {
            buf[8] = (v / 256) as u8;
            buf[9] = (v % 256) as u8;
        },
        HeaderField::Arcount(v) => {
            buf[10] = (v / 256) as u8;
            buf[11] = (v % 256) as u8;
        },
    }
}

impl Header {
    /// Whether every slot holds a field of its own tag and every flag and
    /// code fits the bits that the wire gives it.
    pub open spec fn well_formed(&self) -> bool {
        &&& self.id is ID
        &&& self.qr is QR && self.qr->QR_0 < 2
        &&& self.opcode is Opcode && self.opcode->Opcode_0 < 16
        &&& self.aa is AA && self.aa->AA_0 < 2
        &&& self.tc is TC && self.tc->TC_0 < 2
        &&& self.rd is RD && self.rd->RD_0 < 2
        &&& self.ra is RA && self.ra->RA_0 < 2
        &&& self.z is Z && self.z->Z_0 < 8
        &&& self.rcode is Rcode && self.rcode->Rcode_0 < 16
        &&& self.qdcount is Qdcount
        &&& self.ancount is Ancount
        &&& self.nscount is Nscount
        &&& self.arcount is Arcount
    }

    /// Reads the header from the first twelve bytes. Fails, with the length
    /// it was given, exactly when there are fewer.
    pub fn from_bytes(bytes: &[u8]) -> (r: Result<Self, HeaderParseError>)
        ensures
            bytes@.len() >= 12 ==> r is Ok && r->Ok_0 == header_of(bytes@) && r->Ok_0.well_formed(),
            bytes@.len() < 12 ==> r is Err && r->Err_0.kind == HeaderParseErrorKind::BadHeaderLen(
                bytes@.len() as usize,
            ) && r->Err_0.source_error is None,
    {
        if bytes.len() < HEADER_BYTES_SIZE {
            return Err(HeaderParseError::bad_header_len(bytes.len(), None));
        }
        let flags: u8 = bytes[2];
        let codes: u8 = bytes[3];
        Ok(
            Header {
                id: HeaderField::ID(word_of(bytes, 0)),
                qr: HeaderField::QR(flags / 128),
                opcode: HeaderField::Opcode((flags / 8) % 16),
                aa: HeaderField::AA((flags / 4) % 2),
                tc: HeaderField::TC((flags / 2) % 2),
                rd: HeaderField::RD(flags % 2),
                ra: HeaderField::RA(codes / 128),
                z: HeaderField::Z((codes / 16) % 8),
                rcode: HeaderField::Rcode(codes % 16),
                qdcount: HeaderField::Qdcount(word_of(bytes, 4)),
                ancount: HeaderField::Ancount(word_of(bytes, 6)),
                nscount: HeaderField::Nscount(word_of(bytes, 8)),
                arcount: HeaderField::Arcount(word_of(bytes, 10)),
            },
        )
    }

    /// Puts the field into the slot that its tag names; the other slots stay.
    pub fn set_header(&mut self, header: HeaderField)
        ensures
            *final(self) == header_with(*old(self), header),
    {
        match header {
            HeaderField::ID(_) => self.id = header,
            HeaderField::QR(_) => self.qr = header,
            HeaderField::Opcode(_) => self.opcode = header,
            HeaderField::AA(_) => self.aa = header,
            HeaderField::TC(_) => self.tc = header,
            HeaderField::RD(_) => self.rd = header,
            HeaderField::RA(_) => self.ra = header,
            HeaderField::Z(_) => self.z = header,
            HeaderField::Rcode(_) => self.rcode = header,
            HeaderField::Qdcount(_) => self.qdcount = header,
            HeaderField::Ancount(_) => self.ancount = header,
            HeaderField::Nscount(_) => self.nscount = header,
            HeaderField::Arcount(_) => self.arcount = header,
        }
    }

    /// The twelve bytes of the header.
    pub fn join(&self) -> (r: [u8; 12])
        ensures
            r@ == header_bytes(*self),
    {
        let mut buf: [u8; 12] = [0u8;12];
        proof {
            reveal(header_bytes);
            assert(buf@ =~= zero_header());
        }
        write_field(&mut buf, &self.id);
        write_field(&mut buf, &self.qr);
        write_field(&mut buf, &self.opcode);
        write_field(&mut buf, &self.aa);
        write_field(&mut buf, &self.tc);
        write_field(&mut buf, &self.rd);
        write_field(&mut buf, &self.ra);
        write_field(&mut buf, &self.z);
        write_field(&mut buf, &self.rcode);
        write_field(&mut buf, &self.qdcount);
        write_field(&mut buf, &self.ancount);
        write_field(&mut buf, &self.nscount);
        write_field(&mut buf, &self.arcount);
        buf
    }
}

/// The byte that holds `qr`, `opcode`, `aa`, `tc` and `rd`, each in its place.
pub open spec fn flags_byte(qr: u8, opcode: u8, aa: u8, tc: u8, rd: u8) -> u8 {
    (qr * 128 + opcode * 8 + aa * 4 + tc * 2 + rd) as u8
}

/// The byte that holds `ra`, `z` and `rcode`, each in its place.
pub open spec fn codes_byte(ra: u8, z: u8, rcode: u8) -> u8 {
    (ra * 128 + z * 16 + rcode) as u8
}

proof fn or_flags(qr: u8, opcode: u8, aa: u8, tc: u8, rd: u8)
    requires
        qr < 2,
        opcode < 16,
        aa < 2,
        tc < 2,
        rd < 2,
    ensures
        (((((0u8 | ((qr % 2) * 128) as u8) | ((opcode % 16) * 8) as u8) | ((aa % 2) * 4) as u8) | ((tc
            % 2) * 2) as u8) | (rd % 2)) == flags_byte(qr, opcode, aa, tc, rd),
{
    assert(qr < 2 && opcode < 16 && aa < 2 && tc < 2 && rd < 2 ==> (((((0u8 | ((qr % 2) * 128) as u8)
        | ((opcode % 16) * 8) as u8) | ((aa % 2) * 4) as u8) | ((tc % 2) * 2) as u8) | (rd % 2)) == (
    qr * 128 + opcode * 8 + aa * 4 + tc * 2 + rd) as u8) by (bit_vector);
}

proof fn or_codes(ra: u8, z: u8, rcode: u8)
    requires
        ra < 2,
        z < 8,
        rcode < 16,
    ensures
        (((0u8 | ((ra % 2) * 128) as u8) | ((z % 8) * 16) as u8) | (rcode % 16)) == codes_byte(
            ra,
            z,
            rcode,
        ),
{
    assert(ra < 2 && z < 8 && rcode < 16 ==> (((0u8 | ((ra % 2) * 128) as u8) | ((z % 8) * 16) as u8)
        | (rcode % 16)) == (ra * 128 + z * 16 + rcode) as u8) by (bit_vector);
}

/// The bytes of a well-formed header, field by field: the four counts and
/// the id in network byte order, the flags and codes packed into bytes 2
/// and 3.
pub proof fn header_bytes_layout(h: Header)
    requires
        h.well_formed(),
    ensures
        header_bytes(h).len() == 12,
        header_bytes(h)[0] == (h.id->ID_0 / 256) as u8,
        header_bytes(h)[1] == (h.id->ID_0 % 256) as u8,
        header_bytes(h)[2] == flags_byte(
            h.qr->QR_0,
            h.opcode->Opcode_0,
            h.aa->AA_0,
            h.tc->TC_0,
            h.rd->RD_0,
        ),
        header_bytes(h)[3] == codes_byte(h.ra->RA_0, h.z->Z_0, h.rcode->Rcode_0),
        header_bytes(h)[4] == (h.qdcount->Qdcount_0 / 256) as u8,
        header_bytes(h)[5] == (h.qdcount->Qdcount_0 % 256) as u8,
        header_bytes(h)[6] == (h.ancount->Ancount_0 / 256) as u8,
        header_bytes(h)[7] == (h.ancount->Ancount_0 % 256) as u8,
        header_bytes(h)[8] == (h.nscount->Nscount_0 / 256) as u8,
        header_bytes(h)[9] == (h.nscount->Nscount_0 % 256) as u8,
        header_bytes(h)[10] == (h.arcount->Arcount_0 / 256) as u8,
        header_bytes(h)[11] == (h.arcount->Arcount_0 % 256) as u8,
{
    reveal(header_bytes);
    or_flags(h.qr->QR_0, h.opcode->Opcode_0, h.aa->AA_0, h.tc->TC_0, h.rd->RD_0);
    or_codes(h.ra->RA_0, h.z->Z_0, h.rcode->Rcode_0);
}

proof fn flags_unpack(qr: u8, opcode: u8, aa: u8, tc: u8, rd: u8)
    requires
        qr < 2,
        opcode < 16,
        aa < 2,
        tc < 2,
        rd < 2,
    ensures
        ({
            let b = flags_byte(qr, opcode, aa, tc, rd);
            &&& b / 128 == qr
            &&& (b / 8) % 16 == opcode
            &&& (b / 4) % 2 == aa
            &&& (b / 2) % 2 == tc
            &&& b % 2 == rd
        }),
{
}

proof fn codes_unpack(ra: u8, z: u8, rcode: u8)
    requires
        ra < 2,
        z < 8,
        rcode < 16,
    ensures
        ({
            let b = codes_byte(ra, z, rcode);
            &&& b / 128 == ra
            &&& (b / 16) % 8 == z
            &&& b % 16 == rcode
        }),
{
}

proof fn word_unpack(v: u16)
    ensures
        ((v / 256) as u8) as int * 256 + ((v % 256) as u8) as int == v,
{
}

proof fn bytes_repack(b: u8)
    ensures
        flags_byte(b / 128, (b / 8) % 16, (b / 4) % 2, (b / 2) % 2, b % 2) == b,
        codes_byte(b / 128, (b / 16) % 8, b % 16) == b,
{
    assert(((b / 128) * 128 + ((b / 8) % 16) * 8 + ((b / 4) % 2) * 4 + ((b / 2) % 2) * 2 + b % 2) as u8
        == b) by (bit_vector);
    assert(((b / 128) * 128 + ((b / 16) % 8) * 16 + b % 16) as u8 == b) by (bit_vector);
}

proof fn word_repack(hi: u8, lo: u8)
    ensures
        ({
            let v = (hi as int * 256 + lo as int) as u16;
            &&& (v / 256) as u8 == hi
            &&& (v % 256) as u8 == lo
        }),
{
}

/// Decoding what a well-formed header encodes to gives the header back.
pub proof fn header_round_trip(h: Header)
    requires
        h.well_formed(),
    ensures
        header_of(header_bytes(h)) == h,
{
    header_bytes_layout(h);
    flags_unpack(h.qr->QR_0, h.opcode->Opcode_0, h.aa->AA_0, h.tc->TC_0, h.rd->RD_0);
    codes_unpack(h.ra->RA_0, h.z->Z_0, h.rcode->Rcode_0);
    word_unpack(h.id->ID_0);
    word_unpack(h.qdcount->Qdcount_0);
    word_unpack(h.ancount->Ancount_0);
    word_unpack(h.nscount->Nscount_0);
    word_unpack(h.arcount->Arcount_0);
}

/// Encoding what twelve bytes decode to gives the twelve bytes back.
pub proof fn header_bytes_round_trip(bytes: Seq<u8>)
    requires
        bytes.len() == 12,
    ensures
        header_of(bytes).well_formed(),
        header_bytes(header_of(bytes)) == bytes,
{
    let h = header_of(bytes);
    header_bytes_layout(h);
    bytes_repack(bytes[2]);
    bytes_repack(bytes[3]);
    word_repack(bytes[0], bytes[1]);
    word_repack(bytes[4], bytes[5]);
    word_repack(bytes[6], bytes[7]);
    word_repack(bytes[8], bytes[9]);
    word_repack(bytes[10], bytes[11]);
    assert(header_bytes(h) =~= bytes);
}

} // verus!
