//! Resource records: the `A` record's wire form, its decoder, and the
//! dotted-quad text of its address.

use vstd::prelude::*;
use vstd::string::*;
use crate::text::{
    byte_char, char_of_byte, chars_of, digit_char, number_text, push_char, push_number,
};
use crate::dns::enums::{
    Class, QType, be16, class_code, class_of_code, qtype_code, qtype_mnemonic, qtype_of_code,
};
use crate::dns::question::dotted;
use crate::dns::util::{
    is_label_size, is_null_byte, name_to_vec8, name_wire, sanitize_name, sanitized,
};

verus! {

pub const QTYPE_CLASS_BYTES_LEN: usize = 4;

pub const TTL_BYTES_LEN: usize = 4;

pub const RDLEN_BYTES_LEN: usize = 2;

#[derive(PartialEq, Debug)]
pub struct Rr {
    pub name: String,
    pub rrtype: QType,
    pub class: Class,
    pub ttl: u32,
    pub rdlength: u16,
    pub rdata: Vec<u8>,
}

/// A resource record as contracts see it.
pub struct RrView {
    pub name: Seq<char>,
    pub rrtype: QType,
    pub class: Class,
    pub ttl: u32,
    pub rdlength: u16,
    pub rdata: Seq<u8>,
}

impl View for Rr {
    type V = RrView;

    open spec fn view(&self) -> RrView {
        RrView {
            name: self.name@,
            rrtype: self.rrtype,
            class: self.class,
            ttl: self.ttl,
            rdlength: self.rdlength,
            rdata: self.rdata@,
        }
    }
}

impl DeepView for Rr {
    type V = RrView;

    open spec fn deep_view(&self) -> RrView {
        self@
    }
}

impl Clone for Rr {
    fn clone(&self) -> (r: Self)
        ensures
            r@ == self@,
    {
        Rr {
            name: self.name.clone(),
            rrtype: self.rrtype,
            class: self.class,
            ttl: self.ttl,
            rdlength: self.rdlength,
            rdata: self.rdata.clone(),
        }
    }
}

#[derive(Debug)]
pub enum RrParseErrorKind {
    RecordTypeIsNotSupported(QType),
    UnexpectedEmptyName(usize),
    UnexpectedEof(usize),
    QtypeOrClassInvalid,
    TtlInvalid,
    RdlenInvalid,
    UnexpectedRdlen(u16),
    UnexpectedRdata,
}

#[derive(Debug)]
pub struct RrParseError {
    pub kind: RrParseErrorKind,
    pub source_error: Option<String>,
}

/// The text of a record error kind.
pub open spec fn rr_kind_text(kind: RrParseErrorKind) -> Seq<char> {
    match kind {
        RrParseErrorKind::RecordTypeIsNotSupported(qtype) => "RR has unsupported QTYPE "@
            + qtype_mnemonic(qtype) + ", supported list: [A]"@,
        RrParseErrorKind::UnexpectedEmptyName(idx) =>
            "RR may have empty name or incorrect align, index: "@ + number_text(idx as nat),
        RrParseErrorKind::UnexpectedEof(idx) =>
            "RR may have incorrect align and structure, index "@ + number_text(idx as nat),
        RrParseErrorKind::QtypeOrClassInvalid =>
            "QTYPE or CLASS may be missed or improperly aligned"@,
        RrParseErrorKind::TtlInvalid => "TTL must be valid u32"@,
        RrParseErrorKind::RdlenInvalid => "TTL must be valid u16"@,
        RrParseErrorKind::UnexpectedRdlen(value) =>
            "Unexpected value was provided for RDLENGTH "@ + number_text(value as nat)
                + ", supported list: [A]"@,
        RrParseErrorKind::UnexpectedRdata => "Unexpected value was provided for RDATA"@,
    }
}

impl RrParseErrorKind {
    /// The kind's text.
    pub fn message(&self) -> (r: String)
        ensures
            r@ == rr_kind_text(*self),
    {
        match self {
            RrParseErrorKind::RecordTypeIsNotSupported(qtype) => {
                let mut out = String::from_str("RR has unsupported QTYPE ");
                out.append(qtype.mnemonic());
                out.append(", supported list: [A]");
                out
            },
            RrParseErrorKind::UnexpectedEmptyName(idx) => {
                let mut out = String::from_str(
                    "RR may have empty name or incorrect align, index: ",
                );
                push_number(&mut out, *idx as u64);
                out
            },
            RrParseErrorKind::UnexpectedEof(idx) => {
                let mut out = String::from_str("RR may have incorrect align and structure, index ");
                push_number(&mut out, *idx as u64);
                out
            },
            RrParseErrorKind::QtypeOrClassInvalid => String::from_str(
                "QTYPE or CLASS may be missed or improperly aligned",
            ),
            RrParseErrorKind::TtlInvalid => String::from_str("TTL must be valid u32"),
            RrParseErrorKind::RdlenInvalid => String::from_str("TTL must be valid u16"),
            RrParseErrorKind::UnexpectedRdlen(value) => {
                let mut out = String::from_str("Unexpected value was provided for RDLENGTH ");
                push_number(&mut out, *value as u64);
                out.append(", supported list: [A]");
                out
            },
            RrParseErrorKind::UnexpectedRdata => String::from_str(
                "Unexpected value was provided for RDATA",
            ),
        }
    }
}

impl RrParseError {
    /// The error's text.
    pub fn message(&self) -> (r: String)
        ensures
            r@ == "Unable to parse RR section: "@ + rr_kind_text(self.kind) + ". Source error: "@
                + (match self.source_error {
                Some(e) => e@,
                None => "<nil>"@,
            }),
    {
        let mut out = String::from_str("Unable to parse RR section: ");
        out.append(self.kind.message().as_str());
        out.append(". Source error: ");
        out.append(self.source_error_to_string().as_str());
        out
    }

    pub fn from_kind(kind: RrParseErrorKind, source_error: Option<String>) -> (r: Self)
        ensures
            r.kind == kind,
            r.source_error == source_error,
    {
        Self { kind, source_error }
    }

    pub fn record_type_is_not_supported(qtype: QType, source_error: Option<String>) -> (r: Self)
        ensures
            r.kind == RrParseErrorKind::RecordTypeIsNotSupported(qtype),
            r.source_error == source_error,
    {
        RrParseError::from_kind(RrParseErrorKind::RecordTypeIsNotSupported(qtype), source_error)
    }

    pub fn unexpected_empty_name(idx: usize, source_error: Option<String>) -> (r: Self)
        ensures
            r.kind == RrParseErrorKind::UnexpectedEmptyName(idx),
            r.source_error == source_error,
    {
        RrParseError::from_kind(RrParseErrorKind::UnexpectedEmptyName(idx), source_error)
    }

    pub fn unexpected_eof(idx: usize, source_error: Option<String>) -> (r: Self)
        ensures
            r.kind == RrParseErrorKind::UnexpectedEof(idx),
            r.source_error == source_error,
    {
        RrParseError::from_kind(RrParseErrorKind::UnexpectedEof(idx), source_error)
    }

    pub fn qtype_or_class_invalid(source_error: Option<String>) -> (r: Self)
        ensures
            r.kind == RrParseErrorKind::QtypeOrClassInvalid,
            r.source_error == source_error,
    {
        RrParseError::from_kind(RrParseErrorKind::QtypeOrClassInvalid, source_error)
    }

    pub fn ttl_invalid(source_error: Option<String>) -> (r: Self)
        ensures
            r.kind == RrParseErrorKind::TtlInvalid,
            r.source_error == source_error,
    {
        RrParseError::from_kind(RrParseErrorKind::TtlInvalid, source_error)
    }

    pub fn rdlen_invalid(source_error: Option<String>) -> (r: Self)
        ensures
            r.kind == RrParseErrorKind::RdlenInvalid,
            r.source_error == source_error,
    {
        RrParseError::from_kind(RrParseErrorKind::RdlenInvalid, source_error)
    }

    pub fn unexpected_rdlen(value: u16, source_error: Option<String>) -> (r: Self)
        ensures
            r.kind == RrParseErrorKind::UnexpectedRdlen(value),
            r.source_error == source_error,
    {
        RrParseError::from_kind(RrParseErrorKind::UnexpectedRdlen(value), source_error)
    }

    pub fn unexpected_rdata(source_error: Option<String>) -> (r: Self)
        ensures
            r.kind == RrParseErrorKind::UnexpectedRdata,
            r.source_error == source_error,
    {
        RrParseError::from_kind(RrParseErrorKind::UnexpectedRdata, source_error)
    }

    /// The text of the underlying error, or `<nil>` where there is none.
    pub fn source_error_to_string(&self) -> (r: String)
        ensures
            r@ == match self.source_error {
                Some(e) => e@,
                None => "<nil>"@,
            },
    {
        match &self.source_error {
            Some(error) => error.clone(),
            None => "<nil>".to_owned(),
        }
    }
}

/// Whether a character is one of the ten ASCII digits.
pub open spec fn is_digit(c: char) -> bool {
    '0' <= c && c <= '9'
}

/// The value of an ASCII digit.
pub open spec fn digit_value(c: char) -> int {
    c as u32 as int - 48
}

/// The number that one field of a dotted quad spells: one to three ASCII
/// digits, no zero in front of another digit, at most 255.
pub open spec fn octet_of(s: Seq<char>) -> Option<u8> {
    if s.len() == 1 && is_digit(s[0]) {
        Some(digit_value(s[0]) as u8)
    } else if s.len() == 2 && is_digit(s[0]) && is_digit(s[1]) && s[0] != '0' {
        Some((digit_value(s[0]) * 10 + digit_value(s[1])) as u8)
    } else if s.len() == 3 && is_digit(s[0]) && is_digit(s[1]) && is_digit(s[2]) && s[0] != '0'
        && digit_value(s[0]) * 100 + digit_value(s[1]) * 10 + digit_value(s[2]) <= 255 {
        Some((digit_value(s[0]) * 100 + digit_value(s[1]) * 10 + digit_value(s[2])) as u8)
    } else {
        None
    }
}

/// The index of the first dot at or behind `i`, or the length where there
/// is none.
pub open spec fn field_end(s: Seq<char>, i: int) -> int
    decreases s.len() - i,
{
    if i < 0 || i >= s.len() || s[i] == '.' {
        i
    } else {
        field_end(s, i + 1)
    }
}

/// The four bytes that a dotted quad spells: four fields with a dot between
/// each two, and nothing else.
pub open spec fn ipv4_of(s: Seq<char>) -> Option<Seq<u8>> {
    let e0 = field_end(s, 0);
    let e1 = field_end(s, e0 + 1);
    let e2 = field_end(s, e1 + 1);
    let e3 = field_end(s, e2 + 1);
    if e0 < s.len() && e1 < s.len() && e2 < s.len() && e3 == s.len() {
        match (
            octet_of(s.subrange(0, e0)),
            octet_of(s.subrange(e0 + 1, e1)),
            octet_of(s.subrange(e1 + 1, e2)),
            octet_of(s.subrange(e2 + 1, e3)),
        ) {
            (Some(a), Some(b), Some(c), Some(d)) => Some(seq![a, b, c, d]),
            _ => None,
        }
    } else {
        None
    }
}

fn find_field_end(chars: &Vec<char>, from: usize) -> (r: usize)
    requires
        from <= chars@.len(),
    ensures
        r as int == field_end(chars@, from as int),
        from <= r <= chars@.len(),
{
    let mut i: usize = from;
    while i < chars.len() && chars[i] != '.'
        invariant
            from <= i <= chars@.len(),
            field_end(chars@, i as int) == field_end(chars@, from as int),
        decreases chars@.len() - i,
    {
        i = i + 1;
    }
    i
}

fn digit_of(c: char) -> (r: Option<u8>)
    ensures
        is_digit(c) ==> r == Some(digit_value(c) as u8) && digit_value(c) < 10 && digit_value(c)
            >= 0,
        !is_digit(c) ==> r is None,
{
    if '0' <= c && c <= '9' {
        let v: u32 = c as u32;
        Some((v - 48) as u8)
    } else {
        None
    }
}

fn parse_octet(chars: &Vec<char>, from: usize, to: usize) -> (r: Option<u8>)
    requires
        from <= to <= chars@.len(),
    ensures
        r == octet_of(chars@.subrange(from as int, to as int)),
{
    let ghost s = chars@.subrange(from as int, to as int);
    let n: usize = to - from;
    if n < 1 || n > 3 {
        return None;
    }
    proof {
        assert(s[0] == chars@[from as int]);
    }
    let first: u16 = match digit_of(chars[from]) {
        Some(d) => d as u16,
        None => {
            return None;
        },
    };
    if n == 1 {
        return Some(first as u8);
    }
    if first == 0 {
        proof {
            assert(s[0] == '0');
        }
        return None;
    }
    proof {
        assert(s[1] == chars@[from + 1]);
        assert(s[0] != '0');
    }
    let second: u16 = match digit_of(chars[from + 1]) {
        Some(d) => d as u16,
        None => {
            return None;
        },
    };
    if n == 2 {
        return Some((first * 10 + second) as u8);
    }
    proof {
        assert(s[2] == chars@[from + 2]);
    }
    let third: u16 = match digit_of(chars[from + 2]) {
        Some(d) => d as u16,
        None => {
            return None;
        },
    };
    let value: u16 = first * 100 + second * 10 + third;
    if value > 255 {
        return None;
    }
    Some(value as u8)
}

/// Reads a dotted quad.
pub fn parse_ipv4(text: &str) -> (r: Option<Vec<u8>>)
    ensures
        match ipv4_of(text@) {
            Some(bytes) => r is Some && r->Some_0@ == bytes,
            None => r is None,
        },
{
    let chars = chars_of(text);
    let n: usize = chars.len();
    let e0: usize = find_field_end(&chars, 0);
    if e0 >= n {
        return None;
    }
    let e1: usize = find_field_end(&chars, e0 + 1);
    if e1 >= n {
        return None;
    }
    let e2: usize = find_field_end(&chars, e1 + 1);
    if e2 >= n {
        return None;
    }
    let e3: usize = find_field_end(&chars, e2 + 1);
    if e3 != n {
        return None;
    }
    let a: u8 = match parse_octet(&chars, 0, e0) {
        Some(v) => v,
        None => {
            return None;
        },
    };
    let b: u8 = match parse_octet(&chars, e0 + 1, e1) {
        Some(v) => v,
        None => {
            return None;
        },
    };
    let c: u8 = match parse_octet(&chars, e1 + 1, e2) {
        Some(v) => v,
        None => {
            return None;
        },
    };
    let d: u8 = match parse_octet(&chars, e2 + 1, e3) {
        Some(v) => v,
        None => {
            return None;
        },
    };
    let mut out: Vec<u8> = Vec::new();
    out.push(a);
    out.push(b);
    out.push(c);
    out.push(d);
    proof {
        assert(out@ =~= seq![a, b, c, d]);
    }
    Some(out)
}

/// The dotted quad of four bytes, as text.
pub open spec fn quad_text(a: u8, b: u8, c: u8, d: u8) -> Seq<char> {
    number_text(a as nat) + seq!['.'] + number_text(b as nat) + seq!['.'] + number_text(c as nat)
        + seq!['.'] + number_text(d as nat)
}

/// Writes four bytes as a dotted quad.
pub fn ipv4_text(a: u8, b: u8, c: u8, d: u8) -> (r: String)
    ensures
        r@ == quad_text(a, b, c, d),
{
    let mut out = String::new();
    push_number(&mut out, a as u64);
    push_char(&mut out, '.');
    push_number(&mut out, b as u64);
    push_char(&mut out, '.');
    push_number(&mut out, c as u64);
    push_char(&mut out, '.');
    push_number(&mut out, d as u64);
    proof {
        assert(out@ =~= quad_text(a, b, c, d));
    }
    out
}

proof fn octet_text(n: u8)
    ensures
        1 <= number_text(n as nat).len() <= 3,
        forall|i: int|
            0 <= i < number_text(n as nat).len() ==> is_digit(#[trigger] number_text(n as nat)[i]),
        octet_of(number_text(n as nat)) == Some(n),
{
    reveal_with_fuel(number_text, 3);
    let t = number_text(n as nat);
    if n < 10 {
        assert(t =~= seq![digit_char(n as int)]);
    } else if n < 100 {
        assert(t =~= seq![digit_char(n as int / 10), digit_char(n as int % 10)]);
    } else {
        assert(t =~= seq![
            digit_char(n as int / 100),
            digit_char((n as int / 10) % 10),
            digit_char(n as int % 10),
        ]);
    }
}

proof fn field_ends(s: Seq<char>, i: int, k: int)
    requires
        0 <= i <= k <= s.len(),
        forall|j: int| i <= j < k ==> (#[trigger] s[j]) != '.',
        k == s.len() || s[k] == '.',
    ensures
        field_end(s, i) == k,
    decreases k - i,
{
    if i < k {
        field_ends(s, i + 1, k);
    }
}

/// Reading the dotted quad that was written for four bytes gives the four
/// bytes.
pub proof fn dotted_quad_round_trip(a: u8, b: u8, c: u8, d: u8)
    ensures
        ipv4_of(quad_text(a, b, c, d)) == Some(seq![a, b, c, d]),
{
    let ta = number_text(a as nat);
    let tb = number_text(b as nat);
    let tc = number_text(c as nat);
    let td = number_text(d as nat);
    octet_text(a);
    octet_text(b);
    octet_text(c);
    octet_text(d);
    let s = quad_text(a, b, c, d);
    let e0 = ta.len() as int;
    let e1 = e0 + 1 + tb.len();
    let e2 = e1 + 1 + tc.len();
    let e3 = e2 + 1 + td.len();
    assert(s.len() == e3);
    assert forall|j: int| 0 <= j < e0 implies (#[trigger] s[j]) != '.' by {
        assert(s[j] == ta[j]);
        assert(is_digit(ta[j]));
    }
    assert forall|j: int| e0 + 1 <= j < e1 implies (#[trigger] s[j]) != '.' by {
        assert(s[j] == tb[j - e0 - 1]);
        assert(is_digit(tb[j - e0 - 1]));
    }
    assert forall|j: int| e1 + 1 <= j < e2 implies (#[trigger] s[j]) != '.' by {
        assert(s[j] == tc[j - e1 - 1]);
        assert(is_digit(tc[j - e1 - 1]));
    }
    assert forall|j: int| e2 + 1 <= j < e3 implies (#[trigger] s[j]) != '.' by {
        assert(s[j] == td[j - e2 - 1]);
        assert(is_digit(td[j - e2 - 1]));
    }
    assert(s[e0] == '.');
    assert(s[e1] == '.');
    assert(s[e2] == '.');
    field_ends(s, 0, e0);
    field_ends(s, e0 + 1, e1);
    field_ends(s, e1 + 1, e2);
    field_ends(s, e2 + 1, e3);
    assert(s.subrange(0, e0) =~= ta);
    assert(s.subrange(e0 + 1, e1) =~= tb);
    assert(s.subrange(e1 + 1, e2) =~= tc);
    assert(s.subrange(e2 + 1, e3) =~= td);
}

/// Reads an owner name from position `i` without following pointers: a zero
/// byte ends the name; a byte of at most 63 between labels opens a label;
/// a byte inside a label is one character; any other byte is passed over.
/// Gives the name and the position of the zero byte, if one was met.
pub open spec fn scan_owner(bytes: Seq<u8>, i: int, pending: nat, acc: Seq<char>) -> (
    Seq<char>,
    Option<int>,
)
    decreases bytes.len() - i,
{
    if i < 0 || i >= bytes.len() {
        (acc, None)
    } else if bytes[i] == 0 {
        (acc, Some(i))
    } else if bytes[i] <= 63 && pending == 0 {
        scan_owner(bytes, i + 1, bytes[i] as nat, dotted(acc))
    } else if pending > 0 {
        scan_owner(bytes, i + 1, (pending - 1) as nat, acc.push(byte_char(bytes[i])))
    } else {
        scan_owner(bytes, i + 1, 0, acc)
    }
}

/// The thirty-two-bit number that four bytes spell in network byte order.
pub open spec fn be32(b0: u8, b1: u8, b2: u8, b3: u8) -> u32 {
    (b0 as int * 16777216 + b1 as int * 65536 + b2 as int * 256 + b3 as int) as u32
}

/// The record that starts at `start`, with the position behind it; `None`
/// where the name there is empty. The fixed fields stand behind the name's
/// zero byte, or at `start` itself where the name has none. Type and class
/// are checked first, then the data length, which must be 4, then that the
/// type is `A`.
pub open spec fn rr_at(bytes: Seq<u8>, start: int) -> Result<
    Option<(RrView, int)>,
    RrParseErrorKind,
> {
    let (name, terminator) = scan_owner(bytes, start, 0, Seq::empty());
    let at = match terminator {
        Some(t) => if t >= start {
            t + 1
        } else {
            start
        },
        None => start,
    };
    if name.len() == 0 {
        Ok(None)
    } else if at + 4 > bytes.len() {
        Err(RrParseErrorKind::UnexpectedEof(at as usize))
    } else {
        match (
            qtype_of_code(be16(bytes[at], bytes[at + 1])),
            class_of_code(be16(bytes[at + 2], bytes[at + 3])),
        ) {
            (Some(rrtype), Some(class)) => {
                if at + 8 > bytes.len() {
                    Err(RrParseErrorKind::UnexpectedEof((at + 4) as usize))
                } else if at + 10 > bytes.len() {
                    Err(RrParseErrorKind::UnexpectedEof((at + 8) as usize))
                } else if be16(bytes[at + 8], bytes[at + 9]) != 4 {
                    Err(
                        RrParseErrorKind::UnexpectedRdlen(
                            be16(bytes[at + 8], bytes[at + 9]) as u16,
                        ),
                    )
                } else if at + 14 > bytes.len() {
                    Err(RrParseErrorKind::UnexpectedEof((at + 10) as usize))
                } else if rrtype != QType::A {
                    Err(RrParseErrorKind::RecordTypeIsNotSupported(rrtype))
                } else {
                    Ok(
                        Some(
                            (
                                RrView {
                                    name,
                                    rrtype,
                                    class,
                                    ttl: be32(
                                        bytes[at + 4],
                                        bytes[at + 5],
                                        bytes[at + 6],
                                        bytes[at + 7],
                                    ),
                                    rdlength: 4,
                                    rdata: bytes.subrange(at + 10, at + 14),
                                },
                                at + 14,
                            ),
                        ),
                    )
                }
            },
            _ => Err(RrParseErrorKind::QtypeOrClassInvalid),
        }
    }
}

/// The records from `offset` on, after those in `found`: one after the
/// other up to the first empty name.
pub open spec fn scan_rrs(bytes: Seq<u8>, offset: int, found: Seq<RrView>) -> Result<
    Seq<RrView>,
    RrParseErrorKind,
>
    decreases bytes.len() - offset,
{
    match rr_at(bytes, offset) {
        Err(kind) => Err(kind),
        Ok(None) => Ok(found),
        Ok(Some((rr, next))) => if offset < next <= bytes.len() {
            scan_rrs(bytes, next, found.push(rr))
        } else {
            Ok(found.push(rr))
        },
    }
}

/// The wire form of a record: the name, type and class each as a zero byte
/// and the low byte of its code, the time to live and the data length in
/// network byte order, and as many data bytes as the length says, zero
/// where the data is shorter.
pub open spec fn rr_wire(r: RrView) -> Seq<u8> {
    name_wire(r.name) + seq![
        0u8,
        qtype_code(r.rrtype) as u8,
        0u8,
        class_code(r.class) as u8,
        (r.ttl / 16777216) as u8,
        ((r.ttl / 65536) % 256) as u8,
        ((r.ttl / 256) % 256) as u8,
        (r.ttl % 256) as u8,
        (r.rdlength / 256) as u8,
        (r.rdlength % 256) as u8,
    ] + Seq::new(
        r.rdlength as nat,
        |j: int|
            if j < r.rdata.len() {
                r.rdata[j]
            } else {
                0u8
            },
    )
}

/// The wire forms of the records, one behind the other.
pub open spec fn rrs_wire(records: Seq<RrView>) -> Seq<u8>
    decreases records.len(),
{
    if records.len() == 0 {
        Seq::empty()
    } else {
        rrs_wire(records.drop_last()) + rr_wire(records.last())
    }
}

impl Rr {
    /// Whether the record is an `A` record with a name and four data bytes.
    pub open spec fn well_formed(&self) -> bool {
        &&& self.rrtype == QType::A
        &&& self.rdlength == 4
        &&& self.rdata@.len() == 4
        &&& self.name@.len() > 0
    }

    /// Builds an `A` record from a name and a dotted quad. Fails, in this
    /// order, on a type other than `A`, on data that is no dotted quad, and
    /// on a name of which sanitising leaves nothing.
    pub fn new(name: &str, rrtype: QType, class: Class, ttl: u32, rdata: &str) -> (r: Result<
        Self,
        RrParseError,
    >)
        ensures
            rrtype != QType::A ==> r is Err && r->Err_0.kind
                == RrParseErrorKind::RecordTypeIsNotSupported(rrtype),
            rrtype == QType::A && ipv4_of(rdata@) is None ==> r is Err && r->Err_0.kind
                == RrParseErrorKind::UnexpectedRdata,
            rrtype == QType::A && ipv4_of(rdata@) is Some && sanitized(name@).len() == 0 ==> r is Err
                && r->Err_0.kind == RrParseErrorKind::UnexpectedEmptyName(0),
            rrtype == QType::A && ipv4_of(rdata@) is Some && sanitized(name@).len() > 0 ==> r is Ok
                && r->Ok_0@ == (RrView {
                name: sanitized(name@),
                rrtype,
                class,
                ttl,
                rdlength: 4,
                rdata: ipv4_of(rdata@)->Some_0,
            }) && r->Ok_0.well_formed(),
            r is Err ==> r->Err_0.source_error is None,
    {
        let rdlength = match Rr::resolve_rdlength(&rrtype) {
            Ok(n) => n,
            Err(e) => {
                return Err(e);
            },
        };
        let rdata = match Rr::convert_rdata_to_bytes(&rrtype, rdata) {
            Ok(bytes) => bytes,
            Err(e) => {
                return Err(e);
            },
        };
        let name = match sanitize_name(name) {
            Ok(n) => n,
            Err(_) => {
                return Err(RrParseError::unexpected_empty_name(0, None));
            },
        };
        Ok(Rr { name, rrtype, class, ttl, rdlength, rdata })
    }

    /// Decodes the records that fill the bytes, up to the first empty name.
    pub fn from_bytes_multiple(bytes: &[u8]) -> (r: Result<Vec<Self>, RrParseError>)
        ensures
            match scan_rrs(bytes@, 0, Seq::empty()) {
                Ok(records) => r is Ok && r->Ok_0.deep_view() == records && forall|j: int|
                    0 <= j < r->Ok_0@.len() ==> (#[trigger] r->Ok_0@[j]).well_formed(),
                Err(kind) => r is Err && r->Err_0.kind == kind && r->Err_0.source_error is None,
            },
    {
        let mut rrs: Vec<Rr> = Vec::new();
        let mut offset: usize = 0;
        let ghost goal = scan_rrs(bytes@, 0, Seq::empty());
        proof {
            assert(rrs.deep_view() =~= Seq::empty());
        }
        loop
            invariant
                offset <= bytes@.len(),
                goal == scan_rrs(bytes@, 0, Seq::empty()),
                scan_rrs(bytes@, offset as int, rrs.deep_view()) == goal,
                forall|j: int| 0 <= j < rrs@.len() ==> (#[trigger] rrs@[j]).well_formed(),
            decreases bytes@.len() - offset,
        {
            match Rr::from_bytes(bytes, offset) {
                Err(e) => {
                    return Err(e);
                },
                Ok(None) => {
                    return Ok(rrs);
                },
                Ok(Some((rr, end))) => {
                    let ghost before = rrs.deep_view();
                    rrs.push(rr);
                    proof {
                        assert(rrs.deep_view() =~= before.push(rr@));
                    }
                    offset = end;
                },
            }
        }
    }

    /// Decodes the record that starts at `offset`.
    pub fn from_bytes(bytes: &[u8], offset: usize) -> (r: Result<Option<(Self, usize)>, RrParseError>)
        ensures
            match rr_at(bytes@, offset as int) {
                Ok(Some((rr, next))) => r is Ok && r->Ok_0 is Some && r->Ok_0->Some_0.0@ == rr
                    && r->Ok_0->Some_0.1 == next && offset < next <= bytes@.len()
                    && r->Ok_0->Some_0.0.well_formed(),
                Ok(None) => r is Ok && r->Ok_0 is None,
                Err(kind) => r is Err && r->Err_0.kind == kind && r->Err_0.source_error is None,
            },
    {
        let len: usize = bytes.len();
        let mut name = String::new();
        let mut pending: u8 = 0;
        let mut at: usize = offset;
        let mut i: usize = offset;
        let mut terminated: bool = false;
        let ghost goal = scan_owner(bytes@, offset as int, 0, Seq::empty());
        while i < len && !terminated
            invariant
                len == bytes@.len(),
                offset <= i,
                i <= len || i == offset,
                goal == scan_owner(bytes@, offset as int, 0, Seq::empty()),
                !terminated ==> at == offset && scan_owner(
                    bytes@,
                    i as int,
                    pending as nat,
                    name@,
                ) == goal,
                terminated ==> at <= len && offset < at && goal == (name@, Some(at - 1)),
                name@.len() > 0 ==> offset < len,
            decreases len - i + (if terminated { 0int } else { 1int }),
        {
            let b: u8 = bytes[i];
            if is_null_byte(&b) {
                at = i + 1;
                terminated = true;
            } else {
                if is_label_size(&b) && pending == 0 {
                    pending = b;
                    if !name.as_str().is_empty() {
                        push_char(&mut name, '.');
                    }
                } else if pending > 0 {
                    push_char(&mut name, char_of_byte(b));
                    pending = pending - 1;
                }
                i = i + 1;
            }
        }
        if name.as_str().is_empty() {
            return Ok(None);
        }
        if len - at < QTYPE_CLASS_BYTES_LEN {
            return Err(RrParseError::unexpected_eof(at, None));
        }
        let rrtype = match QType::from_bytes(&bytes[at], &bytes[at + 1]) {
            Ok(t) => t,
            Err(_) => {
                return Err(RrParseError::qtype_or_class_invalid(None));
            },
        };
        let class = match Class::from_bytes(&bytes[at + 2], &bytes[at + 3]) {
            Ok(c) => c,
            Err(_) => {
                return Err(RrParseError::qtype_or_class_invalid(None));
            },
        };
        at = at + QTYPE_CLASS_BYTES_LEN;
        if len - at < TTL_BYTES_LEN {
            return Err(RrParseError::unexpected_eof(at, None));
        }
        let ttl: u32 = (bytes[at] as u32) * 16777216 + (bytes[at + 1] as u32) * 65536 + (bytes[at
            + 2] as u32) * 256 + (bytes[at + 3] as u32);
        at = at + TTL_BYTES_LEN;
        if len - at < RDLEN_BYTES_LEN {
            return Err(RrParseError::unexpected_eof(at, None));
        }
        let rdlength: u16 = (bytes[at] as u16) * 256 + (bytes[at + 1] as u16);
        if rdlength != 4 {
            return Err(RrParseError::unexpected_rdlen(rdlength, None));
        }
        at = at + RDLEN_BYTES_LEN;
        if len - at < 4 {
            return Err(RrParseError::unexpected_eof(at, None));
        }
        let address = ipv4_text(bytes[at], bytes[at + 1], bytes[at + 2], bytes[at + 3]);
        proof {
            dotted_quad_round_trip(
                bytes@[at as int],
                bytes@[at + 1],
                bytes@[at + 2],
                bytes@[at + 3],
            );
        }
        let rdata = match Rr::convert_rdata_to_bytes(&rrtype, address.as_str()) {
            Ok(data) => data,
            Err(e) => {
                return Err(e);
            },
        };
        proof {
            assert(rdata@ =~= bytes@.subrange(at as int, at + 4));
        }
        at = at + 4;
        Ok(Some((Rr { name, rrtype, class, ttl, rdlength, rdata }, at)))
    }

    /// The wire form of the record.
    pub fn join(&self) -> (r: Vec<u8>)
        ensures
            r@ == rr_wire(self@),
    {
        let mut rr = name_to_vec8(self.name.as_str());
        let ghost head = rr@;
        rr.push(0);
        rr.push(self.rrtype.to_byte());
        rr.push(0);
        rr.push(self.class.to_byte());
        rr.push((self.ttl / 16777216) as u8);
        rr.push(((self.ttl / 65536) % 256) as u8);
        rr.push(((self.ttl / 256) % 256) as u8);
        rr.push((self.ttl % 256) as u8);
        rr.push((self.rdlength / 256) as u8);
        rr.push((self.rdlength % 256) as u8);
        let ghost fixed = rr@;
        let mut j: u16 = 0;
        while j < self.rdlength
            invariant
                j <= self.rdlength,
                rr@ == fixed + Seq::new(
                    j as nat,
                    |k: int|
                        if k < self.rdata@.len() {
                            self.rdata@[k]
                        } else {
                            0u8
                        },
                ),
            decreases self.rdlength - j,
        {
            let b: u8 = if (j as usize) < self.rdata.len() {
                self.rdata[j as usize]
            } else {
                0
            };
            rr.push(b);
            proof {
                assert(rr@ =~= fixed + Seq::new(
                    (j + 1) as nat,
                    |k: int|
                        if k < self.rdata@.len() {
                            self.rdata@[k]
                        } else {
                            0u8
                        },
                ));
            }
            j = j + 1;
        }
        proof {
            assert(rr@ =~= rr_wire(self@));
        }
        rr
    }

    /// The data length of a record type: 4 for `A`; no other type has one.
    pub fn resolve_rdlength(rrtype: &QType) -> (r: Result<u16, RrParseError>)
        ensures
            *rrtype == QType::A ==> r is Ok && r->Ok_0 == 4,
            *rrtype != QType::A ==> r is Err && r->Err_0.kind
                == RrParseErrorKind::RecordTypeIsNotSupported(*rrtype) && r->Err_0.source_error
                is None,
    {
        match *rrtype {
            QType::A => Ok(4),
            _ => Err(RrParseError::record_type_is_not_supported(*rrtype, None)),
        }
    }

    /// The data bytes that a text spells for a record type: for `A`, the
    /// four bytes of a dotted quad.
    pub fn convert_rdata_to_bytes(rrtype: &QType, rdata: &str) -> (r: Result<Vec<u8>, RrParseError>)
        ensures
            *rrtype != QType::A ==> r is Err && r->Err_0.kind
                == RrParseErrorKind::RecordTypeIsNotSupported(*rrtype),
            *rrtype == QType::A && ipv4_of(rdata@) is None ==> r is Err && r->Err_0.kind
                == RrParseErrorKind::UnexpectedRdata,
            *rrtype == QType::A && ipv4_of(rdata@) is Some ==> r is Ok && r->Ok_0@ == ipv4_of(
                rdata@,
            )->Some_0 && r->Ok_0@.len() == 4,
            r is Err ==> r->Err_0.source_error is None,
    {
        match *rrtype {
            QType::A => match parse_ipv4(rdata) {
                Some(bytes) => Ok(bytes),
                None => Err(RrParseError::unexpected_rdata(None)),
            },
            _ => Err(RrParseError::record_type_is_not_supported(*rrtype, None)),
        }
    }
}

} // verus!
