//! The question section: name decoding with compression pointers, and the
//! wire form of a list of questions.

use vstd::prelude::*;
use vstd::slice::*;
use vstd::string::*;
use crate::text::{append_bytes, byte_char, char_of_byte, number_text, push_char, push_number};
use crate::dns::enums::{
    Class, QType, be16, class_code, class_of_code, join_be16, qtype_code, qtype_of_code,
};
use crate::dns::util::{
    get_pointer_offset, is_label_size, is_null_byte, is_pointer, name_to_vec8, name_wire,
    pointer_marked, pointer_target,
};

verus! {

#[derive(Debug)]
pub struct QuestionRecord {
    pub name: String,
    pub qtype: QType,
    pub class: Class,
}

/// A question as contracts see it.
pub struct QuestionRecordView {
    pub name: Seq<char>,
    pub qtype: QType,
    pub class: Class,
}

impl View for QuestionRecord {
    type V = QuestionRecordView;

    open spec fn view(&self) -> QuestionRecordView {
        QuestionRecordView { name: self.name@, qtype: self.qtype, class: self.class }
    }
}

impl DeepView for QuestionRecord {
    type V = QuestionRecordView;

    open spec fn deep_view(&self) -> QuestionRecordView {
        self@
    }
}

impl Clone for QuestionRecord {
    fn clone(&self) -> (r: Self)
        ensures
            r@ == self@,
    {
        QuestionRecord { name: self.name.clone(), qtype: self.qtype, class: self.class }
    }
}

#[derive(Debug)]
pub struct Question {
    pub records: Vec<QuestionRecord>,
    pub offset: usize,
}

#[derive(Debug)]
pub enum QuestionParseErrorKind {
    QuestionNameEmpty(usize),
    UnexpectedEof(usize),
    QtypeOrClassInvalid,
}

#[derive(Debug)]
pub struct QuestionParseError {
    pub kind: QuestionParseErrorKind,
    pub source_error: Option<String>,
}

/// The text of a question error kind.
pub open spec fn question_kind_text(kind: QuestionParseErrorKind) -> Seq<char> {
    match kind {
        QuestionParseErrorKind::QtypeOrClassInvalid =>
            "QTYPE or CLASS may be missed or improperly aligned"@,
        QuestionParseErrorKind::UnexpectedEof(idx) =>
            "QUESTION may have incorrect align and structure, index "@ + number_text(idx as nat),
        QuestionParseErrorKind::QuestionNameEmpty(idx) =>
            "QUESTION may have incorrect align and structure, index "@ + number_text(idx as nat),
    }
}

impl QuestionParseErrorKind {
    /// The kind's text.
    pub fn message(&self) -> (r: String)
        ensures
            r@ == question_kind_text(*self),
    {
        match self {
            QuestionParseErrorKind::QtypeOrClassInvalid => String::from_str(
                "QTYPE or CLASS may be missed or improperly aligned",
            ),
            QuestionParseErrorKind::UnexpectedEof(idx) => {
                let mut out = String::from_str(
                    "QUESTION may have incorrect align and structure, index ",
                );
                push_number(&mut out, *idx as u64);
                out
            },
            QuestionParseErrorKind::QuestionNameEmpty(idx) => {
                let mut out = String::from_str(
                    "QUESTION may have incorrect align and structure, index ",
                );
                push_number(&mut out, *idx as u64);
                out
            },
        }
    }
}

impl QuestionParseError {
    /// The error's text.
    pub fn message(&self) -> (r: String)
        ensures
            r@ == "Unable to parse QUESTION section: "@ + question_kind_text(self.kind)
                + ". Source error: "@ + (match self.source_error {
                Some(e) => e@,
                None => "<nil>"@,
            }),
    {
        let mut out = String::from_str("Unable to parse QUESTION section: ");
        out.append(self.kind.message().as_str());
        out.append(". Source error: ");
        out.append(self.source_error_to_string().as_str());
        out
    }

    pub fn from_kind(kind: QuestionParseErrorKind, source_error: Option<String>) -> (r: Self)
        ensures
            r.kind == kind,
            r.source_error == source_error,
    {
        Self { kind, source_error }
    }

    pub fn unexpected_eof(idx: usize, source_error: Option<String>) -> (r: Self)
        ensures
            r.kind == QuestionParseErrorKind::UnexpectedEof(idx),
            r.source_error == source_error,
    {
        QuestionParseError::from_kind(QuestionParseErrorKind::UnexpectedEof(idx), source_error)
    }

    pub fn question_name_empty(idx: usize, source_error: Option<String>) -> (r: Self)
        ensures
            r.kind == QuestionParseErrorKind::QuestionNameEmpty(idx),
            r.source_error == source_error,
    {
        QuestionParseError::from_kind(QuestionParseErrorKind::QuestionNameEmpty(idx), source_error)
    }

    pub fn qtype_or_class_invalid(source_error: Option<String>) -> (r: Self)
        ensures
            r.kind == QuestionParseErrorKind::QtypeOrClassInvalid,
            r.source_error == source_error,
    {
        QuestionParseError::from_kind(QuestionParseErrorKind::QtypeOrClassInvalid, source_error)
    }

    /// The text of the underlying error, or `<nil>` where there is none.
    pub fn source_error_to_string(&self) -> (r: String)
        ensures
            r@ == match self.source_error {
                Some(e) => e@,
                None => "<nil>"@,
            },
    {
        match &self.source_error {
            Some(error) => error.clone(),
            None => "<nil>".to_owned(),
        }
    }
}

pub const BASE_OFFSET: usize = 12;

pub const QTYPE_CLASS_BYTES_LEN: usize = 4;

/// The name so far with a dot behind it, unless it is still empty.
pub open spec fn dotted(acc: Seq<char>) -> Seq<char> {
    if acc.len() > 0 {
        acc.push('.')
    } else {
        acc
    }
}

/// The number that the bytes at `i` and `i + 1` spell.
pub open spec fn pair_at(bytes: Seq<u8>, i: int) -> u16 {
    be16(bytes[i], bytes[i + 1]) as u16
}

/// Decodes a name from position `i`, seeing only the first `limit` bytes,
/// with `pending` characters of the current label still to come and `acc`
/// already read. At each byte, in this order: a zero byte ends the name
/// there; a byte pair marked as a pointer ends it one byte further, after
/// the name found at the pointer's target, which is read from the bytes
/// in front of the pointer alone; a byte of at most 63 between labels
/// opens a label of that length; a byte inside a label is one character;
/// any other byte is passed over. Where the visible bytes end first, the name
/// read so far ends at the last of them.
///
/// `None` stands for a pointer that cannot be followed: its target lies in
/// the header or not in front of the pointer itself.
pub open spec fn scan_name(bytes: Seq<u8>, limit: int, i: int, pending: nat, acc: Seq<char>)
    -> Option<(Seq<char>, int)>
    decreases limit, limit - i,
{
    if i < 0 || limit > bytes.len() || i >= limit {
        Some((acc, limit - 1))
    } else if bytes[i] == 0 {
        Some((acc, i))
    } else if i + 1 < limit && pointer_marked(pair_at(bytes, i)) {
        let target = pointer_target(pair_at(bytes, i)) - 12;
        if target < 0 || target >= i {
            None
        } else {
            match scan_name(bytes, i, target, 0, Seq::empty()) {
                None => None,
                Some((suffix, _)) => Some((dotted(acc) + suffix, i + 1)),
            }
        }
    } else if bytes[i] <= 63 && pending == 0 {
        scan_name(bytes, limit, i + 1, bytes[i] as nat, dotted(acc))
    } else if pending > 0 {
        scan_name(bytes, limit, i + 1, (pending - 1) as nat, acc.push(byte_char(bytes[i])))
    } else {
        scan_name(bytes, limit, i + 1, 0, acc)
    }
}

/// The name that starts at `offset` of the bytes behind the header, with the
/// position at which it ends.
pub open spec fn name_at(bytes: Seq<u8>, offset: int) -> Option<(Seq<char>, int)> {
    scan_name(bytes, bytes.len() as int, offset, 0, Seq::empty())
}

/// Decodes up to `remaining` questions from `offset` of the bytes behind
/// the header, after those in `found`. An empty name ends the list where a
/// question was read before it and is an error where none was. Behind each
/// name stand two bytes of type and two of class. A name with a pointer
/// that cannot be followed is an error at the position where the name
/// starts.
pub open spec fn scan_records(
    bytes: Seq<u8>,
    offset: int,
    remaining: nat,
    found: Seq<QuestionRecordView>,
) -> Result<(Seq<QuestionRecordView>, int), QuestionParseErrorKind>
    decreases remaining,
{
    if remaining == 0 {
        Ok((found, offset))
    } else {
        match name_at(bytes, offset) {
            None => Err(QuestionParseErrorKind::UnexpectedEof(offset as usize)),
            Some((name, end)) => {
                if name.len() == 0 {
                    if found.len() == 0 {
                        Err(QuestionParseErrorKind::QuestionNameEmpty(end as usize))
                    } else {
                        Ok((found, offset))
                    }
                } else if end + 5 > bytes.len() {
                    Err(QuestionParseErrorKind::UnexpectedEof(end as usize))
                } else {
                    match (
                        qtype_of_code(be16(bytes[end + 1], bytes[end + 2])),
                        class_of_code(be16(bytes[end + 3], bytes[end + 4])),
                    ) {
                        (Some(qtype), Some(class)) => scan_records(
                            bytes,
                            end + 5,
                            (remaining - 1) as nat,
                            found.push(QuestionRecordView { name, qtype, class }),
                        ),
                        _ => Err(QuestionParseErrorKind::QtypeOrClassInvalid),
                    }
                }
            },
        }
    }
}

/// How many questions are read at most: the number asked for, or 65535.
pub open spec fn wanted(expected_number: Option<u16>) -> nat {
    match expected_number {
        Some(n) => n as nat,
        None => 65535,
    }
}

/// The question section of a whole message, with the position behind it
/// counted from the start of the message.
pub open spec fn question_of(bytes: Seq<u8>, expected_number: Option<u16>) -> Result<
    (Seq<QuestionRecordView>, int),
    QuestionParseErrorKind,
> {
    if bytes.len() <= 12 {
        Err(QuestionParseErrorKind::QuestionNameEmpty(12))
    } else {
        match scan_records(
            bytes.subrange(12, bytes.len() as int),
            0,
            wanted(expected_number),
            Seq::empty(),
        ) {
            Ok((records, offset)) => Ok((records, offset + 12)),
            Err(kind) => Err(kind),
        }
    }
}

/// The wire form of one question: the name, then type and class, each as
/// a zero byte and the low byte of its code.
pub open spec fn record_wire(r: QuestionRecordView) -> Seq<u8> {
    name_wire(r.name) + seq![0u8, qtype_code(r.qtype) as u8, 0u8, class_code(r.class) as u8]
}

/// The wire forms of the questions, one behind the other.
pub open spec fn records_wire(records: Seq<QuestionRecordView>) -> Seq<u8>
    decreases records.len(),
{
    if records.len() == 0 {
        Seq::empty()
    } else {
        records_wire(records.drop_last()) + record_wire(records.last())
    }
}

impl Question {
    pub fn from_records(records: Vec<QuestionRecord>) -> (r: Self)
        ensures
            r.records == records,
            r.offset == 0,
    {
        Question { records, offset: 0 }
    }

    pub fn from_record(record: QuestionRecord) -> (r: Self)
        ensures
            r.records@ == seq![record],
            r.offset == 0,
    {
        let mut records: Vec<QuestionRecord> = Vec::new();
        records.push(record);
        Question { records, offset: 0 }
    }

    /// Decodes the question section of a message: at most `expected_number`
    /// questions where one is given, else all up to the first empty name.
    /// `offset` is the position behind the last question read.
    pub fn from_bytes(bytes: &[u8], expected_number: Option<u16>) -> (r: Result<
        Self,
        QuestionParseError,
    >)
        ensures
            match question_of(bytes@, expected_number) {
                Ok((records, offset)) => r is Ok && r->Ok_0.records.deep_view() == records
                    && r->Ok_0.offset == offset && offset <= bytes@.len(),
                Err(kind) => r is Err && r->Err_0.kind == kind && r->Err_0.source_error is None,
            },
    {
        if bytes.len() <= BASE_OFFSET {
            return Err(QuestionParseError::question_name_empty(BASE_OFFSET, None));
        }
        let body = slice_subrange(bytes, BASE_OFFSET, bytes.len());
        match Question::parse_records_from_bytes(body, expected_number) {
            Ok((records, offset)) => Ok(Self { records, offset: offset + BASE_OFFSET }),
            Err(e) => Err(e),
        }
    }

    /// Decodes questions from the bytes behind the header.
    pub fn parse_records_from_bytes(bytes: &[u8], expected_number: Option<u16>) -> (r: Result<
        (Vec<QuestionRecord>, usize),
        QuestionParseError,
    >)
        requires
            bytes@.len() > 0,
        ensures
            match scan_records(bytes@, 0, wanted(expected_number), Seq::empty()) {
                Ok((records, offset)) => r is Ok && r->Ok_0.0.deep_view() == records && r->Ok_0.1
                    == offset && offset <= bytes@.len(),
                Err(kind) => r is Err && r->Err_0.kind == kind && r->Err_0.source_error is None,
            },
    {
        let mut records: Vec<QuestionRecord> = Vec::new();
        let count: u16 = match expected_number {
            Some(n) => n,
            None => 65535,
        };
        let mut offset: usize = 0;
        let mut round: u16 = 0;
        let ghost goal = scan_records(bytes@, 0, wanted(expected_number), Seq::empty());
        proof {
            assert(records.deep_view() =~= Seq::empty());
        }
        while round < count
            invariant
                round <= count,
                count == wanted(expected_number),
                bytes@.len() > 0,
                offset <= bytes@.len(),
                goal == scan_records(bytes@, 0, wanted(expected_number), Seq::empty()),
                scan_records(bytes@, offset as int, (count - round) as nat, records.deep_view())
                    == goal,
            decreases count - round,
        {
            let (name, end) = match Question::parse_name_until_terminator(
                bytes,
                bytes.len(),
                offset,
            ) {
                Some(found) => found,
                None => {
                    return Err(QuestionParseError::unexpected_eof(offset, None));
                },
            };
            if name.as_str().is_empty() {
                if records.len() == 0 {
                    proof {
                        assert(records.deep_view().len() == 0);
                    }
                    return Err(QuestionParseError::question_name_empty(end, None));
                }
                proof {
                    assert(records.deep_view().len() == records.len());
                }
                return Ok((records, offset));
            }
            if bytes.len() - end < 1 + QTYPE_CLASS_BYTES_LEN {
                return Err(QuestionParseError::unexpected_eof(end, None));
            }
            let qtype = match QType::from_bytes(&bytes[end + 1], &bytes[end + 2]) {
                Ok(t) => t,
                Err(_) => {
                    return Err(QuestionParseError::qtype_or_class_invalid(None));
                },
            };
            let class = match Class::from_bytes(&bytes[end + 3], &bytes[end + 4]) {
                Ok(c) => c,
                Err(_) => {
                    return Err(QuestionParseError::qtype_or_class_invalid(None));
                },
            };
            let ghost before = records.deep_view();
            let record = QuestionRecord { name, qtype, class };
            records.push(record);
            proof {
                assert(records.deep_view() =~= before.push(record@));
            }
            offset = end + 1 + QTYPE_CLASS_BYTES_LEN;
            round = round + 1;
        }
        Ok((records, offset))
    }

    /// Decodes the name that starts at `offset`, seeing the first `limit`
    /// bytes only. `None` where a pointer cannot be followed.
    pub fn parse_name_until_terminator(bytes: &[u8], limit: usize, offset: usize) -> (r: Option<
        (String, usize),
    >)
        requires
            1 <= limit <= bytes@.len(),
        ensures
            match scan_name(bytes@, limit as int, offset as int, 0, Seq::empty()) {
                Some((name, end)) => r is Some && r->Some_0.0@ == name && r->Some_0.1 == end && end
                    < limit,
                None => r is None,
            },
        decreases limit,
    {
        let mut name = String::new();
        let mut pending: u8 = 0;
        let mut i: usize = offset;
        let ghost goal = scan_name(bytes@, limit as int, offset as int, 0, Seq::empty());
        while i < limit
            invariant
                1 <= limit <= bytes@.len(),
                goal == scan_name(bytes@, limit as int, offset as int, 0, Seq::empty()),
                scan_name(bytes@, limit as int, i as int, pending as nat, name@) == goal,
            decreases limit - i,
        {
            let b: u8 = bytes[i];
            if is_null_byte(&b) {
                return Some((name, i));
            }
            if i + 1 < limit {
                let maybe_pointer: u16 = join_be16(b, bytes[i + 1]);
                if is_pointer(&maybe_pointer) {
                    if maybe_pointer % 0x4000 < 12 {
                        return None;
                    }
                    let target: usize = get_pointer_offset(&maybe_pointer);
                    if target >= i {
                        return None;
                    }
                    match Question::parse_name_until_terminator(bytes, i, target) {
                        None => {
                            return None;
                        },
                        Some((suffix, _)) => {
                            if !name.as_str().is_empty() {
                                push_char(&mut name, '.');
                            }
                            name.append(suffix.as_str());
                            return Some((name, i + 1));
                        },
                    }
                }
            }
            if is_label_size(&b) && pending == 0 {
                pending = b;
                if !name.as_str().is_empty() {
                    push_char(&mut name, '.');
                }
            } else if pending > 0 {
                push_char(&mut name, char_of_byte(b));
                pending = pending - 1;
            }
            i = i + 1;
        }
        Some((name, limit - 1))
    }

    /// The wire form of the questions, one behind the other.
    pub fn join(&self) -> (r: Vec<u8>)
        ensures
            r@ == records_wire(self.records.deep_view()),
    {
        let mut bytes: Vec<u8> = Vec::new();
        let mut i: usize = 0;
        while i < self.records.len()
            invariant
                i <= self.records@.len(),
                bytes@ == records_wire(self.records.deep_view().take(i as int)),
            decreases self.records@.len() - i,
        {
            let one = Question::name_to_bytes(&self.records[i]);
            proof {
                let views = self.records.deep_view();
                assert(views.take(i + 1).drop_last() =~= views.take(i as int));
                assert(views.take(i + 1).last() == self.records@[i as int]@);
            }
            append_bytes(&mut bytes, one.as_slice());
            i = i + 1;
        }
        proof {
            let views = self.records.deep_view();
            assert(views.take(views.len() as int) =~= views);
        }
        bytes
    }

    /// The wire form of one question.
    pub fn name_to_bytes(name: &QuestionRecord) -> (r: Vec<u8>)
        ensures
            r@ == record_wire(name@),
    {
        let mut out = name_to_vec8(name.name.as_str());
        out.push(0);
        out.push(name.qtype.to_byte());
        out.push(0);
        out.push(name.class.to_byte());
        proof {
            assert(out@ =~= record_wire(name@));
        }
        out
    }
}

} // verus!
