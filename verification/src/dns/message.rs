//! Whole messages: answering a query locally, reading queries and replies,
//! and gathering the replies of a forwarded query into one.

use vstd::prelude::*;
use vstd::slice::*;
use crate::dns::enums::QType;
use crate::dns::header::{
    Header, HeaderField, HeaderParseError, HeaderParseErrorKind, header_kind_text, header_of,
};
use crate::dns::question::{
    Question, QuestionParseError, QuestionParseErrorKind, QuestionRecord, QuestionRecordView,
    question_kind_text, question_of,
};
use crate::dns::request::Request;
use crate::dns::response::{Response, response_wire};
use crate::dns::rr::{
    Rr, RrParseError, RrParseErrorKind, RrView, field_end, ipv4_of, octet_of, rr_kind_text,
    scan_rrs,
};
use crate::dns::util::sanitized;

verus! {

/// Why a message could not be read or answered.
#[derive(Debug)]
pub enum MessageError {
    Header(HeaderParseError),
    Question(QuestionParseError),
    Rr(RrParseError),
}

/// The kind of a message error, without the underlying error's text.
pub enum MessageErrorKind {
    Header(HeaderParseErrorKind),
    Question(QuestionParseErrorKind),
    Rr(RrParseErrorKind),
}

impl MessageError {
    /// The error's text: that of the section's error.
    pub fn message(&self) -> (r: String)
        ensures
            r@ == match self {
                MessageError::Header(e) => "Unable to parse HEADER section: "@ + header_kind_text(
                    e.kind,
                ) + ". Source error: "@ + source_text(e.source_error),
                MessageError::Question(e) => "Unable to parse QUESTION section: "@
                    + question_kind_text(e.kind) + ". Source error: "@ + source_text(
                    e.source_error,
                ),
                MessageError::Rr(e) => "Unable to parse RR section: "@ + rr_kind_text(e.kind)
                    + ". Source error: "@ + source_text(e.source_error),
            },
    {
        match self {
            MessageError::Header(e) => e.message(),
            MessageError::Question(e) => e.message(),
            MessageError::Rr(e) => e.message(),
        }
    }

    pub open spec fn kind(&self) -> MessageErrorKind {
        match self {
            MessageError::Header(e) => MessageErrorKind::Header(e.kind),
            MessageError::Question(e) => MessageErrorKind::Question(e.kind),
            MessageError::Rr(e) => MessageErrorKind::Rr(e.kind),
        }
    }
}

/// The text of an underlying error, or `<nil>` where there is none.
pub open spec fn source_text(source_error: Option<String>) -> Seq<char> {
    match source_error {
        Some(e) => e@,
        None => "<nil>"@,
    }
}

/// The time to live of a locally made answer.
pub const LOCAL_TTL: u32 = 60;

/// The address bytes of a locally made answer.
pub open spec fn local_address() -> Seq<u8> {
    seq![8u8, 8u8, 8u8, 8u8]
}

/// The answer made locally for one question: an `A` record under the
/// question's sanitised name that lives 60 seconds and points at 8.8.8.8.
pub open spec fn answer_for(q: QuestionRecordView) -> Result<RrView, RrParseErrorKind> {
    if q.qtype != QType::A {
        Err(RrParseErrorKind::RecordTypeIsNotSupported(q.qtype))
    } else if sanitized(q.name).len() == 0 {
        Err(RrParseErrorKind::UnexpectedEmptyName(0))
    } else {
        Ok(
            RrView {
                name: sanitized(q.name),
                rrtype: QType::A,
                class: q.class,
                ttl: 60,
                rdlength: 4,
                rdata: local_address(),
            },
        )
    }
}

/// The answers for the questions, in order, or the error of the first
/// question that has none.
pub open spec fn answers_for(records: Seq<QuestionRecordView>) -> Result<
    Seq<RrView>,
    RrParseErrorKind,
>
    decreases records.len(),
{
    if records.len() == 0 {
        Ok(Seq::empty())
    } else {
        match answers_for(records.drop_last()) {
            Err(kind) => Err(kind),
            Ok(answers) => match answer_for(records.last()) {
                Err(kind) => Err(kind),
                Ok(answer) => Ok(answers.push(answer)),
            },
        }
    }
}

/// A count as the header holds it: the number itself, or 0 where it does
/// not fit sixteen bits.
pub open spec fn count_field(n: nat) -> u16 {
    if n <= 65535 {
        n as u16
    } else {
        0
    }
}

/// The header of a local reply to a query with the given header: marked as
/// a response, with no authority, truncation or recursion flag, a response
/// code of 0 for opcode 0 and of 4 for any other, and the given counts.
pub open spec fn reply_header(query: Header, questions: nat, answers: nat) -> Header {
    Header {
        qr: HeaderField::QR(1),
        aa: HeaderField::AA(0),
        tc: HeaderField::TC(0),
        ra: HeaderField::RA(0),
        z: HeaderField::Z(0),
        rcode: match query.opcode {
            HeaderField::Opcode(opcode) => HeaderField::Rcode(
                if opcode == 0 {
                    0
                } else {
                    4
                },
            ),
            _ => query.rcode,
        },
        nscount: HeaderField::Nscount(0),
        arcount: HeaderField::Arcount(0),
        qdcount: HeaderField::Qdcount(count_field(questions)),
        ancount: HeaderField::Ancount(count_field(answers)),
        ..query
    }
}

/// The local reply to a datagram, or why there is none.
pub open spec fn reply_of(bytes: Seq<u8>) -> Result<Seq<u8>, MessageErrorKind> {
    match question_of(bytes, None) {
        Err(kind) => Err(MessageErrorKind::Question(kind)),
        Ok((records, _)) => match answers_for(records) {
            Err(kind) => Err(MessageErrorKind::Rr(kind)),
            Ok(answers) => Ok(
                response_wire(
                    reply_header(header_of(bytes), records.len(), answers.len()),
                    records,
                    answers,
                ),
            ),
        },
    }
}

fn count_of(n: usize) -> (r: u16)
    ensures
        r == count_field(n as nat),
{
    if n <= 65535 {
        n as u16
    } else {
        0
    }
}

proof fn local_address_text()
    ensures
        ipv4_of("8.8.8.8"@) == Some(local_address()),
{
    reveal_strlit("8.8.8.8");
    let s = "8.8.8.8"@;
    reveal_with_fuel(field_end, 3);
    assert(field_end(s, 0) == 1);
    assert(field_end(s, 2) == 3);
    assert(field_end(s, 4) == 5);
    assert(field_end(s, 6) == 7);
    assert(s.subrange(0, 1) =~= seq!['8']);
    assert(s.subrange(2, 3) =~= seq!['8']);
    assert(s.subrange(4, 5) =~= seq!['8']);
    assert(s.subrange(6, 7) =~= seq!['8']);
    assert(octet_of(seq!['8']) == Some(8u8));
}

/// Answers a query locally: every question gets an `A` record that lives
/// 60 seconds and points at 8.8.8.8.
pub fn reply(buf: &[u8; 512]) -> (r: Result<[u8; 512], MessageError>)
    ensures
        match reply_of(buf@) {
            Ok(bytes) => r is Ok && r->Ok_0@ == bytes,
            Err(kind) => r is Err && r->Err_0.kind() == kind,
        },
{
    let bytes = buf.as_slice();
    let mut header = match Header::from_bytes(bytes) {
        Ok(h) => h,
        Err(e) => {
            return Err(MessageError::Header(e));
        },
    };
    let ghost query = header;
    header.set_header(HeaderField::QR(1));
    header.set_header(HeaderField::AA(0));
    header.set_header(HeaderField::TC(0));
    header.set_header(HeaderField::RA(0));
    header.set_header(HeaderField::Z(0));
    if let HeaderField::Opcode(opcode) = header.opcode {
        header.set_header(
            HeaderField::Rcode(
                if opcode == 0 {
                    0
                } else {
                    4
                },
            ),
        );
    }
    header.set_header(HeaderField::Nscount(0));
    header.set_header(HeaderField::Arcount(0));
    let question = match Question::from_bytes(bytes, None) {
        Ok(q) => q,
        Err(e) => {
            return Err(MessageError::Question(e));
        },
    };
    header.set_header(HeaderField::Qdcount(count_of(question.records.len())));
    let mut rrs: Vec<Rr> = Vec::new();
    let mut i: usize = 0;
    let ghost records = question.records.deep_view();
    proof {
        local_address_text();
        assert(records.take(0) =~= Seq::empty());
        assert(rrs.deep_view() =~= Seq::empty());
    }
    while i < question.records.len()
        invariant
            i <= question.records@.len(),
            records == question.records.deep_view(),
            answers_for(records.take(i as int)) == Ok::<Seq<RrView>, RrParseErrorKind>(
                rrs.deep_view(),
            ),
            rrs@.len() == i,
            ipv4_of("8.8.8.8"@) == Some(local_address()),
            question_of(buf@, None) is Ok,
            question_of(buf@, None)->Ok_0.0 == records,
        decreases question.records@.len() - i,
    {
        let record: &QuestionRecord = &question.records[i];
        proof {
            assert(records.take(i + 1).drop_last() =~= records.take(i as int));
            assert(records.take(i + 1).last() == record@);
        }
        match Rr::new(record.name.as_str(), record.qtype, record.class, LOCAL_TTL, "8.8.8.8") {
            Ok(rr) => {
                let ghost before = rrs.deep_view();
                rrs.push(rr);
                proof {
                    assert(rrs.deep_view() =~= before.push(rr@));
                }
            },
            Err(e) => {
                proof {
                    answers_fail_on(records, i as int);
                }
                return Err(MessageError::Rr(e));
            },
        }
        i = i + 1;
    }
    proof {
        assert(records.take(records.len() as int) =~= records);
    }
    header.set_header(HeaderField::Ancount(count_of(rrs.len())));
    let message = Response::new(header, question, rrs);
    Ok(message.to_buf())
}

proof fn answers_fail_on(records: Seq<QuestionRecordView>, i: int)
    requires
        0 <= i < records.len(),
        answers_for(records.take(i)) is Ok,
        answer_for(records[i]) is Err,
    ensures
        answers_for(records) == Err::<Seq<RrView>, RrParseErrorKind>(
            answer_for(records[i])->Err_0,
        ),
    decreases records.len(),
{
    if i == records.len() - 1 {
        assert(records.drop_last() =~= records.take(i));
    } else {
        assert(records.drop_last().take(i) =~= records.take(i));
        answers_fail_on(records.drop_last(), i);
    }
}

/// The query that a datagram holds: its header and all its questions.
pub open spec fn request_of(bytes: Seq<u8>) -> Result<
    (Header, Seq<QuestionRecordView>, int),
    MessageErrorKind,
> {
    match question_of(bytes, None) {
        Err(kind) => Err(MessageErrorKind::Question(kind)),
        Ok((records, offset)) => Ok((header_of(bytes), records, offset)),
    }
}

/// Reads a query from a datagram.
pub fn parse_into_req(buf: &[u8; 512]) -> (r: Result<Request, MessageError>)
    ensures
        match request_of(buf@) {
            Ok((header, records, offset)) => r is Ok && r->Ok_0.header == header
                && r->Ok_0.question.records.deep_view() == records && r->Ok_0.question.offset
                == offset,
            Err(kind) => r is Err && r->Err_0.kind() == kind,
        },
{
    let bytes = buf.as_slice();
    let header = match Header::from_bytes(bytes) {
        Ok(h) => h,
        Err(e) => {
            return Err(MessageError::Header(e));
        },
    };
    let question = match Question::from_bytes(bytes, None) {
        Ok(q) => q,
        Err(e) => {
            return Err(MessageError::Question(e));
        },
    };
    Ok(Request::new(header, question))
}

/// The reply that a datagram holds: its header, as many questions as the
/// header counts, and the answers behind them.
pub open spec fn response_of(bytes: Seq<u8>) -> Result<
    (Header, Seq<QuestionRecordView>, int, Seq<RrView>),
    MessageErrorKind,
> {
    match question_of(bytes, Some(header_of(bytes).qdcount->Qdcount_0)) {
        Err(kind) => Err(MessageErrorKind::Question(kind)),
        Ok((records, offset)) => match scan_rrs(
            bytes.subrange(offset, bytes.len() as int),
            0,
            Seq::empty(),
        ) {
            Err(kind) => Err(MessageErrorKind::Rr(kind)),
            Ok(answers) => Ok((header_of(bytes), records, offset, answers)),
        },
    }
}

/// Reads a reply from a datagram.
pub fn parse_into_res(buf: &[u8; 512]) -> (r: Result<Response, MessageError>)
    ensures
        match response_of(buf@) {
            Ok((header, records, offset, answers)) => r is Ok && r->Ok_0.header == header
                && r->Ok_0.question.records.deep_view() == records && r->Ok_0.question.offset
                == offset && r->Ok_0.answer.deep_view() == answers,
            Err(kind) => r is Err && r->Err_0.kind() == kind,
        },
{
    let bytes = buf.as_slice();
    let header = match Header::from_bytes(bytes) {
        Ok(h) => h,
        Err(e) => {
            return Err(MessageError::Header(e));
        },
    };
    let expected: Option<u16> = header.qdcount.to_number();
    let question = match Question::from_bytes(bytes, expected) {
        Ok(q) => q,
        Err(e) => {
            return Err(MessageError::Question(e));
        },
    };
    let rest = slice_subrange(bytes, question.offset, bytes.len());
    let rrs = match Rr::from_bytes_multiple(rest) {
        Ok(found) => found,
        Err(e) => {
            return Err(MessageError::Rr(e));
        },
    };
    Ok(Response::new(header, question, rrs))
}

} // verus!
