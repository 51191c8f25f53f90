//! A query: a header and its questions.

use vstd::prelude::*;
use crate::dns::header::{Header, HeaderField, header_bytes, header_with};
use crate::dns::question::{Question, QuestionRecord, QuestionRecordView, records_wire};
use crate::text::append_bytes;

verus! {

pub struct Request {
    pub header: Header,
    pub question: Question,
}

pub const REQUEST_BYTES_SIZE: usize = 512;

/// The first 512 bytes of the data, with zero bytes where it is shorter.
pub open spec fn datagram(data: Seq<u8>) -> Seq<u8> {
    Seq::new(
        512,
        |i: int|
            if i < data.len() {
                data[i]
            } else {
                0u8
            },
    )
}

/// The datagram that holds the data, cut or zero-padded to 512 bytes.
pub fn to_datagram(data: &Vec<u8>) -> (r: [u8; 512])
    ensures
        r@ == datagram(data@),
{
    let mut buf: [u8; 512] = [0u8;512];
    let mut i: usize = 0;
    while i < 512 && i < data.len()
        invariant
            i <= 512,
            i <= data@.len(),
            buf@.len() == 512,
            forall|k: int| 0 <= k < i ==> buf@[k] == data@[k],
            forall|k: int| i <= k < 512 ==> buf@[k] == 0u8,
        decreases 512 - i,
    {
        buf[i] = data[i];
        i = i + 1;
    }
    proof {
        assert(buf@ =~= datagram(data@));
    }
    buf
}

/// The bytes of an array, as a vector.
pub fn header_vec(bytes: &[u8; 12]) -> (r: Vec<u8>)
    ensures
        r@ == bytes@,
{
    let mut out: Vec<u8> = Vec::new();
    let mut i: usize = 0;
    while i < 12
        invariant
            i <= 12,
            out@ == bytes@.take(i as int),
        decreases 12 - i,
    {
        out.push(bytes[i]);
        proof {
            assert(bytes@.take(i + 1) =~= bytes@.take(i as int).push(bytes@[i as int]));
        }
        i = i + 1;
    }
    proof {
        assert(bytes@.take(12) =~= bytes@);
    }
    out
}

/// The 512 bytes of a query: header, then questions, then zero bytes.
pub open spec fn request_wire(header: Header, records: Seq<QuestionRecordView>) -> Seq<u8> {
    datagram(header_bytes(header) + records_wire(records))
}

impl Request {
    pub fn new(header: Header, question: Question) -> (r: Self)
        ensures
            r.header == header,
            r.question == question,
    {
        Request { header, question }
    }

    /// The query as one datagram.
    pub fn to_buf(&self) -> (r: [u8; 512])
        ensures
            r@ == request_wire(self.header, self.question.records.deep_view()),
    {
        let header_buf = self.header.join();
        let mut data = header_vec(&header_buf);
        let question_vec = self.question.join();
        append_bytes(&mut data, question_vec.as_slice());
        to_datagram(&data)
    }

    /// One query per question, each with the header of this one but a
    /// question count of 1, in the order of the questions.
    pub fn split_into_multiple(&self) -> (r: Vec<Self>)
        ensures
            r@.len() == self.question.records@.len(),
            forall|i: int|
                0 <= i < r@.len() ==> {
                    &&& (#[trigger] r@[i]).header == header_with(
                        self.header,
                        HeaderField::Qdcount(1),
                    )
                    &&& r@[i].question.records.deep_view() == seq![self.question.records@[i]@]
                    &&& r@[i].question.offset == 0
                },
    {
        let mut requests: Vec<Request> = Vec::new();
        let mut i: usize = 0;
        while i < self.question.records.len()
            invariant
                i <= self.question.records@.len(),
                requests@.len() == i,
                forall|k: int|
                    0 <= k < i ==> {
                        &&& (#[trigger] requests@[k]).header == header_with(
                            self.header,
                            HeaderField::Qdcount(1),
                        )
                        &&& requests@[k].question.records.deep_view()
                            == seq![self.question.records@[k]@]
                        &&& requests@[k].question.offset == 0
                    },
            decreases self.question.records@.len() - i,
        {
            let mut header = self.header;
            header.set_header(HeaderField::Qdcount(1));
            let record: QuestionRecord = self.question.records[i].clone();
            let question = Question::from_record(record);
            proof {
                assert(question.records.deep_view() =~= seq![self.question.records@[i as int]@]);
            }
            requests.push(Request::new(header, question));
            i = i + 1;
        }
        requests
    }
}

} // verus!
