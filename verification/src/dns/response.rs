//! A reply: a header, the questions it answers, and the answers.

use vstd::prelude::*;
use crate::dns::header::{Header, header_bytes};
use crate::dns::question::{Question, QuestionRecordView, records_wire};
use crate::text::append_bytes;
use crate::dns::request::{datagram, to_datagram, header_vec};
use crate::dns::rr::{Rr, RrView, rrs_wire};

verus! {

pub struct Response {
    pub header: Header,
    pub question: Question,
    pub answer: Vec<Rr>,
}

pub const RESPONSE_BYTES_SIZE: usize = 512;

/// The 512 bytes of a reply: header, questions, answers, then zero bytes;
/// what does not fit is cut off.
pub open spec fn response_wire(
    header: Header,
    records: Seq<QuestionRecordView>,
    answers: Seq<RrView>,
) -> Seq<u8> {
    datagram(header_bytes(header) + records_wire(records) + rrs_wire(answers))
}

impl Response {
    pub fn new(header: Header, question: Question, answer: Vec<Rr>) -> (r: Self)
        ensures
            r.header == header,
            r.question == question,
            r.answer == answer,
    {
        Response { header, question, answer }
    }

    /// The reply as one datagram.
    pub fn to_buf(&self) -> (r: [u8; 512])
        ensures
            r@ == response_wire(
                self.header,
                self.question.records.deep_view(),
                self.answer.deep_view(),
            ),
    {
        let header_buf = self.header.join();
        let mut data = header_vec(&header_buf);
        let question_vec = self.question.join();
        append_bytes(&mut data, question_vec.as_slice());
        let ghost front = data@;
        let mut i: usize = 0;
        while i < self.answer.len()
            invariant
                i <= self.answer@.len(),
                data@ == front + rrs_wire(self.answer.deep_view().take(i as int)),
            decreases self.answer@.len() - i,
        {
            let one = self.answer[i].join();
            proof {
                let views = self.answer.deep_view();
                assert(views.take(i + 1).drop_last() =~= views.take(i as int));
                assert(views.take(i + 1).last() == self.answer@[i as int]@);
            }
            append_bytes(&mut data, one.as_slice());
            proof {
                assert(data@ =~= front + rrs_wire(self.answer.deep_view().take(i + 1)));
            }
            i = i + 1;
        }
        proof {
            let views = self.answer.deep_view();
            assert(views.take(views.len() as int) =~= views);
        }
        to_datagram(&data)
    }
}

} // verus!
