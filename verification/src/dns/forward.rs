//! Forwarding a query with several questions: one query per question goes
//! upstream, and the replies that carry the query's id are gathered into
//! one reply. Sending and receiving are the caller's part; what to send and
//! what to do with each reply is decided here.

use vstd::prelude::*;
use crate::dns::header::{Header, HeaderField, header_with};
use crate::dns::message::count_field;
use crate::dns::question::{Question, QuestionRecord, QuestionRecordView};
use crate::dns::request::{Request, request_wire};
use crate::dns::response::Response;
use crate::dns::rr::{Rr, RrView};

verus! {

/// The questions of the replies, in the order of the replies.
pub open spec fn gathered_records(responses: Seq<Response>) -> Seq<QuestionRecordView>
    decreases responses.len(),
{
    if responses.len() == 0 {
        Seq::empty()
    } else {
        gathered_records(responses.drop_last()) + responses.last().question.records.deep_view()
    }
}

/// The answers of the replies, in the order of the replies.
pub open spec fn gathered_answers(responses: Seq<Response>) -> Seq<RrView>
    decreases responses.len(),
{
    if responses.len() == 0 {
        Seq::empty()
    } else {
        gathered_answers(responses.drop_last()) + responses.last().answer.deep_view()
    }
}

/// The header of the gathered reply: that of the first reply, with the
/// counts of the gathered questions and answers.
pub open spec fn gathered_header(responses: Seq<Response>) -> Header {
    header_with(
        header_with(
            responses[0].header,
            HeaderField::Qdcount(count_field(gathered_records(responses).len())),
        ),
        HeaderField::Ancount(count_field(gathered_answers(responses).len())),
    )
}

fn field_count(n: usize) -> (r: u16)
    ensures
        r == count_field(n as nat),
{
    if n <= 65535 {
        n as u16
    } else {
        0
    }
}

/// Gathers the replies into one: all their questions, all their answers,
/// under the first reply's header with the counts set anew.
pub fn merge_responses(responses: &Vec<Response>) -> (r: Response)
    requires
        responses@.len() > 0,
    ensures
        r.header == gathered_header(responses@),
        r.question.records.deep_view() == gathered_records(responses@),
        r.question.offset == 0,
        r.answer.deep_view() == gathered_answers(responses@),
{
    let mut names: Vec<QuestionRecord> = Vec::new();
    let mut rrs: Vec<Rr> = Vec::new();
    let mut i: usize = 0;
    proof {
        assert(names.deep_view() =~= Seq::empty());
        assert(rrs.deep_view() =~= Seq::empty());
        assert(responses@.take(0) =~= Seq::empty());
    }
    while i < responses.len()
        invariant
            i <= responses@.len(),
            names.deep_view() == gathered_records(responses@.take(i as int)),
            rrs.deep_view() == gathered_answers(responses@.take(i as int)),
        decreases responses@.len() - i,
    {
        let response: &Response = &responses[i];
        let ghost names_before = names.deep_view();
        let ghost rrs_before = rrs.deep_view();
        proof {
            assert(responses@.take(i + 1).drop_last() =~= responses@.take(i as int));
            assert(responses@.take(i + 1).last() == *response);
        }
        let mut k: usize = 0;
        while k < response.question.records.len()
            invariant
                k <= response.question.records@.len(),
                names.deep_view() == names_before + response.question.records.deep_view().take(
                    k as int,
                ),
            decreases response.question.records@.len() - k,
        {
            let ghost before = names.deep_view();
            let record = response.question.records[k].clone();
            names.push(record);
            proof {
                assert(names.deep_view() =~= before.push(record@));
                assert(names.deep_view() =~= names_before
                    + response.question.records.deep_view().take(k + 1));
            }
            k = k + 1;
        }
        let mut m: usize = 0;
        while m < response.answer.len()
            invariant
                m <= response.answer@.len(),
                rrs.deep_view() == rrs_before + response.answer.deep_view().take(m as int),
            decreases response.answer@.len() - m,
        {
            let ghost before = rrs.deep_view();
            let rr = response.answer[m].clone();
            rrs.push(rr);
            proof {
                assert(rrs.deep_view() =~= before.push(rr@));
                assert(rrs.deep_view() =~= rrs_before + response.answer.deep_view().take(m + 1));
            }
            m = m + 1;
        }
        proof {
            let q = response.question.records.deep_view();
            assert(q.take(q.len() as int) =~= q);
            let a = response.answer.deep_view();
            assert(a.take(a.len() as int) =~= a);
        }
        i = i + 1;
    }
    proof {
        assert(responses@.take(responses@.len() as int) =~= responses@);
    }
    let mut header = responses[0].header;
    let question = Question::from_records(names);
    header.set_header(HeaderField::Qdcount(field_count(question.records.len())));
    header.set_header(HeaderField::Ancount(field_count(rrs.len())));
    Response::new(header, question, rrs)
}

/// A forwarded query that waits for its replies.
pub struct Forwarding {
    /// The id that the query and every reply to it carry.
    pub id: u16,
    /// How many replies are still to come.
    pub remaining: usize,
    /// The replies gathered so far, in the order of their arrival.
    pub responses: Vec<Response>,
}

/// What to do after a reply came in.
pub enum ForwardStep {
    /// The reply carries another id: it is dropped and does not count.
    Skip,
    /// The reply was taken; others are still to come.
    Wait,
    /// The last reply was taken: this is the gathered reply for the client.
    Send(Response),
}

impl Forwarding {
    /// Starts forwarding a query: gives the waiting state and one datagram
    /// per question to send upstream, each with a question count of 1.
    pub fn start(request: &Request) -> (r: (Self, Vec<[u8; 512]>))
        requires
            request.header.id is ID,
        ensures
            r.0.id == request.header.id->ID_0,
            r.0.remaining == request.question.records@.len(),
            r.0.responses@.len() == 0,
            r.1@.len() == request.question.records@.len(),
            forall|i: int|
                0 <= i < r.1@.len() ==> (#[trigger] r.1@[i])@ == request_wire(
                    header_with(request.header, HeaderField::Qdcount(1)),
                    seq![request.question.records@[i]@],
                ),
    {
        let requests = request.split_into_multiple();
        let id: u16 = match request.header.id {
            HeaderField::ID(v) => v,
            _ => 0,
        };
        let mut datagrams: Vec<[u8; 512]> = Vec::new();
        let mut i: usize = 0;
        while i < requests.len()
            invariant
                i <= requests@.len(),
                datagrams@.len() == i,
                requests@.len() == request.question.records@.len(),
                forall|k: int|
                    0 <= k < requests@.len() ==> {
                        &&& (#[trigger] requests@[k]).header == header_with(
                            request.header,
                            HeaderField::Qdcount(1),
                        )
                        &&& requests@[k].question.records.deep_view()
                            == seq![request.question.records@[k]@]
                    },
                forall|k: int|
                    0 <= k < i ==> (#[trigger] datagrams@[k])@ == request_wire(
                        header_with(request.header, HeaderField::Qdcount(1)),
                        seq![request.question.records@[k]@],
                    ),
            decreases requests@.len() - i,
        {
            datagrams.push(requests[i].to_buf());
            i = i + 1;
        }
        (Forwarding { id, remaining: requests.len(), responses: Vec::new() }, datagrams)
    }

    /// Takes one upstream reply. A reply whose id is not the query's is
    /// skipped and changes nothing. Any other is kept; the one that
    /// completes the count yields the gathered reply.
    pub fn accept(&mut self, response: Response) -> (r: ForwardStep)
        requires
            old(self).remaining > 0,
        ensures
            final(self).id == old(self).id,
            response.header.id != HeaderField::ID(old(self).id) ==> {
                &&& r is Skip
                &&& final(self).remaining == old(self).remaining
                &&& final(self).responses@ == old(self).responses@
            },
            response.header.id == HeaderField::ID(old(self).id) ==> {
                &&& final(self).remaining == old(self).remaining - 1
                &&& final(self).responses@ == old(self).responses@.push(response)
            },
            response.header.id == HeaderField::ID(old(self).id) && old(self).remaining > 1 ==> r
                is Wait,
            response.header.id == HeaderField::ID(old(self).id) && old(self).remaining == 1 ==> {
                &&& r is Send
                &&& r->Send_0.header == gathered_header(final(self).responses@)
                &&& r->Send_0.question.records.deep_view() == gathered_records(
                    final(self).responses@,
                )
                &&& r->Send_0.answer.deep_view() == gathered_answers(final(self).responses@)
            },
    {
        let matches: bool = match response.header.id {
            HeaderField::ID(v) => v == self.id,
            _ => false,
        };
        if !matches {
            return ForwardStep::Skip;
        }
        self.remaining = self.remaining - 1;
        self.responses.push(response);
        if self.remaining > 0 {
            return ForwardStep::Wait;
        }
        ForwardStep::Send(merge_responses(&self.responses))
    }
}

} // verus!
