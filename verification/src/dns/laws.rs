//! What holds of the DNS codecs as a whole: decoding gives back what was
//! encoded.

use vstd::prelude::*;
use crate::text::{byte_char, char_low_byte, utf8_width};
use crate::dns::enums::{be16, qtype_code_round_trip, class_code_round_trip};
use crate::dns::question::{
    QuestionParseErrorKind, QuestionRecordView, dotted, name_at, pair_at, question_of,
    record_wire, records_wire, scan_name, scan_records, wanted,
};
use crate::dns::enums::{QType, class_code, class_of_code, qtype_code, qtype_of_code};
use crate::dns::rr::{RrParseErrorKind, RrView, be32, rr_at, rr_wire, rrs_wire, scan_owner, scan_rrs};
use crate::dns::message::{answers_for, count_field};
use crate::dns::util::{label_width, name_body, name_wire, pointer_marked, utf8_slack};

verus! {

/// A name that the wire form can carry: not empty, made of ASCII
/// characters other than NUL, and of labels of 1 to 63 characters with a
/// single dot between each two.
pub open spec fn plain_name(s: Seq<char>) -> bool {
    &&& s.len() > 0
    &&& (forall|i: int| 0 <= i < s.len() ==> 0 < (#[trigger] s[i] as u32) && (s[i] as u32) < 128)
    &&& (forall|k: int|
        0 <= k <= s.len() && (k == 0 || s[k - 1] == '.') ==> 1 <= #[trigger] label_width(s, k)
            <= 63)
}

/// Whether the bytes `w` stand in `b` from position `o` on.
pub open spec fn placed(b: Seq<u8>, o: int, w: Seq<u8>) -> bool {
    &&& 0 <= o
    &&& o + w.len() <= b.len()
    &&& forall|t: int| 0 <= t < w.len() ==> b[o + t] == #[trigger] w[t]
}

proof fn ascii_has_no_slack(s: Seq<char>)
    requires
        forall|i: int| 0 <= i < s.len() ==> 0 < (#[trigger] s[i] as u32) && (s[i] as u32) < 128,
    ensures
        utf8_slack(s) == 0,
    decreases s.len(),
{
    if s.len() > 0 {
        assert forall|i: int| 0 <= i < s.drop_last().len() implies 0 < (#[trigger] s.drop_last()[i] as u32)
            && (s.drop_last()[i] as u32) < 128 by {
            assert(s.drop_last()[i] == s[i]);
        }
        ascii_has_no_slack(s.drop_last());
        assert(utf8_width(s.last()) == 1);
    }
}

/// The wire form of a plain name is its labels, each behind its length,
/// and one zero byte.
pub proof fn plain_name_wire(s: Seq<char>)
    requires
        plain_name(s),
    ensures
        name_wire(s) == name_body(s).push(0u8),
        name_wire(s).len() == s.len() + 2,
{
    ascii_has_no_slack(s);
    assert(name_wire(s) =~= name_body(s).push(0u8));
}

proof fn scan_plain(b: Seq<u8>, o: int, s: Seq<char>, j: int)
    requires
        plain_name(s),
        placed(b, o, name_wire(s)),
        1 <= j <= s.len() + 1,
    ensures
        scan_name(b, b.len() as int, o + j, label_width(s, j - 1), s.take(j - 1)) == Some(
            (s, o + s.len() + 1),
        ),
    decreases s.len() + 1 - j,
{
    plain_name_wire(s);
    let w = name_wire(s);
    let i = o + j;
    assert(b[o + j] == w[j]);
    if j == s.len() + 1 {
        assert(w[j] == 0u8);
        assert(s.take(j - 1) =~= s);
    } else {
        let c = s[j - 1];
        assert(w[j] == name_body(s)[j]);
        assert(b[o + j + 1] == w[j + 1]);
        assert(0 < (c as u32) && (c as u32) < 128);
        if c == '.' {
            assert(label_width(s, j - 1) == 0);
            assert(1 <= label_width(s, j) <= 63);
            assert(b[i] as int == label_width(s, j));
            assert(label_width(s, 0) >= 1);
            assert(s[0] != '.');
            assert(j - 1 >= 1);
            assert(dotted(s.take(j - 1)) =~= s.take(j));
            assert(!pointer_marked(pair_at(b, i)));
            scan_plain(b, o, s, j + 1);
        } else {
            assert(label_width(s, j - 1) == 1 + label_width(s, j));
            assert(b[i] == char_low_byte(c));
            assert(b[i] as u32 == c as u32);
            assert(byte_char(b[i]) as u32 == c as u32);
            vstd::utf8::char_u32_cast(c, c as u32);
            vstd::utf8::char_u32_cast(byte_char(b[i]), c as u32);
            assert(byte_char(b[i]) == c);
            assert(s.take(j - 1).push(c) =~= s.take(j));
            assert(!pointer_marked(pair_at(b, i)));
            scan_plain(b, o, s, j + 1);
        }
    }
}

/// A plain name that stands in its wire form at some position is decoded
/// to itself, and the decoder stops at its zero byte.
pub proof fn name_round_trip(b: Seq<u8>, o: int, s: Seq<char>)
    requires
        plain_name(s),
        placed(b, o, name_wire(s)),
    ensures
        name_at(b, o) == Some((s, o + s.len() + 1)),
{
    plain_name_wire(s);
    let w = name_wire(s);
    assert(b[o] == w[0]);
    assert(b[o + 1] == w[1]);
    assert(w[0] == name_body(s)[0]);
    assert(1 <= label_width(s, 0) <= 63);
    assert(!pointer_marked(pair_at(b, o)));
    assert(dotted(Seq::<char>::empty()) =~= s.take(0));
    scan_plain(b, o, s, 1);
}

/// Whether each question has a plain name.
pub open spec fn plain_records(records: Seq<QuestionRecordView>) -> bool {
    forall|i: int| 0 <= i < records.len() ==> plain_name((#[trigger] records[i]).name)
}

proof fn records_wire_grows(records: Seq<QuestionRecordView>, i: int)
    requires
        0 <= i < records.len(),
    ensures
        records_wire(records.take(i + 1)) == records_wire(records.take(i)) + record_wire(
            records[i],
        ),
{
    assert(records.take(i + 1).drop_last() =~= records.take(i));
    assert(records.take(i + 1).last() == records[i]);
}

proof fn records_wire_prefix(records: Seq<QuestionRecordView>, i: int)
    requires
        0 <= i <= records.len(),
    ensures
        records_wire(records.take(i)).len() <= records_wire(records).len(),
        records_wire(records).take(records_wire(records.take(i)).len() as int) == records_wire(
            records.take(i),
        ),
    decreases records.len() - i,
{
    if i == records.len() {
        assert(records.take(i) =~= records);
        assert(records_wire(records).take(records_wire(records).len() as int) =~= records_wire(
            records,
        ));
    } else {
        records_wire_prefix(records, i + 1);
        records_wire_grows(records, i);
        let longer = records_wire(records.take(i + 1));
        let shorter = records_wire(records.take(i));
        assert(records_wire(records).take(shorter.len() as int) =~= longer.take(
            shorter.len() as int,
        ));
        assert(longer.take(shorter.len() as int) =~= shorter);
    }
}

proof fn scan_one_record(
    b: Seq<u8>,
    o: int,
    q: QuestionRecordView,
    remaining: nat,
    found: Seq<QuestionRecordView>,
)
    requires
        plain_name(q.name),
        placed(b, o, record_wire(q)),
        remaining > 0,
    ensures
        scan_records(b, o, remaining, found) == scan_records(
            b,
            o + record_wire(q).len(),
            (remaining - 1) as nat,
            found.push(q),
        ),
        record_wire(q).len() == q.name.len() + 6,
{
    let s = q.name;
    let w = record_wire(q);
    let n = s.len() as int;
    plain_name_wire(s);
    assert forall|t: int| 0 <= t < name_wire(s).len() implies b[o + t] == #[trigger] name_wire(
        s,
    )[t] by {
        assert(w[t] == name_wire(s)[t]);
    }
    name_round_trip(b, o, s);
    let end = o + n + 1;
    assert(b[end + 1] == w[n + 2]);
    assert(b[end + 2] == w[n + 3]);
    assert(b[end + 3] == w[n + 4]);
    assert(b[end + 4] == w[n + 5]);
    assert(w[n + 2] == 0u8);
    assert(w[n + 4] == 0u8);
    qtype_code_round_trip(q.qtype);
    class_code_round_trip(q.class);
    assert(be16(b[end + 1], b[end + 2]) == qtype_code(q.qtype));
    assert(be16(b[end + 3], b[end + 4]) == class_code(q.class));
}

proof fn scan_plain_records(records: Seq<QuestionRecordView>, i: int, remaining: nat)
    requires
        plain_records(records),
        0 <= i <= records.len(),
        records.len() > 0,
        remaining >= records.len() - i,
        i == 0 ==> remaining > 0,
    ensures
        scan_records(
            records_wire(records),
            records_wire(records.take(i)).len() as int,
            remaining,
            records.take(i),
        ) == Ok::<(Seq<QuestionRecordView>, int), QuestionParseErrorKind>(
            (records, records_wire(records).len() as int),
        ),
    decreases records.len() - i,
{
    let b = records_wire(records);
    let o = records_wire(records.take(i)).len() as int;
    records_wire_prefix(records, i);
    if i == records.len() {
        assert(records.take(i) =~= records);
        assert(o == b.len());
        if remaining > 0 {
            assert(name_at(b, o) == Some((Seq::<char>::empty(), b.len() - 1)));
        }
    } else {
        let q = records[i];
        records_wire_grows(records, i);
        records_wire_prefix(records, i + 1);
        let w = record_wire(q);
        let next = records_wire(records.take(i + 1));
        assert(next.len() == o + w.len());
        assert forall|t: int| 0 <= t < w.len() implies b[o + t] == #[trigger] w[t] by {
            assert(b.take(next.len() as int)[o + t] == next[o + t]);
        }
        scan_one_record(b, o, q, remaining, records.take(i));
        assert(records.take(i).push(q) =~= records.take(i + 1));
        scan_plain_records(records, i + 1, (remaining - 1) as nat);
    }
}

/// Decoding the wire form of questions with plain names, behind any twelve
/// header bytes, gives the questions back, and the position behind them.
pub proof fn question_round_trip(
    header: Seq<u8>,
    records: Seq<QuestionRecordView>,
    expected_number: Option<u16>,
)
    requires
        header.len() == 12,
        0 < records.len() <= wanted(expected_number),
        plain_records(records),
    ensures
        question_of(header + records_wire(records), expected_number) == Ok::<
            (Seq<QuestionRecordView>, int),
            QuestionParseErrorKind,
        >((records, 12 + records_wire(records).len() as int)),
{
    let bytes = header + records_wire(records);
    assert(bytes.subrange(12, bytes.len() as int) =~= records_wire(records));
    assert(records.take(0) =~= Seq::<QuestionRecordView>::empty());
    records_wire_grows(records, 0);
    plain_name_wire(records[0].name);
    scan_plain_records(records, 0, wanted(expected_number));
}

proof fn scan_plain_owner(b: Seq<u8>, o: int, s: Seq<char>, j: int)
    requires
        plain_name(s),
        placed(b, o, name_wire(s)),
        1 <= j <= s.len() + 1,
    ensures
        scan_owner(b, o + j, label_width(s, j - 1), s.take(j - 1)) == (s, Some(o + s.len() + 1)),
    decreases s.len() + 1 - j,
{
    plain_name_wire(s);
    let w = name_wire(s);
    let i = o + j;
    assert(b[o + j] == w[j]);
    if j == s.len() + 1 {
        assert(w[j] == 0u8);
        assert(s.take(j - 1) =~= s);
    } else {
        let c = s[j - 1];
        assert(w[j] == name_body(s)[j]);
        assert(0 < (c as u32) && (c as u32) < 128);
        if c == '.' {
            assert(label_width(s, j - 1) == 0);
            assert(1 <= label_width(s, j) <= 63);
            assert(b[i] as int == label_width(s, j));
            assert(label_width(s, 0) >= 1);
            assert(s[0] != '.');
            assert(j - 1 >= 1);
            assert(dotted(s.take(j - 1)) =~= s.take(j));
            scan_plain_owner(b, o, s, j + 1);
        } else {
            assert(label_width(s, j - 1) == 1 + label_width(s, j));
            assert(b[i] == char_low_byte(c));
            assert(byte_char(b[i]) as u32 == c as u32);
            vstd::utf8::char_u32_cast(c, c as u32);
            vstd::utf8::char_u32_cast(byte_char(b[i]), c as u32);
            assert(s.take(j - 1).push(c) =~= s.take(j));
            scan_plain_owner(b, o, s, j + 1);
        }
    }
}

/// A record that round-trips: an `A` record with a plain name and four
/// data bytes.
pub open spec fn plain_record(r: RrView) -> bool {
    &&& plain_name(r.name)
    &&& r.rrtype == QType::A
    &&& r.rdlength == 4
    &&& r.rdata.len() == 4
}

proof fn ttl_bytes(ttl: u32)
    ensures
        be32(
            (ttl / 16777216) as u8,
            ((ttl / 65536) % 256) as u8,
            ((ttl / 256) % 256) as u8,
            (ttl % 256) as u8,
        ) == ttl,
{
}

/// A plain record that stands in its wire form at some position is
/// decoded to itself, and the decoder stops behind it.
pub proof fn record_round_trip(b: Seq<u8>, o: int, r: RrView)
    requires
        plain_record(r),
        placed(b, o, rr_wire(r)),
    ensures
        rr_wire(r).len() == r.name.len() + 16,
        rr_at(b, o) == Ok::<Option<(RrView, int)>, RrParseErrorKind>(
            Some((r, o + rr_wire(r).len())),
        ),
{
    let s = r.name;
    let n = s.len() as int;
    let w = rr_wire(r);
    plain_name_wire(s);
    assert(w.len() == n + 16);
    assert forall|t: int| 0 <= t < name_wire(s).len() implies b[o + t] == #[trigger] name_wire(
        s,
    )[t] by {
        assert(w[t] == name_wire(s)[t]);
    }
    assert(b[o] == name_wire(s)[0]);
    assert(name_wire(s)[0] == name_body(s)[0]);
    assert(1 <= label_width(s, 0) <= 63);
    assert(dotted(Seq::<char>::empty()) =~= s.take(0));
    scan_plain_owner(b, o, s, 1);
    assert(scan_owner(b, o, 0, Seq::empty()) == (s, Some(o + n + 1)));
    let at = o + n + 2;
    assert forall|k: int| 0 <= k < 14 implies b[at + k] == #[trigger] w[n + 2 + k] by {
        assert(b[o + (n + 2 + k)] == w[n + 2 + k]);
    }
    assert(b[at] == w[n + 2 + 0]);
    assert(b[at + 1] == w[n + 2 + 1]);
    assert(b[at + 2] == w[n + 2 + 2]);
    assert(b[at + 3] == w[n + 2 + 3]);
    assert(b[at + 4] == w[n + 2 + 4]);
    assert(b[at + 5] == w[n + 2 + 5]);
    assert(b[at + 6] == w[n + 2 + 6]);
    assert(b[at + 7] == w[n + 2 + 7]);
    assert(b[at + 8] == w[n + 2 + 8]);
    assert(b[at + 9] == w[n + 2 + 9]);
    assert(b[at + 10] == w[n + 2 + 10]);
    assert(b[at + 11] == w[n + 2 + 11]);
    assert(b[at + 12] == w[n + 2 + 12]);
    assert(b[at + 13] == w[n + 2 + 13]);
    qtype_code_round_trip(r.rrtype);
    class_code_round_trip(r.class);
    ttl_bytes(r.ttl);
    assert(be16(b[at], b[at + 1]) == qtype_code(r.rrtype));
    assert(be16(b[at + 2], b[at + 3]) == class_code(r.class));
    assert(be16(b[at + 8], b[at + 9]) == 4);
    assert(b.subrange(at + 10, at + 14) =~= r.rdata);
}

/// Whether each record is plain.
pub open spec fn plain_rrs(records: Seq<RrView>) -> bool {
    forall|i: int| 0 <= i < records.len() ==> plain_record(#[trigger] records[i])
}

proof fn rrs_wire_grows(records: Seq<RrView>, i: int)
    requires
        0 <= i < records.len(),
    ensures
        rrs_wire(records.take(i + 1)) == rrs_wire(records.take(i)) + rr_wire(records[i]),
{
    assert(records.take(i + 1).drop_last() =~= records.take(i));
    assert(records.take(i + 1).last() == records[i]);
}

proof fn rrs_wire_prefix(records: Seq<RrView>, i: int)
    requires
        0 <= i <= records.len(),
    ensures
        rrs_wire(records.take(i)).len() <= rrs_wire(records).len(),
        rrs_wire(records).take(rrs_wire(records.take(i)).len() as int) == rrs_wire(
            records.take(i),
        ),
    decreases records.len() - i,
{
    if i == records.len() {
        assert(records.take(i) =~= records);
        assert(rrs_wire(records).take(rrs_wire(records).len() as int) =~= rrs_wire(records));
    } else {
        rrs_wire_prefix(records, i + 1);
        rrs_wire_grows(records, i);
        let longer = rrs_wire(records.take(i + 1));
        let shorter = rrs_wire(records.take(i));
        assert(rrs_wire(records).take(shorter.len() as int) =~= longer.take(shorter.len() as int));
        assert(longer.take(shorter.len() as int) =~= shorter);
    }
}

proof fn scan_plain_rrs(records: Seq<RrView>, i: int)
    requires
        plain_rrs(records),
        0 <= i <= records.len(),
    ensures
        scan_rrs(rrs_wire(records), rrs_wire(records.take(i)).len() as int, records.take(i))
            == Ok::<Seq<RrView>, RrParseErrorKind>(records),
    decreases records.len() - i,
{
    let b = rrs_wire(records);
    let o = rrs_wire(records.take(i)).len() as int;
    rrs_wire_prefix(records, i);
    if i == records.len() {
        assert(records.take(i) =~= records);
        assert(o == b.len());
        assert(scan_owner(b, o, 0, Seq::empty()) == (Seq::<char>::empty(), None::<int>));
    } else {
        let r = records[i];
        rrs_wire_grows(records, i);
        rrs_wire_prefix(records, i + 1);
        let w = rr_wire(r);
        let next = rrs_wire(records.take(i + 1));
        assert(next.len() == o + w.len());
        assert forall|t: int| 0 <= t < w.len() implies b[o + t] == #[trigger] w[t] by {
            assert(b.take(next.len() as int)[o + t] == next[o + t]);
        }
        record_round_trip(b, o, r);
        assert(records.take(i).push(r) =~= records.take(i + 1));
        scan_plain_rrs(records, i + 1);
    }
}

/// Decoding the wire form of plain records gives the records back.
pub proof fn rrs_round_trip(records: Seq<RrView>)
    requires
        plain_rrs(records),
    ensures
        scan_rrs(rrs_wire(records), 0, Seq::empty()) == Ok::<Seq<RrView>, RrParseErrorKind>(
            records,
        ),
{
    assert(records.take(0) =~= Seq::<RrView>::empty());
    scan_plain_rrs(records, 0);
}

proof fn records_are_counted(
    bytes: Seq<u8>,
    offset: int,
    remaining: nat,
    found: Seq<QuestionRecordView>,
)
    ensures
        scan_records(bytes, offset, remaining, found) is Ok ==> scan_records(
            bytes,
            offset,
            remaining,
            found,
        )->Ok_0.0.len() <= found.len() + remaining,
    decreases remaining,
{
    if remaining > 0 {
        match name_at(bytes, offset) {
            Some((name, end)) => {
                if name.len() > 0 && end + 5 <= bytes.len() {
                    match (
                        qtype_of_code(be16(bytes[end + 1], bytes[end + 2])),
                        class_of_code(be16(bytes[end + 3], bytes[end + 4])),
                    ) {
                        (Some(qtype), Some(class)) => {
                            records_are_counted(
                                bytes,
                                end + 5,
                                (remaining - 1) as nat,
                                found.push(QuestionRecordView { name, qtype, class }),
                            );
                        },
                        _ => {},
                    }
                }
            },
            None => {},
        }
    }
}

proof fn answers_are_counted(records: Seq<QuestionRecordView>)
    ensures
        answers_for(records) is Ok ==> answers_for(records)->Ok_0.len() == records.len(),
    decreases records.len(),
{
    if records.len() > 0 {
        answers_are_counted(records.drop_last());
    }
}

/// The counts in the header of a local reply are the numbers of questions
/// and answers that the reply holds: a question section never has more
/// questions than sixteen bits count, and every question has one answer.
pub proof fn reply_counts_agree(bytes: Seq<u8>, expected_number: Option<u16>)
    requires
        question_of(bytes, expected_number) is Ok,
    ensures
        ({
            let records = question_of(bytes, expected_number)->Ok_0.0;
            &&& records.len() <= wanted(expected_number) <= 65535
            &&& count_field(records.len()) == records.len()
            &&& answers_for(records) is Ok ==> {
                &&& answers_for(records)->Ok_0.len() == records.len()
                &&& count_field(answers_for(records)->Ok_0.len()) == records.len()
            }
        }),
{
    records_are_counted(
        bytes.subrange(12, bytes.len() as int),
        0,
        wanted(expected_number),
        Seq::empty(),
    );
    answers_are_counted(question_of(bytes, expected_number)->Ok_0.0);
}

} // verus!
