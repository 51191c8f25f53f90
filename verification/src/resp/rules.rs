//! The rules of the streaming decoder. A rule reads one value of its type
//! from the front of the buffer; where the buffer does not hold the whole
//! value yet, it keeps what it has learnt and asks for more.

use vstd::prelude::*;
use vstd::utf8::*;
use vstd::string::*;
use bytes::BytesMut;
use crate::text::push_char;
use crate::resp::buffer::{
    buffered, utf8_lossy, buffer_len, buffer_byte, buffer_advance, is_utf8, lossy_text,
};
use crate::resp::decimal::{i64_of, parse_i64};
use crate::resp::types::{RespDataType, RespValue, RespTypeError, values_of, array_view};

verus! {

/// The kinds of decoding error.
#[derive(PartialEq, Eq, Structural, Debug, Clone, Copy)]
pub enum RuleErrorKind {
    Numeric,
    Utf8,
    Subrule,
}

#[derive(Debug)]
pub enum RespRuleParseError {
    NumericParseError(String),
    Utf8ParseError(String),
    UnexpectedSubruleParseError(String),
}

impl RespRuleParseError {
    pub open spec fn kind(&self) -> RuleErrorKind {
        match self {
            RespRuleParseError::NumericParseError(_) => RuleErrorKind::Numeric,
            RespRuleParseError::Utf8ParseError(_) => RuleErrorKind::Utf8,
            RespRuleParseError::UnexpectedSubruleParseError(_) => RuleErrorKind::Subrule,
        }
    }

    /// The error's text.
    pub fn message(&self) -> (r: String)
        ensures
            r@ == match self {
                RespRuleParseError::NumericParseError(m) => "unable to parse numeric value: "@
                    + m@,
                RespRuleParseError::Utf8ParseError(m) => "unable to parse utf8 value: "@ + m@,
                RespRuleParseError::UnexpectedSubruleParseError(m) =>
                    "unable to parse with subrule: "@ + m@,
            },
    {
        match self {
            RespRuleParseError::NumericParseError(m) => {
                let mut out = String::from_str("unable to parse numeric value: ");
                out.append(m.as_str());
                out
            },
            RespRuleParseError::Utf8ParseError(m) => {
                let mut out = String::from_str("unable to parse utf8 value: ");
                out.append(m.as_str());
                out
            },
            RespRuleParseError::UnexpectedSubruleParseError(m) => {
                let mut out = String::from_str("unable to parse with subrule: ");
                out.append(m.as_str());
                out
            },
        }
    }
}

#[derive(Debug)]
pub enum ParseRuleFactoryError {
    UnexpectedRespType(String),
}

impl ParseRuleFactoryError {
    /// The error's text.
    pub fn message(&self) -> (r: String)
        ensures
            r@ == "unable to get parse rule for provided type: "@
                + self->UnexpectedRespType_0@,
    {
        match self {
            ParseRuleFactoryError::UnexpectedRespType(m) => {
                let mut out = String::from_str("unable to get parse rule for provided type: ");
                out.append(m.as_str());
                out
            },
        }
    }
}

#[derive(Debug)]
pub struct SimpleStringsParseRule {}

#[derive(Debug)]
pub struct IntegersParseRule {}

#[derive(Debug)]
pub struct BulkStringsParseRule {
    /// The announced length, once the length line has been read.
    pub size: Option<usize>,
}

#[derive(Debug)]
pub struct ArraysParseRule {
    /// The elements read so far.
    pub values: Vec<RespDataType>,
    /// How many elements are still to come, once the count line has been
    /// read.
    pub size: Option<usize>,
    /// The rule of the element that is being read.
    pub current_parse_rule: Option<Box<RespRule>>,
}

/// A rule of any of the four kinds.
#[derive(Debug)]
pub enum RespRule {
    SimpleStrings(SimpleStringsParseRule),
    BulkStrings(BulkStringsParseRule),
    Arrays(ArraysParseRule),
    Integers(IntegersParseRule),
}

/// A rule as contracts see it.
pub enum RuleView {
    SimpleString,
    Integer,
    BulkString { size: Option<nat> },
    Array { values: Seq<RespValue>, size: Option<nat>, child: Option<Box<RuleView>> },
}

/// A length or count as a number.
pub open spec fn size_of(size: Option<usize>) -> Option<nat> {
    match size {
        Some(n) => Some(n as nat),
        None => None,
    }
}

/// The model of a rule.
pub open spec fn rule_view(rule: RespRule) -> RuleView
    decreases rule,
{
    match rule {
        RespRule::SimpleStrings(_) => RuleView::SimpleString,
        RespRule::Integers(_) => RuleView::Integer,
        RespRule::BulkStrings(b) => RuleView::BulkString { size: size_of(b.size) },
        RespRule::Arrays(a) => RuleView::Array {
            values: values_of(a.values@),
            size: size_of(a.size),
            child: match a.current_parse_rule {
                Some(c) => Some(Box::new(rule_view(*c))),
                None => None,
            },
        },
    }
}

impl View for RespRule {
    type V = RuleView;

    open spec fn view(&self) -> RuleView {
        rule_view(*self)
    }
}

impl View for ArraysParseRule {
    type V = RuleView;

    open spec fn view(&self) -> RuleView {
        RuleView::Array {
            values: values_of(self.values@),
            size: size_of(self.size),
            child: match self.current_parse_rule {
                Some(c) => Some(Box::new(rule_view(*c))),
                None => None,
            },
        }
    }
}

/// The rule under a box, if there is one.
pub open spec fn unboxed(child: Option<Box<RuleView>>) -> Option<RuleView> {
    match child {
        Some(c) => Some(*c),
        None => None,
    }
}

/// The position of the first carriage return, line feed pair at or behind
/// `i`.
pub open spec fn crlf_from(bytes: Seq<u8>, i: int) -> Option<int>
    decreases bytes.len() - i,
{
    if i < 0 || i + 1 >= bytes.len() {
        None
    } else if bytes[i] == 13 && bytes[i + 1] == 10 {
        Some(i)
    } else {
        crlf_from(bytes, i + 1)
    }
}

/// What the line behind a frame's first byte says.
pub enum Headline {
    /// The line is not complete yet.
    NeedMore,
    /// The line is no number.
    Bad(RuleErrorKind),
    /// The number, and the length of the line with the first byte and the
    /// line end.
    Number(i64, int),
}

/// Reads the decimal number between the first byte and the first line end.
pub open spec fn headline(bytes: Seq<u8>) -> Headline {
    match crlf_from(bytes, 1) {
        None => Headline::NeedMore,
        Some(idx) => {
            let digits = bytes.subrange(1, idx);
            if !valid_utf8(digits) {
                Headline::Bad(RuleErrorKind::Utf8)
            } else {
                match i64_of(digits) {
                    None => Headline::Bad(RuleErrorKind::Numeric),
                    Some(n) => Headline::Number(n, idx + 2),
                }
            }
        },
    }
}

/// One call of a rule: the rule afterwards, the bytes left in the buffer,
/// and the value, the request for more bytes (`Ok(None)`) or the error.
pub struct Step {
    pub rule: RuleView,
    pub rest: Seq<u8>,
    pub out: Result<Option<RespValue>, RuleErrorKind>,
}

/// The rule that a frame's first byte calls for.
pub open spec fn rule_for(byte: u8) -> Option<RuleView> {
    if byte == 43 {
        Some(RuleView::SimpleString)
    } else if byte == 36 {
        Some(RuleView::BulkString { size: None })
    } else if byte == 42 {
        Some(RuleView::Array { values: Seq::empty(), size: None, child: None })
    } else if byte == 58 {
        Some(RuleView::Integer)
    } else {
        None
    }
}

/// The text that a run of bytes stands for: the text that they encode in
/// UTF-8, or, where they are malformed, what `String::from_utf8_lossy`
/// makes of them.
pub open spec fn text_in(bytes: Seq<u8>) -> Seq<char> {
    if valid_utf8(bytes) {
        decode_utf8(bytes)
    } else {
        utf8_lossy(bytes)
    }
}

/// A simple string: with at least four bytes in the buffer, the text
/// between the first byte and the first line end.
pub open spec fn simple_step(bytes: Seq<u8>) -> Step {
    if bytes.len() < 4 {
        Step { rule: RuleView::SimpleString, rest: bytes, out: Ok(None) }
    } else {
        match crlf_from(bytes, 1) {
            None => Step { rule: RuleView::SimpleString, rest: bytes, out: Ok(None) },
            Some(idx) => Step {
                rule: RuleView::SimpleString,
                rest: bytes.skip(idx + 2),
                out: Ok(Some(RespValue::SimpleString(Some(text_in(bytes.subrange(1, idx)))))),
            },
        }
    }
}

/// An integer: with at least four bytes in the buffer, the number on the
/// first line.
pub open spec fn integer_step(bytes: Seq<u8>) -> Step {
    if bytes.len() < 4 {
        Step { rule: RuleView::Integer, rest: bytes, out: Ok(None) }
    } else {
        match headline(bytes) {
            Headline::NeedMore => Step { rule: RuleView::Integer, rest: bytes, out: Ok(None) },
            Headline::Bad(kind) => Step { rule: RuleView::Integer, rest: bytes, out: Err(kind) },
            Headline::Number(n, used) => Step {
                rule: RuleView::Integer,
                rest: bytes.skip(used),
                out: Ok(Some(RespValue::Integer(Some(n)))),
            },
        }
    }
}

/// The body of a bulk string of `n` bytes: once the buffer holds the body
/// and two more bytes, the body's text; the two bytes behind it go too.
pub open spec fn bulk_body(n: nat, bytes: Seq<u8>) -> Step {
    if bytes.len() < n + 2 {
        Step { rule: RuleView::BulkString { size: Some(n) }, rest: bytes, out: Ok(None) }
    } else {
        Step {
            rule: RuleView::BulkString { size: Some(n) },
            rest: bytes.skip((n + 2) as int),
            out: Ok(Some(RespValue::BulkString(Some(text_in(bytes.take(n as int)))))),
        }
    }
}

/// A bulk string: first the length line, a negative length meaning the
/// null bulk string, then the body.
pub open spec fn bulk_step(size: Option<nat>, bytes: Seq<u8>) -> Step {
    match size {
        Some(n) => bulk_body(n, bytes),
        None => match headline(bytes) {
            Headline::NeedMore => Step {
                rule: RuleView::BulkString { size: None },
                rest: bytes,
                out: Ok(None),
            },
            Headline::Bad(kind) => Step {
                rule: RuleView::BulkString { size: None },
                rest: bytes,
                out: Err(kind),
            },
            Headline::Number(n, used) => if n < 0 {
                Step {
                    rule: RuleView::BulkString { size: None },
                    rest: bytes.skip(used),
                    out: Ok(Some(RespValue::BulkString(None))),
                }
            } else if n > usize::MAX {
                Step {
                    rule: RuleView::BulkString { size: None },
                    rest: bytes,
                    out: Err(RuleErrorKind::Numeric),
                }
            } else {
                bulk_body(n as nat, bytes.skip(used))
            },
        },
    }
}

/// How far a rule is from needing bytes: what orders the calls of a rule
/// and of the rules within it.
pub open spec fn weight(rule: RuleView) -> nat
    decreases rule,
{
    match rule {
        RuleView::Array { values, size: Some(n), child } => 2 * n + 1 + match child {
            Some(c) => 1 + weight(*c),
            None => 0,
        },
        _ => 0,
    }
}

/// The weight of an array that waits for `remaining` elements.
pub open spec fn fill_weight(remaining: nat, child: Option<RuleView>) -> nat {
    2 * remaining + match child {
        Some(c) => 1 + weight(c),
        None => 0,
    }
}

/// One call of a rule on the bytes in the buffer.
pub open spec fn step(rule: RuleView, bytes: Seq<u8>) -> Step
    decreases bytes.len(), weight(rule), 1nat,
{
    match rule {
        RuleView::SimpleString => simple_step(bytes),
        RuleView::Integer => integer_step(bytes),
        RuleView::BulkString { size } => bulk_step(size, bytes),
        RuleView::Array { values, size: Some(n), child } => fill(values, n, unboxed(child), bytes),
        RuleView::Array { values, size: None, child } => {
            if bytes.len() < 4 {
                Step { rule, rest: bytes, out: Ok(None) }
            } else {
                match headline(bytes) {
                    Headline::NeedMore => Step { rule, rest: bytes, out: Ok(None) },
                    Headline::Bad(kind) => Step { rule, rest: bytes, out: Err(kind) },
                    Headline::Number(n, used) => if n < 0 {
                        Step { rule, rest: bytes.skip(used), out: Ok(Some(RespValue::Array(None))) }
                    } else if n > usize::MAX || used <= 0 || used > bytes.len() {
                        Step { rule, rest: bytes, out: Err(RuleErrorKind::Numeric) }
                    } else {
                        fill(values, n as nat, None, bytes.skip(used))
                    },
                }
            }
        },
    }
}

/// An array that waits for `remaining` more elements behind `values`,
/// with the rule of the element being read, if one was begun. With none
/// to come the array is complete. Else the element's rule, chosen by the
/// next byte where none was begun, is called: its value joins the array,
/// and the next element is tried at once; its request for more bytes, or
/// its error, is the array's.
pub open spec fn fill(
    values: Seq<RespValue>,
    remaining: nat,
    child: Option<RuleView>,
    bytes: Seq<u8>,
) -> Step
    decreases bytes.len(), fill_weight(remaining, child), 0nat,
{
    if remaining == 0 {
        Step {
            rule: RuleView::Array { values: Seq::empty(), size: Some(0), child: None },
            rest: bytes,
            out: Ok(Some(RespValue::Array(Some(values)))),
        }
    } else {
        let begun = match child {
            Some(c) => Some(c),
            None => if bytes.len() == 0 {
                None
            } else {
                rule_for(bytes[0])
            },
        };
        match begun {
            None => Step {
                rule: RuleView::Array { values, size: Some(remaining), child: None },
                rest: bytes,
                out: if bytes.len() == 0 {
                    Ok(None)
                } else {
                    Err(RuleErrorKind::Subrule)
                },
            },
            Some(c) => {
                let s = step(c, bytes);
                match s.out {
                    Ok(Some(v)) => if s.rest.len() <= bytes.len() {
                        fill(values.push(v), (remaining - 1) as nat, None, s.rest)
                    } else {
                        s
                    },
                    _ => Step {
                        rule: RuleView::Array {
                            values,
                            size: Some(remaining),
                            child: Some(Box::new(s.rule)),
                        },
                        rest: s.rest,
                        out: s.out,
                    },
                }
            },
        }
    }
}

/// What reading one element of an array gives: how many elements are
/// still to come, the rule of the element being read, the bytes left, and
/// the element, the request for more bytes or the error.
pub struct ElementStep {
    pub remaining: nat,
    pub child: Option<RuleView>,
    pub rest: Seq<u8>,
    pub out: Result<Option<RespValue>, RuleErrorKind>,
}

/// Reads the next element of an array that waits for `remaining` more.
/// With none to come there is nothing to read. Else the element's rule,
/// chosen by the next byte where none was begun, is called: a value
/// completes the element; a request for more bytes or an error leaves the
/// rule in place.
pub open spec fn element_step(remaining: nat, child: Option<RuleView>, bytes: Seq<u8>)
    -> ElementStep {
    if remaining == 0 {
        ElementStep { remaining, child, rest: bytes, out: Ok(None) }
    } else {
        let begun = match child {
            Some(c) => Some(c),
            None => if bytes.len() == 0 {
                None
            } else {
                rule_for(bytes[0])
            },
        };
        match begun {
            None => ElementStep {
                remaining,
                child: None,
                rest: bytes,
                out: if bytes.len() == 0 {
                    Ok(None)
                } else {
                    Err(RuleErrorKind::Subrule)
                },
            },
            Some(c) => {
                let s = step(c, bytes);
                match s.out {
                    Ok(Some(v)) => ElementStep {
                        remaining: (remaining - 1) as nat,
                        child: None,
                        rest: s.rest,
                        out: s.out,
                    },
                    _ => ElementStep { remaining, child: Some(s.rule), rest: s.rest, out: s.out },
                }
            },
        }
    }
}

/// Whether a rule's answer is the one that the model gives.
pub open spec fn answers(
    r: Result<Option<RespDataType>, RespRuleParseError>,
    out: Result<Option<RespValue>, RuleErrorKind>,
) -> bool {
    match (r, out) {
        (Ok(Some(v)), Ok(Some(m))) => v@ == m,
        (Ok(None), Ok(None)) => true,
        (Err(e), Err(kind)) => e.kind() == kind,
        _ => false,
    }
}

/// Whether the bytes end in a carriage return and a line feed.
pub fn is_end_seq(bytes: &[u8]) -> (r: bool)
    ensures
        r == (bytes@.len() >= 2 && bytes@[bytes@.len() - 2] == 13 && bytes@[bytes@.len() - 1]
            == 10),
{
    let n: usize = bytes.len();
    n >= 2 && bytes[n - 2] == 13 && bytes[n - 1] == 10
}

/// The length of a line end.
pub fn get_end_seq_len() -> (r: usize)
    ensures
        r == 2,
{
    2
}

/// The position of the first line end at or behind `from`.
pub fn find_end_seq(bytes: &BytesMut, from: usize) -> (r: Option<usize>)
    ensures
        match r {
            Some(idx) => crlf_from(buffered(*bytes), from as int) == Some(idx as int) && from
                <= idx && idx + 2 <= buffered(*bytes).len() <= usize::MAX,
            None => crlf_from(buffered(*bytes), from as int) is None,
        },
{
    let n: usize = buffer_len(bytes);
    let mut idx: usize = from;
    while idx < n && n - idx >= 2
        invariant
            n == buffered(*bytes).len(),
            from <= idx,
            crlf_from(buffered(*bytes), idx as int) == crlf_from(buffered(*bytes), from as int),
        decreases n - idx,
    {
        let pair: [u8; 2] = [buffer_byte(bytes, idx), buffer_byte(bytes, idx + 1)];
        if is_end_seq(pair.as_slice()) {
            return Some(idx);
        }
        idx = idx + 1;
    }
    None
}

/// A copy of the bytes from `from` up to `to`.
pub fn copy_range(bytes: &BytesMut, from: usize, to: usize) -> (r: Vec<u8>)
    requires
        from <= to <= buffered(*bytes).len(),
    ensures
        r@ == buffered(*bytes).subrange(from as int, to as int),
{
    let mut out: Vec<u8> = Vec::new();
    let mut i: usize = from;
    while i < to
        invariant
            from <= i <= to <= buffered(*bytes).len(),
            out@ == buffered(*bytes).subrange(from as int, i as int),
        decreases to - i,
    {
        out.push(buffer_byte(bytes, i));
        proof {
            assert(out@ =~= buffered(*bytes).subrange(from as int, i + 1));
        }
        i = i + 1;
    }
    out
}

/// What `read_headline` found.
pub enum HeadlineRead {
    NeedMore,
    Bad(RespRuleParseError),
    Number(i64, usize),
}

/// Reads the number on the first line, without taking it from the buffer.
pub fn read_headline(bytes: &BytesMut) -> (r: HeadlineRead)
    ensures
        match r {
            HeadlineRead::NeedMore => headline(buffered(*bytes)) is NeedMore,
            HeadlineRead::Bad(e) => headline(buffered(*bytes)) == Headline::Bad(e.kind()),
            HeadlineRead::Number(n, used) => headline(buffered(*bytes)) == Headline::Number(
                n,
                used as int,
            ) && 3 <= used <= buffered(*bytes).len(),
        },
{
    match find_end_seq(bytes, 1) {
        None => HeadlineRead::NeedMore,
        Some(idx) => {
            let digits = copy_range(bytes, 1, idx);
            if !is_utf8(digits.as_slice()) {
                return HeadlineRead::Bad(
                    RespRuleParseError::Utf8ParseError("invalid utf-8 sequence".to_owned()),
                );
            }
            match parse_i64(digits.as_slice()) {
                None => HeadlineRead::Bad(
                    RespRuleParseError::NumericParseError("invalid decimal number".to_owned()),
                ),
                Some(n) => HeadlineRead::Number(n, idx + get_end_seq_len()),
            }
        },
    }
}

/// The rule that a frame's first byte calls for. Fails on any byte but
/// `+`, `$`, `*` and `:`.
pub fn parse_rule_factory(byte: u8) -> (r: Result<RespRule, ParseRuleFactoryError>)
    ensures
        match rule_for(byte) {
            Some(rule) => r is Ok && r->Ok_0@ == rule,
            None => r is Err && r->Err_0->UnexpectedRespType_0@
                == "usupported RESP type provided: "@.push(byte as char),
        },
{
    match RespDataType::from_prefix(byte) {
        Ok(RespDataType::SimpleStrings(_)) => Ok(
            RespRule::SimpleStrings(SimpleStringsParseRule::new()),
        ),
        Ok(RespDataType::BulkStrings(_)) => Ok(RespRule::BulkStrings(BulkStringsParseRule::new())),
        Ok(RespDataType::Arrays(_)) => {
            let rule = ArraysParseRule::new();
            proof {
                assert(values_of(rule.values@) =~= Seq::empty());
            }
            Ok(RespRule::Arrays(rule))
        },
        Ok(RespDataType::Integers(_)) => Ok(RespRule::Integers(IntegersParseRule::new())),
        Ok(RespDataType::Errors(_)) => {
            let mut message = String::from_str("usupported RESP type provided: ");
            push_char(&mut message, byte as char);
            Err(ParseRuleFactoryError::UnexpectedRespType(message))
        },
        Err(RespTypeError::UnsupportedType(c)) => {
            let mut message = String::from_str("usupported RESP type provided: ");
            push_char(&mut message, c);
            Err(ParseRuleFactoryError::UnexpectedRespType(message))
        },
    }
}

impl SimpleStringsParseRule {
    pub fn new() -> (r: Self) {
        Self {  }
    }

    /// Reads a simple string from the front of the buffer.
    pub fn next(&mut self, bytes: &mut BytesMut) -> (r: Result<
        Option<RespDataType>,
        RespRuleParseError,
    >)
        ensures
            answers(r, simple_step(buffered(*old(bytes))).out),
            buffered(*final(bytes)) == simple_step(buffered(*old(bytes))).rest,
            buffered(*final(bytes)).len() <= buffered(*old(bytes)).len(),
    {
        if buffer_len(bytes) < 4 {
            return Ok(None);
        }
        match find_end_seq(bytes, 1) {
            None => Ok(None),
            Some(idx) => {
                let body = copy_range(bytes, 1, idx);
                let text = lossy_text(body.as_slice());
                buffer_advance(bytes, idx + get_end_seq_len());
                Ok(Some(RespDataType::SimpleStrings(Some(text))))
            },
        }
    }
}

impl IntegersParseRule {
    pub fn new() -> (r: Self) {
        Self {  }
    }

    /// Reads an integer from the front of the buffer.
    pub fn next(&mut self, bytes: &mut BytesMut) -> (r: Result<
        Option<RespDataType>,
        RespRuleParseError,
    >)
        ensures
            answers(r, integer_step(buffered(*old(bytes))).out),
            buffered(*final(bytes)) == integer_step(buffered(*old(bytes))).rest,
            buffered(*final(bytes)).len() <= buffered(*old(bytes)).len(),
    {
        if buffer_len(bytes) < 4 {
            return Ok(None);
        }
        match read_headline(bytes) {
            HeadlineRead::NeedMore => Ok(None),
            HeadlineRead::Bad(e) => Err(e),
            HeadlineRead::Number(n, used) => {
                buffer_advance(bytes, used);
                Ok(Some(RespDataType::Integers(Some(n))))
            },
        }
    }
}

impl BulkStringsParseRule {
    pub fn new() -> (r: Self)
        ensures
            r.size is None,
    {
        Self { size: None }
    }

    /// The announced length, or 0 while it is not known.
    pub fn get_size(&self) -> (r: usize)
        ensures
            r == match self.size {
                Some(n) => n,
                None => 0,
            },
    {
        match self.size {
            Some(n) => n,
            None => 0,
        }
    }

    /// Reads a bulk string from the front of the buffer.
    pub fn next(&mut self, bytes: &mut BytesMut) -> (r: Result<
        Option<RespDataType>,
        RespRuleParseError,
    >)
        ensures
            ({
                let s = bulk_step(size_of(old(self).size), buffered(*old(bytes)));
                &&& answers(r, s.out)
                &&& buffered(*final(bytes)) == s.rest
                &&& RuleView::BulkString { size: size_of(final(self).size) } == s.rule
            }),
            buffered(*final(bytes)).len() <= buffered(*old(bytes)).len(),
    {
        if self.size.is_none() {
            match read_headline(bytes) {
                HeadlineRead::NeedMore => {
                    return Ok(None);
                },
                HeadlineRead::Bad(e) => {
                    return Err(e);
                },
                HeadlineRead::Number(n, used) => {
                    if n < 0 {
                        buffer_advance(bytes, used);
                        return Ok(Some(RespDataType::BulkStrings(None)));
                    }
                    if n as u64 > usize::MAX as u64 {
                        return Err(
                            RespRuleParseError::NumericParseError(
                                "number too large to fit in target type".to_owned(),
                            ),
                        );
                    }
                    self.size = Some(n as usize);
                    buffer_advance(bytes, used);
                },
            }
        }
        let size: usize = self.get_size();
        let have: usize = buffer_len(bytes);
        if have < get_end_seq_len() || have - get_end_seq_len() < size {
            return Ok(None);
        }
        let body = copy_range(bytes, 0, size);
        let text = lossy_text(body.as_slice());
        proof {
            assert(buffered(*bytes).subrange(0, size as int) =~= buffered(*bytes).take(size as int));
        }
        buffer_advance(bytes, size + get_end_seq_len());
        Ok(Some(RespDataType::BulkStrings(Some(text))))
    }
}

impl ArraysParseRule {
    pub fn new() -> (r: Self)
        ensures
            r.values@.len() == 0,
            r.size is None,
            r.current_parse_rule is None,
    {
        Self { values: Vec::new(), size: None, current_parse_rule: None }
    }

    /// The number of elements still to come, or 0 while it is not known.
    pub fn get_size(&self) -> (r: usize)
        ensures
            r == match self.size {
                Some(n) => n,
                None => 0,
            },
    {
        match self.size {
            Some(n) => n,
            None => 0,
        }
    }

    /// The model of the rule of the element that is being read.
    pub open spec fn child_view(&self) -> Option<RuleView> {
        match self.current_parse_rule {
            Some(c) => Some(rule_view(*c)),
            None => None,
        }
    }

    /// Reads an array from the front of the buffer: the count line first,
    /// then element after element, each by the rule that its first byte
    /// calls for.
    pub fn next(&mut self, bytes: &mut BytesMut) -> (r: Result<
        Option<RespDataType>,
        RespRuleParseError,
    >)
        ensures
            ({
                let s = step(old(self)@, buffered(*old(bytes)));
                &&& answers(r, s.out)
                &&& buffered(*final(bytes)) == s.rest
                &&& final(self)@ == s.rule
            }),
            buffered(*final(bytes)).len() <= buffered(*old(bytes)).len(),
        decreases buffered(*old(bytes)).len(), weight(old(self)@), 2nat,
    {
        let ghost entry = buffered(*bytes);
        let ghost entry_rule = self@;
        let ghost goal = step(self@, buffered(*bytes));
        if self.size.is_none() {
            if buffer_len(bytes) < 4 {
                return Ok(None);
            }
            match read_headline(bytes) {
                HeadlineRead::NeedMore => {
                    return Ok(None);
                },
                HeadlineRead::Bad(e) => {
                    return Err(e);
                },
                HeadlineRead::Number(n, used) => {
                    if n < 0 {
                        buffer_advance(bytes, used);
                        return Ok(Some(RespDataType::Arrays(None)));
                    }
                    if n as u64 > usize::MAX as u64 {
                        return Err(
                            RespRuleParseError::NumericParseError(
                                "number too large to fit in target type".to_owned(),
                            ),
                        );
                    }
                    self.size = Some(n as usize);
                    self.current_parse_rule = None;
                    buffer_advance(bytes, used);
                },
            }
        }
        loop
            invariant
                self.size is Some,
                entry == buffered(*old(bytes)),
                entry_rule == old(self)@,
                goal == step(entry_rule, entry),
                fill(
                    values_of(self.values@),
                    self.size->Some_0 as nat,
                    self.child_view(),
                    buffered(*bytes),
                ) == goal,
                buffered(*bytes).len() <= entry.len(),
                buffered(*bytes).len() < entry.len() || fill_weight(
                    self.size->Some_0 as nat,
                    self.child_view(),
                ) < weight(entry_rule),
            decreases self.size->Some_0,
        {
            match self.parse_next_rule(bytes) {
                Err(e) => {
                    return Err(e);
                },
                Ok(Some(value)) => {
                    let ghost before = values_of(self.values@);
                    self.values.push(value);
                    proof {
                        assert(values_of(self.values@) =~= before.push(value@));
                    }
                },
                Ok(None) => {
                    if self.get_size() > 0 {
                        return Ok(None);
                    }
                    let mut out: Vec<RespDataType> = Vec::new();
                    core::mem::swap(&mut out, &mut self.values);
                    self.current_parse_rule = None;
                    proof {
                        array_view(out);
                        assert(values_of(self.values@) =~= Seq::empty());
                    }
                    return Ok(Some(RespDataType::Arrays(Some(out))));
                },
            }
        }
    }

    /// Reads the next element of the array, by the rule that its first
    /// byte calls for. Gives nothing where no element is to come, or where
    /// the element is not whole yet.
    pub fn parse_next_rule(&mut self, bytes: &mut BytesMut) -> (r: Result<
        Option<RespDataType>,
        RespRuleParseError,
    >)
        ensures
            ({
                let s = element_step(
                    size_of(old(self).size).unwrap_or(0),
                    old(self).child_view(),
                    buffered(*old(bytes)),
                );
                &&& answers(r, s.out)
                &&& buffered(*final(bytes)) == s.rest
                &&& final(self).child_view() == s.child
                &&& old(self).size is Some ==> final(self).size == Some(s.remaining as usize)
                &&& old(self).size is None ==> final(self).size is None
                &&& final(self).values == old(self).values
            }),
            buffered(*final(bytes)).len() <= buffered(*old(bytes)).len(),
        decreases
            buffered(*old(bytes)).len(),
            fill_weight(size_of(old(self).size).unwrap_or(0), old(self).child_view()),
            0nat,
    {
        let remaining: usize = self.get_size();
        if remaining < 1 {
            return Ok(None);
        }
        let mut child: RespRule = match self.current_parse_rule.take() {
            Some(begun) => *begun,
            None => {
                if buffer_len(bytes) == 0 {
                    return Ok(None);
                }
                match parse_rule_factory(buffer_byte(bytes, 0)) {
                    Ok(fresh) => fresh,
                    Err(e) => {
                        return Err(RespRuleParseError::UnexpectedSubruleParseError(e.message()));
                    },
                }
            },
        };
        match child.next(bytes) {
            Ok(Some(value)) => {
                self.size = Some(remaining - 1);
                Ok(Some(value))
            },
            Ok(None) => {
                self.current_parse_rule = Some(Box::new(child));
                Ok(None)
            },
            Err(e) => {
                self.current_parse_rule = Some(Box::new(child));
                Err(e)
            },
        }
    }
}

impl RespRule {
    /// Reads a value of the rule's kind from the front of the buffer.
    pub fn next(&mut self, bytes: &mut BytesMut) -> (r: Result<
        Option<RespDataType>,
        RespRuleParseError,
    >)
        ensures
            ({
                let s = step(old(self)@, buffered(*old(bytes)));
                &&& answers(r, s.out)
                &&& buffered(*final(bytes)) == s.rest
                &&& final(self)@ == s.rule
            }),
            buffered(*final(bytes)).len() <= buffered(*old(bytes)).len(),
        decreases buffered(*old(bytes)).len(), weight(old(self)@), 3nat,
    {
        match self {
            RespRule::SimpleStrings(rule) => rule.next(bytes),
            RespRule::Integers(rule) => rule.next(bytes),
            RespRule::BulkStrings(rule) => rule.next(bytes),
            RespRule::Arrays(rule) => rule.next(bytes),
        }
    }
}

/// A rule that reads values of one kind from the front of a buffer.
pub trait ParseRule {
    type Output;

    /// Reads one value, or asks for more bytes with `Ok(None)`.
    fn next(&mut self, bytes: &mut BytesMut) -> Result<Option<Self::Output>, RespRuleParseError>;
}

/// A rule that reads RESP values.
pub trait RespParseRule: ParseRule<Output = RespDataType> {

}

impl ParseRule for SimpleStringsParseRule {
    type Output = RespDataType;

    fn next(&mut self, bytes: &mut BytesMut) -> (r: Result<
        Option<RespDataType>,
        RespRuleParseError,
    >)
        ensures
            answers(r, simple_step(buffered(*old(bytes))).out),
            buffered(*final(bytes)) == simple_step(buffered(*old(bytes))).rest,
    {
        SimpleStringsParseRule::next(self, bytes)
    }
}

impl ParseRule for IntegersParseRule {
    type Output = RespDataType;

    fn next(&mut self, bytes: &mut BytesMut) -> (r: Result<
        Option<RespDataType>,
        RespRuleParseError,
    >)
        ensures
            answers(r, integer_step(buffered(*old(bytes))).out),
            buffered(*final(bytes)) == integer_step(buffered(*old(bytes))).rest,
    {
        IntegersParseRule::next(self, bytes)
    }
}

impl ParseRule for BulkStringsParseRule {
    type Output = RespDataType;

    fn next(&mut self, bytes: &mut BytesMut) -> (r: Result<
        Option<RespDataType>,
        RespRuleParseError,
    >)
        ensures
            ({
                let s = bulk_step(size_of(old(self).size), buffered(*old(bytes)));
                &&& answers(r, s.out)
                &&& buffered(*final(bytes)) == s.rest
                &&& RuleView::BulkString { size: size_of(final(self).size) } == s.rule
            }),
    {
        BulkStringsParseRule::next(self, bytes)
    }
}

impl ParseRule for ArraysParseRule {
    type Output = RespDataType;

    fn next(&mut self, bytes: &mut BytesMut) -> (r: Result<
        Option<RespDataType>,
        RespRuleParseError,
    >)
        ensures
            ({
                let s = step(old(self)@, buffered(*old(bytes)));
                &&& answers(r, s.out)
                &&& buffered(*final(bytes)) == s.rest
                &&& final(self)@ == s.rule
            }),
    {
        ArraysParseRule::next(self, bytes)
    }
}

impl ParseRule for RespRule {
    type Output = RespDataType;

    fn next(&mut self, bytes: &mut BytesMut) -> (r: Result<
        Option<RespDataType>,
        RespRuleParseError,
    >)
        ensures
            ({
                let s = step(old(self)@, buffered(*old(bytes)));
                &&& answers(r, s.out)
                &&& buffered(*final(bytes)) == s.rest
                &&& final(self)@ == s.rule
            }),
    {
        RespRule::next(self, bytes)
    }
}

impl RespParseRule for SimpleStringsParseRule {

}

impl RespParseRule for IntegersParseRule {

}

impl RespParseRule for BulkStringsParseRule {

}

impl RespParseRule for ArraysParseRule {

}

impl RespParseRule for RespRule {

}

} // verus!
