//! The codec of one connection: the decoder that is fed the growing input
//! buffer, and the encoder that writes replies.

use vstd::prelude::*;
use vstd::string::*;
use vstd::utf8::*;
use bytes::BytesMut;
use crate::text::append_bytes;
use crate::resp::buffer::{buffered, buffer_len, buffer_byte, buffer_extend};
use crate::resp::decimal::{decimal_of, digits_of, push_decimal, push_digits};
use crate::resp::rules::{RespRule, RuleView, parse_rule_factory, rule_for, step};
use crate::resp::types::{RespDataType, RespValue, values_of, array_view};

verus! {

/// The kinds of codec error, after the kinds of I/O error that a caller
/// turns them into.
#[derive(PartialEq, Eq, Structural, Debug, Clone, Copy)]
pub enum CodecErrorKind {
    /// The frame's first byte announces no known type.
    Other,
    /// The frame is malformed.
    InvalidData,
    /// The value cannot be written.
    InvalidInput,
}

#[derive(Debug)]
pub struct CodecError {
    pub kind: CodecErrorKind,
    pub message: String,
}

pub struct RespCodec {
    /// The rule of the frame that is being read, if one was begun.
    pub rule: Option<RespRule>,
}

/// One call of the decoder: the rule kept afterwards, the bytes left, and
/// the value, the request for more bytes or the error.
pub struct Decoded {
    pub rule: Option<RuleView>,
    pub rest: Seq<u8>,
    pub out: Result<Option<RespValue>, CodecErrorKind>,
}

/// One call of the decoder on the bytes in the buffer. With fewer than
/// two bytes it asks for more. Where no frame was begun, the first byte
/// chooses the rule. The rule is dropped once it gives a value, and kept
/// else.
pub open spec fn decode_step(rule: Option<RuleView>, bytes: Seq<u8>) -> Decoded {
    if bytes.len() < 2 {
        Decoded { rule, rest: bytes, out: Ok(None) }
    } else {
        let begun = match rule {
            Some(r) => Some(r),
            None => rule_for(bytes[0]),
        };
        match begun {
            None => Decoded { rule: None, rest: bytes, out: Err(CodecErrorKind::Other) },
            Some(r) => {
                let s = step(r, bytes);
                match s.out {
                    Ok(Some(v)) => Decoded { rule: None, rest: s.rest, out: Ok(Some(v)) },
                    Ok(None) => Decoded { rule: Some(s.rule), rest: s.rest, out: Ok(None) },
                    Err(_) => Decoded {
                        rule: Some(s.rule),
                        rest: s.rest,
                        out: Err(CodecErrorKind::InvalidData),
                    },
                }
            },
        }
    }
}

/// Whether the decoder's answer is the one that the model gives.
pub open spec fn delivered(
    r: Result<Option<RespDataType>, CodecError>,
    out: Result<Option<RespValue>, CodecErrorKind>,
) -> bool {
    match (r, out) {
        (Ok(Some(v)), Ok(Some(m))) => v@ == m,
        (Ok(None), Ok(None)) => true,
        (Err(e), Err(kind)) => e.kind == kind,
        _ => false,
    }
}

/// The two bytes that end a line.
pub open spec fn crlf() -> Seq<u8> {
    seq![13u8, 10u8]
}

/// Whether the encoder writes a value: a simple string or an integer that
/// is present, any bulk string, any error, and an array that is present
/// and made of such values.
pub open spec fn encodable(v: RespValue) -> bool
    decreases v, 0nat,
{
    match v {
        RespValue::SimpleString(Some(_)) => true,
        RespValue::BulkString(_) => true,
        RespValue::Integer(Some(_)) => true,
        RespValue::Error(_) => true,
        RespValue::Array(Some(items)) => encodable_upto(items, items.len()),
        _ => false,
    }
}

/// Whether the encoder writes each of the first `n` values of a list.
pub open spec fn encodable_upto(items: Seq<RespValue>, n: nat) -> bool
    decreases items, n,
{
    if n == 0 || n > items.len() {
        true
    } else {
        encodable_upto(items, (n - 1) as nat) && encodable(items[n - 1])
    }
}

/// The encoder writes the first `n` values exactly if it writes each.
pub proof fn encodable_upto_each(items: Seq<RespValue>, n: nat)
    requires
        n <= items.len(),
    ensures
        encodable_upto(items, n) == (forall|k: int| 0 <= k < n ==> encodable(#[trigger] items[k])),
    decreases n,
{
    if n > 0 {
        encodable_upto_each(items, (n - 1) as nat);
    }
}

/// The bytes of a value on the wire.
pub open spec fn wire(v: RespValue) -> Seq<u8>
    decreases v, 0nat,
{
    match v {
        RespValue::SimpleString(Some(text)) => seq![43u8] + encode_utf8(text) + crlf(),
        RespValue::Error(text) => seq![45u8] + encode_utf8(text) + crlf(),
        RespValue::Integer(Some(n)) => seq![58u8] + decimal_of(n as int) + crlf(),
        RespValue::BulkString(Some(text)) => seq![36u8] + digits_of(encode_utf8(text).len())
            + crlf() + encode_utf8(text) + crlf(),
        RespValue::BulkString(None) => seq![36u8, 45u8, 49u8, 13u8, 10u8],
        RespValue::Array(Some(items)) => seq![42u8] + digits_of(items.len()) + crlf() + wire_upto(
            items,
            items.len(),
        ),
        _ => Seq::empty(),
    }
}

/// The bytes of the first `n` values of a list, one behind the other.
pub open spec fn wire_upto(items: Seq<RespValue>, n: nat) -> Seq<u8>
    decreases items, n,
{
    if n == 0 || n > items.len() {
        Seq::empty()
    } else {
        wire_upto(items, (n - 1) as nat) + wire(items[n - 1])
    }
}

/// Whether the encoder writes the value.
pub fn is_encodable(item: &RespDataType) -> (r: bool)
    ensures
        r == encodable(item@),
    decreases item,
{
    match item {
        RespDataType::SimpleStrings(Some(_)) => true,
        RespDataType::SimpleStrings(None) => false,
        RespDataType::BulkStrings(_) => true,
        RespDataType::Integers(Some(_)) => true,
        RespDataType::Integers(None) => false,
        RespDataType::Errors(_) => true,
        RespDataType::Arrays(None) => false,
        RespDataType::Arrays(Some(items)) => {
            proof {
                array_view(*items);
            }
            let mut i: usize = 0;
            while i < items.len()
                invariant
                    i <= items@.len(),
                    decreases_to!(*item => *items),
                    item@ == RespValue::Array(Some(values_of(items@))),
                    encodable_upto(values_of(items@), i as nat),
                decreases items@.len() - i,
            {
                proof {
                    assert(decreases_to!(*items => items[i as int]));
                    assert(values_of(items@)[i as int] == items@[i as int]@);
                }
                if !is_encodable(&items[i]) {
                    proof {
                        let views = values_of(items@);
                        encodable_upto_each(views, views.len());
                    }
                    return false;
                }
                i = i + 1;
            }
            true
        },
    }
}

/// Appends the bytes of a value that the encoder writes.
pub fn write_value(item: &RespDataType, out: &mut Vec<u8>)
    requires
        encodable(item@),
    ensures
        final(out)@ == old(out)@ + wire(item@),
    decreases item,
{
    match item {
        RespDataType::Errors(text) => {
            out.push(45);
            append_bytes(out, text.as_str().as_bytes());
            out.push(13);
            out.push(10);
            proof {
                assert(out@ =~= old(out)@ + wire(item@));
            }
        },
        RespDataType::Integers(Some(n)) => {
            out.push(58);
            push_decimal(out, *n);
            out.push(13);
            out.push(10);
            proof {
                assert(out@ =~= old(out)@ + wire(item@));
            }
        },
        RespDataType::SimpleStrings(Some(text)) => {
            out.push(43);
            append_bytes(out, text.as_str().as_bytes());
            out.push(13);
            out.push(10);
            proof {
                assert(out@ =~= old(out)@ + wire(item@));
            }
        },
        RespDataType::BulkStrings(Some(text)) => {
            let body = text.as_str().as_bytes();
            out.push(36);
            push_digits(out, body.len() as u64);
            out.push(13);
            out.push(10);
            append_bytes(out, body);
            out.push(13);
            out.push(10);
            proof {
                assert(out@ =~= old(out)@ + wire(item@));
            }
        },
        RespDataType::BulkStrings(None) => {
            out.push(36);
            out.push(45);
            out.push(49);
            out.push(13);
            out.push(10);
            proof {
                assert(out@ =~= old(out)@ + wire(item@));
            }
        },
        RespDataType::Arrays(Some(items)) => {
            proof {
                array_view(*items);
            }
            out.push(42);
            push_digits(out, items.len() as u64);
            out.push(13);
            out.push(10);
            let ghost head = out@;
            let ghost views = values_of(items@);
            proof {
                assert(head =~= old(out)@ + (seq![42u8] + digits_of(views.len()) + crlf()));
            }
            let mut i: usize = 0;
            while i < items.len()
                invariant
                    i <= items@.len(),
                    decreases_to!(*item => *items),
                    views == values_of(items@),
                    encodable_upto(views, views.len()),
                    out@ == head + wire_upto(views, i as nat),
                decreases items@.len() - i,
            {
                proof {
                    assert(decreases_to!(*items => items[i as int]));
                    encodable_upto_each(views, views.len());
                    assert(encodable(views[i as int]));
                }
                write_value(&items[i], out);
                proof {
                    assert(out@ =~= head + wire_upto(views, (i + 1) as nat));
                }
                i = i + 1;
            }
            proof {
                assert(out@ =~= old(out)@ + wire(item@));
            }
        },
        _ => {},
    }
}

impl RespCodec {
    pub fn new() -> (r: Self)
        ensures
            r.rule is None,
    {
        Self { rule: None }
    }

    /// The model of the rule of the frame that is being read.
    pub open spec fn rule_view(&self) -> Option<RuleView> {
        match self.rule {
            Some(r) => Some(r@),
            None => None,
        }
    }

    /// Tries to read one value from the front of the buffer. Gives the
    /// value and takes its bytes, or asks for more (`Ok(None)`) and keeps
    /// what it has learnt of the frame.
    pub fn decode(&mut self, src: &mut BytesMut) -> (r: Result<Option<RespDataType>, CodecError>)
        ensures
            ({
                let d = decode_step(old(self).rule_view(), buffered(*old(src)));
                &&& delivered(r, d.out)
                &&& buffered(*final(src)) == d.rest
                &&& final(self).rule_view() == d.rule
            }),
    {
        if buffer_len(src) < 2 {
            return Ok(None);
        }
        let mut rule: RespRule = match self.rule.take() {
            Some(begun) => begun,
            None => match parse_rule_factory(buffer_byte(src, 0)) {
                Ok(fresh) => fresh,
                Err(e) => {
                    return Err(CodecError { kind: CodecErrorKind::Other, message: e.message() });
                },
            },
        };
        match rule.next(src) {
            Ok(Some(value)) => Ok(Some(value)),
            Ok(None) => {
                self.rule = Some(rule);
                Ok(None)
            },
            Err(e) => {
                self.rule = Some(rule);
                Err(CodecError { kind: CodecErrorKind::InvalidData, message: e.message() })
            },
        }
    }

    /// Writes a value behind what the buffer holds. A value that the
    /// encoder does not write is refused, and so is one that would grow the
    /// buffer beyond `isize::MAX` bytes; the buffer then stays as it was.
    pub fn encode(&mut self, item: RespDataType, dst: &mut BytesMut) -> (r: Result<(), CodecError>)
        ensures
            final(self).rule_view() == old(self).rule_view(),
            writable(item@, buffered(*old(dst))) ==> r is Ok && buffered(*final(dst)) == buffered(
                *old(dst),
            ) + wire(item@),
            !writable(item@, buffered(*old(dst))) ==> r is Err && r->Err_0.kind
                == CodecErrorKind::InvalidInput && buffered(*final(dst)) == buffered(*old(dst)),
    {
        if !is_encodable(&item) {
            return Err(
                CodecError {
                    kind: CodecErrorKind::InvalidInput,
                    message: "encoder does not support provided type or data might be malformed".to_owned(),
                },
            );
        }
        let mut bytes: Vec<u8> = Vec::new();
        write_value(&item, &mut bytes);
        proof {
            assert(bytes@ =~= wire(item@));
        }
        let have: usize = buffer_len(dst);
        let limit: usize = isize::MAX as usize;
        if have > limit || bytes.len() > limit - have {
            return Err(
                CodecError {
                    kind: CodecErrorKind::InvalidInput,
                    message: "encoded value does not fit into the buffer".to_owned(),
                },
            );
        }
        buffer_extend(dst, bytes.as_slice());
        Ok(())
    }
}

/// Whether the encoder writes the value behind the bytes: it writes the
/// value at all, and the buffer stays within `isize::MAX` bytes.
pub open spec fn writable(v: RespValue, held: Seq<u8>) -> bool {
    encodable(v) && held.len() + wire(v).len() <= isize::MAX
}

} // verus!
