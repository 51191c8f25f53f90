//! What holds of the RESP codec as a whole: the decoder reads back what
//! the encoder wrote.

use vstd::prelude::*;
use vstd::utf8::*;
use crate::resp::codec::{
    Decoded, crlf, decode_step, encodable, encodable_upto, wire, wire_upto,
};
use crate::resp::decimal::{
    decimal_of, decimal_round_trip, digits_of, digits_round_trip, is_digit_byte,
};
use crate::resp::rules::{Headline, RuleErrorKind, crlf_from, fill, headline, rule_for, step};
use crate::resp::types::RespValue;

verus! {

/// Whether no carriage return in the bytes has a line feed behind it.
pub open spec fn no_crlf(body: Seq<u8>) -> bool {
    forall|i: int| 0 <= i < body.len() - 1 ==> !(#[trigger] body[i] == 13 && body[i + 1] == 10)
}

/// A value that the decoder reads back from what the encoder wrote for
/// it: a simple string that is present, not empty and free of line ends;
/// any bulk string; an integer that is present; an array that is present
/// and made of such values. Lengths and counts fit the machine's sizes.
pub open spec fn plain_value(v: RespValue) -> bool
    decreases v, 0nat,
{
    match v {
        RespValue::SimpleString(Some(text)) => text.len() > 0 && no_crlf(encode_utf8(text)),
        RespValue::BulkString(Some(text)) => encode_utf8(text).len() <= usize::MAX
            && encode_utf8(text).len() <= i64::MAX,
        RespValue::BulkString(None) => true,
        RespValue::Integer(Some(_)) => true,
        RespValue::Array(Some(items)) => items.len() <= usize::MAX && items.len() <= i64::MAX
            && plain_upto(items, items.len()),
        _ => false,
    }
}

/// Whether each of the first `n` values of a list is plain.
pub open spec fn plain_upto(items: Seq<RespValue>, n: nat) -> bool
    decreases items, n,
{
    if n == 0 || n > items.len() {
        true
    } else {
        plain_upto(items, (n - 1) as nat) && plain_value(items[n - 1])
    }
}

proof fn crlf_found(bytes: Seq<u8>, body_len: int, j: int)
    requires
        1 <= j <= 1 + body_len,
        bytes.len() >= body_len + 3,
        bytes[1 + body_len] == 13,
        bytes[2 + body_len] == 10,
        forall|i: int| 1 <= i < 1 + body_len ==> !(#[trigger] bytes[i] == 13 && bytes[i + 1] == 10),
    ensures
        crlf_from(bytes, j) == Some(1 + body_len),
    decreases 1 + body_len - j,
{
    if j < 1 + body_len {
        crlf_found(bytes, body_len, j + 1);
    }
}

/// A frame line: one first byte, a body free of line ends, the line end,
/// and anything behind it. The first line end stands behind the body.
proof fn line_end(first: u8, body: Seq<u8>, rest: Seq<u8>)
    requires
        no_crlf(body),
    ensures
        crlf_from(seq![first] + body + crlf() + rest, 1) == Some(1 + body.len() as int),
        (seq![first] + body + crlf() + rest).subrange(1, 1 + body.len() as int) == body,
        (seq![first] + body + crlf() + rest).skip(1 + body.len() as int + 2) == rest,
        (seq![first] + body + crlf() + rest).len() == body.len() + 3 + rest.len(),
        (seq![first] + body + crlf() + rest)[0] == first,
{
    let bytes = seq![first] + body + crlf() + rest;
    let n = body.len() as int;
    assert(bytes[1 + n] == 13);
    assert(bytes[2 + n] == 10);
    assert forall|i: int| 1 <= i < 1 + n implies !(#[trigger] bytes[i] == 13 && bytes[i + 1]
        == 10) by {
        assert(bytes[i] == body[i - 1]);
        if i < n {
            assert(bytes[i + 1] == body[i]);
        }
    }
    crlf_found(bytes, n, 1);
    assert(bytes.subrange(1, 1 + n) =~= body);
    assert(bytes.skip(1 + n + 2) =~= rest);
}

proof fn ascii_is_utf8(bytes: Seq<u8>)
    requires
        forall|i: int| 0 <= i < bytes.len() ==> (#[trigger] bytes[i]) < 128,
    ensures
        valid_utf8(bytes),
{
    let chars = Seq::new(bytes.len(), |i: int| bytes[i] as char);
    assert(is_ascii_chars(chars)) by {
        assert forall|i: int| 0 <= i < chars.len() implies '\0' <= #[trigger] chars[i] <= '\u{7f}' by {
            assert(chars[i] == bytes[i] as char);
            assert(bytes[i] < 128);
        }
    }
    is_ascii_chars_encode_utf8(chars);
    assert(encode_utf8(chars) =~= bytes) by {
        assert forall|i: int| 0 <= i < bytes.len() implies encode_utf8(chars)[i] == bytes[i] by {
            assert(chars[i] as u8 == encode_utf8(chars)[i]);
        }
    }
    encode_utf8_valid_utf8(chars);
}

proof fn decimal_is_plain(n: int)
    ensures
        no_crlf(decimal_of(n)),
        valid_utf8(decimal_of(n)),
        decimal_of(n).len() > 0,
{
    let d = decimal_of(n);
    if n < 0 {
        digits_round_trip((-n) as nat);
        assert forall|i: int| 0 <= i < d.len() implies (#[trigger] d[i]) < 128 && d[i] != 13 by {
            if i > 0 {
                assert(d[i] == digits_of((-n) as nat)[i - 1]);
                assert(is_digit_byte(digits_of((-n) as nat)[i - 1]));
            }
        }
    } else {
        digits_round_trip(n as nat);
        assert forall|i: int| 0 <= i < d.len() implies (#[trigger] d[i]) < 128 && d[i] != 13 by {
            assert(is_digit_byte(digits_of(n as nat)[i]));
        }
    }
    ascii_is_utf8(d);
}

/// The line that the encoder writes for a number is read as that number.
proof fn headline_round_trip(first: u8, n: i64, rest: Seq<u8>)
    ensures
        headline(seq![first] + decimal_of(n as int) + crlf() + rest) == Headline::Number(
            n,
            decimal_of(n as int).len() as int + 3,
        ),
{
    decimal_is_plain(n as int);
    line_end(first, decimal_of(n as int), rest);
    decimal_round_trip(n as int);
}

/// Reading a plain value from the bytes that the encoder wrote for it,
/// with the rule that its first byte calls for, gives the value and leaves
/// what stood behind it.
pub proof fn value_round_trip(v: RespValue, rest: Seq<u8>)
    requires
        plain_value(v),
    ensures
        encodable(v),
        wire(v).len() >= 4,
        rule_for(wire(v)[0]) is Some,
        step(rule_for(wire(v)[0])->Some_0, wire(v) + rest).out == Ok::<
            Option<RespValue>,
            RuleErrorKind,
        >(Some(v)),
        step(rule_for(wire(v)[0])->Some_0, wire(v) + rest).rest == rest,
    decreases v, 0nat,
{
    match v {
        RespValue::SimpleString(Some(text)) => {
            let body = encode_utf8(text);
            line_end(43u8, body, rest);
            assert(wire(v) + rest =~= seq![43u8] + body + crlf() + rest);
            encode_utf8_valid_utf8(text);
            encode_utf8_decode_utf8(text);
            assert(body.len() > 0) by {
                assert(encode_utf8(text) == encode_scalar(text[0] as u32) + encode_utf8(
                    text.drop_first(),
                ));
            }
        },
        RespValue::Integer(Some(n)) => {
            decimal_is_plain(n as int);
            line_end(58u8, decimal_of(n as int), rest);
            headline_round_trip(58u8, n, rest);
            assert(wire(v) + rest =~= seq![58u8] + decimal_of(n as int) + crlf() + rest);
        },
        RespValue::BulkString(None) => {
            let bytes = wire(v) + rest;
            assert(decimal_of(-1) =~= seq![45u8, 49u8]) by {
                reveal_with_fuel(digits_of, 2);
            }
            decimal_is_plain(-1);
            headline_round_trip(36u8, -1i64, rest);
            line_end(36u8, decimal_of(-1), rest);
            assert(bytes =~= seq![36u8] + decimal_of(-1) + crlf() + rest);
        },
        RespValue::BulkString(Some(text)) => {
            let body = encode_utf8(text);
            let n = body.len() as i64;
            let behind = body + crlf() + rest;
            decimal_is_plain(n as int);
            headline_round_trip(36u8, n, behind);
            line_end(36u8, decimal_of(n as int), behind);
            assert(wire(v) + rest =~= seq![36u8] + decimal_of(n as int) + crlf() + behind);
            assert(behind.take(body.len() as int) =~= body);
            assert(behind.skip(body.len() as int + 2) =~= rest);
            encode_utf8_valid_utf8(text);
            encode_utf8_decode_utf8(text);
            decimal_is_plain(n as int);
        },
        RespValue::Array(Some(items)) => {
            let n = items.len() as i64;
            let behind = wire_upto(items, items.len()) + rest;
            decimal_is_plain(n as int);
            headline_round_trip(42u8, n, behind);
            line_end(42u8, decimal_of(n as int), behind);
            decimal_is_plain(n as int);
            assert(wire(v) + rest =~= seq![42u8] + decimal_of(n as int) + crlf() + behind);
            items_round_trip(items, 0, rest);
            assert(items.take(0) =~= Seq::<RespValue>::empty());
            encodable_of_plain(items, items.len());
            assert(wire_upto(items, 0) =~= Seq::<u8>::empty());
            assert(wire_from(items, 0) + rest =~= behind) by {
                wire_split(items, 0);
            }
        },
        _ => {},
    }
}

/// The bytes of the values of a list from the `i`-th on.
pub open spec fn wire_from(items: Seq<RespValue>, i: int) -> Seq<u8>
    decreases items.len() - i,
{
    if i < 0 || i >= items.len() {
        Seq::empty()
    } else {
        wire(items[i]) + wire_from(items, i + 1)
    }
}

proof fn wire_split(items: Seq<RespValue>, i: int)
    requires
        0 <= i <= items.len(),
    ensures
        wire_upto(items, items.len()) == wire_upto(items, i as nat) + wire_from(items, i),
    decreases items.len() - i,
{
    if i == items.len() {
        assert(wire_upto(items, items.len()) =~= wire_upto(items, i as nat) + wire_from(items, i));
    } else {
        wire_split(items, i + 1);
        assert(wire_upto(items, (i + 1) as nat) == wire_upto(items, i as nat) + wire(items[i]));
        assert(wire_upto(items, items.len()) =~= wire_upto(items, i as nat) + wire_from(items, i));
    }
}

proof fn plain_each(items: Seq<RespValue>, n: nat, k: int)
    requires
        n <= items.len(),
        plain_upto(items, n),
        0 <= k < n,
    ensures
        plain_value(items[k]),
    decreases n,
{
    if k < n - 1 {
        plain_each(items, (n - 1) as nat, k);
    }
}

proof fn encodable_of_plain(items: Seq<RespValue>, n: nat)
    requires
        n <= items.len(),
        plain_upto(items, items.len()),
    ensures
        encodable_upto(items, n),
    decreases items, n,
{
    if n > 0 {
        encodable_of_plain(items, (n - 1) as nat);
        plain_each(items, items.len(), n - 1);
        value_round_trip(items[n - 1], Seq::empty());
    }
}

proof fn items_round_trip(items: Seq<RespValue>, i: int, rest: Seq<u8>)
    requires
        0 <= i <= items.len(),
        plain_upto(items, items.len()),
    ensures
        fill(items.take(i), (items.len() - i) as nat, None, wire_from(items, i) + rest).out
            == Ok::<Option<RespValue>, RuleErrorKind>(Some(RespValue::Array(Some(items)))),
        fill(items.take(i), (items.len() - i) as nat, None, wire_from(items, i) + rest).rest
            == rest,
    decreases items, items.len() - i,
{
    if i == items.len() {
        assert(items.take(i) =~= items);
        assert(wire_from(items, i) + rest =~= rest);
    } else {
        let v = items[i];
        plain_each(items, items.len(), i);
        let behind = wire_from(items, i + 1) + rest;
        value_round_trip(v, behind);
        let bytes = wire_from(items, i) + rest;
        assert(bytes =~= wire(v) + behind);
        assert(bytes[0] == wire(v)[0]);
        assert(behind.len() <= bytes.len());
        items_round_trip(items, i + 1, rest);
        assert(items.take(i).push(v) =~= items.take(i + 1));
    }
}

/// The decoder reads back what the encoder wrote: fed the bytes of a plain
/// value, with anything behind them, a fresh decoder gives the value,
/// leaves what stood behind, and is fresh again.
pub proof fn codec_round_trip(v: RespValue, rest: Seq<u8>)
    requires
        plain_value(v),
    ensures
        encodable(v),
        decode_step(None, wire(v) + rest) == (Decoded {
            rule: None,
            rest,
            out: Ok(Some(v)),
        }),
{
    value_round_trip(v, rest);
    assert((wire(v) + rest)[0] == wire(v)[0]);
}

} // verus!
