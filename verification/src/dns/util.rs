//! Name sanitising, the wire form of a dotted name, and the byte tests that
//! the name decoders share.

use vstd::prelude::*;
use vstd::string::*;
use crate::text::{
    char_low_byte, chars_of, is_printable, is_printable_char, low_byte_of_char, push_char,
    trim_bounds, trimmed, utf8_width, width_of_char,
};

verus! {

/// The printable ASCII characters of a text, in order.
pub open spec fn printable_only(s: Seq<char>) -> Seq<char>
    decreases s.len(),
{
    if s.len() == 0 {
        Seq::empty()
    } else if is_printable(s.last()) {
        printable_only(s.drop_last()).push(s.last())
    } else {
        printable_only(s.drop_last())
    }
}

/// What `sanitize_name` keeps of a name: the printable ASCII characters of
/// the trimmed text.
pub open spec fn sanitized(s: Seq<char>) -> Seq<char> {
    printable_only(trimmed(s))
}

/// Trims a name and drops every character that is not printable ASCII.
/// Fails, with a message that quotes the input, exactly when nothing is
/// left.
pub fn sanitize_name(name: &str) -> (r: Result<String, String>)
    ensures
        sanitized(name@).len() > 0 ==> r is Ok && r->Ok_0@ == sanitized(name@),
        sanitized(name@).len() == 0 ==> r is Err && r->Err_0@
            == "Name must be valid ASCII string, instead received "@ + name@,
{
    let chars = chars_of(name);
    let n: usize = chars.len();
    let (start, end) = trim_bounds(&chars);
    let mut kept: String = String::new();
    let mut any: bool = false;
    let mut i: usize = start;
    while i < end
        invariant
            start <= i,
            i <= end || i == start,
            end <= n,
            n == chars@.len(),
            kept@ == printable_only(chars@.subrange(start as int, i as int)),
            any == (kept@.len() > 0),
        decreases end - i,
    {
        let c = chars[i];
        proof {
            let next = chars@.subrange(start as int, i + 1);
            assert(next.drop_last() =~= chars@.subrange(start as int, i as int));
            assert(next.last() == c);
        }
        if is_printable_char(c) {
            push_char(&mut kept, c);
            any = true;
        }
        i = i + 1;
    }
    proof {
        if start >= end {
            assert(chars@.subrange(start as int, start as int) =~= Seq::<char>::empty());
        }
    }
    if any {
        Ok(kept)
    } else {
        let mut message = String::from_str("Name must be valid ASCII string, instead received ");
        message.append(name);
        Err(message)
    }
}

/// The UTF-8 length of the label that starts at index `k` of a dotted name.
pub open spec fn label_width(s: Seq<char>, k: int) -> nat
    decreases s.len() - k,
{
    if k < 0 || k >= s.len() || s[k] == '.' {
        0
    } else {
        utf8_width(s[k]) + label_width(s, k + 1)
    }
}

/// The length bytes and label bytes of a dotted name: one byte in front for
/// the first label's length, then one byte per character, a dot giving way
/// to the length of the label behind it.
pub open spec fn name_body(s: Seq<char>) -> Seq<u8> {
    Seq::new(
        s.len() + 1,
        |j: int|
            if j == 0 {
                (label_width(s, 0) % 256) as u8
            } else if s[j - 1] == '.' {
                (label_width(s, j) % 256) as u8
            } else {
                char_low_byte(s[j - 1])
            },
    )
}

/// How many bytes the UTF-8 form of a text has beyond one per character.
pub open spec fn utf8_slack(s: Seq<char>) -> nat
    decreases s.len(),
{
    if s.len() == 0 {
        0
    } else {
        (utf8_slack(s.drop_last()) + utf8_width(s.last()) - 1) as nat
    }
}

/// The wire form of a dotted name: its labels, each behind its length byte,
/// and zero bytes up to the name's UTF-8 length plus two. For an ASCII name
/// that is the labels and the one terminating zero byte.
pub open spec fn name_wire(s: Seq<char>) -> Seq<u8> {
    name_body(s) + Seq::new(1 + utf8_slack(s), |j: int| 0u8)
}

fn label_len_byte(chars: &Vec<char>, k: usize) -> (r: u8)
    requires
        k <= chars@.len(),
    ensures
        r as int == label_width(chars@, k as int) % 256,
{
    let n: usize = chars.len();
    let mut acc: u128 = 0;
    let mut j: usize = k;
    while j < n && chars[j] != '.'
        invariant
            n == chars@.len(),
            k <= j <= n,
            acc <= 4 * (j - k),
            acc + label_width(chars@, j as int) == label_width(chars@, k as int),
        decreases n - j,
    {
        let w: u128 = width_of_char(chars[j]) as u128;
        acc = acc + w;
        j = j + 1;
    }
    (acc % 256) as u8
}

/// The wire form of a dotted name.
pub fn name_to_vec8(name: &str) -> (r: Vec<u8>)
    ensures
        r@ == name_wire(name@),
{
    let chars = chars_of(name);
    let n: usize = chars.len();
    let mut out: Vec<u8> = Vec::new();
    out.push(label_len_byte(&chars, 0));
    let mut k: usize = 0;
    while k < n
        invariant
            n == chars@.len(),
            k <= n,
            out@ == name_body(chars@).take(k + 1),
        decreases n - k,
    {
        let c = chars[k];
        if c == '.' {
            out.push(label_len_byte(&chars, k + 1));
        } else {
            out.push(low_byte_of_char(c));
        }
        proof {
            assert(name_body(chars@).take(k + 2) =~= name_body(chars@).take(k + 1).push(
                name_body(chars@)[k + 1],
            ));
        }
        k = k + 1;
    }
    proof {
        assert(name_body(chars@).take(n + 1) =~= name_body(chars@));
    }
    out.push(0);
    let ghost body = name_body(chars@);
    k = 0;
    while k < n
        invariant
            n == chars@.len(),
            k <= n,
            out@ == body + Seq::new(1 + utf8_slack(chars@.take(k as int)), |j: int| 0u8),
        decreases n - k,
    {
        let w: u8 = width_of_char(chars[k]);
        let ghost before = utf8_slack(chars@.take(k as int));
        proof {
            assert(chars@.take(k + 1).drop_last() =~= chars@.take(k as int));
        }
        let mut extra: u8 = 1;
        while extra < w
            invariant
                1 <= extra <= w <= 4,
                out@ == body + Seq::new((before + extra) as nat, |j: int| 0u8),
            decreases w - extra,
        {
            out.push(0);
            proof {
                assert(out@ =~= body + Seq::new((before + extra + 1) as nat, |j: int| 0u8));
            }
            extra = extra + 1;
        }
        k = k + 1;
    }
    proof {
        assert(chars@.take(n as int) =~= chars@);
    }
    out
}

/// Whether a byte can stand as a label's length.
pub fn is_label_size(b: &u8) -> (r: bool)
    ensures
        r == (*b <= 63),
{
    *b <= 63
}

/// Whether a byte is the zero byte that ends a name.
pub fn is_null_byte(b: &u8) -> (r: bool)
    ensures
        r == (*b == 0),
{
    *b == 0
}

/// Whether two bytes, read as one number, start with the two bits that mark
/// a compression pointer.
pub open spec fn pointer_marked(b: u16) -> bool {
    b >= 0xc000
}

/// The offset that a pointer's low fourteen bits spell, counted from the
/// start of the message.
pub open spec fn pointer_target(b: u16) -> int {
    b as int % 0x4000
}

/// Whether the number carries the two high bits of a compression pointer.
pub fn is_pointer(b: &u16) -> (r: bool)
    ensures
        r == pointer_marked(*b),
{
    let v: u16 = *b;
    proof {
        assert((v & 0xc000 == 0xc000) == (v >= 0xc000)) by (bit_vector);
    }
    v & 0xc000 == 0xc000
}

/// The pointer's target, counted from the end of the twelve header bytes.
/// A target inside the header has no such offset.
pub fn get_pointer_offset(b: &u16) -> (r: usize)
    requires
        pointer_target(*b) >= 12,
    ensures
        r as int == pointer_target(*b) - 12,
{
    let v: u16 = *b;
    proof {
        assert((v & 0x3fff) == v % 0x4000) by (bit_vector);
    }
    let low: u16 = v & 0x3fff;
    (low - 12) as usize
}

} // verus!
