//! Small text helpers shared by both protocols.

use vstd::prelude::*;
use vstd::string::*;

verus! {

/// Appends one character to a string. Wraps `String::push`, which std
/// documents as appending the given `char` to the end of the string.
#[verifier::external_body]
pub(crate) fn push_char(s: &mut String, c: char)
    ensures
        final(s)@ == old(s)@.push(c),
{
    s.push(c)
}

/// The characters of a string, in order.
pub fn chars_of(s: &str) -> (r: Vec<char>)
    ensures
        r@ == s@,
{
    let n: usize = s.unicode_len();
    let mut out: Vec<char> = Vec::new();
    let mut i: usize = 0;
    while i < n
        invariant
            n == s@.len(),
            i <= n,
            out@ == s@.take(i as int),
        decreases n - i,
    {
        out.push(s.get_char(i));
        proof {
            assert(s@.take(i + 1) =~= s@.take(i as int).push(s@[i as int]));
        }
        i = i + 1;
    }
    proof {
        assert(s@.take(n as int) =~= s@);
    }
    out
}

/// Appends the bytes of `tail` to `out`.
pub fn append_bytes(out: &mut Vec<u8>, tail: &[u8])
    ensures
        final(out)@ == old(out)@ + tail@,
{
    let mut i: usize = 0;
    while i < tail.len()
        invariant
            i <= tail@.len(),
            out@ == old(out)@ + tail@.take(i as int),
        decreases tail@.len() - i,
    {
        out.push(tail[i]);
        proof {
            assert(tail@.take(i + 1) =~= tail@.take(i as int).push(tail@[i as int]));
            assert(out@ =~= old(out)@ + tail@.take(i + 1));
        }
        i = i + 1;
    }
    proof {
        assert(tail@.take(tail@.len() as int) =~= tail@);
    }
}

/// The character whose code point is the byte's value.
pub open spec fn byte_char(b: u8) -> char {
    b as char
}

/// The character whose code point is the byte's value.
pub fn char_of_byte(b: u8) -> (c: char)
    ensures
        c == byte_char(b),
        c as u32 == b as u32,
{
    b as char
}

/// The low eight bits of a character's code point.
pub open spec fn char_low_byte(c: char) -> u8 {
    ((c as u32) % 256) as u8
}

/// The low eight bits of a character's code point.
pub fn low_byte_of_char(c: char) -> (b: u8)
    ensures
        b == char_low_byte(c),
{
    let v: u32 = c as u32;
    (v % 256) as u8
}

/// Whether a character is printable ASCII: from the space to the tilde.
pub open spec fn is_printable(c: char) -> bool {
    0x20 <= (c as u32) && (c as u32) <= 0x7E
}

/// Whether a character is printable ASCII.
pub fn is_printable_char(c: char) -> (r: bool)
    ensures
        r == is_printable(c),
{
    let v: u32 = c as u32;
    0x20 <= v && v <= 0x7E
}

/// How many bytes a character takes in UTF-8.
pub open spec fn utf8_width(c: char) -> nat {
    if (c as u32) < 0x80 {
        1
    } else if (c as u32) < 0x800 {
        2
    } else if (c as u32) < 0x10000 {
        3
    } else {
        4
    }
}

/// How many bytes a character takes in UTF-8.
pub fn width_of_char(c: char) -> (w: u8)
    ensures
        w as nat == utf8_width(c),
        1 <= w <= 4,
{
    let v: u32 = c as u32;
    if v < 0x80 {
        1
    } else if v < 0x800 {
        2
    } else if v < 0x10000 {
        3
    } else {
        4
    }
}

/// Whether a character is Unicode white space.
pub open spec fn is_space(c: char) -> bool {
    let v = c as u32;
    (0x09 <= v <= 0x0D) || v == 0x20 || v == 0x85 || v == 0xA0 || v == 0x1680 || (0x2000 <= v
        <= 0x200A) || v == 0x2028 || v == 0x2029 || v == 0x202F || v == 0x205F || v == 0x3000
}

/// Whether a character is Unicode white space.
pub fn is_space_char(c: char) -> (r: bool)
    ensures
        r == is_space(c),
{
    let v: u32 = c as u32;
    (0x09 <= v && v <= 0x0D) || v == 0x20 || v == 0x85 || v == 0xA0 || v == 0x1680 || (0x2000 <= v
        && v <= 0x200A) || v == 0x2028 || v == 0x2029 || v == 0x202F || v == 0x205F || v == 0x3000
}

/// The index of the first character that is not white space, or the length.
pub open spec fn trim_start_at(s: Seq<char>) -> int
    decreases s.len(),
{
    if s.len() == 0 || !is_space(s[0]) {
        0
    } else {
        1 + trim_start_at(s.drop_first())
    }
}

/// The index behind the last character that is not white space, or 0.
pub open spec fn trim_end_at(s: Seq<char>) -> int
    decreases s.len(),
{
    if s.len() == 0 || !is_space(s.last()) {
        s.len() as int
    } else {
        trim_end_at(s.drop_last())
    }
}

/// The text without its leading and trailing white space.
pub open spec fn trimmed(s: Seq<char>) -> Seq<char> {
    if trim_start_at(s) >= trim_end_at(s) {
        Seq::empty()
    } else {
        s.subrange(trim_start_at(s), trim_end_at(s))
    }
}

proof fn trim_start_bounds(s: Seq<char>)
    ensures
        0 <= trim_start_at(s) <= s.len(),
        forall|j: int| 0 <= j < trim_start_at(s) ==> is_space(#[trigger] s[j]),
        trim_start_at(s) < s.len() ==> !is_space(s[trim_start_at(s)]),
    decreases s.len(),
{
    if s.len() == 0 || !is_space(s[0]) {
    } else {
        trim_start_bounds(s.drop_first());
        assert forall|j: int| 0 <= j < trim_start_at(s) implies is_space(#[trigger] s[j]) by {
            if j > 0 {
                assert(s[j] == s.drop_first()[j - 1]);
            }
        }
    }
}

proof fn trim_start_found(s: Seq<char>, k: int)
    requires
        0 <= k <= s.len(),
        forall|j: int| 0 <= j < k ==> is_space(#[trigger] s[j]),
        k < s.len() ==> !is_space(s[k]),
    ensures
        trim_start_at(s) == k,
{
    trim_start_bounds(s);
    let t = trim_start_at(s);
    if t < k {
        assert(is_space(s[t]));
    } else if t > k {
        assert(is_space(s[k]));
    }
}

proof fn trim_end_bounds(s: Seq<char>)
    ensures
        0 <= trim_end_at(s) <= s.len(),
        forall|j: int| trim_end_at(s) <= j < s.len() ==> is_space(#[trigger] s[j]),
        trim_end_at(s) > 0 ==> !is_space(s[trim_end_at(s) - 1]),
    decreases s.len(),
{
    if s.len() == 0 || !is_space(s.last()) {
    } else {
        trim_end_bounds(s.drop_last());
        assert forall|j: int| trim_end_at(s) <= j < s.len() implies is_space(#[trigger] s[j]) by {
            if j < s.len() - 1 {
                assert(s[j] == s.drop_last()[j]);
            }
        }
    }
}

proof fn trim_end_found(s: Seq<char>, k: int)
    requires
        0 <= k <= s.len(),
        forall|j: int| k <= j < s.len() ==> is_space(#[trigger] s[j]),
        k > 0 ==> !is_space(s[k - 1]),
    ensures
        trim_end_at(s) == k,
{
    trim_end_bounds(s);
    let t = trim_end_at(s);
    if t < k {
        assert(is_space(s[k - 1]));
    } else if t > k {
        assert(is_space(s[t - 1]));
    }
}

/// Where the trimmed text starts and ends.
pub fn trim_bounds(chars: &Vec<char>) -> (r: (usize, usize))
    ensures
        r.0 == trim_start_at(chars@),
        r.1 == trim_end_at(chars@),
        r.0 <= chars@.len(),
        r.1 <= chars@.len(),
{
    let n: usize = chars.len();
    let mut start: usize = 0;
    while start < n && is_space_char(chars[start])
        invariant
            n == chars@.len(),
            start <= n,
            forall|j: int| 0 <= j < start ==> is_space(#[trigger] chars@[j]),
        decreases n - start,
    {
        start = start + 1;
    }
    let mut end: usize = n;
    while end > 0 && is_space_char(chars[end - 1])
        invariant
            n == chars@.len(),
            end <= n,
            forall|j: int| end <= j < n ==> is_space(#[trigger] chars@[j]),
        decreases end,
    {
        end = end - 1;
    }
    proof {
        trim_start_found(chars@, start as int);
        trim_end_found(chars@, end as int);
    }
    (start, end)
}

/// The character of a digit below ten.
pub open spec fn digit_char(d: int) -> char {
    ((48 + d) as u8) as char
}

/// A number in decimal, as text.
pub open spec fn number_text(n: nat) -> Seq<char>
    decreases n,
{
    if n < 10 {
        seq![digit_char(n as int)]
    } else {
        number_text(n / 10).push(digit_char((n % 10) as int))
    }
}

/// Appends a number in decimal.
pub fn push_number(s: &mut String, n: u64)
    ensures
        final(s)@ == old(s)@ + number_text(n as nat),
    decreases n,
{
    if n >= 10 {
        push_number(s, n / 10);
    }
    let d: u8 = 48 + (n % 10) as u8;
    push_char(s, d as char);
    proof {
        assert(s@ =~= old(s)@ + number_text(n as nat));
    }
}

} // verus!
