//! The byte buffer that the codec reads from and writes to, and the two
//! UTF-8 conversions of the standard library that the decoder relies on.
//! Nothing here is proved: each contract states what the wrapped function
//! is documented to do.

use vstd::prelude::*;
use vstd::utf8::*;
use bytes::{Buf, BytesMut};

verus! {

/// `bytes::BytesMut`, the growable byte buffer, as a type whose inside is
/// not looked into.
#[verifier::external_type_specification]
#[verifier::external_body]
pub struct ExBytesMut(bytes::BytesMut);

/// The bytes that a buffer holds, first to last.
pub uninterp spec fn buffered(b: BytesMut) -> Seq<u8>;

/// The text that `String::from_utf8_lossy` makes of the bytes.
pub uninterp spec fn utf8_lossy(bytes: Seq<u8>) -> Seq<char>;

/// `BytesMut::len`: the number of bytes in the buffer.
#[verifier::external_body]
pub(crate) fn buffer_len(b: &BytesMut) -> (n: usize)
    ensures
        n == buffered(*b).len(),
{
    b.len()
}

/// Indexing a `BytesMut` through its slice: the byte at position `i`. The
/// index panics out of range, so the position must lie inside.
#[verifier::external_body]
pub(crate) fn buffer_byte(b: &BytesMut, i: usize) -> (v: u8)
    requires
        i < buffered(*b).len(),
    ensures
        v == buffered(*b)[i as int],
{
    b[i]
}

/// `Buf::advance` on a `BytesMut`: drops the first `cnt` bytes and keeps
/// the rest in order. It panics where `cnt` exceeds the length.
#[verifier::external_body]
pub(crate) fn buffer_advance(b: &mut BytesMut, cnt: usize)
    requires
        cnt <= buffered(*old(b)).len(),
    ensures
        buffered(*final(b)) == buffered(*old(b)).skip(cnt as int),
{
    b.advance(cnt)
}

/// `BytesMut::extend_from_slice`: appends the bytes of the slice. Growing
/// panics where the new length overflows, so the sum must stay within
/// `isize::MAX`.
#[verifier::external_body]
pub(crate) fn buffer_extend(b: &mut BytesMut, extend: &[u8])
    requires
        buffered(*old(b)).len() + extend@.len() <= isize::MAX,
    ensures
        buffered(*final(b)) == buffered(*old(b)) + extend@,
{
    b.extend_from_slice(extend)
}

/// `core::str::from_utf8`, asked only whether it succeeds: it does exactly
/// on well-formed UTF-8.
#[verifier::external_body]
pub(crate) fn is_utf8(bytes: &[u8]) -> (r: bool)
    ensures
        r == valid_utf8(bytes@),
{
    core::str::from_utf8(bytes).is_ok()
}

/// `String::from_utf8_lossy`: the text of the bytes, with the replacement
/// character for each malformed sequence. Of well-formed UTF-8 it is the
/// text that the bytes encode.
#[verifier::external_body]
pub(crate) fn lossy_text(bytes: &[u8]) -> (r: String)
    ensures
        r@ == utf8_lossy(bytes@),
        valid_utf8(bytes@) ==> r@ == decode_utf8(bytes@),
{
    String::from_utf8_lossy(bytes).into_owned()
}

} // verus!
