//! The opcodes of the RDB file format and the state of its reader.

use vstd::prelude::*;
use bytes::BytesMut;
use crate::resp::buffer::{buffered, buffer_advance, buffer_byte, buffer_len};
use crate::resp::codec::{CodecError, CodecErrorKind};

verus! {

#[derive(PartialEq, Eq, Structural, Debug, Clone, Copy)]
pub enum OpCode {
    Eof,
    SelectDb,
    ExpireTime,
    ExpireTimeMs,
    ResizeDb,
    Aux,
}

#[derive(PartialEq, Eq, Structural, Debug, Clone, Copy)]
pub enum OpCodeParseError {
    UnexpectedOpCode(u8),
}

/// The byte of an opcode.
pub open spec fn opcode_byte(op: OpCode) -> u8 {
    match op {
        OpCode::Aux => 0xFA,
        OpCode::ResizeDb => 0xFB,
        OpCode::ExpireTimeMs => 0xFC,
        OpCode::ExpireTime => 0xFD,
        OpCode::SelectDb => 0xFE,
        OpCode::Eof => 0xFF,
    }
}

impl OpCode {
    /// Whether a byte is an opcode: the six bytes from `0xFA` on.
    pub fn is_valid_opcode(value: &u8) -> (r: bool)
        ensures
            r == (*value >= 0xFA),
            r == exists|op: OpCode| opcode_byte(op) == *value,
    {
        proof {
            if *value >= 0xFA {
                let op = if *value == 0xFA {
                    OpCode::Aux
                } else if *value == 0xFB {
                    OpCode::ResizeDb
                } else if *value == 0xFC {
                    OpCode::ExpireTimeMs
                } else if *value == 0xFD {
                    OpCode::ExpireTime
                } else if *value == 0xFE {
                    OpCode::SelectDb
                } else {
                    OpCode::Eof
                };
                assert(opcode_byte(op) == *value);
            }
        }
        *value >= 0xFA
    }

    /// The opcode that a byte stands for.
    pub fn from_byte(value: u8) -> (r: Result<Self, OpCodeParseError>)
        ensures
            value >= 0xFA ==> r is Ok && opcode_byte(r->Ok_0) == value,
            value < 0xFA ==> r == Err::<OpCode, OpCodeParseError>(
                OpCodeParseError::UnexpectedOpCode(value),
            ),
    {
        if value == 0xFF {
            Ok(OpCode::Eof)
        } else if value == 0xFE {
            Ok(OpCode::SelectDb)
        } else if value == 0xFD {
            Ok(OpCode::ExpireTime)
        } else if value == 0xFC {
            Ok(OpCode::ExpireTimeMs)
        } else if value == 0xFB {
            Ok(OpCode::ResizeDb)
        } else if value == 0xFA {
            Ok(OpCode::Aux)
        } else {
            Err(OpCodeParseError::UnexpectedOpCode(value))
        }
    }

    /// The byte of the opcode.
    pub fn to_byte(self) -> (r: u8)
        ensures
            r == opcode_byte(self),
    {
        match self {
            OpCode::Aux => 0xFA,
            OpCode::ResizeDb => 0xFB,
            OpCode::ExpireTimeMs => 0xFC,
            OpCode::ExpireTime => 0xFD,
            OpCode::SelectDb => 0xFE,
            OpCode::Eof => 0xFF,
        }
    }
}

/// The state of the RDB reader.
pub struct RdbCodec {
    pub current_opcode: Option<OpCode>,
    pub is_header_read: bool,
}

/// The text that opens an RDB file.
pub const HEADER_STR: &'static str = "REDIS";

/// The bytes of the text that opens an RDB file.
pub open spec fn header_magic() -> Seq<u8> {
    seq![82u8, 69u8, 68u8, 73u8, 83u8]
}

/// The position of the first opcode byte at or behind `i`.
pub open spec fn first_opcode(bytes: Seq<u8>, i: int) -> Option<int>
    decreases bytes.len() - i,
{
    if i < 0 || i >= bytes.len() {
        None
    } else if bytes[i] >= 0xFA {
        Some(i)
    } else {
        first_opcode(bytes, i + 1)
    }
}

/// Whether the bytes `s` end in the bytes `t`.
pub open spec fn ends_with(s: Seq<u8>, t: Seq<u8>) -> bool {
    s.len() >= t.len() && s.subrange(s.len() - t.len(), s.len() as int) == t
}

/// One call of the reader: whether the header has been read afterwards,
/// the bytes left, and whether the reader goes on (`Ok(Some)`), asks for
/// more bytes (`Ok(None)`) or refuses the header.
pub struct RdbStep {
    pub is_header_read: bool,
    pub rest: Seq<u8>,
    pub out: Result<Option<()>, CodecErrorKind>,
}

/// One call of the reader. Until the header has been read it looks for
/// the first opcode: what stands in front of it must end in the opening
/// text, and is taken from the buffer.
pub open spec fn rdb_step(is_header_read: bool, bytes: Seq<u8>) -> RdbStep {
    if is_header_read {
        RdbStep { is_header_read, rest: bytes, out: Ok(Some(())) }
    } else {
        match first_opcode(bytes, 0) {
            None => RdbStep { is_header_read, rest: bytes, out: Ok(None) },
            Some(idx) => if ends_with(bytes.take(idx), header_magic()) {
                RdbStep { is_header_read: true, rest: bytes.skip(idx), out: Ok(Some(())) }
            } else {
                RdbStep { is_header_read, rest: bytes, out: Err(CodecErrorKind::Other) }
            },
        }
    }
}

fn find_opcode(src: &BytesMut) -> (r: Option<usize>)
    ensures
        match r {
            Some(idx) => first_opcode(buffered(*src), 0) == Some(idx as int) && idx < buffered(
                *src,
            ).len(),
            None => first_opcode(buffered(*src), 0) is None,
        },
{
    let n: usize = buffer_len(src);
    let mut i: usize = 0;
    while i < n
        invariant
            i <= n,
            n == buffered(*src).len(),
            first_opcode(buffered(*src), i as int) == first_opcode(buffered(*src), 0),
        decreases n - i,
    {
        let b: u8 = buffer_byte(src, i);
        if OpCode::is_valid_opcode(&b) {
            return Some(i);
        }
        i = i + 1;
    }
    None
}

impl RdbCodec {
    pub fn new() -> (r: Self)
        ensures
            r.current_opcode is None,
            !r.is_header_read,
    {
        Self { current_opcode: None, is_header_read: false }
    }

    /// Reads the file's header from the front of the buffer, once.
    pub fn decode(&mut self, src: &mut BytesMut) -> (r: Result<Option<()>, CodecError>)
        ensures
            ({
                let s = rdb_step(old(self).is_header_read, buffered(*old(src)));
                &&& final(self).is_header_read == s.is_header_read
                &&& final(self).current_opcode == old(self).current_opcode
                &&& buffered(*final(src)) == s.rest
                &&& match s.out {
                    Ok(found) => r == Ok::<Option<()>, CodecError>(found),
                    Err(kind) => r is Err && r->Err_0.kind == kind,
                }
            }),
    {
        if !self.is_header_read {
            let idx: usize = match find_opcode(src) {
                Some(idx) => idx,
                None => {
                    return Ok(None);
                },
            };
            let ghost front = buffered(*src).take(idx as int);
            let matches: bool = idx >= 5 && buffer_byte(src, idx - 5) == 82 && buffer_byte(
                src,
                idx - 4,
            ) == 69 && buffer_byte(src, idx - 3) == 68 && buffer_byte(src, idx - 2) == 73
                && buffer_byte(src, idx - 1) == 83;
            proof {
                if idx >= 5 {
                    let tail = front.subrange(front.len() - 5, front.len() as int);
                    assert(tail[0] == buffered(*src)[idx - 5]);
                    assert(tail[1] == buffered(*src)[idx - 4]);
                    assert(tail[2] == buffered(*src)[idx - 3]);
                    assert(tail[3] == buffered(*src)[idx - 2]);
                    assert(tail[4] == buffered(*src)[idx - 1]);
                    if matches {
                        assert(tail =~= header_magic());
                    }
                }
            }
            if !matches {
                return Err(
                    CodecError {
                        kind: CodecErrorKind::Other,
                        message: "unexpected header value".to_owned(),
                    },
                );
            }
            self.is_header_read = true;
            buffer_advance(src, idx);
        }
        Ok(Some(()))
    }
}

} // verus!
