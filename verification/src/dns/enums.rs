//! The closed sets of record types and classes, with their wire codes.

use vstd::prelude::*;
use vstd::string::*;
use crate::text::{number_text, push_number};

verus! {

#[derive(PartialEq, Eq, Structural, Debug, Clone, Copy)]
pub enum QType {
    A,
    NS,
    MX,
    Cname,
    Soa,
    MB,
    MG,
    MR,
    Null,
    Wks,
    Ptr,
    Hinfo,
    Minfo,
    Txt,
    Axfr,
    Mailb,
    Maila,
    Asterisk,
}

#[derive(PartialEq, Eq, Structural, Debug, Clone, Copy)]
pub enum Class {
    IN,
    CS,
    CH,
    HS,
    Asterisk,
}

/// The sixteen-bit number that two bytes spell in network byte order.
pub open spec fn be16(first: u8, second: u8) -> int {
    first as int * 256 + second as int
}

/// The wire code of a record type.
pub open spec fn qtype_code(t: QType) -> int {
    match t {
        QType::A => 1,
        QType::NS => 2,
        QType::MX => 15,
        QType::Cname => 5,
        QType::Soa => 6,
        QType::MB => 7,
        QType::MG => 8,
        QType::MR => 9,
        QType::Null => 10,
        QType::Wks => 11,
        QType::Ptr => 12,
        QType::Hinfo => 13,
        QType::Minfo => 14,
        QType::Txt => 16,
        QType::Axfr => 252,
        QType::Mailb => 253,
        QType::Maila => 254,
        QType::Asterisk => 255,
    }
}

/// The record type that a wire code names, if any.
pub open spec fn qtype_of_code(code: int) -> Option<QType> {
    if code == 1 {
        Some(QType::A)
    } else if code == 2 {
        Some(QType::NS)
    } else if code == 15 {
        Some(QType::MX)
    } else if code == 5 {
        Some(QType::Cname)
    } else if code == 6 {
        Some(QType::Soa)
    } else if code == 7 {
        Some(QType::MB)
    } else if code == 8 {
        Some(QType::MG)
    } else if code == 9 {
        Some(QType::MR)
    } else if code == 10 {
        Some(QType::Null)
    } else if code == 11 {
        Some(QType::Wks)
    } else if code == 12 {
        Some(QType::Ptr)
    } else if code == 13 {
        Some(QType::Hinfo)
    } else if code == 14 {
        Some(QType::Minfo)
    } else if code == 16 {
        Some(QType::Txt)
    } else if code == 252 {
        Some(QType::Axfr)
    } else if code == 253 {
        Some(QType::Mailb)
    } else if code == 254 {
        Some(QType::Maila)
    } else if code == 255 {
        Some(QType::Asterisk)
    } else {
        None
    }
}

/// The wire code of a class. `CH` and `HS` carry 15 and 5, which are not the
/// numbers the DNS registry assigns to them.
pub open spec fn class_code(c: Class) -> int {
    match c {
        Class::IN => 1,
        Class::CS => 2,
        Class::CH => 15,
        Class::HS => 5,
        Class::Asterisk => 255,
    }
}

/// The class that a wire code names, if any.
pub open spec fn class_of_code(code: int) -> Option<Class> {
    if code == 1 {
        Some(Class::IN)
    } else if code == 2 {
        Some(Class::CS)
    } else if code == 15 {
        Some(Class::CH)
    } else if code == 5 {
        Some(Class::HS)
    } else if code == 255 {
        Some(Class::Asterisk)
    } else {
        None
    }
}

/// The two bytes as one number, most significant byte first.
pub fn join_be16(first: u8, second: u8) -> (r: u16)
    ensures
        r as int == be16(first, second),
{
    let hi: u16 = first as u16;
    let lo: u16 = second as u16;
    hi * 256 + lo
}

impl QType {
    /// Reads a record type from its two wire bytes. Fails exactly on the
    /// codes outside the closed set.
    pub fn from_bytes(first: &u8, second: &u8) -> (r: Result<Self, String>)
        ensures
            match qtype_of_code(be16(*first, *second)) {
                Some(t) => r == Ok::<QType, String>(t),
                None => r is Err && r->Err_0@ == "Unsupported QTYPE: "@ + number_text(
                    be16(*first, *second) as nat,
                ),
            },
    {
        let code: u16 = join_be16(*first, *second);
        if code == 1 {
            Ok(QType::A)
        } else if code == 2 {
            Ok(QType::NS)
        } else if code == 15 {
            Ok(QType::MX)
        } else if code == 5 {
            Ok(QType::Cname)
        } else if code == 6 {
            Ok(QType::Soa)
        } else if code == 7 {
            Ok(QType::MB)
        } else if code == 8 {
            Ok(QType::MG)
        } else if code == 9 {
            Ok(QType::MR)
        } else if code == 10 {
            Ok(QType::Null)
        } else if code == 11 {
            Ok(QType::Wks)
        } else if code == 12 {
            Ok(QType::Ptr)
        } else if code == 13 {
            Ok(QType::Hinfo)
        } else if code == 14 {
            Ok(QType::Minfo)
        } else if code == 16 {
            Ok(QType::Txt)
        } else if code == 252 {
            Ok(QType::Axfr)
        } else if code == 253 {
            Ok(QType::Mailb)
        } else if code == 254 {
            Ok(QType::Maila)
        } else if code == 255 {
            Ok(QType::Asterisk)
        } else {
            let mut message = String::from_str("Unsupported QTYPE: ");
            push_number(&mut message, code as u64);
            Err(message)
        }
    }

    /// The low byte of the type's wire code; every code of the set fits in it.
    pub fn to_byte(&self) -> (r: u8)
        ensures
            r as int == qtype_code(*self),
    {
        match self {
            QType::A => 1,
            QType::NS => 2,
            QType::MX => 15,
            QType::Cname => 5,
            QType::Soa => 6,
            QType::MB => 7,
            QType::MG => 8,
            QType::MR => 9,
            QType::Null => 10,
            QType::Wks => 11,
            QType::Ptr => 12,
            QType::Hinfo => 13,
            QType::Minfo => 14,
            QType::Txt => 16,
            QType::Axfr => 252,
            QType::Mailb => 253,
            QType::Maila => 254,
            QType::Asterisk => 255,
        }
    }

    /// The mnemonic under which the type is printed. `MX` prints as `NS`.
    pub fn mnemonic(&self) -> (r: &'static str)
        ensures
            r@ == qtype_mnemonic(*self),
    {
        match self {
            QType::A => "A",
            QType::NS => "NS",
            QType::MX => "NS",
            QType::Cname => "CNAME",
            QType::Soa => "SOA",
            QType::MB => "MB",
            QType::MG => "MG",
            QType::MR => "MR",
            QType::Null => "NULL",
            QType::Wks => "WKS",
            QType::Ptr => "PTR",
            QType::Hinfo => "HINFO",
            QType::Minfo => "MINFO",
            QType::Txt => "TXT",
            QType::Axfr => "AXFR",
            QType::Mailb => "MAILB",
            QType::Maila => "MAILA",
            QType::Asterisk => "ASTERISK",
        }
    }
}

/// The text that stands for a record type in messages.
pub open spec fn qtype_mnemonic(t: QType) -> Seq<char> {
    match t {
        QType::A => "A"@,
        QType::NS => "NS"@,
        QType::MX => "NS"@,
        QType::Cname => "CNAME"@,
        QType::Soa => "SOA"@,
        QType::MB => "MB"@,
        QType::MG => "MG"@,
        QType::MR => "MR"@,
        QType::Null => "NULL"@,
        QType::Wks => "WKS"@,
        QType::Ptr => "PTR"@,
        QType::Hinfo => "HINFO"@,
        QType::Minfo => "MINFO"@,
        QType::Txt => "TXT"@,
        QType::Axfr => "AXFR"@,
        QType::Mailb => "MAILB"@,
        QType::Maila => "MAILA"@,
        QType::Asterisk => "ASTERISK"@,
    }
}

/// The text that stands for a class in messages.
pub open spec fn class_mnemonic(c: Class) -> Seq<char> {
    match c {
        Class::IN => "IN"@,
        Class::CS => "CS"@,
        Class::CH => "CH"@,
        Class::HS => "HS"@,
        Class::Asterisk => "ASTERISK"@,
    }
}

impl Class {
    /// Reads a class from its two wire bytes. Fails exactly on the codes
    /// outside the closed set.
    pub fn from_bytes(first: &u8, second: &u8) -> (r: Result<Self, String>)
        ensures
            match class_of_code(be16(*first, *second)) {
                Some(c) => r == Ok::<Class, String>(c),
                None => r is Err && r->Err_0@ == "Unsupported CLASS: "@ + number_text(
                    be16(*first, *second) as nat,
                ),
            },
    {
        let code: u16 = join_be16(*first, *second);
        if code == 1 {
            Ok(Class::IN)
        } else if code == 2 {
            Ok(Class::CS)
        } else if code == 15 {
            Ok(Class::CH)
        } else if code == 5 {
            Ok(Class::HS)
        } else if code == 255 {
            Ok(Class::Asterisk)
        } else {
            let mut message = String::from_str("Unsupported CLASS: ");
            push_number(&mut message, code as u64);
            Err(message)
        }
    }

    /// The low byte of the class's wire code.
    pub fn to_byte(&self) -> (r: u8)
        ensures
            r as int == class_code(*self),
    {
        match self {
            Class::IN => 1,
            Class::CS => 2,
            Class::CH => 15,
            Class::HS => 5,
            Class::Asterisk => 255,
        }
    }

    /// The mnemonic under which the class is printed.
    pub fn mnemonic(&self) -> (r: &'static str)
        ensures
            r@ == class_mnemonic(*self),
    {
        match self {
            Class::IN => "IN",
            Class::CS => "CS",
            Class::CH => "CH",
            Class::HS => "HS",
            Class::Asterisk => "ASTERISK",
        }
    }
}

/// Reading back the byte that `to_byte` gives, behind a zero byte, yields the
/// same record type.
pub proof fn qtype_code_round_trip(t: QType)
    ensures
        0 <= qtype_code(t) < 256,
        qtype_of_code(qtype_code(t)) == Some(t),
{
}

/// Reading back the byte that `to_byte` gives, behind a zero byte, yields the
/// same class.
pub proof fn class_code_round_trip(c: Class)
    ensures
        0 <= class_code(c) < 256,
        class_of_code(class_code(c)) == Some(c),
{
}

} // verus!
