//! Decimal numbers on the wire: how an integer is written and how it is
//! read back.

use vstd::prelude::*;

verus! {

/// The ASCII digit for a value below ten.
pub open spec fn digit_byte(d: int) -> u8 {
    (48 + d) as u8
}

/// The decimal digits of a number, most significant first, without leading
/// zeros.
pub open spec fn digits_of(n: nat) -> Seq<u8>
    decreases n,
{
    if n < 10 {
        seq![digit_byte(n as int)]
    } else {
        digits_of(n / 10).push(digit_byte((n % 10) as int))
    }
}

/// An integer in decimal, with a minus sign in front of a negative one.
pub open spec fn decimal_of(n: int) -> Seq<u8> {
    if n < 0 {
        seq![45u8] + digits_of((-n) as nat)
    } else {
        digits_of(n as nat)
    }
}

/// Whether a byte is an ASCII digit.
pub open spec fn is_digit_byte(b: u8) -> bool {
    48 <= b <= 57
}

/// Whether every byte is an ASCII digit.
pub open spec fn all_digits(s: Seq<u8>) -> bool {
    forall|i: int| 0 <= i < s.len() ==> is_digit_byte(#[trigger] s[i])
}

/// The number that a run of digits spells.
pub open spec fn digits_value(s: Seq<u8>) -> nat
    decreases s.len(),
{
    if s.len() == 0 {
        0
    } else {
        (digits_value(s.drop_last()) * 10 + (s.last() - 48)) as nat
    }
}

/// The integer that a text spells: an optional `+` or `-`, then one or more
/// digits and nothing else.
pub open spec fn decimal_value(s: Seq<u8>) -> Option<int> {
    if s.len() > 0 && (s[0] == 45 || s[0] == 43) {
        let body = s.subrange(1, s.len() as int);
        if body.len() > 0 && all_digits(body) {
            Some(
                if s[0] == 45 {
                    -(digits_value(body) as int)
                } else {
                    digits_value(body) as int
                },
            )
        } else {
            None
        }
    } else if s.len() > 0 && all_digits(s) {
        Some(digits_value(s) as int)
    } else {
        None
    }
}

/// The signed 64-bit integer that a text spells, where it spells one that
/// fits.
pub open spec fn i64_of(s: Seq<u8>) -> Option<i64> {
    match decimal_value(s) {
        Some(v) => if i64::MIN <= v <= i64::MAX {
            Some(v as i64)
        } else {
            None
        },
        None => None,
    }
}

/// Appends the digits of a number.
pub fn push_digits(out: &mut Vec<u8>, n: u64)
    ensures
        final(out)@ == old(out)@ + digits_of(n as nat),
    decreases n,
{
    if n >= 10 {
        push_digits(out, n / 10);
    }
    out.push(48 + (n % 10) as u8);
    proof {
        assert(out@ =~= old(out)@ + digits_of(n as nat));
    }
}

/// Appends an integer in decimal.
pub fn push_decimal(out: &mut Vec<u8>, n: i64)
    ensures
        final(out)@ == old(out)@ + decimal_of(n as int),
{
    if n < 0 {
        out.push(45);
        let magnitude: u64 = (-(n + 1)) as u64 + 1;
        push_digits(out, magnitude);
        proof {
            assert(out@ =~= old(out)@ + decimal_of(n as int));
        }
    } else {
        push_digits(out, n as u64);
    }
}

proof fn digits_value_grows(s: Seq<u8>, k: int)
    requires
        0 <= k <= s.len(),
        all_digits(s),
    ensures
        digits_value(s.take(k)) <= digits_value(s),
    decreases s.len() - k,
{
    if k == s.len() {
        assert(s.take(k) =~= s);
    } else {
        digits_value_grows(s, k + 1);
        assert(s.take(k + 1).drop_last() =~= s.take(k));
        assert(is_digit_byte(s[k]));
        assert(s.take(k + 1).last() == s[k]);
    }
}

/// Reads an integer in decimal.
pub fn parse_i64(bytes: &[u8]) -> (r: Option<i64>)
    ensures
        r == i64_of(bytes@),
{
    let n: usize = bytes.len();
    if n == 0 {
        return None;
    }
    let negative: bool = bytes[0] == 45;
    let start: usize = if bytes[0] == 45 || bytes[0] == 43 {
        1
    } else {
        0
    };
    if start == n {
        return None;
    }
    let ghost body = bytes@.subrange(start as int, n as int);
    proof {
        if start == 0 {
            assert(body =~= bytes@);
        }
    }
    let mut acc: u64 = 0;
    let mut k: usize = start;
    while k < n
        invariant
            start <= k <= n,
            n == bytes@.len(),
            body == bytes@.subrange(start as int, n as int),
            start < n,
            start == 0 ==> body == bytes@,
            start == (if bytes@[0] == 45 || bytes@[0] == 43 { 1usize } else { 0usize }),
            all_digits(body.take(k - start)),
            acc == digits_value(body.take(k - start)),
            acc <= 9223372036854775808,
        decreases n - k,
    {
        let b: u8 = bytes[k];
        if b < 48 || b > 57 {
            proof {
                assert(body[k - start] == b);
            }
            return None;
        }
        proof {
            assert(body.take(k - start + 1).drop_last() =~= body.take(k - start));
            assert(body.take(k - start + 1).last() == b);
            assert forall|i: int| 0 <= i < k - start + 1 implies is_digit_byte(
                #[trigger] body.take(k - start + 1)[i],
            ) by {
                if i < k - start {
                    assert(body.take(k - start + 1)[i] == body.take(k - start)[i]);
                }
            }
        }
        if acc > 922337203685477580 {
            proof {
                assert(digits_value(body.take(k - start + 1)) == acc * 10 + (b - 48));
                if all_digits(body) {
                    digits_value_grows(body, k - start + 1);
                }
            }
            return None;
        }
        acc = acc * 10 + (b - 48) as u64;
        proof {
            assert(digits_value(body.take(k - start + 1)) == acc);
        }
        if acc > 9223372036854775808 {
            proof {
                if all_digits(body) {
                    digits_value_grows(body, k - start + 1);
                }
            }
            return None;
        }
        k = k + 1;
    }
    proof {
        assert(body.take(n - start) =~= body);
    }
    if negative {
        if acc == 9223372036854775808 {
            Some(i64::MIN)
        } else {
            Some(-(acc as i64))
        }
    } else if acc == 9223372036854775808 {
        None
    } else {
        Some(acc as i64)
    }
}

/// The unsigned 64-bit integer that a text spells: an optional `+`, then
/// one or more digits and nothing else, where the number fits.
pub open spec fn u64_of(s: Seq<u8>) -> Option<u64> {
    let body = if s.len() > 0 && s[0] == 43 {
        s.subrange(1, s.len() as int)
    } else {
        s
    };
    if body.len() > 0 && all_digits(body) && digits_value(body) <= u64::MAX {
        Some(digits_value(body) as u64)
    } else {
        None
    }
}

/// Reads an unsigned integer in decimal.
pub fn parse_u64(bytes: &[u8]) -> (r: Option<u64>)
    ensures
        r == u64_of(bytes@),
{
    let n: usize = bytes.len();
    if n == 0 {
        return None;
    }
    let start: usize = if bytes[0] == 43 {
        1
    } else {
        0
    };
    if start == n {
        return None;
    }
    let ghost body = bytes@.subrange(start as int, n as int);
    proof {
        if start == 0 {
            assert(body =~= bytes@);
        }
    }
    let mut acc: u128 = 0;
    let mut k: usize = start;
    while k < n
        invariant
            start <= k <= n,
            n == bytes@.len(),
            body == bytes@.subrange(start as int, n as int),
            start < n,
            start == 0 ==> body == bytes@,
            start == (if bytes@[0] == 43 { 1usize } else { 0usize }),
            all_digits(body.take(k - start)),
            acc == digits_value(body.take(k - start)),
            acc <= u64::MAX,
        decreases n - k,
    {
        let b: u8 = bytes[k];
        if b < 48 || b > 57 {
            proof {
                assert(body[k - start] == b);
            }
            return None;
        }
        proof {
            assert(body.take(k - start + 1).drop_last() =~= body.take(k - start));
            assert(body.take(k - start + 1).last() == b);
            assert forall|i: int| 0 <= i < k - start + 1 implies is_digit_byte(
                #[trigger] body.take(k - start + 1)[i],
            ) by {
                if i < k - start {
                    assert(body.take(k - start + 1)[i] == body.take(k - start)[i]);
                }
            }
        }
        acc = acc * 10 + (b - 48) as u128;
        proof {
            assert(digits_value(body.take(k - start + 1)) == acc);
        }
        if acc > 18446744073709551615 {
            proof {
                if all_digits(body) {
                    digits_value_grows(body, k - start + 1);
                }
            }
            return None;
        }
        k = k + 1;
    }
    proof {
        assert(body.take(n - start) =~= body);
    }
    Some(acc as u64)
}

/// The digits of a number are digits, and spell the number.
pub proof fn digits_round_trip(n: nat)
    ensures
        digits_of(n).len() > 0,
        all_digits(digits_of(n)),
        digits_value(digits_of(n)) == n,
    decreases n,
{
    if n < 10 {
        assert(digits_of(n).drop_last() =~= Seq::<u8>::empty());
        assert(digits_value(Seq::<u8>::empty()) == 0);
    } else {
        digits_round_trip(n / 10);
        assert(digits_of(n).drop_last() =~= digits_of(n / 10));
    }
}

/// Reading back what was written for an integer gives the integer.
pub proof fn decimal_round_trip(n: int)
    ensures
        decimal_value(decimal_of(n)) == Some(n),
{
    if n < 0 {
        digits_round_trip((-n) as nat);
        assert(decimal_of(n).subrange(1, decimal_of(n).len() as int) =~= digits_of((-n) as nat));
    } else {
        digits_round_trip(n as nat);
        assert(is_digit_byte(digits_of(n as nat)[0]));
    }
}

} // verus!
