//! The decoder is incremental: however the bytes of a frame arrive, in
//! one piece or in many, it asks for more until the frame is whole and
//! then gives the frame's value.

use vstd::prelude::*;
use crate::resp::codec::{CodecErrorKind, Decoded, decode_step, wire};
use crate::resp::laws::{codec_round_trip, plain_value, value_round_trip};
use crate::resp::rules::{
    Headline, RuleErrorKind, RuleView, Step, bulk_body, crlf_from, fill, fill_weight, headline,
    rule_for, step, unboxed, weight,
};
use crate::resp::types::RespValue;

verus! {

proof fn crlf_stable(b1: Seq<u8>, b2: Seq<u8>, from: int, idx: int)
    requires
        crlf_from(b1, from) == Some(idx),
    ensures
        crlf_from(b1 + b2, from) == Some(idx),
        0 <= from <= idx,
        idx + 2 <= b1.len(),
    decreases b1.len() - from,
{
    assert((b1 + b2)[from] == b1[from]);
    assert((b1 + b2)[from + 1] == b1[from + 1]);
    if !(b1[from] == 13 && b1[from + 1] == 10) {
        crlf_stable(b1, b2, from + 1, idx);
    }
}

proof fn headline_stable(b1: Seq<u8>, b2: Seq<u8>)
    requires
        !(headline(b1) is NeedMore),
    ensures
        headline(b1 + b2) == headline(b1),
        headline(b1) is Number ==> 3 <= headline(b1)->Number_1 <= b1.len(),
{
    let idx = crlf_from(b1, 1)->Some_0;
    crlf_stable(b1, b2, 1, idx);
    assert((b1 + b2).subrange(1, idx) =~= b1.subrange(1, idx));
}

/// What a call gives on the bytes with more behind them, told from what
/// it gives on the bytes alone: where it asked for more, what the call of
/// the rule it left gives on what it left and the new bytes; else the
/// same answer, with the new bytes behind what it left.
pub open spec fn extended(s1: Step, b2: Seq<u8>) -> Step {
    if s1.out == Ok::<Option<RespValue>, RuleErrorKind>(None) {
        step(s1.rule, s1.rest + b2)
    } else {
        Step { rule: s1.rule, rest: s1.rest + b2, out: s1.out }
    }
}

proof fn step_shrinks(r: RuleView, b: Seq<u8>)
    ensures
        step(r, b).rest.len() <= b.len(),
    decreases b.len(), weight(r), 1nat,
{
    let e = Seq::<u8>::empty();
    match r {
        RuleView::SimpleString => {
            if b.len() >= 4 && crlf_from(b, 1) is Some {
                crlf_stable(b, e, 1, crlf_from(b, 1)->Some_0);
            }
        },
        RuleView::Integer => {
            if b.len() >= 4 && !(headline(b) is NeedMore) {
                headline_stable(b, e);
            }
        },
        RuleView::BulkString { size } => {
            if size is None && !(headline(b) is NeedMore) {
                headline_stable(b, e);
            }
        },
        RuleView::Array { values, size: Some(n), child } => {
            fill_shrinks(values, n, unboxed(child), b);
        },
        RuleView::Array { values, size: None, child } => {
            if b.len() >= 4 && !(headline(b) is NeedMore) {
                headline_stable(b, e);
                match headline(b) {
                    Headline::Number(n, used) => {
                        if n >= 0 && n <= usize::MAX {
                            fill_shrinks(values, n as nat, None, b.skip(used));
                        }
                    },
                    _ => {},
                }
            }
        },
    }
}

proof fn fresh_weighs_nothing(byte: u8)
    ensures
        rule_for(byte) is Some ==> weight(rule_for(byte)->Some_0) == 0,
{
}

proof fn fill_shrinks(values: Seq<RespValue>, remaining: nat, child: Option<RuleView>, b: Seq<u8>)
    ensures
        fill(values, remaining, child, b).rest.len() <= b.len(),
    decreases b.len(), fill_weight(remaining, child), 0nat,
{
    if remaining > 0 {
        let begun = match child {
            Some(c) => Some(c),
            None => if b.len() == 0 {
                None
            } else {
                rule_for(b[0])
            },
        };
        match begun {
            None => {},
            Some(c) => {
                if child is None {
                    fresh_weighs_nothing(b[0]);
                }
                step_shrinks(c, b);
                let s = step(c, b);
                match s.out {
                    Ok(Some(v)) => {
                        fill_shrinks(values.push(v), (remaining - 1) as nat, None, s.rest);
                    },
                    _ => {},
                }
            },
        }
    }
}

/// More bytes behind those already there do not change what a rule has
/// decided: a value or an error stays, with the new bytes behind what was
/// left; and where the rule asked for more, calling the rule it left on
/// what it left and the new bytes gives what one call on all the bytes
/// gives.
#[verifier::rlimit(50)]
pub proof fn step_extends(r: RuleView, b1: Seq<u8>, b2: Seq<u8>)
    ensures
        step(r, b1 + b2) == extended(step(r, b1), b2),
    decreases b1.len(), weight(r), 1nat,
{
    let all = b1 + b2;
    match r {
        RuleView::SimpleString => {
            if b1.len() >= 4 && crlf_from(b1, 1) is Some {
                let idx = crlf_from(b1, 1)->Some_0;
                crlf_stable(b1, b2, 1, idx);
                assert(all.subrange(1, idx) =~= b1.subrange(1, idx));
                assert(all.skip(idx + 2) =~= b1.skip(idx + 2) + b2);
            }
        },
        RuleView::Integer => {
            if b1.len() >= 4 && !(headline(b1) is NeedMore) {
                headline_stable(b1, b2);
                match headline(b1) {
                    Headline::Number(n, used) => {
                        assert(all.skip(used) =~= b1.skip(used) + b2);
                    },
                    _ => {},
                }
            }
        },
        RuleView::BulkString { size: Some(n) } => {
            body_extends(n, b1, b2);
        },
        RuleView::BulkString { size: None } => {
            if !(headline(b1) is NeedMore) {
                headline_stable(b1, b2);
                match headline(b1) {
                    Headline::Number(n, used) => {
                        assert(all.skip(used) =~= b1.skip(used) + b2);
                        if n >= 0 && n <= usize::MAX {
                            body_extends(n as nat, b1.skip(used), b2);
                        }
                    },
                    _ => {},
                }
            }
        },
        RuleView::Array { values, size: Some(n), child } => {
            fill_extends(values, n, unboxed(child), b1, b2);
        },
        RuleView::Array { values, size: None, child } => {
            if b1.len() >= 4 && !(headline(b1) is NeedMore) {
                headline_stable(b1, b2);
                match headline(b1) {
                    Headline::Number(n, used) => {
                        assert(all.skip(used) =~= b1.skip(used) + b2);
                        if n >= 0 && n <= usize::MAX {
                            fill_extends(values, n as nat, None, b1.skip(used), b2);
                        }
                    },
                    _ => {},
                }
            }
        },
    }
}

proof fn body_extends(n: nat, x: Seq<u8>, b2: Seq<u8>)
    ensures
        bulk_body(n, x + b2) == extended(bulk_body(n, x), b2),
{
    if x.len() >= n + 2 {
        assert((x + b2).take(n as int) =~= x.take(n as int));
        assert((x + b2).skip((n + 2) as int) =~= x.skip((n + 2) as int) + b2);
    }
}

#[verifier::rlimit(50)]
proof fn fill_extends(
    values: Seq<RespValue>,
    remaining: nat,
    child: Option<RuleView>,
    b1: Seq<u8>,
    b2: Seq<u8>,
)
    ensures
        fill(values, remaining, child, b1 + b2) == extended(
            fill(values, remaining, child, b1),
            b2,
        ),
    decreases b1.len(), fill_weight(remaining, child), 0nat,
{
    let all = b1 + b2;
    if remaining > 0 {
        if child is None && b1.len() == 0 {
            assert(all =~= b2);
            assert(b1 + b2 =~= b2);
        } else {
            if b1.len() > 0 {
                assert(all[0] == b1[0]);
            }
            let begun = match child {
                Some(c) => Some(c),
                None => rule_for(b1[0]),
            };
            match begun {
                None => {},
                Some(c) => {
                    if child is None {
                        fresh_weighs_nothing(b1[0]);
                    }
                    step_extends(c, b1, b2);
                    step_shrinks(c, b1);
                    let s = step(c, b1);
                    let t = step(c, all);
                    match s.out {
                        Ok(Some(v)) => {
                            fill_extends(values.push(v), (remaining - 1) as nat, None, s.rest, b2);
                        },
                        Ok(None) => {
                            step_shrinks(s.rule, s.rest + b2);
                            step_shrinks(c, all);
                        },
                        Err(_) => {},
                    }
                },
            }
        }
    }
}

/// Whether a rule needs bytes before it can give a value: an array that
/// knows its count waits for at least one element, and so does the rule
/// of the element it is reading.
pub open spec fn waits(r: RuleView) -> bool
    decreases r,
{
    match r {
        RuleView::Array { values, size: Some(n), child } => n >= 1 && match child {
            Some(c) => waits(*c),
            None => true,
        },
        _ => true,
    }
}

/// Whether the rule that a decoder keeps, if any, needs bytes.
pub open spec fn kept_waits(rule: Option<RuleView>) -> bool {
    match rule {
        Some(r) => waits(r),
        None => true,
    }
}

proof fn asking_waits(r: RuleView, b: Seq<u8>)
    requires
        step(r, b).out == Ok::<Option<RespValue>, RuleErrorKind>(None),
        waits(r),
    ensures
        waits(step(r, b).rule),
    decreases b.len(), weight(r), 1nat,
{
    let e = Seq::<u8>::empty();
    match r {
        RuleView::Array { values, size: Some(n), child } => {
            fill_asking_waits(values, n, unboxed(child), b);
        },
        RuleView::Array { values, size: None, child } => {
            if b.len() >= 4 && !(headline(b) is NeedMore) {
                headline_stable(b, e);
                match headline(b) {
                    Headline::Number(n, used) => {
                        if n >= 0 && n <= usize::MAX {
                            fill_asking_waits(values, n as nat, None, b.skip(used));
                        }
                    },
                    _ => {},
                }
            }
        },
        _ => {},
    }
}

proof fn fill_asking_waits(
    values: Seq<RespValue>,
    remaining: nat,
    child: Option<RuleView>,
    b: Seq<u8>,
)
    requires
        fill(values, remaining, child, b).out == Ok::<Option<RespValue>, RuleErrorKind>(None),
        kept_waits(child),
    ensures
        waits(fill(values, remaining, child, b).rule),
    decreases b.len(), fill_weight(remaining, child), 0nat,
{
    if remaining > 0 {
        let begun = match child {
            Some(c) => Some(c),
            None => if b.len() == 0 {
                None
            } else {
                rule_for(b[0])
            },
        };
        match begun {
            None => {},
            Some(c) => {
                if child is None {
                    fresh_weighs_nothing(b[0]);
                }
                step_shrinks(c, b);
                let s = step(c, b);
                match s.out {
                    Ok(Some(v)) => {
                        fill_asking_waits(values.push(v), (remaining - 1) as nat, None, s.rest);
                    },
                    Ok(None) => {
                        asking_waits(c, b);
                    },
                    Err(_) => {},
                }
            },
        }
    }
}

proof fn eats_two(r: RuleView, b: Seq<u8>)
    requires
        step(r, b).out is Ok,
        step(r, b).out->Ok_0 is Some,
        waits(r),
    ensures
        step(r, b).rest.len() + 2 <= b.len(),
    decreases b.len(), weight(r), 1nat,
{
    let e = Seq::<u8>::empty();
    match r {
        RuleView::SimpleString => {
            crlf_stable(b, e, 1, crlf_from(b, 1)->Some_0);
        },
        RuleView::Integer => {
            headline_stable(b, e);
        },
        RuleView::BulkString { size } => {
            if size is None {
                headline_stable(b, e);
            }
        },
        RuleView::Array { values, size: Some(n), child } => {
            fill_eats(values, n, unboxed(child), b);
        },
        RuleView::Array { values, size: None, child } => {
            headline_stable(b, e);
            match headline(b) {
                Headline::Number(n, used) => {
                    if n >= 0 && n <= usize::MAX {
                        fill_shrinks(values, n as nat, None, b.skip(used));
                    }
                },
                _ => {},
            }
        },
    }
}

proof fn fill_eats(values: Seq<RespValue>, remaining: nat, child: Option<RuleView>, b: Seq<u8>)
    requires
        fill(values, remaining, child, b).out is Ok,
        fill(values, remaining, child, b).out->Ok_0 is Some,
        remaining >= 1,
        kept_waits(child),
    ensures
        fill(values, remaining, child, b).rest.len() + 2 <= b.len(),
    decreases b.len(), fill_weight(remaining, child), 0nat,
{
    let begun = match child {
        Some(c) => Some(c),
        None => if b.len() == 0 {
            None
        } else {
            rule_for(b[0])
        },
    };
    match begun {
        None => {},
        Some(c) => {
            if child is None {
                fresh_weighs_nothing(b[0]);
            }
            let s = step(c, b);
            step_shrinks(c, b);
            match s.out {
                Ok(Some(v)) => {
                    eats_two(c, b);
                    fill_shrinks(values.push(v), (remaining - 1) as nat, None, s.rest);
                },
                _ => {},
            }
        },
    }
}

/// Feeds the decoder the pieces from the `i`-th to the `upto`-th, each
/// appended to what the buffer holds, and gives what the last of these
/// calls gave.
pub open spec fn fed(
    rule: Option<RuleView>,
    held: Seq<u8>,
    pieces: Seq<Seq<u8>>,
    i: int,
    upto: int,
) -> Decoded
    decreases upto - i,
{
    if i < 0 || upto >= pieces.len() || i > upto {
        Decoded { rule, rest: held, out: Ok(None) }
    } else {
        let d = decode_step(rule, held + pieces[i]);
        if i == upto {
            d
        } else {
            fed(d.rule, d.rest, pieces, i + 1, upto)
        }
    }
}

/// The pieces from the `i`-th on, one behind the other.
pub open spec fn joined(pieces: Seq<Seq<u8>>, i: int) -> Seq<u8>
    decreases pieces.len() - i,
{
    if i < 0 || i >= pieces.len() {
        Seq::empty()
    } else {
        pieces[i] + joined(pieces, i + 1)
    }
}

/// Whether a decoder that holds `held` under `rule` will go on as a fresh
/// decoder that was given `seen` at once.
pub open spec fn in_step(rule: Option<RuleView>, held: Seq<u8>, seen: Seq<u8>) -> bool {
    &&& held.len() <= seen.len()
    &&& kept_waits(rule)
    &&& forall|more: Seq<u8>|
        (held + more).len() >= 2 ==> #[trigger] decode_step(rule, held + more) == decode_step(
            None,
            seen + more,
        )
}

proof fn prefix_asks_for_more(v: RespValue, seen: Seq<u8>, rest: Seq<u8>)
    requires
        plain_value(v),
        seen + rest == wire(v),
        rest.len() > 0,
    ensures
        decode_step(None, seen).out == Ok::<Option<RespValue>, CodecErrorKind>(
            None,
        ),
{
    if seen.len() >= 2 {
        value_round_trip(v, Seq::empty());
        assert(wire(v) + Seq::<u8>::empty() =~= wire(v));
        assert(wire(v)[0] == seen[0]);
        let c = rule_for(seen[0])->Some_0;
        step_extends(c, seen, rest);
        let s = step(c, seen);
        if s.out != Ok::<Option<RespValue>, RuleErrorKind>(None) {
            assert(step(c, wire(v)).rest == s.rest + rest);
            assert((s.rest + rest).len() > 0);
        }
    }
}

#[verifier::rlimit(50)]
proof fn keeps_in_step(
    rule: Option<RuleView>,
    held: Seq<u8>,
    seen: Seq<u8>,
    piece: Seq<u8>,
)
    requires
        in_step(rule, held, seen),
        decode_step(None, seen + piece).out == Ok::<
            Option<RespValue>,
            CodecErrorKind,
        >(None),
    ensures
        ({
            let d = decode_step(rule, held + piece);
            &&& d.out == Ok::<Option<RespValue>, CodecErrorKind>(None)
            &&& in_step(d.rule, d.rest, seen + piece)
        }),
{
    let now = held + piece;
    let d = decode_step(rule, now);
    if now.len() < 2 {
        assert forall|more: Seq<u8>| (d.rest + more).len() >= 2 implies #[trigger] decode_step(
            d.rule,
            d.rest + more,
        ) == decode_step(None, (seen + piece) + more) by {
            assert((held + piece) + more =~= held + (piece + more));
            assert((seen + piece) + more =~= seen + (piece + more));
            assert(decode_step(rule, held + (piece + more)) == decode_step(
                None,
                seen + (piece + more),
            ));
        }
    } else {
        assert(decode_step(rule, held + piece) == decode_step(None, seen + piece));
        let c = match rule {
            Some(r) => r,
            None => rule_for(now[0])->Some_0,
        };
        let s = step(c, now);
        step_shrinks(c, now);
        asking_waits(c, now);
        assert forall|more: Seq<u8>| (d.rest + more).len() >= 2 implies #[trigger] decode_step(
            d.rule,
            d.rest + more,
        ) == decode_step(None, (seen + piece) + more) by {
            assert((held + piece) + more =~= held + (piece + more));
            assert((seen + piece) + more =~= seen + (piece + more));
            assert(decode_step(rule, held + (piece + more)) == decode_step(
                None,
                seen + (piece + more),
            ));
            assert((now + more)[0] == now[0]);
            step_extends(c, now, more);
        }
    }
}

proof fn feeding(
    v: RespValue,
    pieces: Seq<Seq<u8>>,
    i: int,
    rule: Option<RuleView>,
    held: Seq<u8>,
    seen: Seq<u8>,
)
    requires
        plain_value(v),
        0 <= i < pieces.len(),
        pieces.last().len() > 0,
        seen + joined(pieces, i) == wire(v),
        in_step(rule, held, seen),
    ensures
        fed(rule, held, pieces, i, pieces.len() - 1) == (Decoded {
            rule: None,
            rest: Seq::empty(),
            out: Ok(Some(v)),
        }),
        forall|j: int|
            i <= j < pieces.len() - 1 ==> (#[trigger] fed(rule, held, pieces, i, j)).out == Ok::<
                Option<RespValue>,
                CodecErrorKind,
            >(None),
    decreases pieces.len() - i,
{
    let piece = pieces[i];
    if i == pieces.len() - 1 {
        assert(joined(pieces, i + 1) =~= Seq::<u8>::empty());
        assert(seen + piece =~= wire(v));
        codec_round_trip(v, Seq::empty());
        assert(wire(v) + Seq::<u8>::empty() =~= wire(v));
        value_round_trip(v, Seq::empty());
        last_piece_suffices(rule, held, seen, piece, v);
        assert(decode_step(rule, held + piece) == decode_step(None, seen + piece));
    } else {
        let rest = joined(pieces, i + 1);
        last_piece_counts(pieces, i + 1);
        assert((seen + piece) + rest =~= seen + joined(pieces, i));
        prefix_asks_for_more(v, seen + piece, rest);
        keeps_in_step(rule, held, seen, piece);
        let d = decode_step(rule, held + piece);
        feeding(v, pieces, i + 1, d.rule, d.rest, seen + piece);
        assert forall|j: int| i <= j < pieces.len() - 1 implies (#[trigger] fed(
            rule,
            held,
            pieces,
            i,
            j,
        )).out == Ok::<Option<RespValue>, CodecErrorKind>(None) by {
            if j > i {
                assert(fed(rule, held, pieces, i, j) == fed(d.rule, d.rest, pieces, i + 1, j));
            }
        }
    }
}

proof fn last_piece_suffices(
    rule: Option<RuleView>,
    held: Seq<u8>,
    seen: Seq<u8>,
    piece: Seq<u8>,
    v: RespValue,
)
    requires
        plain_value(v),
        in_step(rule, held, seen),
        seen + piece == wire(v),
        piece.len() > 0,
    ensures
        (held + piece).len() >= 2,
{
    if (held + piece).len() < 2 {
        let x = seq![0u8, 0u8];
        let more = piece + x;
        let now = held + more;
        assert(now.len() >= 2);
        assert(decode_step(rule, held + more) == decode_step(None, seen + more));
        assert(seen + more =~= wire(v) + x);
        codec_round_trip(v, x);
        let c = match rule {
            Some(r) => r,
            None => rule_for(now[0])->Some_0,
        };
        eats_two(c, now);
    }
}

proof fn last_piece_counts(pieces: Seq<Seq<u8>>, i: int)
    requires
        0 <= i < pieces.len(),
        pieces.last().len() > 0,
    ensures
        joined(pieces, i).len() > 0,
    decreases pieces.len() - i,
{
    if i < pieces.len() - 1 {
        last_piece_counts(pieces, i + 1);
    }
}

/// Incrementality: the bytes of a plain value, cut into pieces of which
/// the last is not empty and fed to a fresh decoder piece by piece, give
/// the value at the last piece, with nothing left in the buffer and no
/// rule kept. At every piece before the last the decoder asks for more.
pub proof fn fed_in_pieces(v: RespValue, pieces: Seq<Seq<u8>>)
    requires
        plain_value(v),
        pieces.len() > 0,
        pieces.last().len() > 0,
        joined(pieces, 0) == wire(v),
    ensures
        fed(None, Seq::empty(), pieces, 0, pieces.len() - 1) == (Decoded {
            rule: None,
            rest: Seq::empty(),
            out: Ok(Some(v)),
        }),
        forall|j: int|
            0 <= j < pieces.len() - 1 ==> (#[trigger] fed(None, Seq::empty(), pieces, 0, j)).out
                == Ok::<Option<RespValue>, CodecErrorKind>(None),
{
    let e = Seq::<u8>::empty();
    assert(e + joined(pieces, 0) =~= wire(v));
    feeding(v, pieces, 0, None, e, e);
}

} // verus!
