//! The command engine: an array of bulk strings is read as a command and
//! carried out on the store.

use vstd::prelude::*;
use vstd::string::*;
use vstd::utf8::*;
use crate::text::{chars_of, trimmed, trim_bounds};
use crate::resp::decimal::{parse_u64, u64_of};
use crate::resp::store::{Store, Value, ValueView, now_nanos, expired};
use crate::resp::types::{RespDataType, RespValue, values_of, array_view};

verus! {

/// A command that was carried out, with its reply.
#[derive(Debug)]
pub enum Command {
    Echo(RespDataType),
    Ping(RespDataType),
    /// The command `SET`.
    SetKey(RespDataType),
    Get(RespDataType),
}

/// A command as contracts see it.
pub enum CommandView {
    Echo(RespValue),
    Ping(RespValue),
    SetKey(RespValue),
    Get(RespValue),
}

impl View for Command {
    type V = CommandView;

    open spec fn view(&self) -> CommandView {
        match self {
            Command::Echo(v) => CommandView::Echo(v@),
            Command::Ping(v) => CommandView::Ping(v@),
            Command::SetKey(v) => CommandView::SetKey(v@),
            Command::Get(v) => CommandView::Get(v@),
        }
    }
}

#[derive(Debug)]
pub enum CommandParseError {
    RespParseError,
    UnsupportedCommandError,
    UnsupportedOptionsError,
    OptionParseError(String),
}

/// The kinds of command error.
#[derive(PartialEq, Eq, Structural, Debug, Clone, Copy)]
pub enum CommandErrorKind {
    RespParse,
    UnsupportedCommand,
    UnsupportedOptions,
    OptionParse,
}

impl CommandParseError {
    pub open spec fn kind(&self) -> CommandErrorKind {
        match self {
            CommandParseError::RespParseError => CommandErrorKind::RespParse,
            CommandParseError::UnsupportedCommandError => CommandErrorKind::UnsupportedCommand,
            CommandParseError::UnsupportedOptionsError => CommandErrorKind::UnsupportedOptions,
            CommandParseError::OptionParseError(_) => CommandErrorKind::OptionParse,
        }
    }

    /// The error's text.
    pub open spec fn text(&self) -> Seq<char> {
        match self {
            CommandParseError::RespParseError => "unable to parse command from resp value"@,
            CommandParseError::UnsupportedCommandError => "unsupported command was provided"@,
            CommandParseError::UnsupportedOptionsError => "unsupported options was provided"@,
            CommandParseError::OptionParseError(m) => "unable to parse option args: "@ + m@,
        }
    }

    /// The error's text.
    pub fn message(&self) -> (r: String)
        ensures
            r@ == self.text(),
    {
        match self {
            CommandParseError::RespParseError => String::from_str(
                "unable to parse command from resp value",
            ),
            CommandParseError::UnsupportedCommandError => String::from_str(
                "unsupported command was provided",
            ),
            CommandParseError::UnsupportedOptionsError => String::from_str(
                "unsupported options was provided",
            ),
            CommandParseError::OptionParseError(m) => {
                let mut out = String::from_str("unable to parse option args: ");
                out.append(m.as_str());
                out
            },
        }
    }

    /// The error frame that goes on the wire for this error.
    pub fn to_resp(&self) -> (r: RespDataType)
        ensures
            r@ == RespValue::Error(self.text()),
    {
        RespDataType::Errors(self.message())
    }
}

/// A letter in lower case; any other character as it is.
pub open spec fn lower(c: char) -> char {
    if 'A' <= c && c <= 'Z' {
        ((c as u8 + 32) as u8) as char
    } else {
        c
    }
}

/// A command word as it is compared: trimmed, with its letters in lower
/// case.
pub open spec fn keyword(s: Seq<char>) -> Seq<char> {
    Seq::new(trimmed(s).len(), |i: int| lower(trimmed(s)[i]))
}

fn lower_char(c: char) -> (r: char)
    ensures
        r == lower(c),
{
    if 'A' <= c && c <= 'Z' {
        let b: u8 = c as u8;
        (b + 32) as char
    } else {
        c
    }
}

/// Whether a text, trimmed and in lower case, is the given word.
pub fn is_word(text: &str, word: &str) -> (r: bool)
    ensures
        r == (keyword(text@) == word@),
{
    let chars = chars_of(text);
    let wanted = chars_of(word);
    let (start, end) = trim_bounds(&chars);
    let ghost body = trimmed(chars@);
    if start >= end {
        proof {
            assert(keyword(text@).len() == 0);
            if wanted@.len() == 0 {
                assert(keyword(text@) =~= word@);
            }
        }
        return wanted.len() == 0;
    }
    let n: usize = end - start;
    if n != wanted.len() {
        proof {
            assert(keyword(text@).len() == n);
        }
        return false;
    }
    let mut i: usize = 0;
    while i < n
        invariant
            i <= n,
            start < end <= chars@.len(),
            n == end - start,
            n == wanted@.len(),
            wanted@ == word@,
            chars@ == text@,
            body == chars@.subrange(start as int, end as int),
            body == trimmed(text@),
            forall|k: int| 0 <= k < i ==> lower(#[trigger] body[k]) == wanted@[k],
        decreases n - i,
    {
        if lower_char(chars[start + i]) != wanted[i] {
            proof {
                assert(body[i as int] == chars@[start + i]);
                assert(keyword(text@)[i as int] != word@[i as int]);
            }
            return false;
        }
        proof {
            assert(body[i as int] == chars@[start + i]);
        }
        i = i + 1;
    }
    proof {
        assert(keyword(text@) =~= word@);
    }
    true
}

/// What carrying out a command gives: the reply or the error, and the
/// store afterwards.
pub struct Outcome {
    pub reply: Result<CommandView, CommandErrorKind>,
    pub store: Map<RespValue, ValueView>,
}

/// Whether every value of the list is a bulk string.
pub open spec fn all_bulk(items: Seq<RespValue>) -> bool {
    forall|i: int| 0 <= i < items.len() ==> (#[trigger] items[i]) is BulkString
}

/// The command word that a value holds, if it is a bulk string with text.
pub open spec fn word_of(v: RespValue) -> Option<Seq<char>> {
    match v {
        RespValue::BulkString(Some(text)) => Some(keyword(text)),
        _ => None,
    }
}

/// The time to live, in milliseconds, that the option and its amount ask
/// for: `EX` counts seconds, `PX` milliseconds.
pub open spec fn ttl_of(option: RespValue, amount: RespValue) -> Result<u128, CommandErrorKind> {
    match word_of(option) {
        Some(w) => if w == "px"@ || w == "ex"@ {
            match amount {
                RespValue::BulkString(Some(text)) => match u64_of(encode_utf8(text)) {
                    Some(n) => Ok(
                        if w == "ex"@ {
                            (n * 1000) as u128
                        } else {
                            n as u128
                        },
                    ),
                    None => Err(CommandErrorKind::OptionParse),
                },
                _ => Err(CommandErrorKind::OptionParse),
            }
        } else {
            Err(CommandErrorKind::UnsupportedOptions)
        },
        None => Err(CommandErrorKind::UnsupportedOptions),
    }
}

/// Stored data as `GET` replies it: a simple string becomes a bulk string.
pub open spec fn as_bulk(v: RespValue) -> RespValue {
    match v {
        RespValue::SimpleString(text) => RespValue::BulkString(text),
        _ => v,
    }
}

/// An error, with the store as it was.
pub open spec fn refused(kind: CommandErrorKind, store: Map<RespValue, ValueView>) -> Outcome {
    Outcome { reply: Err(kind), store }
}

/// Carries out the command that a value spells, at the time `now`.
///
/// The value must be an array of one or more bulk strings. Its first
/// element, trimmed and without regard to case, names the command:
/// `PING` alone replies `PONG`; `ECHO` with one argument replies the
/// argument; `SET` with key and value stores the value for good, and with
/// `EX` or `PX` and an amount stores it with that time to live; `GET` with
/// a key replies the stored data, or the null bulk string where there is
/// none or it has expired, and drops an expired entry.
pub open spec fn perform(v: RespValue, store: Map<RespValue, ValueView>, now: u128) -> Outcome {
    match v {
        RespValue::Array(Some(items)) => {
            if items.len() == 0 || !all_bulk(items) {
                refused(CommandErrorKind::RespParse, store)
            } else {
                match word_of(items[0]) {
                    None => refused(CommandErrorKind::UnsupportedCommand, store),
                    Some(w) => {
                        if w == "ping"@ && items.len() == 1 {
                            Outcome {
                                reply: Ok(
                                    CommandView::Ping(RespValue::SimpleString(Some("PONG"@))),
                                ),
                                store,
                            }
                        } else if w == "echo"@ && items.len() == 2 {
                            Outcome { reply: Ok(CommandView::Echo(items[1])), store }
                        } else if w == "set"@ && items.len() == 3 {
                            Outcome {
                                reply: Ok(CommandView::SetKey(RespValue::SimpleString(Some("OK"@)))),
                                store: store.insert(
                                    items[1],
                                    ValueView { data: items[2], ttl: None, created_at: now },
                                ),
                            }
                        } else if w == "set"@ && items.len() == 5 {
                            match ttl_of(items[3], items[4]) {
                                Err(kind) => refused(kind, store),
                                Ok(ttl) => Outcome {
                                    reply: Ok(
                                        CommandView::SetKey(RespValue::SimpleString(Some("OK"@))),
                                    ),
                                    store: store.insert(
                                        items[1],
                                        ValueView {
                                            data: items[2],
                                            ttl: Some(ttl),
                                            created_at: now,
                                        },
                                    ),
                                },
                            }
                        } else if w == "get"@ && items.len() == 2 {
                            if !store.contains_key(items[1]) {
                                Outcome {
                                    reply: Ok(CommandView::Get(RespValue::BulkString(None))),
                                    store,
                                }
                            } else if expired(store[items[1]], now) {
                                Outcome {
                                    reply: Ok(CommandView::Get(RespValue::BulkString(None))),
                                    store: store.remove(items[1]),
                                }
                            } else {
                                Outcome {
                                    reply: Ok(CommandView::Get(as_bulk(store[items[1]].data))),
                                    store,
                                }
                            }
                        } else {
                            refused(CommandErrorKind::UnsupportedCommand, store)
                        }
                    },
                }
            }
        },
        _ => refused(CommandErrorKind::RespParse, store),
    }
}

/// Whether the engine's answer is the one that the model gives.
pub open spec fn replied(
    r: Result<Command, CommandParseError>,
    reply: Result<CommandView, CommandErrorKind>,
) -> bool {
    match (r, reply) {
        (Ok(c), Ok(m)) => c@ == m,
        (Err(e), Err(kind)) => e.kind() == kind,
        _ => false,
    }
}

fn word_is(item: &RespDataType, word: &str) -> (r: bool)
    ensures
        r == (word_of(item@) == Some(word@)),
{
    match item {
        RespDataType::BulkStrings(Some(text)) => is_word(text.as_str(), word),
        _ => false,
    }
}

fn only_bulk(items: &Vec<RespDataType>) -> (r: bool)
    ensures
        r == all_bulk(values_of(items@)),
{
    let mut i: usize = 0;
    while i < items.len()
        invariant
            i <= items@.len(),
            forall|k: int| 0 <= k < i ==> (#[trigger] values_of(items@)[k]) is BulkString,
        decreases items@.len() - i,
    {
        match &items[i] {
            RespDataType::BulkStrings(_) => {},
            _ => {
                proof {
                    assert(!(values_of(items@)[i as int] is BulkString));
                }
                return false;
            },
        }
        i = i + 1;
    }
    true
}

fn read_ttl(option: &RespDataType, amount: &RespDataType) -> (r: Result<u128, CommandParseError>)
    ensures
        match ttl_of(option@, amount@) {
            Ok(ttl) => r == Ok::<u128, CommandParseError>(ttl),
            Err(kind) => r is Err && r->Err_0.kind() == kind,
        },
{
    let seconds: bool = word_is(option, "ex");
    if !seconds && !word_is(option, "px") {
        return Err(CommandParseError::UnsupportedOptionsError);
    }
    match amount {
        RespDataType::BulkStrings(Some(text)) => match parse_u64(text.as_str().as_bytes()) {
            Some(n) => {
                let n: u128 = n as u128;
                Ok(
                    if seconds {
                        n * 1000
                    } else {
                        n
                    },
                )
            },
            None => Err(
                CommandParseError::OptionParseError(
                    "cannot parse ttl string into valid u64".to_owned(),
                ),
            ),
        },
        _ => Err(
            CommandParseError::OptionParseError(
                "expected BulkStrings type that represents a numeric argument".to_owned(),
            ),
        ),
    }
}

impl Command {
    /// Carries out the command that a value spells, now.
    pub fn try_perform(resp_value: RespDataType, store: &mut Store) -> (r: Result<
        Self,
        CommandParseError,
    >)
        ensures
            exists|now: u128|
                {
                    &&& replied(r, (#[trigger] perform(resp_value@, old(store).map(), now)).reply)
                    &&& final(store).map() == perform(resp_value@, old(store).map(), now).store
                },
    {
        let now: u128 = now_nanos();
        Command::try_perform_at(resp_value, store, now)
    }

    /// Carries out the command that a value spells, at the time `now`.
    pub fn try_perform_at(resp_value: RespDataType, store: &mut Store, now: u128) -> (r: Result<
        Self,
        CommandParseError,
    >)
        ensures
            replied(r, perform(resp_value@, old(store).map(), now).reply),
            final(store).map() == perform(resp_value@, old(store).map(), now).store,
    {
        let arr: &Vec<RespDataType> = match &resp_value {
            RespDataType::Arrays(Some(items)) => items,
            _ => {
                return Err(CommandParseError::RespParseError);
            },
        };
        proof {
            array_view(*arr);
        }
        let ghost items = values_of(arr@);
        if arr.len() == 0 || !only_bulk(arr) {
            return Err(CommandParseError::RespParseError);
        }
        proof {
            assert(items[0] == arr@[0]@);
        }
        let named: bool = match &arr[0] {
            RespDataType::BulkStrings(Some(_)) => true,
            _ => false,
        };
        if !named {
            return Err(CommandParseError::UnsupportedCommandError);
        }
        if word_is(&arr[0], "ping") && arr.len() == 1 {
            return Ok(Command::Ping(RespDataType::SimpleStrings(Some("PONG".to_owned()))));
        }
        if word_is(&arr[0], "echo") && arr.len() == 2 {
            proof {
                assert(items[1] == arr@[1]@);
            }
            return Ok(Command::Echo(arr[1].clone()));
        }
        if word_is(&arr[0], "set") && (arr.len() == 3 || arr.len() == 5) {
            proof {
                assert(items[1] == arr@[1]@);
                assert(items[2] == arr@[2]@);
            }
            let key = arr[1].clone();
            if arr.len() == 3 {
                store.insert(key, Value::new_at(arr[2].clone(), None, now));
            } else {
                proof {
                    assert(items[3] == arr@[3]@);
                    assert(items[4] == arr@[4]@);
                }
                let ttl: u128 = match read_ttl(&arr[3], &arr[4]) {
                    Ok(t) => t,
                    Err(e) => {
                        return Err(e);
                    },
                };
                store.insert(key, Value::new_at(arr[2].clone(), Some(ttl), now));
            }
            return Ok(Command::SetKey(RespDataType::SimpleStrings(Some("OK".to_owned()))));
        }
        if word_is(&arr[0], "get") && arr.len() == 2 {
            proof {
                assert(items[1] == arr@[1]@);
            }
            let key: &RespDataType = &arr[1];
            let found: Option<RespDataType> = match store.get(key) {
                Some(value) => match value.get_data_at(now) {
                    Some(data) => Some(data),
                    None => None,
                },
                None => {
                    return Ok(Command::Get(RespDataType::BulkStrings(None)));
                },
            };
            return match found {
                Some(RespDataType::SimpleStrings(text)) => Ok(
                    Command::Get(RespDataType::BulkStrings(text)),
                ),
                Some(data) => Ok(Command::Get(data)),
                None => {
                    store.remove(key);
                    Ok(Command::Get(RespDataType::BulkStrings(None)))
                },
            };
        }
        Err(CommandParseError::UnsupportedCommandError)
    }

    /// The reply of a command that was carried out.
    pub fn into_resp(self) -> (r: RespDataType)
        ensures
            r@ == match self@ {
                CommandView::Echo(v) => v,
                CommandView::Ping(v) => v,
                CommandView::Get(v) => v,
                CommandView::SetKey(v) => v,
            },
    {
        match self {
            Command::Echo(resp) => resp,
            Command::Ping(resp) => resp,
            Command::Get(resp) => resp,
            Command::SetKey(resp) => resp,
        }
    }
}

} // verus!
