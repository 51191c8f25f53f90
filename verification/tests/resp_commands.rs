use bytes::BytesMut;
use wire_protocols::config::Config;
use wire_protocols::rdb::{OpCode, OpCodeParseError, RdbCodec, HEADER_STR};
use wire_protocols::resp::codec::{CodecErrorKind, RespCodec};
use wire_protocols::resp::commands::{is_word, Command, CommandParseError};
use wire_protocols::resp::store::{nanos_or_zero, Store, Value};
use wire_protocols::resp::types::RespDataType;

const MS: u128 = 1_000_000;

fn bulk(text: &str) -> RespDataType {
    RespDataType::BulkStrings(Some(text.to_string()))
}

fn command(words: &[&str]) -> RespDataType {
    RespDataType::Arrays(Some(words.iter().map(|w| bulk(w)).collect()))
}

/// Feeds one request to codec and engine and gives the reply's bytes.
fn serve(store: &mut Store, request: &[u8], now: u128) -> Vec<u8> {
    let mut codec = RespCodec::new();
    let mut input = BytesMut::from(request);
    let value = codec.decode(&mut input).unwrap().unwrap();
    assert!(input.is_empty());
    let reply = match Command::try_perform_at(value, store, now) {
        Ok(done) => done.into_resp(),
        Err(e) => e.to_resp(),
    };
    let mut output = BytesMut::new();
    codec.encode(reply, &mut output).unwrap();
    output.to_vec()
}

#[test]
fn ping_replies_pong() {
    let mut store = Store::new();
    assert_eq!(serve(&mut store, b"*1\r\n$4\r\nPING\r\n", 0), b"+PONG\r\n");
    assert_eq!(serve(&mut store, b"*1\r\n$6\r\n pInG \r\n", 0), b"+PONG\r\n");
}

#[test]
fn set_then_get() {
    let mut store = Store::new();
    assert_eq!(
        serve(&mut store, b"*3\r\n$3\r\nSET\r\n$3\r\nfoo\r\n$3\r\nbar\r\n", 5),
        b"+OK\r\n"
    );
    assert_eq!(serve(&mut store, b"*2\r\n$3\r\nGET\r\n$3\r\nfoo\r\n", 9), b"$3\r\nbar\r\n");
    assert_eq!(serve(&mut store, b"*2\r\n$3\r\nGET\r\n$3\r\nbaz\r\n", 9), b"$-1\r\n");
}

#[test]
fn set_px_then_get_after_expiry() {
    let mut store = Store::new();
    let start = 1_000 * MS;
    assert_eq!(
        serve(&mut store, b"*5\r\n$3\r\nSET\r\n$1\r\nk\r\n$1\r\nv\r\n$2\r\nPX\r\n$2\r\n10\r\n", start),
        b"+OK\r\n"
    );
    assert_eq!(serve(&mut store, b"*2\r\n$3\r\nGET\r\n$1\r\nk\r\n", start + 50 * MS), b"$-1\r\n");
    assert_eq!(store.len(), 0);
}

#[test]
fn bad_arity_is_an_error_frame() {
    let mut store = Store::new();
    let reply = serve(&mut store, b"*3\r\n$4\r\nPING\r\n$1\r\na\r\n$1\r\nb\r\n", 0);
    assert_eq!(reply, b"-unsupported command was provided\r\n");
}

#[test]
fn set_ex_expires_after_its_seconds() {
    let mut store = Store::new();
    let start = 77 * MS;
    let set = command(&["SET", "k", "v", "EX", "1"]);
    assert!(matches!(Command::try_perform_at(set, &mut store, start), Ok(Command::SetKey(_))));
    let get = |store: &mut Store, at: u128| {
        Command::try_perform_at(command(&["get", "k"]), store, at).unwrap().into_resp()
    };
    assert_eq!(get(&mut store, start), bulk("v"));
    // strictly more than the time to live, in whole milliseconds
    assert_eq!(get(&mut store, start + 1000 * MS), bulk("v"));
    assert_eq!(get(&mut store, start + 1001 * MS - 1), bulk("v"));
    assert!(store.contains(&bulk("k")));
    assert_eq!(get(&mut store, start + 1100 * MS), RespDataType::BulkStrings(None));
    assert!(!store.contains(&bulk("k")));
    assert_eq!(get(&mut store, start), RespDataType::BulkStrings(None));
}

#[test]
fn echo_replies_its_argument() {
    let mut store = Store::new();
    let done = Command::try_perform_at(command(&["echo", "hey"]), &mut store, 0).unwrap();
    assert!(matches!(done, Command::Echo(_)));
    assert_eq!(done.into_resp(), bulk("hey"));
}

#[test]
fn set_overwrites() {
    let mut store = Store::new();
    Command::try_perform_at(command(&["set", "k", "one", "px", "5"]), &mut store, 0).unwrap();
    Command::try_perform_at(command(&["set", "k", "two"]), &mut store, 1).unwrap();
    assert_eq!(store.len(), 1);
    let got = Command::try_perform_at(command(&["get", "k"]), &mut store, 900 * MS).unwrap();
    assert_eq!(got.into_resp(), bulk("two"));
}

#[test]
fn command_errors() {
    let mut store = Store::new();
    let mut fails = |v: RespDataType| Command::try_perform_at(v, &mut store, 0).unwrap_err();
    assert!(matches!(fails(bulk("PING")), CommandParseError::RespParseError));
    assert!(matches!(fails(RespDataType::Arrays(None)), CommandParseError::RespParseError));
    assert!(matches!(fails(RespDataType::Arrays(Some(vec![]))), CommandParseError::RespParseError));
    assert!(matches!(
        fails(RespDataType::Arrays(Some(vec![bulk("echo"), RespDataType::Integers(Some(1))]))),
        CommandParseError::RespParseError
    ));
    assert!(matches!(fails(command(&["nope"])), CommandParseError::UnsupportedCommandError));
    assert!(matches!(
        fails(RespDataType::Arrays(Some(vec![RespDataType::BulkStrings(None)]))),
        CommandParseError::UnsupportedCommandError
    ));
    assert!(matches!(fails(command(&["get"])), CommandParseError::UnsupportedCommandError));
    assert!(matches!(fails(command(&["set", "k"])), CommandParseError::UnsupportedCommandError));
    assert!(matches!(
        fails(command(&["set", "k", "v", "xx", "1"])),
        CommandParseError::UnsupportedOptionsError
    ));
    assert!(matches!(
        fails(command(&["set", "k", "v", "px", "soon"])),
        CommandParseError::OptionParseError(_)
    ));
    assert!(matches!(
        fails(command(&["set", "k", "v", "ex", "-1"])),
        CommandParseError::OptionParseError(_)
    ));
    assert!(matches!(
        fails(RespDataType::Arrays(Some(vec![
            bulk("set"),
            bulk("k"),
            bulk("v"),
            bulk("ex"),
            RespDataType::BulkStrings(None)
        ]))),
        CommandParseError::OptionParseError(_)
    ));
    assert_eq!(store.len(), 0);
}

#[test]
fn error_messages() {
    assert_eq!(
        CommandParseError::RespParseError.message(),
        "unable to parse command from resp value"
    );
    assert_eq!(
        CommandParseError::OptionParseError("x".to_string()).message(),
        "unable to parse option args: x"
    );
    assert_eq!(
        CommandParseError::UnsupportedOptionsError.to_resp(),
        RespDataType::Errors("unsupported options was provided".to_string())
    );
}

#[test]
fn words_are_trimmed_and_case_blind() {
    assert!(is_word("PING", "ping"));
    assert!(is_word("\tPiNg\r\n", "ping"));
    assert!(!is_word("pin g", "ping"));
    assert!(!is_word("pings", "ping"));
    assert!(!is_word("", "ping"));
    assert!(is_word("  ", ""));
}

#[test]
fn with_the_clock() {
    let mut store = Store::new();
    let set = Command::try_perform(command(&["SET", "k", "v", "EX", "100"]), &mut store).unwrap();
    assert_eq!(set.into_resp(), RespDataType::SimpleStrings(Some("OK".to_string())));
    let got = Command::try_perform(command(&["GET", "k"]), &mut store).unwrap();
    assert_eq!(got.into_resp(), bulk("v"));
}

#[test]
fn value_expiry() {
    let forever = Value::new_at(bulk("v"), None, 10);
    assert_eq!(forever.get_data_at(0), Some(bulk("v")));
    assert_eq!(forever.get_data_at(u128::MAX), Some(bulk("v")));
    assert_eq!(forever.get_data(), Some(bulk("v")));
    let brief = Value::new_at(bulk("v"), Some(2), 10 * MS);
    assert_eq!(brief.get_data_at(10 * MS), Some(bulk("v")));
    assert_eq!(brief.get_data_at(13 * MS - 1), Some(bulk("v")));
    assert_eq!(brief.get_data_at(13 * MS), None);
    assert_eq!(brief.get_data_at(9 * MS), None);
    let fresh = Value::new(bulk("v"), Some(60_000));
    assert_eq!(fresh.ttl, Some(60_000));
    assert_eq!(fresh.get_data(), Some(bulk("v")));
}

#[test]
fn store_operations() {
    let mut store = Store::new();
    assert!(store.get(&bulk("a")).is_none());
    store.insert(bulk("a"), Value::new_at(bulk("1"), None, 0));
    store.insert(bulk("b"), Value::new_at(bulk("2"), None, 0));
    store.insert(bulk("a"), Value::new_at(bulk("3"), Some(4), 5));
    assert_eq!(store.len(), 2);
    let a = store.get(&bulk("a")).unwrap();
    assert_eq!(a.data, bulk("3"));
    assert_eq!(a.ttl, Some(4));
    assert_eq!(a.created_at, 5);
    assert_eq!(store.get(&bulk("b")).unwrap().data, bulk("2"));
    assert_eq!(store.get_at(&bulk("a"), 5 + 4 * MS), Some(bulk("3")));
    assert_eq!(store.get_at(&bulk("a"), 5 + 5 * MS), None);
    assert_eq!(store.get_at(&bulk("b"), u128::MAX), Some(bulk("2")));
    assert_eq!(store.get_at(&bulk("c"), 0), None);
    assert_eq!(store.len(), 2);
    store.remove(&bulk("a"));
    store.remove(&bulk("zz"));
    assert!(!store.contains(&bulk("a")));
    assert!(store.contains(&bulk("b")));
    assert_eq!(store.len(), 1);
}

#[test]
fn opcodes() {
    assert!(OpCode::is_valid_opcode(&0xFA));
    assert!(OpCode::is_valid_opcode(&0xFF));
    assert!(!OpCode::is_valid_opcode(&0xF9));
    assert_eq!(OpCode::from_byte(0xFF), Ok(OpCode::Eof));
    assert_eq!(OpCode::from_byte(0xFC), Ok(OpCode::ExpireTimeMs));
    assert_eq!(OpCode::from_byte(0x10), Err(OpCodeParseError::UnexpectedOpCode(0x10)));
    for b in 0xFAu8..=0xFF {
        assert_eq!(OpCode::from_byte(b).unwrap().to_byte(), b);
    }
    let codec = RdbCodec::new();
    assert!(codec.current_opcode.is_none());
    assert!(!codec.is_header_read);
    let config = Config::new();
    assert!(config.dir.is_none() && config.dbfilename.is_none());
}

#[test]
fn rdb_header_is_read_once() {
    assert_eq!(HEADER_STR, "REDIS");
    let mut codec = RdbCodec::new();
    let mut buf = BytesMut::from(&b"REDIS"[..]);
    assert_eq!(codec.decode(&mut buf).unwrap(), None);
    assert!(!codec.is_header_read);
    buf.extend_from_slice(&[0xFA, 1, 2]);
    assert_eq!(codec.decode(&mut buf).unwrap(), Some(()));
    assert!(codec.is_header_read);
    assert_eq!(&buf[..], &[0xFA, 1, 2]);
    assert_eq!(codec.decode(&mut buf).unwrap(), Some(()));
    assert_eq!(&buf[..], &[0xFA, 1, 2]);
}

#[test]
fn rdb_header_must_stand_before_the_first_opcode() {
    let mut codec = RdbCodec::new();
    let mut buf = BytesMut::from(&b"xxREDIS\xFF"[..]);
    assert_eq!(codec.decode(&mut buf).unwrap(), Some(()));
    assert_eq!(&buf[..], &[0xFF]);
    for bad in [&b"REDIS0011\xFA"[..], b"EDIS\xFA", b"\xFE", b"redis\xFB"] {
        let mut codec = RdbCodec::new();
        let mut buf = BytesMut::from(bad);
        let err = codec.decode(&mut buf).unwrap_err();
        assert_eq!(err.kind, CodecErrorKind::Other);
        assert_eq!(err.message, "unexpected header value");
        assert_eq!(&buf[..], bad);
        assert!(!codec.is_header_read);
    }
}

#[test]
fn a_missing_clock_reading_counts_as_zero() {
    assert_eq!(nanos_or_zero(Some(17)), 17);
    assert_eq!(nanos_or_zero(Some(u128::MAX)), u128::MAX);
    assert_eq!(nanos_or_zero(None), 0);
}
