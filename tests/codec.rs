use cargo_stopwatchd::codec::{confirms_alive, decode, decode_bytes, encode, encode_bytes, DecodeError};
use cargo_stopwatchd::protocol::{CommandInfo, Message, StartInfo, StopwatchError};

fn info(crate_name: &str, command: &str) -> CommandInfo {
    CommandInfo { crate_name: crate_name.to_string(), command: command.to_string() }
}

fn all_kinds() -> Vec<Message> {
    vec![
        Message::Close,
        Message::Started(info("demo", "build"), 1_700_000_000),
        Message::Stopped(info("demo", "build"), 42),
        Message::Timeout(10),
        Message::Ping,
        Message::Ack,
        Message::Error(StopwatchError::UnexpectedMessage),
        Message::Error(StopwatchError::PresenceUpdateFailed),
        Message::Error(StopwatchError::ExistingConnection),
    ]
}

#[test]
fn encodes_unit_messages() {
    assert_eq!(encode(&Message::Close), "\"Close\"");
    assert_eq!(encode(&Message::Ping), "\"Ping\"");
    assert_eq!(encode(&Message::Ack), "\"Ok\"");
}

#[test]
fn encodes_started() {
    let m = Message::Started(info("demo", "build"), 5);
    assert_eq!(encode(&m), "{\"Started\":[{\"crate_name\":\"demo\",\"command\":\"build\"},5]}");
}

#[test]
fn encodes_stopped_timeout_and_errors() {
    assert_eq!(
        encode(&Message::Stopped(info("demo", "test"), 42)),
        "{\"Stopped\":[{\"crate_name\":\"demo\",\"command\":\"test\"},42]}"
    );
    assert_eq!(encode(&Message::Timeout(0)), "{\"Timeout\":0}");
    assert_eq!(encode(&Message::Timeout(u64::MAX)), "{\"Timeout\":18446744073709551615}");
    assert_eq!(
        encode(&Message::Error(StopwatchError::UnexpectedMessage)),
        "{\"Error\":\"UnexpectedMessage\"}"
    );
    assert_eq!(
        encode(&Message::Error(StopwatchError::PresenceUpdateFailed)),
        "{\"Error\":\"PresenceUpdateFailed\"}"
    );
}

#[test]
fn escapes_quotes_backslashes_and_line_breaks() {
    let m = Message::Started(info("a\"b\\c", "x\ny\rz\tw"), 1);
    assert_eq!(
        encode(&m),
        "{\"Started\":[{\"crate_name\":\"a\\\"b\\\\c\",\"command\":\"x\\ny\\rz\\tw\"},1]}"
    );
    assert_eq!(decode(&encode(&m)), Ok(m));
}

#[test]
fn round_trips_every_kind() {
    for m in all_kinds() {
        let text = encode(&m);
        assert_eq!(decode(&text), Ok(m));
    }
}

#[test]
fn round_trips_edge_values() {
    let cases = vec![
        Message::Started(info("", ""), 0),
        Message::Stopped(info("crate-é", "build --release ✓"), u64::MAX),
        Message::Timeout(u64::MAX),
        Message::Timeout(0),
    ];
    for m in cases {
        assert_eq!(decode(&encode(&m)), Ok(m));
    }
}

#[test]
fn decodes_wire_text() {
    assert_eq!(
        decode("{\"Started\":[{\"crate_name\":\"demo\",\"command\":\"build\"},7]}"),
        Ok(Message::Started(info("demo", "build"), 7))
    );
    assert_eq!(decode("\"Ok\""), Ok(Message::Ack));
    assert_eq!(decode("{\"Timeout\":600}"), Ok(Message::Timeout(600)));
}

#[test]
fn refuses_malformed_text() {
    let bad = [
        "",
        "\"Close",
        "\"Shutdown\"",
        "{\"Timeout\":}",
        "{\"Timeout\":007}",
        "{\"Timeout\":-1}",
        "{\"Timeout\":18446744073709551616}",
        "{\"Timeout\":5} ",
        "{\"Started\":[{\"crate_name\":\"demo\",\"command\":\"build\"},5]",
        "{\"Started\":[{\"crate_name\":\"demo\"},5]}",
        "{\"Started\":[{\"crate_name\":\"de\\qmo\",\"command\":\"build\"},5]}",
        "{\"Error\":\"Unknown\"}",
        "not a message",
    ];
    for t in bad {
        assert_eq!(decode(t), Err(DecodeError), "{}", t);
    }
}

#[test]
fn refuses_truncated_text() {
    let text = encode(&Message::Stopped(info("demo", "build"), 42));
    for cut in 0..text.len() {
        assert_eq!(decode(&text[..cut]), Err(DecodeError));
    }
}

#[test]
fn start_info_becomes_started() {
    let s = StartInfo { crate_name: "demo".to_string(), command: "run".to_string(), time: 9 };
    assert_eq!(s.into_message(), Message::Started(info("demo", "run"), 9));
}

#[test]
fn liveness_reply() {
    assert!(confirms_alive(b"\"Ok\""));
    assert!(!confirms_alive(b"\"Ping\""));
    assert!(!confirms_alive(b"{\"Error\":\"UnexpectedMessage\"}"));
    assert!(!confirms_alive(b""));
}

#[test]
fn byte_round_trip() {
    for m in all_kinds() {
        let bytes = encode_bytes(&m);
        assert_eq!(bytes, encode(&m).into_bytes());
        assert_eq!(decode_bytes(&bytes), Ok(m));
    }
    let m = Message::Started(info("crate-é", "✓"), 3);
    assert_eq!(decode_bytes(&encode_bytes(&m)), Ok(m));
}

#[test]
fn refuses_bytes_that_are_not_text() {
    assert_eq!(decode_bytes(&[0x22, 0xff, 0x22]), Err(DecodeError));
    assert_eq!(decode_bytes(b"\"Ping\"\x00"), Err(DecodeError));
    assert_eq!(decode_bytes(b"\"Ping\""), Ok(Message::Ping));
}

#[test]
fn escapes_other_control_characters() {
    let m = Message::Stopped(info("a\u{8}b\u{c}c", "\u{1}\u{1f}\u{0}"), 2);
    assert_eq!(
        encode(&m),
        "{\"Stopped\":[{\"crate_name\":\"a\\bb\\fc\",\"command\":\"\\u0001\\u001f\\u0000\"},2]}"
    );
    assert_eq!(decode(&encode(&m)), Ok(m));
}

#[test]
fn refuses_raw_control_characters_and_other_escape_forms() {
    let raw = "{\"Stopped\":[{\"crate_name\":\"a\u{1}\",\"command\":\"b\"},2]}";
    assert_eq!(decode(raw), Err(DecodeError));
    let long_form = "{\"Stopped\":[{\"crate_name\":\"\\u0041\",\"command\":\"b\"},2]}";
    assert_eq!(decode(long_form), Err(DecodeError));
    let upper_hex = "{\"Stopped\":[{\"crate_name\":\"\\u001F\",\"command\":\"b\"},2]}";
    assert_eq!(decode(upper_hex), Err(DecodeError));
}
