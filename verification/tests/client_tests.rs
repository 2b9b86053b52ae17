//! Tests of the client's poll step, line handling, sender machine, and
//! address parsing.

use chat_relay::client::{
    append_url, chat_line, decode_lines, join_line, logs_url, parse_address, poll_step,
    sender_step, split_lines, try_parse_address, PollError, SenderState,
};
use chat_relay::http::{parse_request_line, parse_target, Request};
use chat_relay::server::{handle_request, LogFile};

#[test]
fn split_keeps_every_piece() {
    assert_eq!(split_lines("a\nb\n"), vec!["a", "b", ""]);
    assert_eq!(split_lines(""), vec![""]);
    assert_eq!(split_lines("\n"), vec!["", ""]);
    assert_eq!(split_lines("one"), vec!["one"]);
}

#[test]
fn decode_lines_decodes_each() {
    let lines = vec!["hello%20world".to_owned(), "plain".to_owned()];
    let decoded = decode_lines(&lines).unwrap();
    assert_eq!(decoded, vec!["hello world", "plain"]);
}

#[test]
fn decode_lines_fails_on_bad_utf8() {
    let lines = vec!["ok".to_owned(), "%FF".to_owned()];
    assert!(decode_lines(&lines).is_none());
}

#[test]
fn poll_redraws_on_length_change() {
    let mut cache: Vec<String> = Vec::new();
    let redraw = poll_step(&mut cache, "{\"logs\": \"a\\nb\\n\"}").unwrap();
    assert!(redraw);
    assert_eq!(cache, vec!["a", "b", ""]);
}

#[test]
fn poll_same_length_no_redraw() {
    // two cached lines; a new read with two different lines of the same count
    let mut cache: Vec<String> = vec!["old one".to_owned(), "old two".to_owned()];
    let redraw = poll_step(&mut cache, "{\"logs\": \"new one\\nnew two\"}").unwrap();
    assert!(!redraw);
    assert_eq!(cache, vec!["old one", "old two"]);
}

#[test]
fn poll_bad_json_is_fatal() {
    let mut cache: Vec<String> = Vec::new();
    assert_eq!(poll_step(&mut cache, "not json"), Err(PollError::BadJson));
    assert_eq!(
        poll_step(&mut cache, "{\"logs\": 5}"),
        Err(PollError::BadJson)
    );
    assert_eq!(
        poll_step(&mut cache, "{\"other\": \"x\"}"),
        Err(PollError::BadJson)
    );
    assert!(cache.is_empty());
}

#[test]
fn poll_bad_encoding_is_fatal() {
    let mut cache: Vec<String> = Vec::new();
    assert_eq!(
        poll_step(&mut cache, "{\"logs\": \"fine\\n%FF\"}"),
        Err(PollError::BadEncoding)
    );
    assert!(cache.is_empty());
}

#[test]
fn encode_append_read_decode_round_trip() {
    // percent-encode a message, append it, read it back, percent-decode:
    // the original text comes back byte for byte
    let msg = "hello world & co / 100%";
    let encoded = urlencoding::encode(msg);
    let mut log = LogFile::with_text("");
    let ts = "2024/01/01 00:00:00";
    let target = format!("/alice?{}", encoded);
    handle_request(&target, ts, &mut log);
    let read = handle_request("/logs", ts, &mut log);
    let mut cache: Vec<String> = Vec::new();
    let redraw = poll_step(&mut cache, &read.body).unwrap();
    assert!(redraw);
    assert_eq!(cache[0], format!("{} {}", ts, msg));
}

#[test]
fn sender_announces_then_relays() {
    let (msg, next) = sender_step(SenderState::JoinAnnounce, "alice", None);
    assert_eq!(msg.unwrap(), "alice: alice joined...");
    assert!(matches!(next, SenderState::Relay));
    let (msg, next) = sender_step(SenderState::Relay, "alice", Some("hi there"));
    assert_eq!(msg.unwrap(), "alice: hi there");
    assert!(matches!(next, SenderState::Relay));
    let (msg, next) = sender_step(SenderState::Relay, "alice", None);
    assert!(msg.is_none());
    assert!(matches!(next, SenderState::Relay));
}

#[test]
fn join_and_chat_lines() {
    assert_eq!(join_line("bob"), "bob joined...");
    assert_eq!(chat_line("bob", "hello"), "bob: hello");
}

#[test]
fn append_url_shape() {
    assert_eq!(
        append_url("127.0.0.1", 8080, "alice", "alice: hi"),
        "http://127.0.0.1:8080/alice?alice: hi"
    );
}

#[test]
fn logs_url_shape() {
    assert_eq!(logs_url("127.0.0.1", 80), "http://127.0.0.1:80/logs");
}

#[test]
fn address_parsing() {
    assert_eq!(
        try_parse_address("127.0.0.1:8080"),
        Some(("127.0.0.1".to_owned(), 8080))
    );
    assert_eq!(parse_address("localhost:80"), ("localhost".to_owned(), 80));
    assert_eq!(try_parse_address("nocolon"), None);
    assert_eq!(try_parse_address("host:"), None);
    assert_eq!(try_parse_address("host:99999"), None);
    assert_eq!(try_parse_address("host:12x"), None);
    assert_eq!(try_parse_address("host:+80"), Some(("host".to_owned(), 80)));
    // the port is read between the first and second colon
    assert_eq!(try_parse_address("host:80:90"), Some(("host".to_owned(), 80)));
    assert_eq!(try_parse_address(":80"), Some(("".to_owned(), 80)));
}

#[test]
fn request_line_parsing() {
    assert_eq!(
        parse_request_line("GET /logs HTTP/1.1\r\n"),
        Some("/logs".to_owned())
    );
    assert_eq!(
        parse_request_line("  GET   /a?b  HTTP/1.1"),
        Some("/a?b".to_owned())
    );
    assert_eq!(parse_request_line("GET\r\n"), None);
    assert_eq!(parse_request_line(""), None);
    assert_eq!(parse_request_line("   \r\n"), None);
}

#[test]
fn target_classification() {
    match parse_target("/alice?hi?x") {
        Request::Append { message } => assert_eq!(message, "hi?x"),
        _ => panic!("expected an append"),
    }
    assert!(matches!(parse_target("/logs"), Request::ReadLogs));
    assert!(matches!(parse_target("/logs/"), Request::NotFound));
    assert!(matches!(parse_target("/other"), Request::NotFound));
    // a read target with a query is an append
    assert!(matches!(
        parse_target("/logs?x"),
        Request::Append { .. }
    ));
}
