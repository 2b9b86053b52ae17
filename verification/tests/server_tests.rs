//! Tests of the server's dispatch, the log model, and the wire format.

use chat_relay::http::HttpResponse;
use chat_relay::server::{handle_request, not_found_response, read_response, LogFile};

const TS: &str = "2024/01/01 00:00:00";

fn body_of(r: &HttpResponse) -> String {
    r.body.clone()
}

#[test]
fn content_length_counts_bytes() {
    let r = HttpResponse::new(200, "OK", Vec::new(), "abc");
    assert_eq!(r.status_code, 200);
    assert_eq!(r.status_text, "OK");
    assert_eq!(r.body, "abc");
    assert_eq!(r.headers.len(), 1);
    assert_eq!(r.headers[0].0, "Content-Length");
    assert_eq!(r.headers[0].1, "3");
}

#[test]
fn content_length_counts_bytes_not_chars() {
    // a two-byte UTF-8 character
    let r = HttpResponse::new(200, "OK", Vec::new(), "é");
    assert_eq!(r.headers[0].1, "2");
}

#[test]
fn response_wire_format() {
    let headers = vec![("Content-Type".to_owned(), "application/json".to_owned())];
    let r = HttpResponse::new(200, "OK", headers, "hi");
    let bytes = r.as_bytes();
    assert_eq!(
        String::from_utf8(bytes).unwrap(),
        "HTTP/1.1 200 OK\r\nContent-Type: application/json\r\nContent-Length: 2\r\n\r\nhi"
    );
}

#[test]
fn unknown_target_is_404_with_invalid_url_body() {
    let mut log = LogFile::with_text("kept\n");
    let r = handle_request("/nope", TS, &mut log);
    assert_eq!(r.status_code, 404);
    assert_eq!(r.status_text, "Not Found");
    assert_eq!(body_of(&r), "{\"error\": \"Invalid URL\"}");
    // the log is untouched
    assert_eq!(log.read_all().unwrap(), "kept\n");
    let direct = not_found_response();
    assert_eq!(body_of(&direct), "{\"error\": \"Invalid URL\"}");
}

#[test]
fn missing_log_read_is_200_with_error_body() {
    let mut log = LogFile::missing();
    let r = handle_request("/logs", TS, &mut log);
    assert_eq!(r.status_code, 200);
    assert_eq!(body_of(&r), "{\"error\": \"No logs found\"}");
    assert!(log.read_all().is_none());
    let direct = read_response(&None);
    assert_eq!(direct.status_code, 200);
    assert_eq!(body_of(&direct), "{\"error\": \"No logs found\"}");
}

#[test]
fn read_is_idempotent() {
    let mut log = LogFile::with_text("one\ntwo\n");
    let a = handle_request("/logs", TS, &mut log);
    let b = handle_request("/logs", TS, &mut log);
    assert_eq!(body_of(&a), body_of(&b));
    assert_eq!(a.status_code, b.status_code);
}

#[test]
fn append_then_read_returns_entry_as_last_line() {
    let mut log = LogFile::with_text("old%20line\n");
    let r = handle_request("/alice?hi%20there", TS, &mut log);
    assert_eq!(r.status_code, 200);
    let parsed: serde_json::Value = serde_json::from_str(&r.body).unwrap();
    let text = parsed.get("logs").unwrap().as_str().unwrap();
    assert_eq!(text, "old%20line\n2024/01/01 00:00:00 hi%20there\n");
    let lines: Vec<&str> = text.split('\n').collect();
    // the last newline-terminated line is the new entry
    assert_eq!(lines[lines.len() - 2], "2024/01/01 00:00:00 hi%20there");
    assert_eq!(lines[lines.len() - 1], "");
    // its timestamp matches YYYY/MM/DD HH:MM:SS
    let entry = lines[lines.len() - 2];
    let stamp: Vec<char> = entry.chars().take(19).collect();
    assert_eq!(stamp.len(), 19);
    for (i, c) in stamp.iter().enumerate() {
        match i {
            4 | 7 => assert_eq!(*c, '/'),
            10 => assert_eq!(*c, ' '),
            13 | 16 => assert_eq!(*c, ':'),
            _ => assert!(c.is_ascii_digit()),
        }
    }
}

#[test]
fn append_creates_missing_log() {
    let mut log = LogFile::missing();
    let r = handle_request("/bob?hello", TS, &mut log);
    assert_eq!(r.status_code, 200);
    assert_eq!(body_of(&r), "{\"logs\": \"2024/01/01 00:00:00 hello\\n\"}");
    assert_eq!(log.read_all().unwrap(), "2024/01/01 00:00:00 hello\n");
}

#[test]
fn message_keeps_later_question_marks() {
    let mut log = LogFile::with_text("");
    handle_request("/u?a?b=c", TS, &mut log);
    assert_eq!(log.read_all().unwrap(), "2024/01/01 00:00:00 a?b=c\n");
}

#[test]
fn empty_log_scenario() {
    // a server whose file `chat.log` starts empty, one append from alice
    let mut log = LogFile::with_text("");
    let appended = handle_request("/alice?hello%20world", TS, &mut log);
    assert_eq!(appended.status_code, 200);
    let read = handle_request("/logs", TS, &mut log);
    assert_eq!(read.status_code, 200);
    assert_eq!(
        read.body,
        "{\"logs\": \"2024/01/01 00:00:00 hello%20world\\n\"}"
    );
    // the encoded message is preserved verbatim
    assert!(read.body.contains("hello%20world"));
}

#[test]
fn logs_body_escapes_quotes() {
    // the JSON quoting is not the identity
    let mut log = LogFile::with_text("say \"hi\"\n");
    let r = handle_request("/logs", TS, &mut log);
    assert_eq!(body_of(&r), "{\"logs\": \"say \\\"hi\\\"\\n\"}");
    let parsed: serde_json::Value = serde_json::from_str(&r.body).unwrap();
    assert_eq!(parsed.get("logs").unwrap().as_str().unwrap(), "say \"hi\"\n");
}
