//! The server side: the append-only log model and the dispatch of one
//! parsed request to a response.

use vstd::prelude::*;
use vstd::string::StringExecFns;
use vstd::utf8::encode_utf8;
use crate::fmtnum::dec_of;
use crate::http::{HttpResponse, Request, parse_target, has_query, query_of};
use crate::json::{logs_body, logs_body_of, no_logs_body, invalid_url_body};

verus! {

/// The in-memory model of the append-only log file: `None` when the file
/// is missing or unreadable, `Some` of the full text otherwise.
pub struct LogFile {
    pub contents: Option<String>,
}

/// The text a log holds after appending `entry`: appending creates the
/// file when it is missing.
pub open spec fn appended_text(before: Option<Seq<char>>, entry: Seq<char>) -> Seq<char> {
    match before {
        Some(c) => c + entry,
        None => entry,
    }
}

impl LogFile {
    /// The file's text, `None` when it is missing or unreadable.
    pub open spec fn text(self) -> Option<Seq<char>> {
        self.contents.deep_view()
    }

    /// A log whose file does not exist.
    pub fn missing() -> (r: LogFile)
        ensures
            r.text() is None,
    {
        LogFile { contents: None }
    }

    /// A log whose file exists and holds `content`.
    pub fn with_text(content: &str) -> (r: LogFile)
        ensures
            r.text() == Some(content@),
    {
        LogFile { contents: Some(content.to_owned()) }
    }

    /// Appends `entry` verbatim to the file, creating it when missing.
    pub fn append(&mut self, entry: &str)
        ensures
            final(self).text() == Some(appended_text(old(self).text(), entry@)),
    {
        let new_contents = match &self.contents {
            Some(c) => {
                let mut s = c.clone();
                s.append(entry);
                s
            },
            None => entry.to_owned(),
        };
        self.contents = Some(new_contents);
    }

    /// Reads the whole file.
    pub fn read_all(&self) -> (r: Option<String>)
        ensures
            r.deep_view() == self.text(),
    {
        match &self.contents {
            Some(c) => Some(c.clone()),
            None => None,
        }
    }
}

/// One log entry: the timestamp, one space, the message kept verbatim, and
/// a trailing newline.
pub open spec fn entry_line_of(ts: Seq<char>, msg: Seq<char>) -> Seq<char> {
    ts + seq![' '] + msg + seq!['\n']
}

/// Builds the log entry line for one appended message.
pub fn log_entry(timestamp: &str, message: &str) -> (r: String)
    ensures
        r@ == entry_line_of(timestamp@, message@),
{
    let mut s = timestamp.to_owned();
    s.append(" ");
    s.append(message);
    s.append("\n");
    proof {
        reveal_strlit(" ");
        reveal_strlit("\n");
        assert(s@ =~= entry_line_of(timestamp@, message@));
    }
    s
}

/// The header list every response carries before `Content-Length` is added.
pub open spec fn json_headers() -> Seq<(Seq<char>, Seq<char>)> {
    seq![("Content-Type"@, "application/json"@)]
}

fn content_type_header() -> (r: Vec<(String, String)>)
    ensures
        r.deep_view() == json_headers(),
{
    let mut v: Vec<(String, String)> = Vec::new();
    v.push(("Content-Type".to_owned(), "application/json".to_owned()));
    proof {
        assert(v.deep_view() =~= json_headers());
    }
    v
}

/// Whether `r` is the JSON response with the given status and body: a
/// `Content-Type: application/json` header and a `Content-Length` holding
/// the body's exact byte length.
pub open spec fn is_json_response(r: HttpResponse, code: u16, text: Seq<char>, body: Seq<char>) -> bool {
    &&& r.status_code == code
    &&& r.status_text@ == text
    &&& r.headers.deep_view() == json_headers().push(
        ("Content-Length"@, dec_of(encode_utf8(body).len())),
    )
    &&& r.body@ == body
}

/// The body of a response to a read: the logs on success, the error object
/// when the file cannot be read; the status is 200 either way.
pub open spec fn read_body_of(text: Option<Seq<char>>) -> Seq<char> {
    match text {
        Some(c) => logs_body_of(c),
        None => no_logs_body(),
    }
}

/// The 200 response carrying the full log contents.
pub fn append_response(content_after: &str) -> (r: HttpResponse)
    ensures
        is_json_response(r, 200, "OK"@, logs_body_of(content_after@)),
{
    let body = logs_body(content_after);
    HttpResponse::new(200, "OK", content_type_header(), body.as_str())
}

/// The 200 response to a read: the logs, or the error object when the file
/// cannot be read.
pub fn read_response(content: &Option<String>) -> (r: HttpResponse)
    ensures
        is_json_response(r, 200, "OK"@, read_body_of(content.deep_view())),
{
    match content {
        Some(c) => {
            let body = logs_body(c.as_str());
            HttpResponse::new(200, "OK", content_type_header(), body.as_str())
        },
        None => HttpResponse::new(200, "OK", content_type_header(), "{\"error\": \"No logs found\"}"),
    }
}

/// The 404 response for any unknown target.
pub fn not_found_response() -> (r: HttpResponse)
    ensures
        is_json_response(r, 404, "Not Found"@, invalid_url_body()),
{
    HttpResponse::new(404, "Not Found", content_type_header(), "{\"error\": \"Invalid URL\"}")
}

/// The log text after handling an append for `target` at `ts`.
pub open spec fn append_result_text(before: Option<Seq<char>>, ts: Seq<char>, target: Seq<char>) -> Seq<char> {
    appended_text(before, entry_line_of(ts, query_of(target)))
}

/// Dispatches one request target against the log, as the server does for
/// each accepted connection: a target with a query appends the message and
/// returns the whole log; `/logs` returns the whole log or the error
/// object; anything else is a 404. Every response is JSON with an exact
/// `Content-Length`.
pub fn handle_request(target: &str, timestamp: &str, log: &mut LogFile) -> (r: HttpResponse)
    ensures
        has_query(target@) ==> final(log).text() == Some(
            append_result_text(old(log).text(), timestamp@, target@),
        ),
        has_query(target@) ==> is_json_response(
            r,
            200,
            "OK"@,
            logs_body_of(append_result_text(old(log).text(), timestamp@, target@)),
        ),
        !has_query(target@) ==> *final(log) == *old(log),
        !has_query(target@) && target@ == "/logs"@ ==> is_json_response(
            r,
            200,
            "OK"@,
            read_body_of(old(log).text()),
        ),
        !has_query(target@) && target@ != "/logs"@ ==> is_json_response(
            r,
            404,
            "Not Found"@,
            invalid_url_body(),
        ),
{
    match parse_target(target) {
        Request::Append { message } => {
            let entry = log_entry(timestamp, message.as_str());
            log.append(entry.as_str());
            let content = log.read_all().unwrap();
            append_response(content.as_str())
        },
        Request::ReadLogs => {
            let content = log.read_all();
            read_response(&content)
        },
        Request::NotFound => not_found_response(),
    }
}

/// Reading the logs leaves the log unchanged, so repeated reads with no
/// intervening append return identical bodies: the body of a read is a
/// function of the log text alone, and the text after one read (`after`)
/// is the text before it.
pub proof fn lemma_read_idempotent(before: LogFile, after: LogFile)
    requires
        after == before,
    ensures
        read_body_of(after.text()) == read_body_of(before.text()),
{
}

} // verus!
