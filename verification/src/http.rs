//! The HTTP-style wire format: extracting the request target from a request
//! line, classifying a target, and serializing a response.

use vstd::prelude::*;
use vstd::string::StrSliceExecFns;
use vstd::string::StringExecFns;
use vstd::utf8::encode_utf8;
use crate::fmtnum::{dec_of, u64_dec, usize_dec};

verus! {

/// The characters treated as token separators in a request line.
pub open spec fn is_ws_char(c: char) -> bool {
    c == ' ' || c == '\t' || c == '\r' || c == '\n'
}

/// The position of the first occurrence of `c` in `s` at or after `i`,
/// or `s.len()` if there is none.
pub open spec fn find_char(s: Seq<char>, c: char, i: int) -> int
    decreases s.len() - i,
{
    if i < 0 || i >= s.len() {
        s.len() as int
    } else if s[i] == c {
        i
    } else {
        find_char(s, c, i + 1)
    }
}

/// `find_char` stays within `[i, s.len()]`, finds `c`, and skips nothing
/// equal to `c`.
pub proof fn lemma_find_char_bounds(s: Seq<char>, c: char, i: int)
    requires
        0 <= i <= s.len(),
    ensures
        i <= find_char(s, c, i) <= s.len(),
        find_char(s, c, i) < s.len() ==> s[find_char(s, c, i)] == c,
        forall|j: int| i <= j < find_char(s, c, i) ==> s[j] != c,
    decreases s.len() - i,
{
    if i < s.len() && s[i] != c {
        lemma_find_char_bounds(s, c, i + 1);
    }
}

/// `find_char` returns `k` exactly when `c` is absent before `k` and `k`
/// is an occurrence of `c` or the end.
pub proof fn lemma_find_char_from(s: Seq<char>, c: char, i: int, k: int)
    requires
        0 <= i <= k <= s.len(),
        forall|j: int| i <= j < k ==> s[j] != c,
        k == s.len() || s[k] == c,
    ensures
        find_char(s, c, i) == k,
    decreases k - i,
{
    if i < k {
        lemma_find_char_from(s, c, i + 1, k);
    }
}

/// The position after a run of separator characters starting at `i`.
pub open spec fn skip_ws(s: Seq<char>, i: int) -> int
    decreases s.len() - i,
{
    if i < 0 || i >= s.len() {
        s.len() as int
    } else if is_ws_char(s[i]) {
        skip_ws(s, i + 1)
    } else {
        i
    }
}

/// The position after a run of non-separator characters starting at `i`.
pub open spec fn skip_token(s: Seq<char>, i: int) -> int
    decreases s.len() - i,
{
    if i < 0 || i >= s.len() {
        s.len() as int
    } else if !is_ws_char(s[i]) {
        skip_token(s, i + 1)
    } else {
        i
    }
}

/// The second whitespace-separated token of `line`, if `line` holds at
/// least two tokens. For a request line `<METHOD> <TARGET> <VERSION>` this
/// is the request target.
pub open spec fn second_token_of(line: Seq<char>) -> Option<Seq<char>> {
    let a = skip_ws(line, 0);
    let b = skip_token(line, a);
    let c = skip_ws(line, b);
    let d = skip_token(line, c);
    if c < line.len() {
        Some(line.subrange(c, d))
    } else {
        None
    }
}

fn is_ws(c: char) -> (r: bool)
    ensures
        r == is_ws_char(c),
{
    c == ' ' || c == '\t' || c == '\r' || c == '\n'
}

/// Finds the first occurrence of `c` in `s` at or after `start`.
pub fn find_char_at(s: &str, c: char, start: usize) -> (r: usize)
    requires
        start <= s@.len(),
    ensures
        r == find_char(s@, c, start as int),
        start <= r <= s@.len(),
{
    let n = s.unicode_len();
    let mut i = start;
    while i < n
        invariant
            start <= i <= n,
            n == s@.len(),
            find_char(s@, c, start as int) == find_char(s@, c, i as int),
        decreases n - i,
    {
        if s.get_char(i) == c {
            return i;
        }
        i = i + 1;
    }
    i
}

fn skip_ws_exec(s: &str, start: usize) -> (r: usize)
    requires
        start <= s@.len(),
    ensures
        r == skip_ws(s@, start as int),
        start <= r <= s@.len(),
{
    let n = s.unicode_len();
    let mut i = start;
    while i < n
        invariant
            start <= i <= n,
            n == s@.len(),
            skip_ws(s@, start as int) == skip_ws(s@, i as int),
        decreases n - i,
    {
        if !is_ws(s.get_char(i)) {
            return i;
        }
        i = i + 1;
    }
    i
}

fn skip_token_exec(s: &str, start: usize) -> (r: usize)
    requires
        start <= s@.len(),
    ensures
        r == skip_token(s@, start as int),
        start <= r <= s@.len(),
{
    let n = s.unicode_len();
    let mut i = start;
    while i < n
        invariant
            start <= i <= n,
            n == s@.len(),
            skip_token(s@, start as int) == skip_token(s@, i as int),
        decreases n - i,
    {
        if is_ws(s.get_char(i)) {
            return i;
        }
        i = i + 1;
    }
    i
}

/// Extracts the request target from a request line: the second
/// whitespace-separated token, if the line has at least two tokens.
/// A line with fewer tokens yields `None` and the connection is dropped.
pub fn parse_request_line(line: &str) -> (r: Option<String>)
    ensures
        r.deep_view() == second_token_of(line@),
{
    let a = skip_ws_exec(line, 0);
    let b = skip_token_exec(line, a);
    let c = skip_ws_exec(line, b);
    let d = skip_token_exec(line, c);
    if c < line.unicode_len() {
        Some(line.substring_char(c, d).to_owned())
    } else {
        None
    }
}

/// Character-for-character string equality.
pub fn str_eq(a: &str, b: &str) -> (r: bool)
    ensures
        r == (a@ == b@),
{
    let n = a.unicode_len();
    if n != b.unicode_len() {
        return false;
    }
    let mut i: usize = 0;
    while i < n
        invariant
            0 <= i <= n,
            n == a@.len(),
            n == b@.len(),
            forall|j: int| 0 <= j < i ==> a@[j] == b@[j],
        decreases n - i,
    {
        if a.get_char(i) != b.get_char(i) {
            return false;
        }
        i = i + 1;
    }
    proof {
        assert(a@ =~= b@);
    }
    true
}

/// A classified request target: an append of a chat message, a read of the
/// whole log, or anything else.
pub enum Request {
    Append { message: String },
    ReadLogs,
    NotFound,
}

/// Whether the target carries a query part (a `?` anywhere in it).
pub open spec fn has_query(t: Seq<char>) -> bool {
    find_char(t, '?', 0) < t.len()
}

/// Everything after the first `?` of the target, kept verbatim (further
/// `?` characters included): the percent-encoded chat message.
pub open spec fn query_of(t: Seq<char>) -> Seq<char> {
    t.subrange(find_char(t, '?', 0) + 1, t.len() as int)
}

/// Classifies a request target: a target with a `?` is an append whose
/// message is everything after the first `?`; the exact target `/logs` is
/// a read; anything else is unknown.
pub fn parse_target(target: &str) -> (r: Request)
    ensures
        match r {
            Request::Append { message } => has_query(target@) && message@ == query_of(target@),
            Request::ReadLogs => !has_query(target@) && target@ == "/logs"@,
            Request::NotFound => !has_query(target@) && target@ != "/logs"@,
        },
{
    let n = target.unicode_len();
    let q = find_char_at(target, '?', 0);
    if q < n {
        let message = target.substring_char(q + 1, n).to_owned();
        Request::Append { message }
    } else if str_eq(target, "/logs") {
        Request::ReadLogs
    } else {
        Request::NotFound
    }
}

/// One header line of the serialized response: `<key>: <value>\r\n`.
pub open spec fn header_line_chars(h: (Seq<char>, Seq<char>)) -> Seq<char> {
    h.0 + seq![':', ' '] + h.1 + seq!['\r', '\n']
}

/// The serialized header block: every header line in order.
pub open spec fn header_block_chars(hs: Seq<(Seq<char>, Seq<char>)>) -> Seq<char>
    decreases hs.len(),
{
    if hs.len() == 0 {
        Seq::empty()
    } else {
        header_line_chars(hs[0]) + header_block_chars(hs.drop_first())
    }
}

/// Appending one header to the block appends one header line to its
/// serialization.
pub proof fn lemma_header_block_snoc(hs: Seq<(Seq<char>, Seq<char>)>, i: int)
    requires
        0 <= i < hs.len(),
    ensures
        header_block_chars(hs.take(i + 1)) == header_block_chars(hs.take(i)) + header_line_chars(
            hs[i],
        ),
    decreases i,
{
    if i == 0 {
        assert(hs.take(0) =~= Seq::<(Seq<char>, Seq<char>)>::empty());
        assert(header_block_chars(hs.take(0)) == Seq::<char>::empty());
        assert(hs.take(1).drop_first() =~= hs.take(0));
        assert(hs.take(1)[0] == hs[0]);
        assert(hs.take(1).len() == 1);
        assert(header_block_chars(hs.take(1)) == header_line_chars(hs.take(1)[0])
            + header_block_chars(hs.take(1).drop_first()));
        assert(header_block_chars(hs.take(1)) =~= header_block_chars(hs.take(0))
            + header_line_chars(hs[0]));
    } else {
        lemma_header_block_snoc(hs.drop_first(), i - 1);
        assert(hs.take(i + 1).drop_first() =~= hs.drop_first().take(i));
        assert(hs.take(i).drop_first() =~= hs.drop_first().take(i - 1));
        assert(hs.take(i + 1)[0] == hs[0]);
        assert(hs.take(i)[0] == hs[0]);
        assert(hs.drop_first()[i - 1] == hs[i]);
        assert(header_block_chars(hs.take(i + 1)) == header_line_chars(hs[0])
            + header_block_chars(hs.drop_first().take(i)));
        assert(header_block_chars(hs.take(i)) == header_line_chars(hs[0])
            + header_block_chars(hs.drop_first().take(i - 1)));
        assert(header_block_chars(hs.take(i + 1)) =~= header_block_chars(hs.take(i))
            + header_line_chars(hs[i]));
    }
}

/// An HTTP response: status line, headers, body.
pub struct HttpResponse {
    pub status_code: u16,
    pub status_text: String,
    pub headers: Vec<(String, String)>,
    pub body: String,
}

/// The full serialized response:
/// `HTTP/1.1 <code> <text>\r\n<headers>\r\n<body>`.
pub open spec fn response_chars(r: HttpResponse) -> Seq<char> {
    "HTTP/1.1 "@ + dec_of(r.status_code as nat) + seq![' '] + r.status_text@ + seq!['\r', '\n']
        + header_block_chars(r.headers.deep_view()) + seq!['\r', '\n'] + r.body@
}

impl HttpResponse {
    /// Builds a response from its parts, adding a `Content-Length` header
    /// holding the decimal byte length of the body.
    pub fn new(
        status_code: u16,
        status_text: &str,
        headers: Vec<(String, String)>,
        body: &str,
    ) -> (r: HttpResponse)
        ensures
            r.status_code == status_code,
            r.status_text@ == status_text@,
            r.headers.deep_view() == headers.deep_view().push(
                ("Content-Length"@, dec_of(encode_utf8(body@).len())),
            ),
            r.body@ == body@,
    {
        let ghost hs0 = headers.deep_view();
        let content_length = usize_dec(body.as_bytes().len());
        let mut full_headers = headers;
        full_headers.push(("Content-Length".to_owned(), content_length));
        let r = HttpResponse {
            status_code,
            status_text: status_text.to_owned(),
            headers: full_headers,
            body: body.to_owned(),
        };
        proof {
            let target = hs0.push(("Content-Length"@, dec_of(encode_utf8(body@).len())));
            assert(r.headers@.len() == hs0.len() + 1);
            assert forall|i: int| 0 <= i < r.headers@.len() implies r.headers.deep_view()[i]
                == target[i] by {
                assert(r.headers.deep_view()[i] == r.headers@[i].deep_view());
                if i < hs0.len() {
                    assert(hs0[i] == r.headers@[i].deep_view());
                }
            }
            assert(r.headers.deep_view() =~= target);
        }
        r
    }

    /// Serializes the response into the bytes written to the connection.
    pub fn as_bytes(&self) -> (r: Vec<u8>)
        ensures
            r@ == encode_utf8(response_chars(*self)),
    {
        let mut s = String::from_str("HTTP/1.1 ");
        s.append(u64_dec(self.status_code as u64).as_str());
        s.append(" ");
        s.append(self.status_text.as_str());
        s.append("\r\n");
        proof {
            reveal_strlit(" ");
            reveal_strlit("\r\n");
            reveal_strlit(": ");
            assert(" "@ =~= seq![' ']);
            assert("\r\n"@ =~= seq!['\r', '\n']);
            assert(": "@ =~= seq![':', ' ']);
            assert(self.headers.deep_view().take(0)
                =~= Seq::<(Seq<char>, Seq<char>)>::empty());
        }
        let ghost head: Seq<char> = "HTTP/1.1 "@ + dec_of(self.status_code as nat) + seq![' ']
            + self.status_text@ + seq!['\r', '\n'];
        let mut i: usize = 0;
        while i < self.headers.len()
            invariant
                0 <= i <= self.headers.len(),
                ": "@ == seq![':', ' '],
                "\r\n"@ == seq!['\r', '\n'],
                s@ == head + header_block_chars(self.headers.deep_view().take(i as int)),
            decreases self.headers.len() - i,
        {
            s.append(self.headers[i].0.as_str());
            s.append(": ");
            s.append(self.headers[i].1.as_str());
            s.append("\r\n");
            proof {
                lemma_header_block_snoc(self.headers.deep_view(), i as int);
                assert(self.headers.deep_view()[i as int]
                    == (self.headers[i as int].0@, self.headers[i as int].1@));
                assert(s@ =~= head + header_block_chars(
                    self.headers.deep_view().take(i as int + 1),
                ));
            }
            i = i + 1;
        }
        s.append("\r\n");
        s.append(self.body.as_str());
        proof {
            assert(self.headers.deep_view().take(self.headers.len() as int)
                =~= self.headers.deep_view());
            assert(s@ =~= response_chars(*self));
        }
        s.as_str().as_bytes_vec()
    }
}

} // verus!
