//! The client side: building the request URL for one message, the sender's
//! two-state machine, and the poller's split / percent-decode / redraw step.

use vstd::prelude::*;
use vstd::string::StrSliceExecFns;
use vstd::string::StringExecFns;
use crate::fmtnum::{dec_of, is_digit, u64_dec};
use crate::http::{find_char, find_char_at, lemma_find_char_from};
use crate::json::logs_field_of;
use crate::json::extract_logs_field;

verus! {

// ---------------------------------------------------------------------------
// Splitting log text into lines.
// ---------------------------------------------------------------------------

/// The pieces of `s` split on `'\n'`, as `str::split` yields them: one
/// piece more than there are newlines, each kept verbatim; the empty text
/// splits into one empty piece.
pub open spec fn lines_of(s: Seq<char>) -> Seq<Seq<char>>
    decreases s.len(),
{
    let k = find_char(s, '\n', 0);
    if 0 <= k && k < s.len() {
        seq![s.subrange(0, k)] + lines_of(s.subrange(k + 1, s.len() as int))
    } else {
        seq![s]
    }
}

/// Splitting always yields at least one piece.
pub proof fn lemma_lines_of_nonempty(s: Seq<char>)
    ensures
        lines_of(s).len() >= 1,
    decreases s.len(),
{
    let k = find_char(s, '\n', 0);
    if 0 <= k && k < s.len() {
        lemma_lines_of_nonempty(s.subrange(k + 1, s.len() as int));
    }
}

/// Splits `s` on newline characters, every piece verbatim.
pub fn split_lines(s: &str) -> (r: Vec<String>)
    ensures
        r.deep_view() == lines_of(s@),
{
    let n = s.unicode_len();
    let mut out: Vec<String> = Vec::new();
    let mut start: usize = 0;
    let mut i: usize = 0;
    proof {
        assert(out.deep_view() =~= Seq::<Seq<char>>::empty());
        assert(s@.subrange(0, n as int) =~= s@);
        assert(Seq::<Seq<char>>::empty() + lines_of(s@) =~= lines_of(s@));
    }
    while i < n
        invariant
            0 <= start <= i <= n,
            n == s@.len(),
            lines_of(s@) == out.deep_view() + lines_of(s@.subrange(start as int, n as int)),
            forall|j: int| start <= j < i ==> s@[j] != '\n',
        decreases n - i,
    {
        if s.get_char(i) == '\n' {
            let ghost pre = out.deep_view();
            let ghost prev = out@;
            let piece = s.substring_char(start, i).to_owned();
            let ghost pv = piece@;
            out.push(piece);
            proof {
                let rest = s@.subrange(start as int, n as int);
                lemma_find_char_from(rest, '\n', 0, i - start);
                assert(rest.subrange(0, i - start) =~= s@.subrange(start as int, i as int));
                assert(rest.subrange(i - start + 1, rest.len() as int) =~= s@.subrange(
                    i + 1,
                    n as int,
                ));
                assert(lines_of(rest) == seq![rest.subrange(0, i - start)] + lines_of(
                    rest.subrange(i - start + 1, rest.len() as int),
                ));
                assert forall|j: int| 0 <= j < out@.len() implies #[trigger] out.deep_view()[j]
                    == pre.push(pv)[j] by {
                    assert(out.deep_view()[j] == out@[j].deep_view());
                    if j < prev.len() {
                        assert(out@[j] == prev[j]);
                        assert(pre[j] == prev[j].deep_view());
                    } else {
                        assert(out@[j].deep_view() == pv);
                    }
                }
                assert(out.deep_view() =~= pre.push(pv));
                assert(out.deep_view() + lines_of(s@.subrange(i + 1, n as int)) =~= pre + lines_of(
                    rest,
                ));
            }
            start = i + 1;
        }
        i = i + 1;
    }
    let ghost pre = out.deep_view();
    let ghost prev = out@;
    let piece = s.substring_char(start, n).to_owned();
    let ghost pv = piece@;
    out.push(piece);
    proof {
        let rest = s@.subrange(start as int, n as int);
        assert forall|j: int| 0 <= j < rest.len() implies #[trigger] rest[j] != '\n' by {
            assert(rest[j] == s@[start + j]);
        }
        lemma_find_char_from(rest, '\n', 0, rest.len() as int);
        assert(lines_of(rest) == seq![rest]);
        assert forall|j: int| 0 <= j < out@.len() implies #[trigger] out.deep_view()[j]
            == pre.push(pv)[j] by {
            assert(out.deep_view()[j] == out@[j].deep_view());
            if j < prev.len() {
                assert(out@[j] == prev[j]);
                assert(pre[j] == prev[j].deep_view());
            } else {
                assert(out@[j].deep_view() == pv);
            }
        }
        assert(out.deep_view() =~= pre.push(pv));
        assert(pv =~= rest);
        assert(out.deep_view() =~= lines_of(s@));
    }
    out
}

// ---------------------------------------------------------------------------
// Percent-decoding.
// ---------------------------------------------------------------------------

/// The percent-decoding of `s` read as UTF-8: `None` when the decoded
/// bytes are not valid UTF-8. A function of `s` alone.
pub uninterp spec fn pct_decoded(s: Seq<char>) -> Option<Seq<char>>;

/// Relies on `urlencoding::decode`: percent-decodes `s`, failing exactly
/// when the decoded bytes are not valid UTF-8; the outcome is determined
/// by `s` alone, and a string holding no `%` decodes to itself.
#[verifier::external_body]
fn percent_decode(s: &str) -> (r: Option<String>)
    ensures
        r.deep_view() == pct_decoded(s@),
        (forall|i: int| 0 <= i < s@.len() ==> s@[i] != '%') ==> r.deep_view() == Some(s@),
{
    match urlencoding::decode(s) {
        Ok(c) => Some(c.into_owned()),
        Err(_) => None,
    }
}

/// Whether every line percent-decodes.
pub open spec fn all_lines_decode(lines: Seq<Seq<char>>) -> bool {
    forall|i: int| 0 <= i < lines.len() ==> (#[trigger] pct_decoded(lines[i])) is Some
}

/// The percent-decoding of every line, meaningful when all decode.
pub open spec fn decoded_lines_of(lines: Seq<Seq<char>>) -> Seq<Seq<char>> {
    Seq::new(lines.len(), |i: int| pct_decoded(lines[i])->0)
}

/// Percent-decodes every line; `None` as soon as one line fails.
pub fn decode_lines(lines: &Vec<String>) -> (r: Option<Vec<String>>)
    ensures
        r is Some <==> all_lines_decode(lines.deep_view()),
        r matches Some(v) ==> v.deep_view() == decoded_lines_of(lines.deep_view()),
{
    let mut out: Vec<String> = Vec::new();
    let mut i: usize = 0;
    while i < lines.len()
        invariant
            0 <= i <= lines@.len(),
            out@.len() == i,
            forall|j: int| 0 <= j < i ==> (#[trigger] pct_decoded(lines.deep_view()[j])) is Some,
            forall|j: int|
                0 <= j < i ==> out.deep_view()[j] == pct_decoded(lines.deep_view()[j])->0,
        decreases lines@.len() - i,
    {
        assert(lines[i as int]@ == lines.deep_view()[i as int]);
        match percent_decode(lines[i].as_str()) {
            Some(d) => {
                let ghost dv = d@;
                let ghost prev = out@;
                let ghost pre = out.deep_view();
                proof {
                    assert(dv == pct_decoded(lines.deep_view()[i as int])->0);
                }
                out.push(d);
                proof {
                    assert forall|j: int| 0 <= j < i + 1 implies #[trigger] out.deep_view()[j]
                        == pct_decoded(lines.deep_view()[j])->0 by {
                        assert(out.deep_view()[j] == out@[j].deep_view());
                        if j < i {
                            assert(out@[j] == prev[j]);
                            assert(pre[j] == prev[j].deep_view());
                        } else {
                            assert(out@[j].deep_view() == dv);
                        }
                    }
                }
            },
            None => {
                assert(!all_lines_decode(lines.deep_view()));
                return None;
            },
        }
        i = i + 1;
    }
    proof {
        assert(out.deep_view() =~= decoded_lines_of(lines.deep_view()));
    }
    Some(out)
}

// ---------------------------------------------------------------------------
// The poller's step.
// ---------------------------------------------------------------------------

/// How one poll can fail; either failure is fatal to the client.
#[derive(Debug, PartialEq, Eq, Structural)]
pub enum PollError {
    /// The response body is not a JSON object with a string `logs` field.
    BadJson,
    /// Some log line does not percent-decode.
    BadEncoding,
}

/// Whether the poller redraws: the new decoded line sequence differs in
/// length from the cached one and is non-empty. This is a lossy,
/// length-only change heuristic: same-length edits cause no redraw.
pub open spec fn poll_redraw(cache: Seq<Seq<char>>, decoded: Seq<Seq<char>>) -> bool {
    decoded.len() != cache.len() && decoded.len() != 0
}

/// A new read whose decoded sequence has the cache's length causes no
/// redraw, even when its content differs from the cache's.
pub proof fn lemma_same_length_no_redraw(cache: Seq<Seq<char>>, decoded: Seq<Seq<char>>)
    requires
        decoded.len() == cache.len(),
    ensures
        !poll_redraw(cache, decoded),
{
}

/// One step of the poller on one response body: extract the `logs` field,
/// split it on newlines, percent-decode every line, and redraw (replacing
/// the cache) exactly when the length-only heuristic fires. `Ok` holds
/// whether a redraw happened; on any failure the cache is unchanged.
pub fn poll_step(cache: &mut Vec<String>, body: &str) -> (r: Result<bool, PollError>)
    ensures
        match r {
            Err(e) => *final(cache) == *old(cache) && (match e {
                PollError::BadJson => logs_field_of(body@) is None,
                PollError::BadEncoding => logs_field_of(body@) matches Some(text)
                    && !all_lines_decode(lines_of(text)),
            }),
            Ok(redraw) => logs_field_of(body@) matches Some(text) && all_lines_decode(
                lines_of(text),
            ) && redraw == poll_redraw(old(cache).deep_view(), decoded_lines_of(lines_of(text)))
                && final(cache).deep_view() == (if redraw {
                decoded_lines_of(lines_of(text))
            } else {
                old(cache).deep_view()
            }),
        },
{
    let text = match extract_logs_field(body) {
        Some(t) => t,
        None => {
            return Err(PollError::BadJson);
        },
    };
    let lines = split_lines(text.as_str());
    let decoded = match decode_lines(&lines) {
        Some(d) => d,
        None => {
            return Err(PollError::BadEncoding);
        },
    };
    if decoded.len() != cache.len() && decoded.len() != 0 {
        *cache = decoded;
        Ok(true)
    } else {
        Ok(false)
    }
}

// ---------------------------------------------------------------------------
// The sender's state machine.
// ---------------------------------------------------------------------------

/// The sender's two states: announce the user once, then relay lines.
pub enum SenderState {
    JoinAnnounce,
    Relay,
}

/// The join announcement text.
pub fn join_line(user: &str) -> (r: String)
    ensures
        r@ == user@ + " joined..."@,
{
    let mut s = user.to_owned();
    s.append(" joined...");
    s
}

/// One chat message as sent to the server: `<user>: <text>`.
pub fn chat_line(user: &str, text: &str) -> (r: String)
    ensures
        r@ == user@ + ": "@ + text@,
{
    let mut s = user.to_owned();
    s.append(": ");
    s.append(text);
    proof {
        assert(s@ =~= user@ + ": "@ + text@);
    }
    s
}

/// One step of the sender: in `JoinAnnounce` it sends the join
/// announcement, whatever the input, and moves to `Relay`; in `Relay` it
/// relays one line of local input, or sends nothing when the read failed,
/// and stays in `Relay`. It never terminates on its own.
pub fn sender_step(state: SenderState, user: &str, input: Option<&str>) -> (r: (
    Option<String>,
    SenderState,
))
    ensures
        r.1 is Relay,
        state is JoinAnnounce ==> r.0.deep_view() == Some(
            user@ + ": "@ + user@ + " joined..."@,
        ),
        state is Relay ==> (match input {
            Some(line) => r.0.deep_view() == Some(user@ + ": "@ + line@),
            None => r.0 is None,
        }),
{
    match state {
        SenderState::JoinAnnounce => {
            let announce = join_line(user);
            let msg = chat_line(user, announce.as_str());
            proof {
                assert(msg@ =~= user@ + ": "@ + user@ + " joined..."@);
            }
            (Some(msg), SenderState::Relay)
        },
        SenderState::Relay => {
            match input {
                Some(line) => (Some(chat_line(user, line)), SenderState::Relay),
                None => (None, SenderState::Relay),
            }
        },
    }
}

// ---------------------------------------------------------------------------
// The request URL for one message.
// ---------------------------------------------------------------------------

/// The URL requested to append one message:
/// `http://<ip>:<port>/<user>?<message>`.
pub open spec fn append_url_of(ip: Seq<char>, port: nat, user: Seq<char>, msg: Seq<char>) -> Seq<
    char,
> {
    "http://"@ + ip + seq![':'] + dec_of(port) + seq!['/'] + user + seq!['?'] + msg
}

/// Builds the URL for appending `msg` (already stripped of surrounding
/// whitespace) as `user`.
pub fn append_url(ip: &str, port: u16, user: &str, msg: &str) -> (r: String)
    ensures
        r@ == append_url_of(ip@, port as nat, user@, msg@),
{
    let mut s = String::from_str("http://");
    s.append(ip);
    s.append(":");
    s.append(u64_dec(port as u64).as_str());
    s.append("/");
    s.append(user);
    s.append("?");
    s.append(msg);
    proof {
        reveal_strlit(":");
        reveal_strlit("/");
        reveal_strlit("?");
        assert(":"@ =~= seq![':']);
        assert("/"@ =~= seq!['/']);
        assert("?"@ =~= seq!['?']);
        assert(s@ =~= append_url_of(ip@, port as nat, user@, msg@));
    }
    s
}

/// The URL requested to read the whole log:
/// `http://<ip>:<port>/logs`.
pub open spec fn logs_url_of(ip: Seq<char>, port: nat) -> Seq<char> {
    "http://"@ + ip + seq![':'] + dec_of(port) + "/logs"@
}

/// Builds the URL the poller requests.
pub fn logs_url(ip: &str, port: u16) -> (r: String)
    ensures
        r@ == logs_url_of(ip@, port as nat),
{
    let mut s = String::from_str("http://");
    s.append(ip);
    s.append(":");
    s.append(u64_dec(port as u64).as_str());
    s.append("/logs");
    proof {
        reveal_strlit(":");
        assert(":"@ =~= seq![':']);
        assert(s@ =~= logs_url_of(ip@, port as nat));
    }
    s
}

// ---------------------------------------------------------------------------
// Parsing the `ip:port` address the user types.
// ---------------------------------------------------------------------------

/// The part of `addr` before the first `:`.
pub open spec fn ip_of(addr: Seq<char>) -> Seq<char> {
    addr.subrange(0, find_char(addr, ':', 0))
}

/// The part of `addr` between the first `:` and the second `:` or the end:
/// the text parsed as the port.
pub open spec fn port_token_of(addr: Seq<char>) -> Seq<char> {
    let k = find_char(addr, ':', 0);
    addr.subrange(k + 1, find_char(addr, ':', k + 1))
}

/// The port token with one leading `+` stripped, as integer parsing
/// accepts it.
pub open spec fn port_digits_of(s: Seq<char>) -> Seq<char> {
    if s.len() > 0 && s[0] == '+' {
        s.subrange(1, s.len() as int)
    } else {
        s
    }
}

/// Whether `s` is one or more decimal digits.
pub open spec fn all_digits(s: Seq<char>) -> bool {
    s.len() > 0 && forall|i: int| 0 <= i < s.len() ==> is_digit(#[trigger] s[i])
}

/// The value of a digit sequence read in decimal.
pub open spec fn digits_value(s: Seq<char>) -> int
    decreases s.len(),
{
    if s.len() == 0 {
        0
    } else {
        digits_value(s.drop_last()) * 10 + (s.last() as u32 - 48)
    }
}

/// Whether `s` parses as a 16-bit port: an optional `+`, then digits,
/// with a value of at most 65535.
pub open spec fn is_port_token(s: Seq<char>) -> bool {
    all_digits(port_digits_of(s)) && digits_value(port_digits_of(s)) <= 65535
}

/// Whether `addr` is an address the client accepts without failing: a `:`
/// somewhere, and a port token that parses.
pub open spec fn valid_address(addr: Seq<char>) -> bool {
    find_char(addr, ':', 0) < addr.len() && is_port_token(port_token_of(addr))
}

/// The port value of a valid address.
pub open spec fn port_value_of(addr: Seq<char>) -> int {
    digits_value(port_digits_of(port_token_of(addr)))
}

/// The value of an all-digit sequence is non-negative.
proof fn lemma_digits_value_nonneg(s: Seq<char>)
    requires
        forall|i: int| 0 <= i < s.len() ==> is_digit(#[trigger] s[i]),
    ensures
        digits_value(s) >= 0,
    decreases s.len(),
{
    if s.len() > 0 {
        assert forall|i: int| 0 <= i < s.drop_last().len() implies is_digit(
            #[trigger] s.drop_last()[i],
        ) by {
            assert(s.drop_last()[i] == s[i]);
        }
        lemma_digits_value_nonneg(s.drop_last());
        assert(is_digit(s.last()));
    }
}

/// Extending a digit prefix never lowers its value.
proof fn lemma_digits_value_grows(s: Seq<char>, i: int)
    requires
        0 <= i <= s.len(),
        all_digits(s),
    ensures
        digits_value(s.subrange(0, i)) <= digits_value(s),
    decreases s.len() - i,
{
    if i == s.len() {
        assert(s.subrange(0, i) =~= s);
    } else {
        lemma_digits_value_grows(s, i + 1);
        let a = s.subrange(0, i);
        let b = s.subrange(0, i + 1);
        assert(b.drop_last() =~= a);
        assert(b.last() == s[i]);
        assert(is_digit(s[i]));
        assert forall|j: int| 0 <= j < a.len() implies is_digit(#[trigger] a[j]) by {
            assert(a[j] == s[j]);
        }
        lemma_digits_value_nonneg(a);
        assert(digits_value(b) == digits_value(a) * 10 + (b.last() as u32 - 48));
        assert(digits_value(a) <= digits_value(b));
    }
}

/// Parses `s` as a port number, accepting exactly what `is_port_token`
/// admits.
fn parse_port(s: &str) -> (r: Option<u16>)
    ensures
        r is Some <==> is_port_token(s@),
        r matches Some(p) ==> p as int == digits_value(port_digits_of(s@)),
{
    let n = s.unicode_len();
    let ghost ds = port_digits_of(s@);
    let mut i: usize = 0;
    if n > 0 && s.get_char(0) == '+' {
        i = 1;
    }
    let ghost start = i as int;
    proof {
        assert(ds =~= s@.subrange(start, n as int));
    }
    if i >= n {
        // no digits at all
        assert(!all_digits(ds));
        return None;
    }
    let mut val: u32 = 0;
    while i < n
        invariant
            start <= i <= n,
            start < n,
            n == s@.len(),
            start == 0 || start == 1,
            ds == port_digits_of(s@),
            ds == s@.subrange(start, n as int),
            forall|j: int| start <= j < i ==> is_digit(#[trigger] s@[j]),
            0 <= val <= 65535,
            val as int == digits_value(s@.subrange(start, i as int)),
        decreases n - i,
    {
        let c = s.get_char(i);
        let d = c as u32;
        if d < 48 || d > 57 {
            assert(!is_digit(s@[i as int]));
            assert(ds[i - start] == s@[i as int]);
            assert(!all_digits(ds));
            return None;
        }
        let next_val = val * 10 + (d - 48);
        proof {
            assert(s@.subrange(start, i + 1).drop_last() =~= s@.subrange(start, i as int));
            assert(s@.subrange(start, i + 1).last() == s@[i as int]);
        }
        if next_val > 65535 {
            proof {
                assert(s@.subrange(start, i + 1) =~= ds.subrange(0, i + 1 - start));
                if all_digits(ds) {
                    lemma_digits_value_grows(ds, i + 1 - start);
                }
            }
            return None;
        }
        val = next_val;
        i = i + 1;
    }
    proof {
        assert(s@.subrange(start, n as int) =~= ds);
        assert forall|j: int| 0 <= j < ds.len() implies is_digit(#[trigger] ds[j]) by {
            assert(ds[j] == s@[start + j]);
        }
        assert(all_digits(ds));
    }
    Some(val as u16)
}

/// Splits `addr` into the text before the first `:` and the port parsed
/// from the text after it; `None` exactly when there is no `:` or the
/// port does not parse.
pub fn try_parse_address(addr: &str) -> (r: Option<(String, u16)>)
    ensures
        r is Some <==> valid_address(addr@),
        r matches Some(p) ==> p.0@ == ip_of(addr@) && p.1 as int == port_value_of(addr@),
{
    let n = addr.unicode_len();
    let k = find_char_at(addr, ':', 0);
    if k >= n {
        return None;
    }
    let e = find_char_at(addr, ':', k + 1);
    let token = addr.substring_char(k + 1, e);
    match parse_port(token) {
        Some(p) => Some((addr.substring_char(0, k).to_owned(), p)),
        None => None,
    }
}

/// Splits `addr` into its host text and port number, as the client does
/// with the address the user typed. The address must be valid: the
/// unchecked variant of `try_parse_address`.
pub fn parse_address(addr: &str) -> (r: (String, u16))
    requires
        valid_address(addr@),
    ensures
        r.0@ == ip_of(addr@),
        r.1 as int == port_value_of(addr@),
{
    try_parse_address(addr).unwrap()
}

} // verus!
