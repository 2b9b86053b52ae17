//! Local timestamps: the server stamps every appended entry with
//! `YYYY/MM/DD HH:MM:SS` in local time. Reading the clock is trusted;
//! rendering the fields is verified.

use vstd::prelude::*;
use vstd::string::StringExecFns;
use chrono::Datelike;
use chrono::Timelike;
use crate::fmtnum::{dec_of, is_digit, digit_char, pad2_of, pad4_of, u64_dec, u64_pad2, u64_pad4};

verus! {

/// A wall-clock time split into plain fields.
pub struct Timestamp {
    pub year: i32,
    pub month: u8,
    pub day: u8,
    pub hour: u8,
    pub minute: u8,
    pub second: u8,
}

impl Timestamp {
    /// The field ranges a calendar time satisfies; the year is
    /// unconstrained.
    pub open spec fn wf(self) -> bool {
        &&& 1 <= self.month <= 12
        &&& 1 <= self.day <= 31
        &&& self.hour < 24
        &&& self.minute < 60
        &&& self.second < 60
    }

    /// Renders the timestamp as `YYYY/MM/DD HH:MM:SS`.
    pub fn render(&self) -> (r: String)
        requires
            self.wf(),
        ensures
            r@ == timestamp_chars(*self),
    {
        let mut s = render_year(self.year);
        s.append("/");
        s.append(u64_pad2(self.month as u64).as_str());
        s.append("/");
        s.append(u64_pad2(self.day as u64).as_str());
        s.append(" ");
        s.append(u64_pad2(self.hour as u64).as_str());
        s.append(":");
        s.append(u64_pad2(self.minute as u64).as_str());
        s.append(":");
        s.append(u64_pad2(self.second as u64).as_str());
        proof {
            reveal_strlit("/");
            reveal_strlit(" ");
            reveal_strlit(":");
            assert("/"@ =~= seq!['/']);
            assert(" "@ =~= seq![' ']);
            assert(":"@ =~= seq![':']);
            assert(s@ =~= timestamp_chars(*self));
        }
        s
    }
}

/// The year part: zero-padded to four digits for years 0 to 9999; outside
/// that range an explicit sign, with the magnitude zero-padded to four
/// digits.
pub open spec fn year_chars(y: int) -> Seq<char> {
    if 0 <= y <= 9999 {
        pad4_of(y as nat)
    } else if y > 9999 {
        seq!['+'] + dec_of(y as nat)
    } else {
        seq!['-'] + (if -y <= 9999 {
            pad4_of((-y) as nat)
        } else {
            dec_of((-y) as nat)
        })
    }
}

/// The rendering of a timestamp: the year, then `/MM/DD HH:MM:SS` with
/// every other field zero-padded to two digits.
pub open spec fn timestamp_chars(ts: Timestamp) -> Seq<char> {
    year_chars(ts.year as int) + seq!['/'] + pad2_of(ts.month as nat) + seq!['/'] + pad2_of(
        ts.day as nat,
    ) + seq![' '] + pad2_of(ts.hour as nat) + seq![':'] + pad2_of(ts.minute as nat) + seq![':']
        + pad2_of(ts.second as nat)
}

/// Renders the year part.
fn render_year(y: i32) -> (r: String)
    ensures
        r@ == year_chars(y as int),
{
    if 0 <= y && y <= 9999 {
        u64_pad4(y as u64)
    } else if y > 9999 {
        let mut s = String::from_str("+");
        s.append(u64_dec(y as u64).as_str());
        proof {
            reveal_strlit("+");
            assert("+"@ =~= seq!['+']);
            assert(s@ =~= year_chars(y as int));
        }
        s
    } else {
        let a: i64 = -(y as i64);
        let mut s = String::from_str("-");
        if a <= 9999 {
            s.append(u64_pad4(a as u64).as_str());
        } else {
            s.append(u64_dec(a as u64).as_str());
        }
        proof {
            reveal_strlit("-");
            assert("-"@ =~= seq!['-']);
            assert(s@ =~= year_chars(y as int));
        }
        s
    }
}

/// The shape `YYYY/MM/DD HH:MM:SS`: nineteen characters, separators at
/// their places, decimal digits everywhere else.
pub open spec fn is_timestamp_shape(s: Seq<char>) -> bool {
    &&& s.len() == 19
    &&& s[4] == '/'
    &&& s[7] == '/'
    &&& s[10] == ' '
    &&& s[13] == ':'
    &&& s[16] == ':'
    &&& forall|i: int|
        0 <= i < 19 && i != 4 && i != 7 && i != 10 && i != 13 && i != 16 ==> is_digit(
            #[trigger] s[i],
        )
}

/// The rendering of any well-formed timestamp whose year has at most four
/// digits matches `YYYY/MM/DD HH:MM:SS`.
pub proof fn lemma_timestamp_shape(ts: Timestamp)
    requires
        ts.wf(),
        0 <= ts.year <= 9999,
    ensures
        is_timestamp_shape(timestamp_chars(ts)),
{
    let s = timestamp_chars(ts);
    assert forall|d: int| 0 <= d < 10 implies is_digit(#[trigger] digit_char(d)) by {
    }
    assert(s.len() == 19);
    assert forall|i: int|
        0 <= i < 19 && i != 4 && i != 7 && i != 10 && i != 13 && i != 16 implies is_digit(
        #[trigger] s[i],
    ) by {
        let y = ts.year as nat;
        if i < 4 {
            assert(s[i] == pad4_of(y)[i]);
        } else if i < 7 {
            assert(s[i] == pad2_of(ts.month as nat)[i - 5]);
        } else if i < 10 {
            assert(s[i] == pad2_of(ts.day as nat)[i - 8]);
        } else if i < 13 {
            assert(s[i] == pad2_of(ts.hour as nat)[i - 11]);
        } else if i < 16 {
            assert(s[i] == pad2_of(ts.minute as nat)[i - 14]);
        } else {
            assert(s[i] == pad2_of(ts.second as nat)[i - 17]);
        }
    }
}

/// Relies on `chrono::Local::now` and the `Datelike` / `Timelike`
/// accessors: reads the current local wall-clock time as plain fields
/// (year, month, day, hour, minute, second). chrono documents the month as
/// 1 to 12, the day as 1 to 31, the hour as 0 to 23, and the minute and
/// second as 0 to 59; nothing is promised of the year.
#[verifier::external_body]
fn now_parts() -> (r: (i32, u32, u32, u32, u32, u32))
    ensures
        1 <= r.1 <= 12,
        1 <= r.2 <= 31,
        r.3 < 24,
        r.4 < 60,
        r.5 < 60,
{
    let now = chrono::Local::now();
    (now.year(), now.month(), now.day(), now.hour(), now.minute(), now.second())
}

/// The current local time as a well-formed timestamp.
pub fn now_timestamp() -> (r: Timestamp)
    ensures
        r.wf(),
{
    let (y, mo, d, h, mi, s) = now_parts();
    Timestamp {
        year: y,
        month: mo as u8,
        day: d as u8,
        hour: h as u8,
        minute: mi as u8,
        second: s as u8,
    }
}

/// The current local time rendered as the server stamps entries.
pub fn now_timestamp_string() -> (r: String)
    ensures
        exists|ts: Timestamp| ts.wf() && r@ == timestamp_chars(ts),
{
    let ts = now_timestamp();
    let r = ts.render();
    proof {
        assert(ts.wf() && r@ == timestamp_chars(ts));
    }
    r
}

} // verus!
