//! Decimal rendering of unsigned integers, used for status lines,
//! `Content-Length` headers, port numbers and timestamps.

use vstd::prelude::*;
use vstd::string::StringExecFns;

verus! {

/// The decimal digit character for `d` (meaningful for `0 <= d < 10`).
pub open spec fn digit_char(d: int) -> char {
    if d == 0 {
        '0'
    } else if d == 1 {
        '1'
    } else if d == 2 {
        '2'
    } else if d == 3 {
        '3'
    } else if d == 4 {
        '4'
    } else if d == 5 {
        '5'
    } else if d == 6 {
        '6'
    } else if d == 7 {
        '7'
    } else if d == 8 {
        '8'
    } else {
        '9'
    }
}

/// The decimal rendering of `n`, most significant digit first, no sign and
/// no padding (`0` renders as `"0"`).
pub open spec fn dec_of(n: nat) -> Seq<char>
    decreases n,
{
    if n < 10 {
        seq![digit_char(n as int)]
    } else {
        dec_of(n / 10) + seq![digit_char((n % 10) as int)]
    }
}

/// The decimal rendering of `n` zero-padded to two characters
/// (meaningful for `n < 100`).
pub open spec fn pad2_of(n: nat) -> Seq<char> {
    seq![digit_char((n / 10) as int % 10), digit_char((n % 10) as int)]
}

/// The decimal rendering of `n` zero-padded to four characters
/// (meaningful for `n < 10000`).
pub open spec fn pad4_of(n: nat) -> Seq<char> {
    seq![
        digit_char((n / 1000) as int % 10),
        digit_char((n / 100) as int % 10),
        digit_char((n / 10) as int % 10),
        digit_char((n % 10) as int),
    ]
}

/// A one-character string slice holding the decimal digit for `d`.
fn digit_str(d: u64) -> (r: &'static str)
    requires
        d < 10,
    ensures
        r@ == seq![digit_char(d as int)],
{
    let s: &'static str = if d == 0 {
        "0"
    } else if d == 1 {
        "1"
    } else if d == 2 {
        "2"
    } else if d == 3 {
        "3"
    } else if d == 4 {
        "4"
    } else if d == 5 {
        "5"
    } else if d == 6 {
        "6"
    } else if d == 7 {
        "7"
    } else if d == 8 {
        "8"
    } else {
        "9"
    };
    proof {
        reveal_strlit("0");
        reveal_strlit("1");
        reveal_strlit("2");
        reveal_strlit("3");
        reveal_strlit("4");
        reveal_strlit("5");
        reveal_strlit("6");
        reveal_strlit("7");
        reveal_strlit("8");
        reveal_strlit("9");
        assert(s@ =~= seq![digit_char(d as int)]);
    }
    s
}

/// Renders `n` in decimal, without sign or padding.
pub fn u64_dec(n: u64) -> (r: String)
    ensures
        r@ == dec_of(n as nat),
    decreases n,
{
    if n < 10 {
        digit_str(n).to_owned()
    } else {
        let mut s = u64_dec(n / 10);
        s.append(digit_str(n % 10));
        proof {
            assert(s@ =~= dec_of(n as nat));
        }
        s
    }
}

/// Renders `n` in decimal, without sign or padding.
pub fn usize_dec(n: usize) -> (r: String)
    ensures
        r@ == dec_of(n as nat),
{
    u64_dec(n as u64)
}

/// Renders `n` in decimal, zero-padded to two characters.
pub fn u64_pad2(n: u64) -> (r: String)
    requires
        n < 100,
    ensures
        r@ == pad2_of(n as nat),
{
    let mut s = digit_str(n / 10).to_owned();
    s.append(digit_str(n % 10));
    proof {
        assert(s@ =~= pad2_of(n as nat));
    }
    s
}

/// Renders `n` in decimal, zero-padded to four characters.
pub fn u64_pad4(n: u64) -> (r: String)
    requires
        n < 10000,
    ensures
        r@ == pad4_of(n as nat),
{
    let mut s = digit_str(n / 1000).to_owned();
    s.append(digit_str((n / 100) % 10));
    s.append(digit_str((n / 10) % 10));
    s.append(digit_str(n % 10));
    proof {
        assert(s@ =~= pad4_of(n as nat));
    }
    s
}

/// Whether `c` is one of the ten decimal digit characters.
pub open spec fn is_digit(c: char) -> bool {
    48 <= c as u32 <= 57
}

} // verus!
