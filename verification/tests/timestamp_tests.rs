//! Tests of timestamp rendering and the clock wrapper.

use chat_relay::timestamp::{now_timestamp, now_timestamp_string, Timestamp};
use chrono::Datelike;

#[test]
fn renders_zero_padded() {
    let ts = Timestamp { year: 987, month: 6, day: 5, hour: 4, minute: 3, second: 2 };
    assert_eq!(ts.render(), "0987/06/05 04:03:02");
}

#[test]
fn renders_plain_fields() {
    let ts = Timestamp { year: 2024, month: 12, day: 31, hour: 23, minute: 59, second: 58 };
    assert_eq!(ts.render(), "2024/12/31 23:59:58");
}

#[test]
fn renders_years_outside_four_digits_with_sign() {
    let neg = Timestamp { year: -1, month: 1, day: 1, hour: 0, minute: 0, second: 0 };
    assert_eq!(neg.render(), "-0001/01/01 00:00:00");
    let big = Timestamp { year: 10000, month: 1, day: 1, hour: 0, minute: 0, second: 0 };
    assert_eq!(big.render(), "+10000/01/01 00:00:00");
}

#[test]
fn clock_yields_well_formed_fields() {
    let ts = now_timestamp();
    assert!((1..=12).contains(&ts.month));
    assert!((1..=31).contains(&ts.day));
    assert!(ts.hour < 24);
    assert!(ts.minute < 60);
    assert!(ts.second < 60);
    // the rendered stamp of the present era has the documented shape
    let s = now_timestamp_string();
    let chars: Vec<char> = s.chars().collect();
    assert_eq!(chars.len(), 19);
    for (i, c) in chars.iter().enumerate() {
        match i {
            4 | 7 => assert_eq!(*c, '/'),
            10 => assert_eq!(*c, ' '),
            13 | 16 => assert_eq!(*c, ':'),
            _ => assert!(c.is_ascii_digit()),
        }
    }
}

#[test]
fn clock_matches_chrono() {
    // reads of the clock taken moments apart agree on the date, up to a
    // possible rollover between the reads
    let before = chrono::Local::now();
    let ours = now_timestamp();
    let after = chrono::Local::now();
    assert!(ours.year == before.year() || ours.year == after.year());
    assert!(ours.month as u32 == before.month() || ours.month as u32 == after.month());
    assert!(ours.day as u32 == before.day() || ours.day as u32 == after.day());
}
