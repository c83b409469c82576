//! Calendar dates for generation entries: a Unix timestamp becomes a
//! `YYYY-MM-DD` string.

use vstd::prelude::*;
use crate::strings::{dec_digits, digit_char, u64_to_chars, string_from_chars, push_all};

verus! {

/// The proleptic-Gregorian calendar date (year, month, day) of a Unix
/// timestamp, at UTC.  Names what the `time` crate computes.
pub uninterp spec fn civil_date(secs: int) -> (int, int, int);

/// Relies on `time::OffsetDateTime::from_unix_timestamp` and
/// `Date::{year, month, day}`: the UTC calendar date of `secs`, `None`
/// outside the crate's supported range (years -9999 to 9999); months and
/// days are one-based; timestamps from the Unix epoch onward fall in years
/// 1970 and later, and every timestamp up to the year 2100 is in range.
#[verifier::external_body]
pub fn civil_from_unix(secs: i64) -> (r: Option<(i32, u8, u8)>)
    ensures
        r matches Some(t) ==> {
            &&& (t.0 as int, t.1 as int, t.2 as int) == civil_date(secs as int)
            &&& -9999 <= t.0 <= 9999
            &&& 1 <= t.1 <= 12
            &&& 1 <= t.2 <= 31
            &&& secs >= 0 ==> t.0 >= 1970
        },
        0 <= secs <= 4102444799 ==> r is Some,
{
    match time::OffsetDateTime::from_unix_timestamp(secs) {
        Ok(dt) => {
            let d = dt.date();
            Some((d.year(), d.month() as u8, d.day()))
        },
        Err(_) => None,
    }
}

/// A number padded with leading zeroes to at least `w` digits.
pub open spec fn padded(n: nat, w: nat) -> Seq<char>
    decreases w,
{
    if dec_digits(n).len() >= w {
        dec_digits(n)
    } else if w == 1 {
        dec_digits(n)
    } else {
        seq![digit_char(0)] + padded(n, (w - 1) as nat)
    }
}

/// `YYYY-MM-DD`, zero-padded.
pub open spec fn date_text(y: int, m: int, d: int) -> Seq<char> {
    padded(y as nat, 4) + seq!['-'] + padded(m as nat, 2) + seq!['-'] + padded(d as nat, 2)
}

/// Pads the decimal digits of `n` to at least `w` digits.
fn pad_chars(n: u64, w: usize) -> (r: Vec<char>)
    requires
        w <= 4,
    ensures
        r@ == padded(n as nat, w as nat),
{
    let digits = u64_to_chars(n);
    let mut r: Vec<char> = Vec::new();
    let mut pad: usize = w;
    while pad > digits.len()
        invariant
            digits@ == dec_digits(n as nat),
            pad <= w <= 4,
            pad >= digits@.len() ==> padded(n as nat, w as nat) =~= r@ + padded(
                n as nat,
                pad as nat,
            ),
            pad < digits@.len() ==> padded(n as nat, w as nat) =~= r@ + dec_digits(n as nat),
        decreases pad,
    {
        r.push('0');
        proof {
            assert(dec_digits(n as nat).len() >= 1);
            assert(digit_char(0) == '0');
            assert(padded(n as nat, pad as nat) =~= seq![digit_char(0)] + padded(
                n as nat,
                (pad - 1) as nat,
            ));
        }
        pad = pad - 1;
    }
    proof {
        assert(padded(n as nat, pad as nat) =~= dec_digits(n as nat));
    }
    push_all(&mut r, &digits);
    r
}

/// Formats a calendar date as `YYYY-MM-DD`.
pub fn format_date(y: i64, m: u8, d: u8) -> (r: String)
    requires
        0 <= y <= 9999,
        1 <= m <= 12,
        1 <= d <= 31,
    ensures
        r@ == date_text(y as int, m as int, d as int),
{
    let mut cs = pad_chars(y as u64, 4);
    cs.push('-');
    let mm = pad_chars(m as u64, 2);
    push_all(&mut cs, &mm);
    cs.push('-');
    let dd = pad_chars(d as u64, 2);
    push_all(&mut cs, &dd);
    proof {
        assert(cs@ =~= date_text(y as int, m as int, d as int));
    }
    string_from_chars(&cs)
}

/// The `YYYY-MM-DD` date string of a Unix timestamp, or `None` when the
/// timestamp is out of the supported range (before year zero, or beyond the
/// calendar's bounds).
pub fn date_string_from_unix(secs: i64) -> (r: Option<String>)
    ensures
        match r {
            Some(s) => s@ == date_text(
                civil_date(secs as int).0,
                civil_date(secs as int).1,
                civil_date(secs as int).2,
            ),
            None => true,
        },
        0 <= secs <= 4102444799 ==> r is Some,
{
    match civil_from_unix(secs) {
        Some((y, m, d)) => {
            if y < 0 {
                None
            } else {
                Some(format_date(y as i64, m, d))
            }
        },
        None => None,
    }
}

} // verus!
