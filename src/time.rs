//! Timestamps in rule text, read through chrono.

use chrono::{Datelike, Timelike};
use vstd::prelude::*;
use crate::fields::{Stamp, date_time_valid};

verus! {

/// The UTC instant that chrono reads from an RFC 3339 timestamp, if any.
pub uninterp spec fn rfc3339_utc(s: Seq<char>) -> Option<Stamp>;

/// The UTC instant that chrono reads from a compact `YYYYMMDDTHHMMSSZ` timestamp, if any.
pub uninterp spec fn compact_utc(s: Seq<char>) -> Option<Stamp>;

pub open spec fn digit_at(s: Seq<char>, i: int) -> int {
    s[i] as int - '0' as int
}

/// `YYYY-MM-DDTHH:MM:SSZ`, with a digit wherever a letter of the pattern is.
pub open spec fn rfc3339_shape(s: Seq<char>) -> bool {
    &&& s.len() == 20
    &&& forall|i: int|
        0 <= i < 19 && i != 4 && i != 7 && i != 10 && i != 13 && i != 16 ==> '0' <= #[trigger] s[i]
            <= '9'
    &&& s[4] == '-' && s[7] == '-' && s[10] == 'T'
    &&& s[13] == ':' && s[16] == ':' && s[19] == 'Z'
}

/// The fields that a text of [`rfc3339_shape`] writes.
pub open spec fn rfc3339_fields(s: Seq<char>) -> Stamp {
    Stamp {
        year: (digit_at(s, 0) * 1000 + digit_at(s, 1) * 100 + digit_at(s, 2) * 10 + digit_at(s, 3))
            as i32,
        month: (digit_at(s, 5) * 10 + digit_at(s, 6)) as u32,
        day: (digit_at(s, 8) * 10 + digit_at(s, 9)) as u32,
        hour: (digit_at(s, 11) * 10 + digit_at(s, 12)) as u32,
        minute: (digit_at(s, 14) * 10 + digit_at(s, 15)) as u32,
        second: (digit_at(s, 17) * 10 + digit_at(s, 18)) as u32,
    }
}

/// `YYYYMMDDTHHMMSSZ`, with a digit wherever a letter of the pattern is.
pub open spec fn compact_shape(s: Seq<char>) -> bool {
    &&& s.len() == 16
    &&& forall|i: int| 0 <= i < 15 && i != 8 ==> '0' <= #[trigger] s[i] <= '9'
    &&& s[8] == 'T' && s[15] == 'Z'
}

/// The fields that a text of [`compact_shape`] writes.
pub open spec fn compact_fields(s: Seq<char>) -> Stamp {
    Stamp {
        year: (digit_at(s, 0) * 1000 + digit_at(s, 1) * 100 + digit_at(s, 2) * 10 + digit_at(s, 3))
            as i32,
        month: (digit_at(s, 4) * 10 + digit_at(s, 5)) as u32,
        day: (digit_at(s, 6) * 10 + digit_at(s, 7)) as u32,
        hour: (digit_at(s, 9) * 10 + digit_at(s, 10)) as u32,
        minute: (digit_at(s, 11) * 10 + digit_at(s, 12)) as u32,
        second: (digit_at(s, 13) * 10 + digit_at(s, 14)) as u32,
    }
}

/// Relies on chrono's `DateTime::parse_from_rfc3339`, taken to UTC: it accepts a
/// `Z` timestamp whose date and time exist and reads its fields as written;
/// what it returns is a real date and time whose UTC year is within one of
/// the four digits written; text shorter than 19 bytes (as a compact
/// timestamp is) gives nothing.
#[verifier::external_body]
pub fn parse_rfc3339_utc(s: &str) -> (r: Option<Stamp>)
    ensures
        r == rfc3339_utc(s@),
        r matches Some(t) ==> date_time_valid(t) && -1 <= t.year <= 10000,
        rfc3339_shape(s@) && date_time_valid(rfc3339_fields(s@)) ==> r == Some(
            rfc3339_fields(s@),
        ),
        compact_shape(s@) ==> r is None,
{
    chrono::DateTime::parse_from_rfc3339(s).ok().map(|d| {
        let u = d.with_timezone(&chrono::Utc);
        Stamp {
            year: u.year(),
            month: u.month(),
            day: u.day(),
            hour: u.hour(),
            minute: u.minute(),
            second: u.second(),
        }
    })
}

/// Relies on chrono's `NaiveDateTime::parse_from_str` with the format
/// `%Y%m%dT%H%M%SZ`: an unsigned year takes four digits, so a compact text
/// whose date and time exist is read as written; what it returns is a real
/// date and time.
#[verifier::external_body]
pub fn parse_compact_utc(s: &str) -> (r: Option<Stamp>)
    ensures
        r == compact_utc(s@),
        r matches Some(t) ==> date_time_valid(t),
        compact_shape(s@) && date_time_valid(compact_fields(s@)) ==> r == Some(compact_fields(s@)),
{
    chrono::NaiveDateTime::parse_from_str(s, "%Y%m%dT%H%M%SZ").ok().map(|u| Stamp {
        year: u.year(),
        month: u.month(),
        day: u.day(),
        hour: u.hour(),
        minute: u.minute(),
        second: u.second(),
    })
}

} // verus!
