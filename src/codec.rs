//! Reading RRULE text into [`RuleFields`] and writing it back.

use vstd::prelude::*;
use vstd::string::*;
use crate::fields::{Frequency, MaybeCount, NWeekday, RuleFields, RuleModel, Stamp, Weekday, date_time_valid, stamp_valid};
use crate::text::{push_int, push_nat, chars_of, find_char, find_from, int_in, int_text, parse_int, string_of, two_digits, word_is, year_text};
use crate::time::{compact_fields, compact_shape, rfc3339_fields, rfc3339_shape, compact_utc, parse_compact_utc, parse_rfc3339_utc, rfc3339_utc};

verus! {

/// What went wrong in a piece of rule text.
#[derive(Clone, Copy, Debug, PartialEq, Eq, Structural)]
pub enum ParseErrorKind {
    /// A segment without `=`.
    MalformedSegment,
    UnknownKey,
    MissingFrequency,
    InvalidFrequency,
    InvalidInterval,
    InvalidCount,
    InvalidUntil,
    InvalidWeekStart,
    InvalidWeekday,
    InvalidSetPos,
    InvalidMonth,
    InvalidMonthDay,
    InvalidYearDay,
    InvalidWeekNo,
    InvalidHour,
    InvalidMinute,
    InvalidSecond,
}

/// A parse failure and the text it is about: the segment, key, value or
/// list item at fault (empty for a missing frequency).
#[derive(Clone, Debug, PartialEq, Eq)]
pub struct ParseError {
    pub kind: ParseErrorKind,
    pub token: String,
}

pub ghost struct ParseErrorModel {
    pub kind: ParseErrorKind,
    pub token: Seq<char>,
}

impl View for ParseError {
    type V = ParseErrorModel;

    open spec fn view(&self) -> ParseErrorModel {
        ParseErrorModel { kind: self.kind, token: self.token@ }
    }
}

pub open spec fn perr(kind: ParseErrorKind, token: Seq<char>) -> ParseErrorModel {
    ParseErrorModel { kind, token }
}

/// Integer types that a numeric list of rule text may hold.
pub trait IntItem: Sized + Copy {
    spec fn lo() -> int;

    spec fn hi() -> int;

    spec fn as_int(self) -> int;

    spec fn from_int(v: int) -> Self;

    fn bounds() -> (r: (i64, i64))
        ensures
            r.0 == Self::lo(),
            r.1 == Self::hi(),
            -0x1_0000_0000 <= r.0 <= r.1 <= 0x1_0000_0000,
    ;

    fn from_i64(v: i64) -> (r: Self)
        requires
            Self::lo() <= v <= Self::hi(),
        ensures
            r == Self::from_int(v as int),
            r.as_int() == v,
    ;

    fn to_i64(self) -> (r: i64)
        ensures
            r == self.as_int(),
            -0x1_0000_0000 <= r <= 0x1_0000_0000,
    ;

    proof fn lemma_int_item(self)
        ensures
            Self::from_int(self.as_int()) == self,
            Self::lo() <= self.as_int() <= Self::hi(),
    ;
}

impl IntItem for u8 {
    open spec fn lo() -> int { 0 }
    open spec fn hi() -> int { 255 }
    open spec fn as_int(self) -> int { self as int }
    open spec fn from_int(v: int) -> u8 { v as u8 }
    fn bounds() -> (r: (i64, i64)) { (0, 255) }
    fn from_i64(v: i64) -> (r: u8) { v as u8 }
    fn to_i64(self) -> (r: i64) { self as i64 }
    proof fn lemma_int_item(self) {}
}

impl IntItem for i8 {
    open spec fn lo() -> int { -128 }
    open spec fn hi() -> int { 127 }
    open spec fn as_int(self) -> int { self as int }
    open spec fn from_int(v: int) -> i8 { v as i8 }
    fn bounds() -> (r: (i64, i64)) { (-128, 127) }
    fn from_i64(v: i64) -> (r: i8) { v as i8 }
    fn to_i64(self) -> (r: i64) { self as i64 }
    proof fn lemma_int_item(self) {}
}

impl IntItem for i16 {
    open spec fn lo() -> int { -32768 }
    open spec fn hi() -> int { 32767 }
    open spec fn as_int(self) -> int { self as int }
    open spec fn from_int(v: int) -> i16 { v as i16 }
    fn bounds() -> (r: (i64, i64)) { (-32768, 32767) }
    fn from_i64(v: i64) -> (r: i16) { v as i16 }
    fn to_i64(self) -> (r: i64) { self as i64 }
    proof fn lemma_int_item(self) {}
}

impl IntItem for i32 {
    open spec fn lo() -> int { -2147483648 }
    open spec fn hi() -> int { 2147483647 }
    open spec fn as_int(self) -> int { self as int }
    open spec fn from_int(v: int) -> i32 { v as i32 }
    fn bounds() -> (r: (i64, i64)) { (-2147483648, 2147483647) }
    fn from_i64(v: i64) -> (r: i32) { v as i32 }
    fn to_i64(self) -> (r: i64) { self as i64 }
    proof fn lemma_int_item(self) {}
}

pub open spec fn ints_as<T: IntItem>(xs: Seq<int>) -> Seq<T> {
    xs.map_values(|x: int| T::from_int(x))
}

pub open spec fn ints_of<T: IntItem>(s: Seq<T>) -> Seq<int> {
    s.map_values(|y: T| y.as_int())
}

// ---------------------------------------------------------------- words

pub open spec fn frequency_name(f: Frequency) -> Seq<char> {
    match f {
        Frequency::Secondly => "SECONDLY"@,
        Frequency::Minutely => "MINUTELY"@,
        Frequency::Hourly => "HOURLY"@,
        Frequency::Daily => "DAILY"@,
        Frequency::Weekly => "WEEKLY"@,
        Frequency::Monthly => "MONTHLY"@,
        Frequency::Yearly => "YEARLY"@,
    }
}

pub open spec fn frequency_of(t: Seq<char>) -> Option<Frequency> {
    if t == "SECONDLY"@ {
        Some(Frequency::Secondly)
    } else if t == "MINUTELY"@ {
        Some(Frequency::Minutely)
    } else if t == "HOURLY"@ {
        Some(Frequency::Hourly)
    } else if t == "DAILY"@ {
        Some(Frequency::Daily)
    } else if t == "WEEKLY"@ {
        Some(Frequency::Weekly)
    } else if t == "MONTHLY"@ {
        Some(Frequency::Monthly)
    } else if t == "YEARLY"@ {
        Some(Frequency::Yearly)
    } else {
        None
    }
}

pub open spec fn weekday_code(w: Weekday) -> Seq<char> {
    match w {
        Weekday::Mon => seq!['M', 'O'],
        Weekday::Tue => seq!['T', 'U'],
        Weekday::Wed => seq!['W', 'E'],
        Weekday::Thu => seq!['T', 'H'],
        Weekday::Fri => seq!['F', 'R'],
        Weekday::Sat => seq!['S', 'A'],
        Weekday::Sun => seq!['S', 'U'],
    }
}

pub open spec fn weekday_of(t: Seq<char>) -> Option<Weekday> {
    if t == seq!['M', 'O'] {
        Some(Weekday::Mon)
    } else if t == seq!['T', 'U'] {
        Some(Weekday::Tue)
    } else if t == seq!['W', 'E'] {
        Some(Weekday::Wed)
    } else if t == seq!['T', 'H'] {
        Some(Weekday::Thu)
    } else if t == seq!['F', 'R'] {
        Some(Weekday::Fri)
    } else if t == seq!['S', 'A'] {
        Some(Weekday::Sat)
    } else if t == seq!['S', 'U'] {
        Some(Weekday::Sun)
    } else {
        None
    }
}

/// `FR` is every Friday; `-1FR` or `+2FR` an nth one.
pub open spec fn nweekday_of(t: Seq<char>) -> Option<NWeekday> {
    if t.len() < 2 {
        None
    } else {
        match weekday_of(t.skip(t.len() - 2)) {
            None => None,
            Some(w) => if t.len() == 2 {
                Some(NWeekday::Every(w))
            } else {
                match int_in(t.take(t.len() - 2), -32768, 32767) {
                    Some(n) => Some(NWeekday::Nth(n as i16, w)),
                    None => None,
                }
            },
        }
    }
}

pub open spec fn nweekday_text(x: NWeekday) -> Seq<char> {
    match x {
        NWeekday::Every(w) => weekday_code(w),
        NWeekday::Nth(n, w) => int_text(n as int) + weekday_code(w),
    }
}

/// The instant that chrono reads from a timestamp, in RFC 3339 form or else
/// in compact form; a canonical `YYYY-MM-DDTHH:MM:SSZ` or `YYYYMMDDTHHMMSSZ`
/// text is read as written.
pub open spec fn read_stamp(t: Seq<char>) -> Option<Stamp> {
    if rfc3339_shape(t) && date_time_valid(rfc3339_fields(t)) {
        Some(rfc3339_fields(t))
    } else if compact_shape(t) && date_time_valid(compact_fields(t)) {
        Some(compact_fields(t))
    } else if rfc3339_utc(t) is Some {
        rfc3339_utc(t)
    } else {
        compact_utc(t)
    }
}

/// A valid timestamp, in RFC 3339 form or else in compact form.
pub open spec fn until_of(t: Seq<char>) -> Option<Stamp> {
    let read = read_stamp(t);
    match read {
        Some(s) => if stamp_valid(s) { Some(s) } else { None },
        None => None,
    }
}

pub open spec fn stamp_text(t: Stamp) -> Seq<char> {
    year_text(t.year as int) + seq!['-'] + two_digits(t.month as nat) + seq!['-'] + two_digits(
        t.day as nat,
    ) + seq!['T'] + two_digits(t.hour as nat) + seq![':'] + two_digits(t.minute as nat) + seq![
        ':',
    ] + two_digits(t.second as nat) + seq!['Z']
}

// ---------------------------------------------------------------- lists

/// Integers separated by commas, each within `lo..=hi`; or the first item
/// that is not one.
pub open spec fn int_list(v: Seq<char>, lo: int, hi: int) -> Result<Seq<int>, Seq<char>>
    decreases v.len(),
{
    let e = find_from(v, ',');
    let tok = v.take(e);
    match int_in(tok, lo, hi) {
        None => Err(tok),
        Some(x) => if e >= v.len() || e < 0 {
            Ok(seq![x])
        } else {
            match int_list(v.skip(e + 1), lo, hi) {
                Ok(xs) => Ok(seq![x] + xs),
                Err(t) => Err(t),
            }
        },
    }
}

/// `BYDAY` entries separated by commas; or the first item that is not one.
pub open spec fn nweekday_list(v: Seq<char>) -> Result<Seq<NWeekday>, Seq<char>>
    decreases v.len(),
{
    let e = find_from(v, ',');
    let tok = v.take(e);
    match nweekday_of(tok) {
        None => Err(tok),
        Some(x) => if e >= v.len() || e < 0 {
            Ok(seq![x])
        } else {
            match nweekday_list(v.skip(e + 1)) {
                Ok(xs) => Ok(seq![x] + xs),
                Err(t) => Err(t),
            }
        },
    }
}

pub open spec fn int_list_text(xs: Seq<int>) -> Seq<char>
    decreases xs.len(),
{
    if xs.len() <= 1 {
        if xs.len() == 0 { seq![] } else { int_text(xs[0]) }
    } else {
        int_text(xs[0]) + seq![','] + int_list_text(xs.drop_first())
    }
}

pub open spec fn nweekday_list_text(xs: Seq<NWeekday>) -> Seq<char>
    decreases xs.len(),
{
    if xs.len() <= 1 {
        if xs.len() == 0 { seq![] } else { nweekday_text(xs[0]) }
    } else {
        nweekday_text(xs[0]) + seq![','] + nweekday_list_text(xs.drop_first())
    }
}

// ---------------------------------------------------------------- segments

/// The rule before any segment is read: every field at its default.
pub open spec fn blank_rule() -> RuleModel {
    RuleModel {
        frequency: Frequency::Yearly,
        interval: 1,
        count: MaybeCount::Absent,
        until: None,
        week_start: Weekday::Mon,
        by_set_pos: seq![],
        by_month: seq![],
        by_month_day: seq![],
        by_year_day: seq![],
        by_week_no: seq![],
        by_weekday: seq![],
        by_hour: seq![],
        by_minute: seq![],
        by_second: seq![],
    }
}

/// Reading so far: whether `FREQ` has been seen, and the fields.
pub type Draft = (bool, RuleModel);

/// The draft after one `KEY=VALUE` segment; a later segment for a key
/// replaces an earlier one.
#[verifier::opaque]
pub open spec fn apply_segment(d: Draft, seg: Seq<char>) -> Result<Draft, ParseErrorModel> {
    let k = find_from(seg, '=');
    let key = seg.take(k);
    let val = seg.skip(k + 1);
    if k >= seg.len() {
        Err(perr(ParseErrorKind::MalformedSegment, seg))
    } else {
        apply_field(d, key, val)
    }
}

/// The draft after `KEY=VALUE` for one of the scalar keys, or else for a list key.
pub open spec fn apply_field(d: Draft, key: Seq<char>, val: Seq<char>) -> Result<Draft, ParseErrorModel> {
    let m = d.1;
    if key == "FREQ"@ {
        match frequency_of(val) {
            Some(f) => Ok((true, RuleModel { frequency: f, ..m })),
            None => Err(perr(ParseErrorKind::InvalidFrequency, val)),
        }
    } else if key == "INTERVAL"@ {
        match int_in(val, 1, 65535) {
            Some(n) => Ok((d.0, RuleModel { interval: n as u16, ..m })),
            None => Err(perr(ParseErrorKind::InvalidInterval, val)),
        }
    } else if key == "COUNT"@ {
        match int_in(val, 0, 4294967295) {
            Some(n) => Ok((d.0, RuleModel { count: MaybeCount::Present(n as u32), ..m })),
            None => Err(perr(ParseErrorKind::InvalidCount, val)),
        }
    } else if key == "UNTIL"@ {
        match until_of(val) {
            Some(t) => Ok((d.0, RuleModel { until: Some(t), ..m })),
            None => Err(perr(ParseErrorKind::InvalidUntil, val)),
        }
    } else if key == "WKST"@ {
        match weekday_of(val) {
            Some(w) => Ok((d.0, RuleModel { week_start: w, ..m })),
            None => Err(perr(ParseErrorKind::InvalidWeekStart, val)),
        }
    } else {
        apply_list_field(d, key, val)
    }
}

/// The draft after `KEY=VALUE` for one of the list keys; any other key is unknown.
pub open spec fn apply_list_field(d: Draft, key: Seq<char>, val: Seq<char>) -> Result<Draft, ParseErrorModel> {
    let m = d.1;
    if key == "BYSETPOS"@ {
        match int_list(val, i32::lo(), i32::hi()) {
            Ok(xs) => Ok((d.0, RuleModel { by_set_pos: ints_as(xs), ..m })),
            Err(t) => Err(perr(ParseErrorKind::InvalidSetPos, t)),
        }
    } else if key == "BYMONTH"@ {
        match int_list(val, u8::lo(), u8::hi()) {
            Ok(xs) => Ok((d.0, RuleModel { by_month: ints_as(xs), ..m })),
            Err(t) => Err(perr(ParseErrorKind::InvalidMonth, t)),
        }
    } else if key == "BYMONTHDAY"@ {
        match int_list(val, i8::lo(), i8::hi()) {
            Ok(xs) => Ok((d.0, RuleModel { by_month_day: ints_as(xs), ..m })),
            Err(t) => Err(perr(ParseErrorKind::InvalidMonthDay, t)),
        }
    } else if key == "BYYEARDAY"@ {
        match int_list(val, i16::lo(), i16::hi()) {
            Ok(xs) => Ok((d.0, RuleModel { by_year_day: ints_as(xs), ..m })),
            Err(t) => Err(perr(ParseErrorKind::InvalidYearDay, t)),
        }
    } else if key == "BYWEEKNO"@ {
        match int_list(val, i8::lo(), i8::hi()) {
            Ok(xs) => Ok((d.0, RuleModel { by_week_no: ints_as(xs), ..m })),
            Err(t) => Err(perr(ParseErrorKind::InvalidWeekNo, t)),
        }
    } else if key == "BYDAY"@ {
        match nweekday_list(val) {
            Ok(xs) => Ok((d.0, RuleModel { by_weekday: xs, ..m })),
            Err(t) => Err(perr(ParseErrorKind::InvalidWeekday, t)),
        }
    } else if key == "BYHOUR"@ {
        match int_list(val, u8::lo(), u8::hi()) {
            Ok(xs) => Ok((d.0, RuleModel { by_hour: ints_as(xs), ..m })),
            Err(t) => Err(perr(ParseErrorKind::InvalidHour, t)),
        }
    } else if key == "BYMINUTE"@ {
        match int_list(val, u8::lo(), u8::hi()) {
            Ok(xs) => Ok((d.0, RuleModel { by_minute: ints_as(xs), ..m })),
            Err(t) => Err(perr(ParseErrorKind::InvalidMinute, t)),
        }
    } else if key == "BYSECOND"@ {
        match int_list(val, u8::lo(), u8::hi()) {
            Ok(xs) => Ok((d.0, RuleModel { by_second: ints_as(xs), ..m })),
            Err(t) => Err(perr(ParseErrorKind::InvalidSecond, t)),
        }
    } else {
        Err(perr(ParseErrorKind::UnknownKey, key))
    }
}

/// The draft after the `;`-separated segments of `s`, read in order up to
/// the first that fails.
pub open spec fn apply_segments(s: Seq<char>, d: Draft) -> Result<Draft, ParseErrorModel>
    decreases s.len(),
{
    let e = find_from(s, ';');
    match apply_segment(d, s.take(e)) {
        Err(x) => Err(x),
        Ok(d2) => if e >= s.len() || e < 0 {
            Ok(d2)
        } else {
            apply_segments(s.skip(e + 1), d2)
        },
    }
}

/// What [`parse`] gives for a text.
pub open spec fn parse_model(s: Seq<char>) -> Result<RuleModel, ParseErrorModel> {
    match apply_segments(s, (false, blank_rule())) {
        Err(x) => Err(x),
        Ok(d) => if d.0 {
            Ok(d.1)
        } else {
            Err(perr(ParseErrorKind::MissingFrequency, seq![]))
        },
    }
}

// ---------------------------------------------------------------- reading

pub open spec fn then_list<A>(xs: Seq<A>, r: Result<Seq<A>, Seq<char>>) -> Result<Seq<A>, Seq<char>> {
    match r {
        Ok(ys) => Ok(xs + ys),
        Err(t) => Err(t),
    }
}

fn read_frequency(cs: &Vec<char>, a: usize, b: usize) -> (r: Option<Frequency>)
    requires
        a <= b <= cs@.len(),
    ensures
        r == frequency_of(cs@.subrange(a as int, b as int)),
{
    if word_is(cs, a, b, "SECONDLY") {
        Some(Frequency::Secondly)
    } else if word_is(cs, a, b, "MINUTELY") {
        Some(Frequency::Minutely)
    } else if word_is(cs, a, b, "HOURLY") {
        Some(Frequency::Hourly)
    } else if word_is(cs, a, b, "DAILY") {
        Some(Frequency::Daily)
    } else if word_is(cs, a, b, "WEEKLY") {
        Some(Frequency::Weekly)
    } else if word_is(cs, a, b, "MONTHLY") {
        Some(Frequency::Monthly)
    } else if word_is(cs, a, b, "YEARLY") {
        Some(Frequency::Yearly)
    } else {
        None
    }
}

fn read_weekday(cs: &Vec<char>, a: usize, b: usize) -> (r: Option<Weekday>)
    requires
        a <= b <= cs@.len(),
    ensures
        r == weekday_of(cs@.subrange(a as int, b as int)),
{
    let ghost t = cs@.subrange(a as int, b as int);
    if b - a != 2 {
        proof {
            assert(t.len() != 2);
            assert(t != seq!['M', 'O'] && t != seq!['T', 'U'] && t != seq!['W', 'E'] && t != seq![
                'T',
                'H',
            ] && t != seq!['F', 'R'] && t != seq!['S', 'A'] && t != seq!['S', 'U']);
        }
        return None;
    }
    let x = cs[a];
    let y = cs[a + 1];
    assert(t =~= seq![x, y]);
    if x == 'M' && y == 'O' {
        Some(Weekday::Mon)
    } else if x == 'T' && y == 'U' {
        Some(Weekday::Tue)
    } else if x == 'W' && y == 'E' {
        Some(Weekday::Wed)
    } else if x == 'T' && y == 'H' {
        Some(Weekday::Thu)
    } else if x == 'F' && y == 'R' {
        Some(Weekday::Fri)
    } else if x == 'S' && y == 'A' {
        Some(Weekday::Sat)
    } else if x == 'S' && y == 'U' {
        Some(Weekday::Sun)
    } else {
        proof {
            assert(seq![x, y][0] == x && seq![x, y][1] == y);
            assert(t != seq!['M', 'O'] && t != seq!['T', 'U'] && t != seq!['W', 'E'] && t != seq![
                'T',
                'H',
            ] && t != seq!['F', 'R'] && t != seq!['S', 'A'] && t != seq!['S', 'U']) by {
                assert(seq!['M', 'O'][0] == 'M' && seq!['M', 'O'][1] == 'O');
                assert(seq!['T', 'U'][0] == 'T' && seq!['T', 'U'][1] == 'U');
                assert(seq!['W', 'E'][0] == 'W' && seq!['W', 'E'][1] == 'E');
                assert(seq!['T', 'H'][0] == 'T' && seq!['T', 'H'][1] == 'H');
                assert(seq!['F', 'R'][0] == 'F' && seq!['F', 'R'][1] == 'R');
                assert(seq!['S', 'A'][0] == 'S' && seq!['S', 'A'][1] == 'A');
                assert(seq!['S', 'U'][0] == 'S' && seq!['S', 'U'][1] == 'U');
            }
        }
        None
    }
}

fn read_nweekday(cs: &Vec<char>, a: usize, b: usize) -> (r: Option<NWeekday>)
    requires
        a <= b <= cs@.len(),
    ensures
        r == nweekday_of(cs@.subrange(a as int, b as int)),
{
    let ghost t = cs@.subrange(a as int, b as int);
    if b - a < 2 {
        return None;
    }
    assert(t.skip(t.len() - 2) =~= cs@.subrange(b - 2, b as int));
    assert(t.take(t.len() - 2) =~= cs@.subrange(a as int, b - 2));
    match read_weekday(cs, b - 2, b) {
        None => None,
        Some(w) => {
            if b - a == 2 {
                Some(NWeekday::Every(w))
            } else {
                match parse_int(cs, a, b - 2, -32768, 32767) {
                    Some(n) => Some(NWeekday::Nth(n as i16, w)),
                    None => None,
                }
            }
        },
    }
}

fn read_until(cs: &Vec<char>, a: usize, b: usize) -> (r: Option<Stamp>)
    requires
        a <= b <= cs@.len(),
    ensures
        r == until_of(cs@.subrange(a as int, b as int)),
{
    let s = string_of(cs, a, b);
    let read = match parse_rfc3339_utc(s.as_str()) {
        Some(t) => Some(t),
        None => parse_compact_utc(s.as_str()),
    };
    match read {
        Some(t) => {
            if 0 <= t.year && t.year <= 9999 {
                Some(t)
            } else {
                None
            }
        },
        None => None,
    }
}

fn read_int_list<T: IntItem>(cs: &Vec<char>, a: usize, b: usize) -> (r: Result<Vec<T>, (usize, usize)>)
    requires
        a <= b <= cs@.len(),
    ensures
        match r {
            Ok(v) => int_list(cs@.subrange(a as int, b as int), T::lo(), T::hi()) == Ok::<Seq<int>, Seq<char>>(ints_of(v@)) && v@ == ints_as::<T>(ints_of(v@)),
            Err((p, q)) => a <= p <= q <= b && int_list(cs@.subrange(a as int, b as int), T::lo(), T::hi())
                == Err::<Seq<int>, Seq<char>>(cs@.subrange(p as int, q as int)),
        },
{
    let (lo, hi) = T::bounds();
    let mut v: Vec<T> = Vec::new();
    let mut i: usize = a;
    loop
        invariant
            a <= i <= b <= cs@.len(),
            lo == T::lo(),
            hi == T::hi(),
            -0x1_0000_0000 <= lo <= hi <= 0x1_0000_0000,
            v@ == ints_as::<T>(ints_of(v@)),
            int_list(cs@.subrange(a as int, b as int), T::lo(), T::hi()) == then_list(
                ints_of(v@),
                int_list(cs@.subrange(i as int, b as int), T::lo(), T::hi()),
            ),
        decreases b - i,
    {
        let ghost rest = cs@.subrange(i as int, b as int);
        let e = find_char(cs, i, b, ',');
        assert(rest.take(e - i) =~= cs@.subrange(i as int, e as int));
        match parse_int(cs, i, e, lo, hi) {
            None => {
                return Err((i, e));
            },
            Some(x) => {
                let item = T::from_i64(x);
                let ghost old_v = v@;
                v.push(item);
                proof {
                    assert(ints_of(v@) =~= ints_of(old_v) + seq![x as int]);
                    assert(v@ =~= ints_as::<T>(ints_of(v@)));
                }
                if e == b {
                    proof {
                        assert(int_list(rest, T::lo(), T::hi()) == Ok::<Seq<int>, Seq<char>>(seq![x as int]));
                    }
                    return Ok(v);
                }
                assert(rest.skip(e - i + 1) =~= cs@.subrange(e + 1, b as int));
                proof {
                    let tail = int_list(cs@.subrange(e + 1, b as int), T::lo(), T::hi());
                    assert(ints_of(old_v) + (seq![x as int] + tail->Ok_0) =~= ints_of(old_v) + seq![x as int] + tail->Ok_0);
                }
                i = e + 1;
            },
        }
    }
}

fn read_nweekday_list(cs: &Vec<char>, a: usize, b: usize) -> (r: Result<Vec<NWeekday>, (usize, usize)>)
    requires
        a <= b <= cs@.len(),
    ensures
        match r {
            Ok(v) => nweekday_list(cs@.subrange(a as int, b as int)) == Ok::<Seq<NWeekday>, Seq<char>>(v@),
            Err((p, q)) => a <= p <= q <= b && nweekday_list(cs@.subrange(a as int, b as int))
                == Err::<Seq<NWeekday>, Seq<char>>(cs@.subrange(p as int, q as int)),
        },
{
    let mut v: Vec<NWeekday> = Vec::new();
    let mut i: usize = a;
    loop
        invariant
            a <= i <= b <= cs@.len(),
            nweekday_list(cs@.subrange(a as int, b as int)) == then_list(
                v@,
                nweekday_list(cs@.subrange(i as int, b as int)),
            ),
        decreases b - i,
    {
        let ghost rest = cs@.subrange(i as int, b as int);
        let e = find_char(cs, i, b, ',');
        assert(rest.take(e - i) =~= cs@.subrange(i as int, e as int));
        match read_nweekday(cs, i, e) {
            None => {
                return Err((i, e));
            },
            Some(x) => {
                let ghost old_v = v@;
                v.push(x);
                if e == b {
                    proof {
                        assert(nweekday_list(rest) == Ok::<Seq<NWeekday>, Seq<char>>(seq![x]));
                        assert(v@ =~= old_v + seq![x]);
                    }
                    return Ok(v);
                }
                assert(rest.skip(e - i + 1) =~= cs@.subrange(e + 1, b as int));
                proof {
                    let tail = nweekday_list(cs@.subrange(e + 1, b as int));
                    assert(old_v + (seq![x] + tail->Ok_0) =~= v@ + tail->Ok_0);
                }
                i = e + 1;
            },
        }
    }
}

fn int_list_error(kind: ParseErrorKind, cs: &Vec<char>, pq: (usize, usize)) -> (r: ParseError)
    requires
        pq.0 <= pq.1 <= cs@.len(),
    ensures
        r@ == perr(kind, cs@.subrange(pq.0 as int, pq.1 as int)),
{
    ParseError { kind, token: string_of(cs, pq.0, pq.1) }
}

/// Reads the segment `cs[a..b]` into the draft `(has_freq, f)`.
fn read_segment(f: &mut RuleFields, has_freq: &mut bool, cs: &Vec<char>, a: usize, b: usize) -> (r: Result<(), ParseError>)
    requires
        a <= b <= cs@.len(),
    ensures
        match r {
            Ok(()) => apply_segment((*old(has_freq), old(f)@), cs@.subrange(a as int, b as int))
                == Ok::<Draft, ParseErrorModel>((*final(has_freq), final(f)@)),
            Err(e) => apply_segment((*old(has_freq), old(f)@), cs@.subrange(a as int, b as int))
                == Err::<Draft, ParseErrorModel>(e@),
        },
{
    let ghost seg = cs@.subrange(a as int, b as int);
    reveal(apply_segment);
    let k = find_char(cs, a, b, '=');
    if k == b {
        return Err(ParseError { kind: ParseErrorKind::MalformedSegment, token: string_of(cs, a, b) });
    }
    assert(seg.take(k - a) =~= cs@.subrange(a as int, k as int));
    assert(seg.skip(k - a + 1) =~= cs@.subrange(k + 1, b as int));
    read_field(f, has_freq, cs, a, k, b)
}

/// Reads the value `cs[k+1..b]` of the key `cs[a..k]` into the draft.
fn read_field(f: &mut RuleFields, has_freq: &mut bool, cs: &Vec<char>, a: usize, k: usize, b: usize) -> (r: Result<(), ParseError>)
    requires
        a <= k < b <= cs@.len(),
    ensures
        match r {
            Ok(()) => apply_field((*old(has_freq), old(f)@), cs@.subrange(a as int, k as int), cs@.subrange(k + 1, b as int))
                == Ok::<Draft, ParseErrorModel>((*final(has_freq), final(f)@)),
            Err(e) => apply_field((*old(has_freq), old(f)@), cs@.subrange(a as int, k as int), cs@.subrange(k + 1, b as int))
                == Err::<Draft, ParseErrorModel>(e@),
        },
{
    let v = k + 1;
    if word_is(cs, a, k, "FREQ") {
        match read_frequency(cs, v, b) {
            Some(x) => {
                f.frequency = x;
                *has_freq = true;
                Ok(())
            },
            None => Err(ParseError { kind: ParseErrorKind::InvalidFrequency, token: string_of(cs, v, b) }),
        }
    } else if word_is(cs, a, k, "INTERVAL") {
        match parse_int(cs, v, b, 1, 65535) {
            Some(x) => {
                f.interval = x as u16;
                Ok(())
            },
            None => Err(ParseError { kind: ParseErrorKind::InvalidInterval, token: string_of(cs, v, b) }),
        }
    } else if word_is(cs, a, k, "COUNT") {
        match parse_int(cs, v, b, 0, 4294967295) {
            Some(x) => {
                f.count = MaybeCount::Present(x as u32);
                Ok(())
            },
            None => Err(ParseError { kind: ParseErrorKind::InvalidCount, token: string_of(cs, v, b) }),
        }
    } else if word_is(cs, a, k, "UNTIL") {
        match read_until(cs, v, b) {
            Some(t) => {
                f.until = Some(t);
                Ok(())
            },
            None => Err(ParseError { kind: ParseErrorKind::InvalidUntil, token: string_of(cs, v, b) }),
        }
    } else if word_is(cs, a, k, "WKST") {
        match read_weekday(cs, v, b) {
            Some(w) => {
                f.week_start = w;
                Ok(())
            },
            None => Err(ParseError { kind: ParseErrorKind::InvalidWeekStart, token: string_of(cs, v, b) }),
        }
    } else {
        read_list_field(f, has_freq, cs, a, k, b)
    }
}

/// Reads the value `cs[k+1..b]` of the list key `cs[a..k]` into the draft.
fn read_list_field(f: &mut RuleFields, has_freq: &mut bool, cs: &Vec<char>, a: usize, k: usize, b: usize) -> (r: Result<(), ParseError>)
    requires
        a <= k < b <= cs@.len(),
    ensures
        match r {
            Ok(()) => apply_list_field((*old(has_freq), old(f)@), cs@.subrange(a as int, k as int), cs@.subrange(k + 1, b as int))
                == Ok::<Draft, ParseErrorModel>((*final(has_freq), final(f)@)),
            Err(e) => apply_list_field((*old(has_freq), old(f)@), cs@.subrange(a as int, k as int), cs@.subrange(k + 1, b as int))
                == Err::<Draft, ParseErrorModel>(e@),
        },
{
    let v = k + 1;
    if word_is(cs, a, k, "BYSETPOS") {
        match read_int_list::<i32>(cs, v, b) {
            Ok(xs) => {
                f.by_set_pos = xs;
                Ok(())
            },
            Err(pq) => Err(int_list_error(ParseErrorKind::InvalidSetPos, cs, pq)),
        }
    } else if word_is(cs, a, k, "BYMONTH") {
        match read_int_list::<u8>(cs, v, b) {
            Ok(xs) => {
                f.by_month = xs;
                Ok(())
            },
            Err(pq) => Err(int_list_error(ParseErrorKind::InvalidMonth, cs, pq)),
        }
    } else if word_is(cs, a, k, "BYMONTHDAY") {
        match read_int_list::<i8>(cs, v, b) {
            Ok(xs) => {
                f.by_month_day = xs;
                Ok(())
            },
            Err(pq) => Err(int_list_error(ParseErrorKind::InvalidMonthDay, cs, pq)),
        }
    } else if word_is(cs, a, k, "BYYEARDAY") {
        match read_int_list::<i16>(cs, v, b) {
            Ok(xs) => {
                f.by_year_day = xs;
                Ok(())
            },
            Err(pq) => Err(int_list_error(ParseErrorKind::InvalidYearDay, cs, pq)),
        }
    } else if word_is(cs, a, k, "BYWEEKNO") {
        match read_int_list::<i8>(cs, v, b) {
            Ok(xs) => {
                f.by_week_no = xs;
                Ok(())
            },
            Err(pq) => Err(int_list_error(ParseErrorKind::InvalidWeekNo, cs, pq)),
        }
    } else if word_is(cs, a, k, "BYDAY") {
        match read_nweekday_list(cs, v, b) {
            Ok(xs) => {
                f.by_weekday = xs;
                Ok(())
            },
            Err(pq) => Err(int_list_error(ParseErrorKind::InvalidWeekday, cs, pq)),
        }
    } else if word_is(cs, a, k, "BYHOUR") {
        match read_int_list::<u8>(cs, v, b) {
            Ok(xs) => {
                f.by_hour = xs;
                Ok(())
            },
            Err(pq) => Err(int_list_error(ParseErrorKind::InvalidHour, cs, pq)),
        }
    } else if word_is(cs, a, k, "BYMINUTE") {
        match read_int_list::<u8>(cs, v, b) {
            Ok(xs) => {
                f.by_minute = xs;
                Ok(())
            },
            Err(pq) => Err(int_list_error(ParseErrorKind::InvalidMinute, cs, pq)),
        }
    } else if word_is(cs, a, k, "BYSECOND") {
        match read_int_list::<u8>(cs, v, b) {
            Ok(xs) => {
                f.by_second = xs;
                Ok(())
            },
            Err(pq) => Err(int_list_error(ParseErrorKind::InvalidSecond, cs, pq)),
        }
    } else {
        Err(ParseError { kind: ParseErrorKind::UnknownKey, token: string_of(cs, a, k) })
    }
}

fn blank_fields() -> (r: RuleFields)
    ensures
        r@ == blank_rule(),
{
    let r = RuleFields {
        frequency: Frequency::Yearly,
        interval: 1,
        count: MaybeCount::Absent,
        until: None,
        week_start: Weekday::Mon,
        by_set_pos: Vec::new(),
        by_month: Vec::new(),
        by_month_day: Vec::new(),
        by_year_day: Vec::new(),
        by_week_no: Vec::new(),
        by_weekday: Vec::new(),
        by_hour: Vec::new(),
        by_minute: Vec::new(),
        by_second: Vec::new(),
    };
    assert(r@ =~= blank_rule());
    r
}

/// Parses RRULE text such as `FREQ=DAILY;INTERVAL=2;COUNT=10`.
///
/// Segments are `KEY=VALUE`, separated by `;`, and are read in order; the
/// first that fails decides the error. Keys and words are upper case.
pub fn parse(text: &str) -> (r: Result<RuleFields, ParseError>)
    ensures
        match r {
            Ok(f) => parse_model(text@) == Ok::<RuleModel, ParseErrorModel>(f@),
            Err(e) => parse_model(text@) == Err::<RuleModel, ParseErrorModel>(e@),
        },
{
    let cs = chars_of(text);
    let n = cs.len();
    let mut f = blank_fields();
    let mut has_freq = false;
    let mut i: usize = 0;
    assert(cs@.subrange(0, n as int) =~= text@);
    loop
        invariant_except_break
            apply_segments(text@, (false, blank_rule())) == apply_segments(
                cs@.subrange(i as int, n as int),
                (has_freq, f@),
            ),
        invariant
            i <= n == cs@.len(),
            cs@ == text@,
        ensures
            apply_segments(text@, (false, blank_rule())) == Ok::<Draft, ParseErrorModel>((has_freq, f@)),
        decreases n - i,
    {
        let ghost rest = cs@.subrange(i as int, n as int);
        let e = find_char(&cs, i, n, ';');
        assert(rest.take(e - i) =~= cs@.subrange(i as int, e as int));
        match read_segment(&mut f, &mut has_freq, &cs, i, e) {
            Err(err) => {
                return Err(err);
            },
            Ok(()) => {},
        }
        if e == n {
            break;
        }
        assert(rest.skip(e - i + 1) =~= cs@.subrange(e + 1, n as int));
        i = e + 1;
    }
    if has_freq {
        Ok(f)
    } else {
        Err(ParseError { kind: ParseErrorKind::MissingFrequency, token: String::new() })
    }
}

// ---------------------------------------------------------------- writing

/// `;KEY=VALUE`.
pub open spec fn seg(key: Seq<char>, val: Seq<char>) -> Seq<char> {
    seq![';'] + key + seq!['='] + val
}

pub open spec fn seg_if(present: bool, key: Seq<char>, val: Seq<char>) -> Seq<char> {
    if present { seg(key, val) } else { seq![] }
}

pub open spec fn count_seg(c: MaybeCount) -> Seq<char> {
    match c {
        MaybeCount::Present(n) => seg("COUNT"@, int_text(n as int)),
        MaybeCount::Absent => seq![],
    }
}

pub open spec fn until_seg(u: Option<Stamp>) -> Seq<char> {
    match u {
        Some(t) => seg("UNTIL"@, stamp_text(t)),
        None => seq![],
    }
}

/// The segments after `FREQ`, in their fixed order; a field at its default
/// writes nothing.
pub open spec fn tail_text(m: RuleModel) -> Seq<char> {
    seg_if(m.interval != 1, "INTERVAL"@, int_text(m.interval as int)) + (count_seg(m.count) + (
    until_seg(m.until) + (seg_if(m.week_start != Weekday::Mon, "WKST"@, weekday_code(m.week_start))
        + list_tail_text(m))))
}

pub open spec fn list_tail_text(m: RuleModel) -> Seq<char> {
    seg_if(m.by_set_pos.len() > 0, "BYSETPOS"@, int_list_text(ints_of(m.by_set_pos))) + (seg_if(
        m.by_month.len() > 0,
        "BYMONTH"@,
        int_list_text(ints_of(m.by_month)),
    ) + (seg_if(m.by_month_day.len() > 0, "BYMONTHDAY"@, int_list_text(ints_of(m.by_month_day)))
        + (seg_if(m.by_year_day.len() > 0, "BYYEARDAY"@, int_list_text(ints_of(m.by_year_day)))
        + (seg_if(m.by_week_no.len() > 0, "BYWEEKNO"@, int_list_text(ints_of(m.by_week_no))) + (
    seg_if(m.by_weekday.len() > 0, "BYDAY"@, nweekday_list_text(m.by_weekday)) + (seg_if(
        m.by_hour.len() > 0,
        "BYHOUR"@,
        int_list_text(ints_of(m.by_hour)),
    ) + (seg_if(m.by_minute.len() > 0, "BYMINUTE"@, int_list_text(ints_of(m.by_minute))) + seg_if(
        m.by_second.len() > 0,
        "BYSECOND"@,
        int_list_text(ints_of(m.by_second)),
    ))))))))
}

/// What [`serialize`] writes for a rule.
pub open spec fn serialize_model(m: RuleModel) -> Seq<char> {
    "FREQ"@ + seq!['='] + frequency_name(m.frequency) + tail_text(m)
}

pub proof fn lemma_int_list_text_push(xs: Seq<int>, x: int)
    requires
        xs.len() > 0,
    ensures
        int_list_text(xs.push(x)) == int_list_text(xs) + seq![','] + int_text(x),
    decreases xs.len(),
{
    assert(xs.push(x)[0] == xs[0]);
    if xs.len() == 1 {
        assert(xs.push(x).drop_first() =~= seq![x]);
        assert(int_list_text(seq![x]) == int_text(x));
    } else {
        lemma_int_list_text_push(xs.drop_first(), x);
        assert(xs.push(x).drop_first() =~= xs.drop_first().push(x));
        assert(int_list_text(xs.push(x)) =~= int_list_text(xs) + seq![','] + int_text(x));
    }
}

pub proof fn lemma_nweekday_list_text_push(xs: Seq<NWeekday>, x: NWeekday)
    requires
        xs.len() > 0,
    ensures
        nweekday_list_text(xs.push(x)) == nweekday_list_text(xs) + seq![','] + nweekday_text(x),
    decreases xs.len(),
{
    assert(xs.push(x)[0] == xs[0]);
    if xs.len() == 1 {
        assert(xs.push(x).drop_first() =~= seq![x]);
        assert(nweekday_list_text(seq![x]) == nweekday_text(x));
    } else {
        lemma_nweekday_list_text_push(xs.drop_first(), x);
        assert(xs.push(x).drop_first() =~= xs.drop_first().push(x));
        assert(nweekday_list_text(xs.push(x)) =~= nweekday_list_text(xs) + seq![','] + nweekday_text(x));
    }
}

fn push_key(out: &mut String, key: &str)
    ensures
        final(out)@ == old(out)@ + seq![';'] + key@ + seq!['='],
{
    out.push(';');
    out.append(key);
    out.push('=');
}

fn push_int_list<T: IntItem>(out: &mut String, v: &Vec<T>)
    ensures
        final(out)@ == old(out)@ + int_list_text(ints_of(v@)),
{
    let ghost start = out@;
    let mut i: usize = 0;
    while i < v.len()
        invariant
            i <= v@.len(),
            out@ == start + int_list_text(ints_of(v@.take(i as int))),
        decreases v@.len() - i,
    {
        let ghost before = out@;
        let x = v[i].to_i64();
        if i > 0 {
            out.push(',');
        }
        push_int(out, x);
        proof {
            let xs = ints_of(v@.take(i as int));
            assert(ints_of(v@.take(i + 1)) =~= xs.push(x as int));
            if i > 0 {
                lemma_int_list_text_push(xs, x as int);
            } else {
                assert(xs.push(x as int) =~= seq![x as int]);
            }
        }
        i = i + 1;
        assert(out@ =~= start + int_list_text(ints_of(v@.take(i as int))));
    }
    assert(v@.take(i as int) =~= v@);
}

fn push_weekday(out: &mut String, w: Weekday)
    ensures
        final(out)@ == old(out)@ + weekday_code(w),
{
    let (x, y) = match w {
        Weekday::Mon => ('M', 'O'),
        Weekday::Tue => ('T', 'U'),
        Weekday::Wed => ('W', 'E'),
        Weekday::Thu => ('T', 'H'),
        Weekday::Fri => ('F', 'R'),
        Weekday::Sat => ('S', 'A'),
        Weekday::Sun => ('S', 'U'),
    };
    out.push(x);
    out.push(y);
    assert(final(out)@ =~= old(out)@ + weekday_code(w));
}

fn push_nweekday_list(out: &mut String, v: &Vec<NWeekday>)
    ensures
        final(out)@ == old(out)@ + nweekday_list_text(v@),
{
    let ghost start = out@;
    let mut i: usize = 0;
    while i < v.len()
        invariant
            i <= v@.len(),
            out@ == start + nweekday_list_text(v@.take(i as int)),
        decreases v@.len() - i,
    {
        let ghost before = out@;
        let x = v[i];
        if i > 0 {
            out.push(',');
        }
        let ghost mid = out@;
        match x {
            NWeekday::Every(w) => push_weekday(out, w),
            NWeekday::Nth(n, w) => {
                push_int(out, n as i64);
                push_weekday(out, w);
            },
        }
        proof {
            let xs = v@.take(i as int);
            assert(v@.take(i + 1) =~= xs.push(x));
            assert(out@ =~= mid + nweekday_text(x));
            if i > 0 {
                lemma_nweekday_list_text_push(xs, x);
            } else {
                assert(xs.push(x) =~= seq![x]);
            }
        }
        i = i + 1;
        assert(out@ =~= start + nweekday_list_text(v@.take(i as int)));
    }
    assert(v@.take(i as int) =~= v@);
}

fn push_two_digits(out: &mut String, n: u32)
    ensures
        final(out)@ == old(out)@ + two_digits(n as nat),
{
    if n < 10 {
        out.push('0');
    }
    push_nat(out, n as u64);
    assert(final(out)@ =~= old(out)@ + two_digits(n as nat));
}

fn push_year(out: &mut String, y: i32)
    ensures
        final(out)@ == old(out)@ + year_text(y as int),
{
    if 0 <= y && y <= 9999 {
        let a = crate::text::digit_to_char((y / 1000) as u32);
        let b = crate::text::digit_to_char(((y / 100) % 10) as u32);
        let c = crate::text::digit_to_char(((y / 10) % 10) as u32);
        let d = crate::text::digit_to_char((y % 10) as u32);
        out.push(a);
        out.push(b);
        out.push(c);
        out.push(d);
        assert(final(out)@ =~= old(out)@ + year_text(y as int));
    } else {
        push_int(out, y as i64);
    }
}

fn push_stamp(out: &mut String, t: &Stamp)
    ensures
        final(out)@ == old(out)@ + stamp_text(*t),
{
    push_year(out, t.year);
    out.push('-');
    push_two_digits(out, t.month);
    out.push('-');
    push_two_digits(out, t.day);
    out.push('T');
    push_two_digits(out, t.hour);
    out.push(':');
    push_two_digits(out, t.minute);
    out.push(':');
    push_two_digits(out, t.second);
    out.push('Z');
    assert(final(out)@ =~= old(out)@ + stamp_text(*t));
}

fn push_frequency(out: &mut String, f: Frequency)
    ensures
        final(out)@ == old(out)@ + frequency_name(f),
{
    match f {
        Frequency::Secondly => out.append("SECONDLY"),
        Frequency::Minutely => out.append("MINUTELY"),
        Frequency::Hourly => out.append("HOURLY"),
        Frequency::Daily => out.append("DAILY"),
        Frequency::Weekly => out.append("WEEKLY"),
        Frequency::Monthly => out.append("MONTHLY"),
        Frequency::Yearly => out.append("YEARLY"),
    }
}

pub proof fn lemma_assoc(a: Seq<char>, b: Seq<char>, c: Seq<char>)
    ensures
        a + b + c == a + (b + c),
{
    assert(a + b + c =~= a + (b + c));
}

fn push_int_list_seg<T: IntItem>(out: &mut String, key: &str, v: &Vec<T>)
    ensures
        final(out)@ == old(out)@ + seg_if(v@.len() > 0, key@, int_list_text(ints_of(v@))),
{
    if v.len() > 0 {
        push_key(out, key);
        push_int_list(out, v);
        assert(final(out)@ =~= old(out)@ + seg(key@, int_list_text(ints_of(v@))));
    } else {
        assert(final(out)@ =~= old(out)@ + seq![]);
    }
}

fn push_list_segments(out: &mut String, f: &RuleFields)
    ensures
        final(out)@ == old(out)@ + list_tail_text(f@),
{
    let ghost o = out@;
    let ghost m = f@;
    push_int_list_seg(out, "BYSETPOS", &f.by_set_pos);
    let ghost o1 = out@;
    push_int_list_seg(out, "BYMONTH", &f.by_month);
    let ghost o2 = out@;
    push_int_list_seg(out, "BYMONTHDAY", &f.by_month_day);
    let ghost o3 = out@;
    push_int_list_seg(out, "BYYEARDAY", &f.by_year_day);
    let ghost o4 = out@;
    push_int_list_seg(out, "BYWEEKNO", &f.by_week_no);
    let ghost o5 = out@;
    if f.by_weekday.len() > 0 {
        push_key(out, "BYDAY");
        push_nweekday_list(out, &f.by_weekday);
        assert(out@ =~= o5 + seg("BYDAY"@, nweekday_list_text(m.by_weekday)));
    } else {
        assert(out@ =~= o5 + seq![]);
    }
    let ghost o6 = out@;
    push_int_list_seg(out, "BYHOUR", &f.by_hour);
    let ghost o7 = out@;
    push_int_list_seg(out, "BYMINUTE", &f.by_minute);
    let ghost o8 = out@;
    push_int_list_seg(out, "BYSECOND", &f.by_second);
    proof {
        let s1 = seg_if(m.by_set_pos.len() > 0, "BYSETPOS"@, int_list_text(ints_of(m.by_set_pos)));
        let s2 = seg_if(m.by_month.len() > 0, "BYMONTH"@, int_list_text(ints_of(m.by_month)));
        let s3 = seg_if(m.by_month_day.len() > 0, "BYMONTHDAY"@, int_list_text(ints_of(m.by_month_day)));
        let s4 = seg_if(m.by_year_day.len() > 0, "BYYEARDAY"@, int_list_text(ints_of(m.by_year_day)));
        let s5 = seg_if(m.by_week_no.len() > 0, "BYWEEKNO"@, int_list_text(ints_of(m.by_week_no)));
        let s6 = seg_if(m.by_weekday.len() > 0, "BYDAY"@, nweekday_list_text(m.by_weekday));
        let s7 = seg_if(m.by_hour.len() > 0, "BYHOUR"@, int_list_text(ints_of(m.by_hour)));
        let s8 = seg_if(m.by_minute.len() > 0, "BYMINUTE"@, int_list_text(ints_of(m.by_minute)));
        let s9 = seg_if(m.by_second.len() > 0, "BYSECOND"@, int_list_text(ints_of(m.by_second)));
        assert(o6 == o5 + s6);
        lemma_assoc(o7, s8, s9);
        lemma_assoc(o6, s7, s8 + s9);
        lemma_assoc(o5, s6, s7 + (s8 + s9));
        lemma_assoc(o4, s5, s6 + (s7 + (s8 + s9)));
        lemma_assoc(o3, s4, s5 + (s6 + (s7 + (s8 + s9))));
        lemma_assoc(o2, s3, s4 + (s5 + (s6 + (s7 + (s8 + s9)))));
        lemma_assoc(o1, s2, s3 + (s4 + (s5 + (s6 + (s7 + (s8 + s9))))));
        lemma_assoc(o, s1, s2 + (s3 + (s4 + (s5 + (s6 + (s7 + (s8 + s9)))))));
    }
}

fn push_interval_seg(out: &mut String, n: u16)
    ensures
        final(out)@ == old(out)@ + seg_if(n != 1, "INTERVAL"@, int_text(n as int)),
{
    if n != 1 {
        push_key(out, "INTERVAL");
        push_nat(out, n as u64);
        assert(final(out)@ =~= old(out)@ + seg("INTERVAL"@, int_text(n as int)));
    } else {
        assert(final(out)@ =~= old(out)@ + seq![]);
    }
}

fn push_count_seg(out: &mut String, c: MaybeCount)
    ensures
        final(out)@ == old(out)@ + count_seg(c),
{
    match c {
        MaybeCount::Present(n) => {
            push_key(out, "COUNT");
            push_nat(out, n as u64);
            assert(final(out)@ =~= old(out)@ + seg("COUNT"@, int_text(n as int)));
        },
        MaybeCount::Absent => {
            assert(final(out)@ =~= old(out)@ + seq![]);
        },
    }
}

fn push_until_seg(out: &mut String, u: &Option<Stamp>)
    ensures
        final(out)@ == old(out)@ + until_seg(*u),
{
    match u {
        Some(t) => {
            push_key(out, "UNTIL");
            push_stamp(out, t);
            assert(final(out)@ =~= old(out)@ + seg("UNTIL"@, stamp_text(*t)));
        },
        None => {
            assert(final(out)@ =~= old(out)@ + seq![]);
        },
    }
}

fn push_week_start_seg(out: &mut String, w: Weekday)
    ensures
        final(out)@ == old(out)@ + seg_if(w != Weekday::Mon, "WKST"@, weekday_code(w)),
{
    if w != Weekday::Mon {
        push_key(out, "WKST");
        push_weekday(out, w);
        assert(final(out)@ =~= old(out)@ + seg("WKST"@, weekday_code(w)));
    } else {
        assert(final(out)@ =~= old(out)@ + seq![]);
    }
}

fn push_scalar_segments(out: &mut String, f: &RuleFields)
    ensures
        final(out)@ == old(out)@ + tail_text(f@),
{
    let ghost o = out@;
    let ghost m = f@;
    push_interval_seg(out, f.interval);
    let ghost o1 = out@;
    push_count_seg(out, f.count);
    let ghost o2 = out@;
    push_until_seg(out, &f.until);
    let ghost o3 = out@;
    push_week_start_seg(out, f.week_start);
    let ghost o4 = out@;
    push_list_segments(out, f);
    proof {
        let s1 = seg_if(m.interval != 1, "INTERVAL"@, int_text(m.interval as int));
        let s2 = count_seg(m.count);
        let s3 = until_seg(m.until);
        let s4 = seg_if(m.week_start != Weekday::Mon, "WKST"@, weekday_code(m.week_start));
        let s5 = list_tail_text(m);
        assert(o1 == o + s1);
        assert(o2 == o1 + s2);
        assert(o3 == o2 + s3);
        assert(o4 == o3 + s4);
        lemma_assoc(o3, s4, s5);
        lemma_assoc(o2, s3, s4 + s5);
        lemma_assoc(o1, s2, s3 + (s4 + s5));
        lemma_assoc(o, s1, s2 + (s3 + (s4 + s5)));
    }
}

/// Writes a rule as canonical RRULE text: `FREQ` first, then `INTERVAL`,
/// `COUNT`, `UNTIL`, `WKST`, `BYSETPOS`, `BYMONTH`, `BYMONTHDAY`,
/// `BYYEARDAY`, `BYWEEKNO`, `BYDAY`, `BYHOUR`, `BYMINUTE` and `BYSECOND`,
/// leaving out each field that holds its default.
pub fn serialize(f: &RuleFields) -> (r: String)
    ensures
        r@ == serialize_model(f@),
{
    let mut out = String::new();
    out.append("FREQ");
    out.push('=');
    push_frequency(&mut out, f.frequency);
    push_scalar_segments(&mut out, f);
    out
}

} // verus!
