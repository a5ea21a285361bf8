//! The typed form of a recurrence rule and its mathematical model.

use vstd::prelude::*;

verus! {

/// How often a rule recurs.
#[derive(Clone, Copy, Debug, PartialEq, Eq, Structural)]
pub enum Frequency {
    Secondly,
    Minutely,
    Hourly,
    Daily,
    Weekly,
    Monthly,
    Yearly,
}

/// A day of the week, written `MO` .. `SU` in rule text.
#[derive(Clone, Copy, Debug, PartialEq, Eq, Structural)]
pub enum Weekday {
    Mon,
    Tue,
    Wed,
    Thu,
    Fri,
    Sat,
    Sun,
}

/// A `BYDAY` entry: every such weekday of the period, or the nth one
/// (negative ordinals count from the end of the period).
#[derive(Clone, Copy, Debug, PartialEq, Eq, Structural)]
pub enum NWeekday {
    Every(Weekday),
    Nth(i16, Weekday),
}

/// An instant in UTC, to the second.
#[derive(Clone, Copy, Debug, PartialEq, Eq, Structural)]
pub struct Stamp {
    pub year: i32,
    pub month: u32,
    pub day: u32,
    pub hour: u32,
    pub minute: u32,
    pub second: u32,
}

/// The occurrence cap of a rule: absent, or a number of occurrences.
#[derive(Clone, Copy, Debug, PartialEq, Eq, Structural)]
pub enum MaybeCount {
    Absent,
    Present(u32),
}

/// The structured form of an RRULE, field for field.
#[derive(Clone, Debug, PartialEq, Eq)]
pub struct RuleFields {
    pub frequency: Frequency,
    pub interval: u16,
    pub count: MaybeCount,
    pub until: Option<Stamp>,
    pub week_start: Weekday,
    pub by_set_pos: Vec<i32>,
    pub by_month: Vec<u8>,
    pub by_month_day: Vec<i8>,
    pub by_year_day: Vec<i16>,
    pub by_week_no: Vec<i8>,
    pub by_weekday: Vec<NWeekday>,
    pub by_hour: Vec<u8>,
    pub by_minute: Vec<u8>,
    pub by_second: Vec<u8>,
}

/// The mathematical model of [`RuleFields`].
pub ghost struct RuleModel {
    pub frequency: Frequency,
    pub interval: u16,
    pub count: MaybeCount,
    pub until: Option<Stamp>,
    pub week_start: Weekday,
    pub by_set_pos: Seq<i32>,
    pub by_month: Seq<u8>,
    pub by_month_day: Seq<i8>,
    pub by_year_day: Seq<i16>,
    pub by_week_no: Seq<i8>,
    pub by_weekday: Seq<NWeekday>,
    pub by_hour: Seq<u8>,
    pub by_minute: Seq<u8>,
    pub by_second: Seq<u8>,
}

impl View for RuleFields {
    type V = RuleModel;

    open spec fn view(&self) -> RuleModel {
        RuleModel {
            frequency: self.frequency,
            interval: self.interval,
            count: self.count,
            until: self.until,
            week_start: self.week_start,
            by_set_pos: self.by_set_pos@,
            by_month: self.by_month@,
            by_month_day: self.by_month_day@,
            by_year_day: self.by_year_day@,
            by_week_no: self.by_week_no@,
            by_weekday: self.by_weekday@,
            by_hour: self.by_hour@,
            by_minute: self.by_minute@,
            by_second: self.by_second@,
        }
    }
}

/// Whether `year` is a leap year of the proleptic Gregorian calendar.
pub open spec fn is_leap_year(year: int) -> bool {
    (year % 4 == 0 && year % 100 != 0) || year % 400 == 0
}

/// The number of days of `month` (1 to 12) in `year`.
pub open spec fn days_in_month(year: int, month: int) -> int {
    if month == 2 {
        if is_leap_year(year) { 29 } else { 28 }
    } else if month == 4 || month == 6 || month == 9 || month == 11 {
        30
    } else {
        31
    }
}

/// A real calendar date and time of day, whatever the year.
pub open spec fn date_time_valid(t: Stamp) -> bool {
    &&& 1 <= t.month <= 12
    &&& 1 <= t.day <= days_in_month(t.year as int, t.month as int)
    &&& t.hour < 24
    &&& t.minute < 60
    &&& t.second < 60
}

/// A real date and time whose year has the four digits that rule text allows.
pub open spec fn stamp_valid(t: Stamp) -> bool {
    &&& date_time_valid(t)
    &&& 0 <= t.year <= 9999
}

/// The count that an optional number stands for.
pub open spec fn maybe_count_of(count: Option<u32>) -> MaybeCount {
    match count {
        Some(n) => MaybeCount::Present(n),
        None => MaybeCount::Absent,
    }
}

/// Turns an optional occurrence cap into a [`MaybeCount`].
pub fn to_maybe_count(count: Option<u32>) -> (r: MaybeCount)
    ensures
        r == maybe_count_of(count),
{
    match count {
        Some(n) => MaybeCount::Present(n),
        None => MaybeCount::Absent,
    }
}

} // verus!
