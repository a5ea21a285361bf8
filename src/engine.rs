//! The recurrence engine of the rrule crate, as the validator uses it.
//!
//! A rule is built in rrule with `RRule::new` and its builder steps, each of
//! which only stores its argument; what a built rule holds is named
//! [`rule_fields`], and what `RRule::validate` answers for it is named
//! [`engine_verdict`].

use chrono::TimeZone;
use vstd::prelude::*;
use crate::codec::blank_rule;
use crate::fields::{Frequency, MaybeCount, RuleModel, Stamp, date_time_valid, stamp_valid};
use crate::fields::{NWeekday as N, Weekday as W};

verus! {

/// rrule's rule type, at either stage.
#[verifier::external_type_specification]
#[verifier::external_body]
#[verifier::reject_recursive_types(Stage)]
pub struct ExRRule<Stage>(rrule::RRule<Stage>);

/// rrule's marker for a rule not yet validated.
#[verifier::external_type_specification]
#[verifier::external_body]
pub struct ExUnvalidated(rrule::Unvalidated);

/// The fields that an rrule rule built by the steps below holds.
pub uninterp spec fn rule_fields(r: rrule::RRule<rrule::Unvalidated>) -> RuleModel;

/// What rrule's `RRule::validate` answers for a rule holding `m`, started at
/// `start` in UTC: nothing, or its diagnostic text. It depends on these alone.
pub uninterp spec fn engine_verdict(m: RuleModel, start: Stamp) -> Result<(), Seq<char>>;

/// Relies on rrule's `RRule::new`: the given frequency, every other field at
/// its default (interval 1, week start Monday, nothing else set).
#[verifier::external_body]
pub fn rule_new(f: Frequency) -> (r: rrule::RRule<rrule::Unvalidated>)
    ensures
        rule_fields(r) == (RuleModel { frequency: f, ..blank_rule() }),
{
    rrule::RRule::new(match f {
        Frequency::Secondly => rrule::Frequency::Secondly,
        Frequency::Minutely => rrule::Frequency::Minutely,
        Frequency::Hourly => rrule::Frequency::Hourly,
        Frequency::Daily => rrule::Frequency::Daily,
        Frequency::Weekly => rrule::Frequency::Weekly,
        Frequency::Monthly => rrule::Frequency::Monthly,
        Frequency::Yearly => rrule::Frequency::Yearly,
    })
}

/// Relies on rrule's `RRule::interval`: it stores the interval.
#[verifier::external_body]
pub fn rule_interval(rule: rrule::RRule<rrule::Unvalidated>, n: u16) -> (r: rrule::RRule<rrule::Unvalidated>)
    ensures
        rule_fields(r) == (RuleModel { interval: n, ..rule_fields(rule) }),
{
    rule.interval(n)
}

/// Relies on rrule's `RRule::count`: it stores the count.
#[verifier::external_body]
pub fn rule_count(rule: rrule::RRule<rrule::Unvalidated>, n: u32) -> (r: rrule::RRule<rrule::Unvalidated>)
    ensures
        rule_fields(r) == (RuleModel { count: MaybeCount::Present(n), ..rule_fields(rule) }),
{
    rule.count(n)
}

/// Relies on rrule's `RRule::until`: it stores the instant, given through
/// chrono's `TimeZone::with_ymd_and_hms` on rrule's `Tz::UTC`, which gives
/// exactly one instant for a real date and time.
#[verifier::external_body]
pub fn rule_until(rule: rrule::RRule<rrule::Unvalidated>, t: &Stamp) -> (r: rrule::RRule<rrule::Unvalidated>)
    requires
        stamp_valid(*t),
    ensures
        rule_fields(r) == (RuleModel { until: Some(*t), ..rule_fields(rule) }),
{
    rule.until(rrule::Tz::UTC.with_ymd_and_hms(t.year, t.month, t.day, t.hour, t.minute, t.second).unwrap())
}

/// Relies on rrule's `RRule::week_start`: it stores the day, given as chrono's `Weekday`.
#[verifier::external_body]
pub fn rule_week_start(rule: rrule::RRule<rrule::Unvalidated>, w: W) -> (r: rrule::RRule<rrule::Unvalidated>)
    ensures
        rule_fields(r) == (RuleModel { week_start: w, ..rule_fields(rule) }),
{
    rule.week_start(match w {
        W::Mon => chrono::Weekday::Mon, W::Tue => chrono::Weekday::Tue,
        W::Wed => chrono::Weekday::Wed, W::Thu => chrono::Weekday::Thu,
        W::Fri => chrono::Weekday::Fri, W::Sat => chrono::Weekday::Sat,
        W::Sun => chrono::Weekday::Sun,
    })
}

/// Relies on rrule's `RRule::by_set_pos`: it stores the list.
#[verifier::external_body]
pub fn rule_by_set_pos(rule: rrule::RRule<rrule::Unvalidated>, v: &Vec<i32>) -> (r: rrule::RRule<rrule::Unvalidated>)
    ensures
        rule_fields(r) == (RuleModel { by_set_pos: v@, ..rule_fields(rule) }),
{
    rule.by_set_pos(v.clone())
}

/// Relies on rrule's `RRule::by_month`, given chrono's months from
/// `Month::try_from(u8)` (a month exactly for 1 to 12): it stores their numbers.
#[verifier::external_body]
pub fn rule_by_month(rule: rrule::RRule<rrule::Unvalidated>, v: &Vec<u8>) -> (r: rrule::RRule<rrule::Unvalidated>)
    requires
        forall|i: int| 0 <= i < v@.len() ==> 1 <= #[trigger] v@[i] <= 12,
    ensures
        rule_fields(r) == (RuleModel { by_month: v@, ..rule_fields(rule) }),
{
    let months: Vec<chrono::Month> = v.iter().map(|m| chrono::Month::try_from(*m).unwrap()).collect();
    rule.by_month(&months)
}

/// Relies on rrule's `RRule::by_month_day`: it stores the list.
#[verifier::external_body]
pub fn rule_by_month_day(rule: rrule::RRule<rrule::Unvalidated>, v: &Vec<i8>) -> (r: rrule::RRule<rrule::Unvalidated>)
    ensures
        rule_fields(r) == (RuleModel { by_month_day: v@, ..rule_fields(rule) }),
{
    rule.by_month_day(v.clone())
}

/// Relies on rrule's `RRule::by_year_day`: it stores the list.
#[verifier::external_body]
pub fn rule_by_year_day(rule: rrule::RRule<rrule::Unvalidated>, v: &Vec<i16>) -> (r: rrule::RRule<rrule::Unvalidated>)
    ensures
        rule_fields(r) == (RuleModel { by_year_day: v@, ..rule_fields(rule) }),
{
    rule.by_year_day(v.clone())
}

/// Relies on rrule's `RRule::by_week_no`: it stores the list.
#[verifier::external_body]
pub fn rule_by_week_no(rule: rrule::RRule<rrule::Unvalidated>, v: &Vec<i8>) -> (r: rrule::RRule<rrule::Unvalidated>)
    ensures
        rule_fields(r) == (RuleModel { by_week_no: v@, ..rule_fields(rule) }),
{
    rule.by_week_no(v.clone())
}

/// Relies on rrule's `RRule::by_weekday`: it stores the entries, given as
/// rrule's `NWeekday`.
#[verifier::external_body]
pub fn rule_by_weekday(rule: rrule::RRule<rrule::Unvalidated>, v: &Vec<N>) -> (r: rrule::RRule<rrule::Unvalidated>)
    ensures
        rule_fields(r) == (RuleModel { by_weekday: v@, ..rule_fields(rule) }),
{
    rule.by_weekday(v.iter().map(|x| {
        let (n, w) = match *x { N::Every(w) => (None, w), N::Nth(n, w) => (Some(n), w) };
        let d = match w {
            W::Mon => chrono::Weekday::Mon, W::Tue => chrono::Weekday::Tue,
            W::Wed => chrono::Weekday::Wed, W::Thu => chrono::Weekday::Thu,
            W::Fri => chrono::Weekday::Fri, W::Sat => chrono::Weekday::Sat,
            W::Sun => chrono::Weekday::Sun,
        };
        match n { Some(n) => rrule::NWeekday::Nth(n, d), None => rrule::NWeekday::Every(d) }
    }).collect())
}

/// Relies on rrule's `RRule::by_hour`: it stores the list.
#[verifier::external_body]
pub fn rule_by_hour(rule: rrule::RRule<rrule::Unvalidated>, v: &Vec<u8>) -> (r: rrule::RRule<rrule::Unvalidated>)
    ensures
        rule_fields(r) == (RuleModel { by_hour: v@, ..rule_fields(rule) }),
{
    rule.by_hour(v.clone())
}

/// Relies on rrule's `RRule::by_minute`: it stores the list.
#[verifier::external_body]
pub fn rule_by_minute(rule: rrule::RRule<rrule::Unvalidated>, v: &Vec<u8>) -> (r: rrule::RRule<rrule::Unvalidated>)
    ensures
        rule_fields(r) == (RuleModel { by_minute: v@, ..rule_fields(rule) }),
{
    rule.by_minute(v.clone())
}

/// Relies on rrule's `RRule::by_second`: it stores the list.
#[verifier::external_body]
pub fn rule_by_second(rule: rrule::RRule<rrule::Unvalidated>, v: &Vec<u8>) -> (r: rrule::RRule<rrule::Unvalidated>)
    ensures
        rule_fields(r) == (RuleModel { by_second: v@, ..rule_fields(rule) }),
{
    rule.by_second(v.clone())
}

/// Relies on rrule's `RRule::validate` against a start given through chrono's
/// `TimeZone::with_ymd_and_hms` on rrule's `Tz::UTC` (exactly one instant for a
/// real date and time of a year chrono holds), with the error's `Display` text.
#[verifier::external_body]
pub fn rule_validate(rule: rrule::RRule<rrule::Unvalidated>, start: &Stamp) -> (r: Result<(), String>)
    requires
        date_time_valid(*start),
        -10000 <= start.year <= 20000,
    ensures
        match r {
            Ok(()) => engine_verdict(rule_fields(rule), *start) is Ok,
            Err(d) => engine_verdict(rule_fields(rule), *start) == Err::<(), Seq<char>>(d@),
        },
{
    let s = start;
    let dt = rrule::Tz::UTC.with_ymd_and_hms(s.year, s.month, s.day, s.hour, s.minute, s.second).unwrap();
    rule.validate(dt).map(|_| ()).map_err(|e| e.to_string())
}

} // verus!
