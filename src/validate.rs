//! Checking a rule against the legal ranges of its fields, and against a
//! start timestamp through the rrule engine.

use vstd::prelude::*;
use crate::codec::{IntItem, ints_of};
use crate::engine::{
    engine_verdict, rule_by_hour, rule_by_minute, rule_by_month, rule_by_month_day,
    rule_by_second, rule_by_set_pos, rule_by_week_no, rule_by_weekday, rule_by_year_day,
    rule_count, rule_fields, rule_interval, rule_new, rule_until, rule_validate, rule_week_start,
};
use crate::fields::{MaybeCount, NWeekday, RuleFields, RuleModel, stamp_valid};
use crate::time::{parse_rfc3339_utc, rfc3339_utc};

verus! {

/// Why a rule does not validate.
#[derive(Clone, Debug, PartialEq, Eq)]
pub enum ValidationError {
    /// The start, which is not an RFC 3339 timestamp.
    InvalidStart(String),
    InvalidInterval(u16),
    /// The end timestamp is not a real date and time with a four-digit year.
    InvalidUntil,
    InvalidSetPos(i32),
    InvalidMonth(u8),
    InvalidMonthDay(i8),
    InvalidYearDay(i16),
    InvalidWeekNo(i8),
    InvalidWeekdayOrdinal(i16),
    InvalidHour(u8),
    InvalidMinute(u8),
    InvalidSecond(u8),
    /// No day of `BYMONTHDAY` exists in any month of `BYMONTH`.
    MonthDayNeverOccurs,
    /// The engine's own diagnostic.
    RuleInvalid(String),
}

pub open spec fn in_range(v: int, lo: int, hi: int, nonzero: bool) -> bool {
    lo <= v <= hi && !(nonzero && v == 0)
}

/// The index of the first value outside `lo..=hi` (or equal to zero, where
/// `nonzero`), if any.
pub open spec fn first_outside(xs: Seq<int>, lo: int, hi: int, nonzero: bool) -> Option<int>
    decreases xs.len(),
{
    if xs.len() == 0 {
        None
    } else {
        match first_outside(xs.drop_last(), lo, hi, nonzero) {
            Some(i) => Some(i),
            None => if in_range(xs.last(), lo, hi, nonzero) {
                None
            } else {
                Some(xs.len() - 1)
            },
        }
    }
}

/// The ordinal of each `BYDAY` entry; an entry without one counts as 1.
pub open spec fn ordinals(s: Seq<NWeekday>) -> Seq<int> {
    s.map_values(
        |x: NWeekday|
            match x {
                NWeekday::Every(_) => 1int,
                NWeekday::Nth(n, _) => n as int,
            },
    )
}

/// The most days that a month (1 to 12) ever has.
pub open spec fn max_month_days(month: int) -> int {
    if month == 2 {
        29
    } else if month == 4 || month == 6 || month == 9 || month == 11 {
        30
    } else {
        31
    }
}

pub open spec fn month_day_fits(day: int, month: int) -> bool {
    -max_month_days(month) <= day <= max_month_days(month)
}

/// `BYMONTH` and `BYMONTHDAY` are both given, and no listed day exists in
/// any listed month, so the rule can never occur.
pub open spec fn month_day_never(m: RuleModel) -> bool {
    &&& m.by_month.len() > 0
    &&& m.by_month_day.len() > 0
    &&& forall|i: int, j: int|
        0 <= i < m.by_month.len() && 0 <= j < m.by_month_day.len() ==> !month_day_fits(
            #[trigger] m.by_month_day[j] as int,
            #[trigger] m.by_month[i] as int,
        )
}

/// The first construction error of a rule, field by field in text order.
pub open spec fn field_error(m: RuleModel) -> Option<ValidationError> {
    let set_pos = first_outside(ints_of(m.by_set_pos), -366, 366, true);
    let month = first_outside(ints_of(m.by_month), 1, 12, false);
    let month_day = first_outside(ints_of(m.by_month_day), -31, 31, true);
    let year_day = first_outside(ints_of(m.by_year_day), -366, 366, true);
    let week_no = first_outside(ints_of(m.by_week_no), -53, 53, true);
    let ordinal = first_outside(ordinals(m.by_weekday), -53, 53, true);
    let hour = first_outside(ints_of(m.by_hour), 0, 23, false);
    let minute = first_outside(ints_of(m.by_minute), 0, 59, false);
    let second = first_outside(ints_of(m.by_second), 0, 60, false);
    if m.interval == 0 {
        Some(ValidationError::InvalidInterval(m.interval))
    } else if m.until is Some && !stamp_valid(m.until->0) {
        Some(ValidationError::InvalidUntil)
    } else if set_pos is Some {
        Some(ValidationError::InvalidSetPos(m.by_set_pos[set_pos->0]))
    } else if month is Some {
        Some(ValidationError::InvalidMonth(m.by_month[month->0]))
    } else if month_day is Some {
        Some(ValidationError::InvalidMonthDay(m.by_month_day[month_day->0]))
    } else if year_day is Some {
        Some(ValidationError::InvalidYearDay(m.by_year_day[year_day->0]))
    } else if week_no is Some {
        Some(ValidationError::InvalidWeekNo(m.by_week_no[week_no->0]))
    } else if ordinal is Some {
        Some(ValidationError::InvalidWeekdayOrdinal(ordinals(m.by_weekday)[ordinal->0] as i16))
    } else if hour is Some {
        Some(ValidationError::InvalidHour(m.by_hour[hour->0]))
    } else if minute is Some {
        Some(ValidationError::InvalidMinute(m.by_minute[minute->0]))
    } else if second is Some {
        Some(ValidationError::InvalidSecond(m.by_second[second->0]))
    } else if month_day_never(m) {
        Some(ValidationError::MonthDayNeverOccurs)
    } else {
        None
    }
}

pub proof fn lemma_first_outside_prefix(xs: Seq<int>, k: int, lo: int, hi: int, nonzero: bool)
    requires
        0 <= k <= xs.len(),
        first_outside(xs.take(k), lo, hi, nonzero) is Some,
    ensures
        first_outside(xs, lo, hi, nonzero) == first_outside(xs.take(k), lo, hi, nonzero),
    decreases xs.len(),
{
    if k < xs.len() {
        assert(xs.drop_last().take(k) =~= xs.take(k));
        lemma_first_outside_prefix(xs.drop_last(), k, lo, hi, nonzero);
    } else {
        assert(xs.take(k) =~= xs);
    }
}

pub proof fn lemma_first_outside_none(xs: Seq<int>, lo: int, hi: int, nonzero: bool)
    requires
        first_outside(xs, lo, hi, nonzero) is None,
    ensures
        forall|i: int| 0 <= i < xs.len() ==> in_range(#[trigger] xs[i], lo, hi, nonzero),
    decreases xs.len(),
{
    if xs.len() > 0 {
        lemma_first_outside_none(xs.drop_last(), lo, hi, nonzero);
        assert forall|i: int| 0 <= i < xs.len() implies in_range(#[trigger] xs[i], lo, hi, nonzero) by {
            if i < xs.len() - 1 {
                assert(xs[i] == xs.drop_last()[i]);
            }
        }
    }
}

/// The index of the first value of `v` outside `lo..=hi` (or zero, where `nonzero`).
fn find_outside<T: IntItem>(v: &Vec<T>, lo: i64, hi: i64, nonzero: bool) -> (r: Option<usize>)
    ensures
        match r {
            Some(i) => first_outside(ints_of(v@), lo as int, hi as int, nonzero) == Some(i as int)
                && i < v@.len(),
            None => first_outside(ints_of(v@), lo as int, hi as int, nonzero) is None,
        },
{
    let ghost xs = ints_of(v@);
    let mut i: usize = 0;
    while i < v.len()
        invariant
            i <= v@.len(),
            xs == ints_of(v@),
            first_outside(xs.take(i as int), lo as int, hi as int, nonzero) is None,
        decreases v@.len() - i,
    {
        let x = v[i].to_i64();
        assert(xs.take(i + 1).drop_last() =~= xs.take(i as int));
        if x < lo || x > hi || (nonzero && x == 0) {
            proof {
                lemma_first_outside_prefix(xs, i + 1, lo as int, hi as int, nonzero);
            }
            return Some(i);
        }
        i = i + 1;
    }
    assert(xs.take(i as int) =~= xs);
    None
}

/// The index of the first `BYDAY` entry whose ordinal is outside `-53..=53` or zero.
fn find_bad_ordinal(v: &Vec<NWeekday>) -> (r: Option<usize>)
    ensures
        match r {
            Some(i) => first_outside(ordinals(v@), -53, 53, true) == Some(i as int) && i < v@.len(),
            None => first_outside(ordinals(v@), -53, 53, true) is None,
        },
{
    let ghost xs = ordinals(v@);
    let mut i: usize = 0;
    while i < v.len()
        invariant
            i <= v@.len(),
            xs == ordinals(v@),
            first_outside(xs.take(i as int), -53, 53, true) is None,
        decreases v@.len() - i,
    {
        let n: i16 = match v[i] {
            NWeekday::Every(_) => 1,
            NWeekday::Nth(n, _) => n,
        };
        assert(xs[i as int] == n as int);
        assert(xs.take(i + 1).drop_last() =~= xs.take(i as int));
        if n < -53 || n > 53 || n == 0 {
            proof {
                lemma_first_outside_prefix(xs, i + 1, -53, 53, true);
            }
            return Some(i);
        }
        i = i + 1;
    }
    assert(xs.take(i as int) =~= xs);
    None
}

/// Whether some listed day exists in some listed month.
fn some_month_day_fits(months: &Vec<u8>, days: &Vec<i8>) -> (r: bool)
    ensures
        r == exists|i: int, j: int|
            0 <= i < months@.len() && 0 <= j < days@.len() && month_day_fits(
                #[trigger] days@[j] as int,
                #[trigger] months@[i] as int,
            ),
{
    let mut i: usize = 0;
    while i < months.len()
        invariant
            i <= months@.len(),
            forall|a: int, b: int|
                0 <= a < i && 0 <= b < days@.len() ==> !month_day_fits(
                    #[trigger] days@[b] as int,
                    #[trigger] months@[a] as int,
                ),
        decreases months@.len() - i,
    {
        let m = months[i];
        let most: i16 = if m == 2 {
            29
        } else if m == 4 || m == 6 || m == 9 || m == 11 {
            30
        } else {
            31
        };
        let mut j: usize = 0;
        while j < days.len()
            invariant
                i < months@.len(),
                j <= days@.len(),
                m == months@[i as int],
                most == max_month_days(m as int),
                forall|a: int, b: int|
                    0 <= a < i && 0 <= b < days@.len() ==> !month_day_fits(
                        #[trigger] days@[b] as int,
                        #[trigger] months@[a] as int,
                    ),
                forall|b: int| 0 <= b < j ==> !month_day_fits(#[trigger] days@[b] as int, m as int),
            decreases days@.len() - j,
        {
            let d = days[j] as i16;
            if -most <= d && d <= most {
                assert(month_day_fits(days@[j as int] as int, months@[i as int] as int));
                return true;
            }
            j = j + 1;
        }
        i = i + 1;
    }
    false
}

/// Checks every field of a rule against its legal range, in text order,
/// and then that `BYMONTH` and `BYMONTHDAY` can meet.
pub fn check_fields(f: &RuleFields) -> (r: Result<(), ValidationError>)
    ensures
        r == match field_error(f@) {
            Some(e) => Err(e),
            None => Ok::<(), ValidationError>(()),
        },
{
    if f.interval == 0 {
        return Err(ValidationError::InvalidInterval(f.interval));
    }
    match &f.until {
        Some(t) => {
            if !(0 <= t.year && t.year <= 9999 && 1 <= t.month && t.month <= 12 && 1 <= t.day
                && t.hour < 24 && t.minute < 60 && t.second < 60 && t.day <= days_in(t.year, t.month)) {
                return Err(ValidationError::InvalidUntil);
            }
        },
        None => {},
    }
    if let Some(i) = find_outside(&f.by_set_pos, -366, 366, true) {
        return Err(ValidationError::InvalidSetPos(f.by_set_pos[i]));
    }
    if let Some(i) = find_outside(&f.by_month, 1, 12, false) {
        return Err(ValidationError::InvalidMonth(f.by_month[i]));
    }
    if let Some(i) = find_outside(&f.by_month_day, -31, 31, true) {
        return Err(ValidationError::InvalidMonthDay(f.by_month_day[i]));
    }
    if let Some(i) = find_outside(&f.by_year_day, -366, 366, true) {
        return Err(ValidationError::InvalidYearDay(f.by_year_day[i]));
    }
    if let Some(i) = find_outside(&f.by_week_no, -53, 53, true) {
        return Err(ValidationError::InvalidWeekNo(f.by_week_no[i]));
    }
    if let Some(i) = find_bad_ordinal(&f.by_weekday) {
        let n: i16 = match f.by_weekday[i] {
            NWeekday::Every(_) => 1,
            NWeekday::Nth(n, _) => n,
        };
        assert(ordinals(f@.by_weekday)[i as int] == n as int);
        return Err(ValidationError::InvalidWeekdayOrdinal(n));
    }
    if let Some(i) = find_outside(&f.by_hour, 0, 23, false) {
        return Err(ValidationError::InvalidHour(f.by_hour[i]));
    }
    if let Some(i) = find_outside(&f.by_minute, 0, 59, false) {
        return Err(ValidationError::InvalidMinute(f.by_minute[i]));
    }
    if let Some(i) = find_outside(&f.by_second, 0, 60, false) {
        return Err(ValidationError::InvalidSecond(f.by_second[i]));
    }
    if f.by_month.len() > 0 && f.by_month_day.len() > 0 && !some_month_day_fits(&f.by_month, &f.by_month_day) {
        return Err(ValidationError::MonthDayNeverOccurs);
    }
    Ok(())
}

/// The number of days of `month` (1 to 12) in `year`.
fn days_in(year: i32, month: u32) -> (r: u32)
    requires
        0 <= year,
        1 <= month <= 12,
    ensures
        r == crate::fields::days_in_month(year as int, month as int),
{
    if month == 2 {
        let y = year as u32;
        if (y % 4 == 0 && y % 100 != 0) || y % 400 == 0 {
            29
        } else {
            28
        }
    } else if month == 4 || month == 6 || month == 9 || month == 11 {
        30
    } else {
        31
    }
}

/// Validates a rule against a start timestamp in RFC 3339 form.
///
/// A start that chrono does not read fails first; then the fields are
/// checked in text order ([`check_fields`]); only then is the rule built in
/// the rrule engine and validated there against the start in UTC, whose
/// diagnostic comes back as [`ValidationError::RuleInvalid`].
pub fn validate(fields: &RuleFields, start: &str) -> (r: Result<(), ValidationError>)
    ensures
        rfc3339_utc(start@) is None ==> (r is Err && r->Err_0 is InvalidStart
            && r->Err_0->InvalidStart_0@ == start@),
        rfc3339_utc(start@) is Some && field_error(fields@) is Some ==> r == Err::<
            (),
            ValidationError,
        >(field_error(fields@)->0),
        rfc3339_utc(start@) is Some && field_error(fields@) is None ==> ((r is Ok
            <==> engine_verdict(fields@, rfc3339_utc(start@)->0) is Ok) && (r is Err ==> (
        r->Err_0 is RuleInvalid && engine_verdict(fields@, rfc3339_utc(start@)->0) == Err::<
            (),
            Seq<char>,
        >(r->Err_0->RuleInvalid_0@)))),
{
    let st = match parse_rfc3339_utc(start) {
        Some(t) => t,
        None => {
            return Err(ValidationError::InvalidStart(start.to_owned()));
        },
    };
    match check_fields(fields) {
        Err(e) => {
            return Err(e);
        },
        Ok(()) => {},
    }
    proof {
        lemma_first_outside_none(ints_of(fields@.by_month), 1, 12, false);
        assert forall|i: int| 0 <= i < fields@.by_month.len() implies 1 <= #[trigger] fields@.by_month[i] <= 12 by {
            assert(ints_of(fields@.by_month)[i] == fields@.by_month[i] as int);
        }
    }
    let mut rule = rule_new(fields.frequency);
    rule = rule_interval(rule, fields.interval);
    match fields.count {
        MaybeCount::Present(n) => {
            rule = rule_count(rule, n);
        },
        MaybeCount::Absent => {},
    }
    match &fields.until {
        Some(t) => {
            rule = rule_until(rule, t);
        },
        None => {},
    }
    rule = rule_week_start(rule, fields.week_start);
    rule = rule_by_set_pos(rule, &fields.by_set_pos);
    rule = rule_by_month(rule, &fields.by_month);
    rule = rule_by_month_day(rule, &fields.by_month_day);
    rule = rule_by_year_day(rule, &fields.by_year_day);
    rule = rule_by_week_no(rule, &fields.by_week_no);
    rule = rule_by_weekday(rule, &fields.by_weekday);
    rule = rule_by_hour(rule, &fields.by_hour);
    rule = rule_by_minute(rule, &fields.by_minute);
    rule = rule_by_second(rule, &fields.by_second);
    assert(rule_fields(rule) == fields@);
    match rule_validate(rule, &st) {
        Ok(()) => Ok(()),
        Err(d) => Err(ValidationError::RuleInvalid(d)),
    }
}

/// Some value of a numeric field lies outside that field's legal range.
pub open spec fn has_out_of_range(m: RuleModel) -> bool {
    ||| m.interval == 0
    ||| (m.until is Some && !stamp_valid(m.until->0))
    ||| exists|i: int| 0 <= i < m.by_set_pos.len() && !in_range(#[trigger] m.by_set_pos[i] as int, -366, 366, true)
    ||| exists|i: int| 0 <= i < m.by_month.len() && !in_range(#[trigger] m.by_month[i] as int, 1, 12, false)
    ||| exists|i: int| 0 <= i < m.by_month_day.len() && !in_range(#[trigger] m.by_month_day[i] as int, -31, 31, true)
    ||| exists|i: int| 0 <= i < m.by_year_day.len() && !in_range(#[trigger] m.by_year_day[i] as int, -366, 366, true)
    ||| exists|i: int| 0 <= i < m.by_week_no.len() && !in_range(#[trigger] m.by_week_no[i] as int, -53, 53, true)
    ||| exists|i: int| 0 <= i < m.by_weekday.len() && !in_range(#[trigger] ordinals(m.by_weekday)[i], -53, 53, true)
    ||| exists|i: int| 0 <= i < m.by_hour.len() && !in_range(#[trigger] m.by_hour[i] as int, 0, 23, false)
    ||| exists|i: int| 0 <= i < m.by_minute.len() && !in_range(#[trigger] m.by_minute[i] as int, 0, 59, false)
    ||| exists|i: int| 0 <= i < m.by_second.len() && !in_range(#[trigger] m.by_second[i] as int, 0, 60, false)
}

/// The error is about one field's value.
pub open spec fn is_field_specific(e: ValidationError) -> bool {
    !(e is InvalidStart || e is MonthDayNeverOccurs || e is RuleInvalid)
}

/// A rule holding any value outside its field's legal range fails the field
/// check with an error about a field, so [`validate`] returns that error
/// (for a usable start) and never consults the engine.
pub proof fn lemma_out_of_range_rejected(m: RuleModel)
    requires
        has_out_of_range(m),
    ensures
        field_error(m) is Some,
        is_field_specific(field_error(m)->0),
{
    if m.interval != 0 && !(m.until is Some && !stamp_valid(m.until->0))
        && first_outside(ints_of(m.by_set_pos), -366, 366, true) is None
        && first_outside(ints_of(m.by_month), 1, 12, false) is None
        && first_outside(ints_of(m.by_month_day), -31, 31, true) is None
        && first_outside(ints_of(m.by_year_day), -366, 366, true) is None
        && first_outside(ints_of(m.by_week_no), -53, 53, true) is None
        && first_outside(ordinals(m.by_weekday), -53, 53, true) is None
        && first_outside(ints_of(m.by_hour), 0, 23, false) is None
        && first_outside(ints_of(m.by_minute), 0, 59, false) is None
        && first_outside(ints_of(m.by_second), 0, 60, false) is None {
        lemma_first_outside_none(ints_of(m.by_set_pos), -366, 366, true);
        lemma_first_outside_none(ints_of(m.by_month), 1, 12, false);
        lemma_first_outside_none(ints_of(m.by_month_day), -31, 31, true);
        lemma_first_outside_none(ints_of(m.by_year_day), -366, 366, true);
        lemma_first_outside_none(ints_of(m.by_week_no), -53, 53, true);
        lemma_first_outside_none(ordinals(m.by_weekday), -53, 53, true);
        lemma_first_outside_none(ints_of(m.by_hour), 0, 23, false);
        lemma_first_outside_none(ints_of(m.by_minute), 0, 59, false);
        lemma_first_outside_none(ints_of(m.by_second), 0, 60, false);
        assert(ints_of(m.by_set_pos).len() == m.by_set_pos.len());
        assert(forall|i: int| 0 <= i < m.by_set_pos.len() ==> ints_of(m.by_set_pos)[i] == #[trigger] m.by_set_pos[i] as int);
        assert(forall|i: int| 0 <= i < m.by_month.len() ==> ints_of(m.by_month)[i] == #[trigger] m.by_month[i] as int);
        assert(forall|i: int| 0 <= i < m.by_month_day.len() ==> ints_of(m.by_month_day)[i] == #[trigger] m.by_month_day[i] as int);
        assert(forall|i: int| 0 <= i < m.by_year_day.len() ==> ints_of(m.by_year_day)[i] == #[trigger] m.by_year_day[i] as int);
        assert(forall|i: int| 0 <= i < m.by_week_no.len() ==> ints_of(m.by_week_no)[i] == #[trigger] m.by_week_no[i] as int);
        assert(forall|i: int| 0 <= i < m.by_hour.len() ==> ints_of(m.by_hour)[i] == #[trigger] m.by_hour[i] as int);
        assert(forall|i: int| 0 <= i < m.by_minute.len() ==> ints_of(m.by_minute)[i] == #[trigger] m.by_minute[i] as int);
        assert(forall|i: int| 0 <= i < m.by_second.len() ==> ints_of(m.by_second)[i] == #[trigger] m.by_second[i] as int);
        assert(ordinals(m.by_weekday).len() == m.by_weekday.len());
        assert(false);
    }
}

} // verus!
