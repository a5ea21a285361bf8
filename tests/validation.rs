use exdateutil_rrule::fields::{to_maybe_count, Frequency, MaybeCount, NWeekday, RuleFields, Stamp, Weekday};
use exdateutil_rrule::validate::{check_fields, validate, ValidationError};

fn rule(frequency: Frequency) -> RuleFields {
    RuleFields {
        frequency,
        interval: 1,
        count: MaybeCount::Absent,
        until: None,
        week_start: Weekday::Mon,
        by_set_pos: vec![],
        by_month: vec![],
        by_month_day: vec![],
        by_year_day: vec![],
        by_week_no: vec![],
        by_weekday: vec![],
        by_hour: vec![],
        by_minute: vec![],
        by_second: vec![],
    }
}

#[test]
fn february_has_no_31st() {
    let mut f = rule(Frequency::Monthly);
    f.by_month_day = vec![31];
    f.by_month = vec![2];
    assert_eq!(validate(&f, "2023-02-01T00:00:00Z"), Err(ValidationError::MonthDayNeverOccurs));
}

#[test]
fn daily_rule_is_valid() {
    let f = rule(Frequency::Daily);
    assert_eq!(validate(&f, "2023-04-01T00:00:00Z"), Ok(()));
}

#[test]
fn monthly_31st_is_valid() {
    let mut f = rule(Frequency::Monthly);
    f.by_month_day = vec![31];
    assert_eq!(validate(&f, "2023-04-01T00:00:00Z"), Ok(()));
}

#[test]
fn full_rule_is_valid() {
    let mut f = rule(Frequency::Yearly);
    f.interval = 2;
    f.count = MaybeCount::Present(5);
    f.week_start = Weekday::Sun;
    f.by_month = vec![1, 6];
    f.by_weekday = vec![NWeekday::Nth(1, Weekday::Mon), NWeekday::Every(Weekday::Fri)];
    f.by_hour = vec![9];
    assert_eq!(validate(&f, "2023-01-01T00:00:00Z"), Ok(()));
}

#[test]
fn bad_start() {
    let f = rule(Frequency::Daily);
    assert_eq!(validate(&f, "yesterday"), Err(ValidationError::InvalidStart("yesterday".to_string())));
    assert_eq!(
        validate(&f, "20230101T000000Z"),
        Err(ValidationError::InvalidStart("20230101T000000Z".to_string()))
    );
}

#[test]
fn bad_start_wins_over_bad_fields() {
    let mut f = rule(Frequency::Daily);
    f.by_month = vec![13];
    assert_eq!(validate(&f, "nope"), Err(ValidationError::InvalidStart("nope".to_string())));
}

#[test]
fn out_of_range_values_are_field_errors() {
    let start = "2023-04-01T00:00:00Z";
    let mut f = rule(Frequency::Daily);
    f.interval = 0;
    assert_eq!(validate(&f, start), Err(ValidationError::InvalidInterval(0)));
    let mut f = rule(Frequency::Daily);
    f.until = Some(Stamp { year: 2023, month: 2, day: 29, hour: 0, minute: 0, second: 0 });
    assert_eq!(validate(&f, start), Err(ValidationError::InvalidUntil));
    let mut f = rule(Frequency::Daily);
    f.by_set_pos = vec![1, 0];
    assert_eq!(validate(&f, start), Err(ValidationError::InvalidSetPos(0)));
    let mut f = rule(Frequency::Daily);
    f.by_month = vec![3, 13, 0];
    assert_eq!(validate(&f, start), Err(ValidationError::InvalidMonth(13)));
    let mut f = rule(Frequency::Daily);
    f.by_month_day = vec![32];
    assert_eq!(validate(&f, start), Err(ValidationError::InvalidMonthDay(32)));
    let mut f = rule(Frequency::Daily);
    f.by_year_day = vec![-367];
    assert_eq!(validate(&f, start), Err(ValidationError::InvalidYearDay(-367)));
    let mut f = rule(Frequency::Daily);
    f.by_week_no = vec![54];
    assert_eq!(validate(&f, start), Err(ValidationError::InvalidWeekNo(54)));
    let mut f = rule(Frequency::Daily);
    f.by_weekday = vec![NWeekday::Every(Weekday::Mon), NWeekday::Nth(0, Weekday::Tue)];
    assert_eq!(validate(&f, start), Err(ValidationError::InvalidWeekdayOrdinal(0)));
    let mut f = rule(Frequency::Daily);
    f.by_hour = vec![99];
    assert_eq!(validate(&f, start), Err(ValidationError::InvalidHour(99)));
    let mut f = rule(Frequency::Daily);
    f.by_minute = vec![60];
    assert_eq!(validate(&f, start), Err(ValidationError::InvalidMinute(60)));
    let mut f = rule(Frequency::Daily);
    f.by_second = vec![61];
    assert_eq!(validate(&f, start), Err(ValidationError::InvalidSecond(61)));
}

#[test]
fn first_bad_field_in_text_order() {
    let mut f = rule(Frequency::Daily);
    f.by_hour = vec![24];
    f.by_month = vec![13];
    assert_eq!(check_fields(&f), Err(ValidationError::InvalidMonth(13)));
}

#[test]
fn month_day_fits_some_month() {
    let mut f = rule(Frequency::Yearly);
    f.by_month = vec![2, 4];
    f.by_month_day = vec![31, -30];
    assert_eq!(check_fields(&f), Ok(()));
    f.by_month_day = vec![31, -31];
    assert_eq!(check_fields(&f), Err(ValidationError::MonthDayNeverOccurs));
}

#[test]
fn engine_rejects_monthday_with_weekly() {
    let mut f = rule(Frequency::Weekly);
    f.by_month_day = vec![1];
    match validate(&f, "2023-04-01T00:00:00Z") {
        Err(ValidationError::RuleInvalid(detail)) => assert!(detail.contains("BYMONTHDAY")),
        other => panic!("unexpected {:?}", other),
    }
}

#[test]
fn engine_rejects_until_before_start() {
    let mut f = rule(Frequency::Daily);
    f.until = Some(Stamp { year: 2020, month: 1, day: 1, hour: 0, minute: 0, second: 0 });
    assert!(matches!(validate(&f, "2023-04-01T00:00:00Z"), Err(ValidationError::RuleInvalid(_))));
}

#[test]
fn maybe_count_from_option() {
    assert_eq!(to_maybe_count(Some(7)), MaybeCount::Present(7));
    assert_eq!(to_maybe_count(None), MaybeCount::Absent);
}

#[test]
fn start_with_offset_is_taken_to_utc() {
    let f = rule(Frequency::Daily);
    assert_eq!(validate(&f, "2023-04-01T02:00:00+02:00"), Ok(()));
}

#[test]
fn full_rule_with_count_and_until_is_valid() {
    let mut f = rule(Frequency::Weekly);
    f.count = MaybeCount::Present(3);
    f.until = Some(Stamp { year: 2024, month: 1, day: 1, hour: 0, minute: 0, second: 0 });
    f.by_weekday = vec![NWeekday::Every(Weekday::Tue)];
    f.by_set_pos = vec![1];
    f.by_second = vec![0, 30];
    assert_eq!(validate(&f, "2023-04-01T00:00:00Z"), Ok(()));
}
