use exdateutil_rrule::codec::{parse, serialize, ParseError, ParseErrorKind};
use exdateutil_rrule::fields::{Frequency, MaybeCount, NWeekday, RuleFields, Stamp, Weekday};

fn rule(frequency: Frequency) -> RuleFields {
    RuleFields {
        frequency,
        interval: 1,
        count: MaybeCount::Absent,
        until: None,
        week_start: Weekday::Mon,
        by_set_pos: vec![],
        by_month: vec![],
        by_month_day: vec![],
        by_year_day: vec![],
        by_week_no: vec![],
        by_weekday: vec![],
        by_hour: vec![],
        by_minute: vec![],
        by_second: vec![],
    }
}

fn error(kind: ParseErrorKind, token: &str) -> ParseError {
    ParseError { kind, token: token.to_string() }
}

#[test]
fn parse_daily_interval_count() {
    let f = parse("FREQ=DAILY;INTERVAL=2;COUNT=10").unwrap();
    assert_eq!(f.frequency, Frequency::Daily);
    assert_eq!(f.interval, 2);
    assert_eq!(f.count, MaybeCount::Present(10));
    assert_eq!(f.until, None);
    assert!(f.by_set_pos.is_empty() && f.by_month.is_empty() && f.by_month_day.is_empty());
    assert!(f.by_year_day.is_empty() && f.by_week_no.is_empty() && f.by_weekday.is_empty());
    assert!(f.by_hour.is_empty() && f.by_minute.is_empty() && f.by_second.is_empty());
}

#[test]
fn parse_weekly_byday() {
    let f = parse("FREQ=WEEKLY;BYDAY=MO,WE,FR").unwrap();
    assert_eq!(
        f.by_weekday,
        vec![NWeekday::Every(Weekday::Mon), NWeekday::Every(Weekday::Wed), NWeekday::Every(Weekday::Fri)]
    );
}

#[test]
fn parse_last_friday() {
    let f = parse("FREQ=MONTHLY;BYDAY=-1FR").unwrap();
    assert_eq!(f.frequency, Frequency::Monthly);
    assert_eq!(f.by_weekday, vec![NWeekday::Nth(-1, Weekday::Fri)]);
}

#[test]
fn parse_signed_ordinal() {
    let f = parse("FREQ=YEARLY;BYDAY=+2TU,20SU").unwrap();
    assert_eq!(f.by_weekday, vec![NWeekday::Nth(2, Weekday::Tue), NWeekday::Nth(20, Weekday::Sun)]);
}

#[test]
fn parse_bogus_frequency() {
    assert_eq!(parse("FREQ=BOGUS"), Err(error(ParseErrorKind::InvalidFrequency, "BOGUS")));
}

#[test]
fn parse_every_frequency() {
    let cases = [
        ("SECONDLY", Frequency::Secondly),
        ("MINUTELY", Frequency::Minutely),
        ("HOURLY", Frequency::Hourly),
        ("DAILY", Frequency::Daily),
        ("WEEKLY", Frequency::Weekly),
        ("MONTHLY", Frequency::Monthly),
        ("YEARLY", Frequency::Yearly),
    ];
    for (text, freq) in cases {
        assert_eq!(parse(&format!("FREQ={}", text)).unwrap().frequency, freq);
    }
}

#[test]
fn parse_all_lists() {
    let f = parse(
        "FREQ=YEARLY;WKST=SU;BYSETPOS=-1,2;BYMONTH=1,12;BYMONTHDAY=-31,15;BYYEARDAY=-366,100;BYWEEKNO=-53,20;BYHOUR=0,23;BYMINUTE=0,59;BYSECOND=0,60",
    )
    .unwrap();
    assert_eq!(f.week_start, Weekday::Sun);
    assert_eq!(f.by_set_pos, vec![-1, 2]);
    assert_eq!(f.by_month, vec![1, 12]);
    assert_eq!(f.by_month_day, vec![-31, 15]);
    assert_eq!(f.by_year_day, vec![-366, 100]);
    assert_eq!(f.by_week_no, vec![-53, 20]);
    assert_eq!(f.by_hour, vec![0, 23]);
    assert_eq!(f.by_minute, vec![0, 59]);
    assert_eq!(f.by_second, vec![0, 60]);
}

#[test]
fn parse_until_rfc3339() {
    let f = parse("FREQ=DAILY;UNTIL=2023-05-06T07:08:09Z").unwrap();
    assert_eq!(f.until, Some(Stamp { year: 2023, month: 5, day: 6, hour: 7, minute: 8, second: 9 }));
}

#[test]
fn parse_until_with_offset_goes_to_utc() {
    let f = parse("FREQ=DAILY;UNTIL=2023-05-06T01:00:00+02:00").unwrap();
    assert_eq!(f.until, Some(Stamp { year: 2023, month: 5, day: 5, hour: 23, minute: 0, second: 0 }));
}

#[test]
fn parse_until_compact() {
    let f = parse("FREQ=DAILY;UNTIL=20231231T235959Z").unwrap();
    assert_eq!(f.until, Some(Stamp { year: 2023, month: 12, day: 31, hour: 23, minute: 59, second: 59 }));
}

#[test]
fn parse_errors_name_their_token() {
    assert_eq!(parse(""), Err(error(ParseErrorKind::MalformedSegment, "")));
    assert_eq!(parse("FREQ=DAILY;COUNT"), Err(error(ParseErrorKind::MalformedSegment, "COUNT")));
    assert_eq!(parse("FREQ=DAILY;FOO=1"), Err(error(ParseErrorKind::UnknownKey, "FOO")));
    assert_eq!(parse("INTERVAL=2"), Err(error(ParseErrorKind::MissingFrequency, "")));
    assert_eq!(parse("FREQ=DAILY;INTERVAL=0"), Err(error(ParseErrorKind::InvalidInterval, "0")));
    assert_eq!(parse("FREQ=DAILY;INTERVAL=x"), Err(error(ParseErrorKind::InvalidInterval, "x")));
    assert_eq!(parse("FREQ=DAILY;INTERVAL=65536"), Err(error(ParseErrorKind::InvalidInterval, "65536")));
    assert_eq!(parse("FREQ=DAILY;COUNT=-1"), Err(error(ParseErrorKind::InvalidCount, "-1")));
    assert_eq!(parse("FREQ=DAILY;UNTIL=tomorrow"), Err(error(ParseErrorKind::InvalidUntil, "tomorrow")));
    assert_eq!(parse("FREQ=DAILY;WKST=XX"), Err(error(ParseErrorKind::InvalidWeekStart, "XX")));
    assert_eq!(parse("FREQ=DAILY;BYDAY=MO,2XX"), Err(error(ParseErrorKind::InvalidWeekday, "2XX")));
    assert_eq!(parse("FREQ=DAILY;BYSETPOS=1,a"), Err(error(ParseErrorKind::InvalidSetPos, "a")));
    assert_eq!(parse("FREQ=DAILY;BYMONTH=256"), Err(error(ParseErrorKind::InvalidMonth, "256")));
    assert_eq!(parse("FREQ=DAILY;BYMONTHDAY=128"), Err(error(ParseErrorKind::InvalidMonthDay, "128")));
    assert_eq!(parse("FREQ=DAILY;BYYEARDAY=40000"), Err(error(ParseErrorKind::InvalidYearDay, "40000")));
    assert_eq!(parse("FREQ=DAILY;BYWEEKNO=,"), Err(error(ParseErrorKind::InvalidWeekNo, "")));
    assert_eq!(parse("FREQ=DAILY;BYHOUR=-1"), Err(error(ParseErrorKind::InvalidHour, "-1")));
    assert_eq!(parse("FREQ=DAILY;BYMINUTE=1.5"), Err(error(ParseErrorKind::InvalidMinute, "1.5")));
    assert_eq!(parse("FREQ=DAILY;BYSECOND=99999999999999"), Err(error(ParseErrorKind::InvalidSecond, "99999999999999")));
}

#[test]
fn parse_first_bad_segment_wins() {
    assert_eq!(parse("FREQ=BAD;FOO=1"), Err(error(ParseErrorKind::InvalidFrequency, "BAD")));
}

#[test]
fn serialize_daily() {
    let mut f = rule(Frequency::Daily);
    f.interval = 2;
    f.count = MaybeCount::Present(10);
    assert_eq!(serialize(&f), "FREQ=DAILY;INTERVAL=2;COUNT=10");
}

#[test]
fn serialize_defaults_left_out() {
    assert_eq!(serialize(&rule(Frequency::Weekly)), "FREQ=WEEKLY");
}

#[test]
fn serialize_canonical_order() {
    let mut f = rule(Frequency::Monthly);
    f.by_second = vec![5];
    f.by_weekday = vec![NWeekday::Nth(-1, Weekday::Fri), NWeekday::Every(Weekday::Mon)];
    f.until = Some(Stamp { year: 2024, month: 1, day: 2, hour: 3, minute: 4, second: 5 });
    f.week_start = Weekday::Sun;
    f.by_month = vec![2, 11];
    assert_eq!(
        serialize(&f),
        "FREQ=MONTHLY;UNTIL=2024-01-02T03:04:05Z;WKST=SU;BYMONTH=2,11;BYDAY=-1FR,MO;BYSECOND=5"
    );
}

#[test]
fn round_trip_full_rule() {
    let f = RuleFields {
        frequency: Frequency::Yearly,
        interval: 3,
        count: MaybeCount::Present(0),
        until: Some(Stamp { year: 996, month: 2, day: 29, hour: 23, minute: 59, second: 59 }),
        week_start: Weekday::Thu,
        by_set_pos: vec![-366, 1],
        by_month: vec![12],
        by_month_day: vec![-1, 31],
        by_year_day: vec![200],
        by_week_no: vec![-53],
        by_weekday: vec![NWeekday::Every(Weekday::Sat), NWeekday::Nth(0, Weekday::Tue)],
        by_hour: vec![1, 2, 3],
        by_minute: vec![255],
        by_second: vec![0],
    };
    let text = serialize(&f);
    assert_eq!(parse(&text), Ok(f.clone()));
    let again = serialize(&parse(&text).unwrap());
    assert_eq!(again, text);
}

#[test]
fn reserialize_is_stable() {
    let first = serialize(&parse("BYDAY=TU;FREQ=WEEKLY;INTERVAL=1;UNTIL=20240101T000000Z").unwrap());
    assert_eq!(first, "FREQ=WEEKLY;UNTIL=2024-01-01T00:00:00Z;BYDAY=TU");
    let second = serialize(&parse(&first).unwrap());
    assert_eq!(second, first);
}
