//! Laws relating [`parse`](crate::codec::parse) and
//! [`serialize`](crate::codec::serialize), stated over their models.

use vstd::prelude::*;
use crate::codec::{
    Draft, IntItem, ParseErrorModel, apply_field, apply_segment, apply_segments, blank_rule,
    count_seg, frequency_name, frequency_of, int_list, int_list_text, ints_as, ints_of,
    list_tail_text, nweekday_list, nweekday_list_text, nweekday_of, nweekday_text, parse_model,
    seg, seg_if, serialize_model, stamp_text, tail_text, until_of, until_seg, weekday_code,
    weekday_of,
};
use crate::fields::{Frequency, MaybeCount, NWeekday, RuleModel, Stamp, Weekday, stamp_valid};
use crate::text::{
    digit_char, find_from, int_in, int_of_text, int_text, is_digit, lemma_digit_char,
    lemma_find_from_at, lemma_int_text, nat_text, two_digits,
};
use crate::time::{rfc3339_fields, rfc3339_shape};

verus! {

/// A rule whose text reads back as itself: a positive interval, and an end
/// timestamp, if any, that is a real date and time with a four-digit year.
pub open spec fn is_writable(m: RuleModel) -> bool {
    &&& m.interval >= 1
    &&& (m.until matches Some(t) ==> stamp_valid(t))
}

pub open spec fn no_char(s: Seq<char>, c: char) -> bool {
    forall|i: int| 0 <= i < s.len() ==> #[trigger] s[i] != c
}

/// Text that is empty or starts a new segment.
pub open spec fn starts_segment(r: Seq<char>) -> bool {
    r.len() == 0 || r[0] == ';'
}

/// What is read from the rest of a text that starts a new segment.
pub open spec fn continue_segments(r: Seq<char>, d: Draft) -> Result<Draft, ParseErrorModel> {
    if r.len() == 0 {
        Ok(d)
    } else {
        apply_segments(r.drop_first(), d)
    }
}

proof fn lemma_find_concat(p: Seq<char>, r: Seq<char>, c: char)
    requires
        no_char(p, c),
        r.len() == 0 || r[0] == c,
    ensures
        find_from(p + r, c) == p.len(),
        (p + r).take(p.len() as int) == p,
        r.len() > 0 ==> (p + r).skip(p.len() as int + 1) == r.drop_first(),
{
    let s = p + r;
    assert forall|k: int| 0 <= k < p.len() implies s[k] != c by {
        assert(s[k] == p[k]);
    }
    lemma_find_from_at(s, c, p.len() as int);
    assert(s.take(p.len() as int) =~= p);
    if r.len() > 0 {
        assert(s.skip(p.len() as int + 1) =~= r.drop_first());
    }
}

proof fn lemma_first_segment(p: Seq<char>, r: Seq<char>, d: Draft)
    requires
        no_char(p, ';'),
        starts_segment(r),
    ensures
        apply_segments(p + r, d) == match apply_segment(d, p) {
            Err(e) => Err(e),
            Ok(d2) => continue_segments(r, d2),
        },
{
    lemma_find_concat(p, r, ';');
}

proof fn lemma_key_value(d: Draft, k: Seq<char>, v: Seq<char>)
    requires
        no_char(k, '='),
    ensures
        apply_segment(d, k + seq!['='] + v) == apply_field(d, k, v),
{
    reveal(apply_segment);
    let s = k + seq!['='] + v;
    let r = seq!['='] + v;
    assert(s =~= k + r);
    lemma_find_concat(k, r, '=');
    assert(r.drop_first() =~= v);
}

proof fn lemma_step(present: bool, k: Seq<char>, v: Seq<char>, r: Seq<char>, d: Draft, d2: Draft)
    requires
        present ==> apply_field(d, k, v) == Ok::<Draft, ParseErrorModel>(d2),
        present ==> no_char(k, '=') && no_char(k, ';') && no_char(v, ';'),
        !present ==> d2 == d,
        starts_segment(r),
    ensures
        continue_segments(seg_if(present, k, v) + r, d) == continue_segments(r, d2),
        starts_segment(seg_if(present, k, v) + r),
{
    if present {
        let kv = k + seq!['='] + v;
        assert(no_char(kv, ';')) by {
            assert forall|i: int| 0 <= i < kv.len() implies #[trigger] kv[i] != ';' by {
                if i < k.len() {
                    assert(kv[i] == k[i]);
                } else if i > k.len() {
                    assert(kv[i] == v[i - k.len() - 1]);
                }
            }
        }
        let s = seg(k, v) + r;
        assert(s.drop_first() =~= kv + r);
        lemma_first_segment(kv, r, d);
        lemma_key_value(d, k, v);
    } else {
        assert(seg_if(present, k, v) + r =~= r);
    }
}

/// The spelling of every key.
proof fn lemma_keys()
    ensures
        "FREQ"@ == seq!['F', 'R', 'E', 'Q'],
        "INTERVAL"@ == seq!['I', 'N', 'T', 'E', 'R', 'V', 'A', 'L'],
        "COUNT"@ == seq!['C', 'O', 'U', 'N', 'T'],
        "UNTIL"@ == seq!['U', 'N', 'T', 'I', 'L'],
        "WKST"@ == seq!['W', 'K', 'S', 'T'],
        "BYSETPOS"@ == seq!['B', 'Y', 'S', 'E', 'T', 'P', 'O', 'S'],
        "BYMONTH"@ == seq!['B', 'Y', 'M', 'O', 'N', 'T', 'H'],
        "BYMONTHDAY"@ == seq!['B', 'Y', 'M', 'O', 'N', 'T', 'H', 'D', 'A', 'Y'],
        "BYYEARDAY"@ == seq!['B', 'Y', 'Y', 'E', 'A', 'R', 'D', 'A', 'Y'],
        "BYWEEKNO"@ == seq!['B', 'Y', 'W', 'E', 'E', 'K', 'N', 'O'],
        "BYDAY"@ == seq!['B', 'Y', 'D', 'A', 'Y'],
        "BYHOUR"@ == seq!['B', 'Y', 'H', 'O', 'U', 'R'],
        "BYMINUTE"@ == seq!['B', 'Y', 'M', 'I', 'N', 'U', 'T', 'E'],
        "BYSECOND"@ == seq!['B', 'Y', 'S', 'E', 'C', 'O', 'N', 'D'],
{
    reveal_strlit("FREQ");
    reveal_strlit("INTERVAL");
    reveal_strlit("COUNT");
    reveal_strlit("UNTIL");
    reveal_strlit("WKST");
    reveal_strlit("BYSETPOS");
    reveal_strlit("BYMONTH");
    reveal_strlit("BYMONTHDAY");
    reveal_strlit("BYYEARDAY");
    reveal_strlit("BYWEEKNO");
    reveal_strlit("BYDAY");
    reveal_strlit("BYHOUR");
    reveal_strlit("BYMINUTE");
    reveal_strlit("BYSECOND");
    assert("FREQ"@ =~= seq!['F', 'R', 'E', 'Q']);
    assert("INTERVAL"@ =~= seq!['I', 'N', 'T', 'E', 'R', 'V', 'A', 'L']);
    assert("COUNT"@ =~= seq!['C', 'O', 'U', 'N', 'T']);
    assert("UNTIL"@ =~= seq!['U', 'N', 'T', 'I', 'L']);
    assert("WKST"@ =~= seq!['W', 'K', 'S', 'T']);
    assert("BYSETPOS"@ =~= seq!['B', 'Y', 'S', 'E', 'T', 'P', 'O', 'S']);
    assert("BYMONTH"@ =~= seq!['B', 'Y', 'M', 'O', 'N', 'T', 'H']);
    assert("BYMONTHDAY"@ =~= seq!['B', 'Y', 'M', 'O', 'N', 'T', 'H', 'D', 'A', 'Y']);
    assert("BYYEARDAY"@ =~= seq!['B', 'Y', 'Y', 'E', 'A', 'R', 'D', 'A', 'Y']);
    assert("BYWEEKNO"@ =~= seq!['B', 'Y', 'W', 'E', 'E', 'K', 'N', 'O']);
    assert("BYDAY"@ =~= seq!['B', 'Y', 'D', 'A', 'Y']);
    assert("BYHOUR"@ =~= seq!['B', 'Y', 'H', 'O', 'U', 'R']);
    assert("BYMINUTE"@ =~= seq!['B', 'Y', 'M', 'I', 'N', 'U', 'T', 'E']);
    assert("BYSECOND"@ =~= seq!['B', 'Y', 'S', 'E', 'C', 'O', 'N', 'D']);
}

/// The spelling of every frequency.
proof fn lemma_frequency_names()
    ensures
        "SECONDLY"@ == seq!['S', 'E', 'C', 'O', 'N', 'D', 'L', 'Y'],
        "MINUTELY"@ == seq!['M', 'I', 'N', 'U', 'T', 'E', 'L', 'Y'],
        "HOURLY"@ == seq!['H', 'O', 'U', 'R', 'L', 'Y'],
        "DAILY"@ == seq!['D', 'A', 'I', 'L', 'Y'],
        "WEEKLY"@ == seq!['W', 'E', 'E', 'K', 'L', 'Y'],
        "MONTHLY"@ == seq!['M', 'O', 'N', 'T', 'H', 'L', 'Y'],
        "YEARLY"@ == seq!['Y', 'E', 'A', 'R', 'L', 'Y'],
{
    reveal_strlit("SECONDLY");
    reveal_strlit("MINUTELY");
    reveal_strlit("HOURLY");
    reveal_strlit("DAILY");
    reveal_strlit("WEEKLY");
    reveal_strlit("MONTHLY");
    reveal_strlit("YEARLY");
    assert("SECONDLY"@ =~= seq!['S', 'E', 'C', 'O', 'N', 'D', 'L', 'Y']);
    assert("MINUTELY"@ =~= seq!['M', 'I', 'N', 'U', 'T', 'E', 'L', 'Y']);
    assert("HOURLY"@ =~= seq!['H', 'O', 'U', 'R', 'L', 'Y']);
    assert("DAILY"@ =~= seq!['D', 'A', 'I', 'L', 'Y']);
    assert("WEEKLY"@ =~= seq!['W', 'E', 'E', 'K', 'L', 'Y']);
    assert("MONTHLY"@ =~= seq!['M', 'O', 'N', 'T', 'H', 'L', 'Y']);
    assert("YEARLY"@ =~= seq!['Y', 'E', 'A', 'R', 'L', 'Y']);
}

proof fn lemma_frequency(f: Frequency)
    ensures
        frequency_of(frequency_name(f)) == Some(f),
        no_char(frequency_name(f), ';'),
{
    lemma_frequency_names();
    let n = frequency_name(f);
    assert forall|i: int| 0 <= i < n.len() implies #[trigger] n[i] != ';' by {}
}

proof fn lemma_weekday(w: Weekday)
    ensures
        weekday_of(weekday_code(w)) == Some(w),
        weekday_code(w).len() == 2,
        no_char(weekday_code(w), ';'),
        no_char(weekday_code(w), ','),
{
}

proof fn lemma_int_text_chars(v: int)
    ensures
        no_char(int_text(v), ';'),
        no_char(int_text(v), ','),
        int_text(v).len() > 0,
        int_of_text(int_text(v)) == Some(v),
{
    lemma_int_text(v);
    let t = int_text(v);
    assert forall|i: int| 0 <= i < t.len() implies #[trigger] t[i] != ';' by {
        assert(is_digit(t[i]) || t[i] == '-');
    }
    assert forall|i: int| 0 <= i < t.len() implies #[trigger] t[i] != ',' by {
        assert(is_digit(t[i]) || t[i] == '-');
    }
}

proof fn lemma_int_list(xs: Seq<int>, lo: int, hi: int)
    requires
        xs.len() > 0,
        forall|i: int| 0 <= i < xs.len() ==> lo <= #[trigger] xs[i] <= hi,
    ensures
        int_list(int_list_text(xs), lo, hi) == Ok::<Seq<int>, Seq<char>>(xs),
        no_char(int_list_text(xs), ';'),
    decreases xs.len(),
{
    let t0 = int_text(xs[0]);
    lemma_int_text_chars(xs[0]);
    assert(xs[0] == xs[0]);
    if xs.len() == 1 {
        lemma_find_concat(t0, seq![], ',');
        assert(t0 + seq![] =~= t0);
        assert(seq![xs[0]] =~= xs);
    } else {
        let rest = xs.drop_first();
        assert forall|i: int| 0 <= i < rest.len() implies lo <= #[trigger] rest[i] <= hi by {
            assert(rest[i] == xs[i + 1]);
        }
        lemma_int_list(rest, lo, hi);
        let r = seq![','] + int_list_text(rest);
        assert(int_list_text(xs) =~= t0 + r);
        lemma_find_concat(t0, r, ',');
        assert(r.drop_first() =~= int_list_text(rest));
        assert(seq![xs[0]] + rest =~= xs);
        let whole = int_list_text(xs);
        assert forall|i: int| 0 <= i < whole.len() implies #[trigger] whole[i] != ';' by {
            if i < t0.len() {
                assert(whole[i] == t0[i]);
            } else if i > t0.len() {
                assert(whole[i] == int_list_text(rest)[i - t0.len() - 1]);
            }
        }
    }
}

proof fn lemma_ints<T: IntItem>(s: Seq<T>)
    ensures
        ints_as::<T>(ints_of(s)) == s,
        forall|i: int| 0 <= i < ints_of(s).len() ==> T::lo() <= #[trigger] ints_of(s)[i] <= T::hi(),
        ints_of(s).len() == s.len(),
{
    assert forall|i: int| 0 <= i < s.len() implies T::from_int(s[i].as_int()) == s[i] && T::lo()
        <= s[i].as_int() <= T::hi() by {
        s[i].lemma_int_item();
    }
    assert(ints_as::<T>(ints_of(s)) =~= s);
}

proof fn lemma_nweekday(x: NWeekday)
    ensures
        nweekday_of(nweekday_text(x)) == Some(x),
        no_char(nweekday_text(x), ';'),
        no_char(nweekday_text(x), ','),
{
    match x {
        NWeekday::Every(w) => {
            lemma_weekday(w);
            assert(weekday_code(w).skip(0) =~= weekday_code(w));
        },
        NWeekday::Nth(n, w) => {
            lemma_weekday(w);
            lemma_int_text_chars(n as int);
            let t = nweekday_text(x);
            let a = int_text(n as int);
            assert(t.skip(t.len() - 2) =~= weekday_code(w));
            assert(t.take(t.len() - 2) =~= a);
            assert(int_in(a, -32768, 32767) == Some(n as int));
            assert forall|i: int| 0 <= i < t.len() implies #[trigger] t[i] != ';' && t[i] != ',' by {
                if i < a.len() {
                    assert(t[i] == a[i]);
                } else {
                    assert(t[i] == weekday_code(w)[i - a.len()]);
                }
            }
        },
    }
}

proof fn lemma_nweekday_list(xs: Seq<NWeekday>)
    requires
        xs.len() > 0,
    ensures
        nweekday_list(nweekday_list_text(xs)) == Ok::<Seq<NWeekday>, Seq<char>>(xs),
        no_char(nweekday_list_text(xs), ';'),
    decreases xs.len(),
{
    let t0 = nweekday_text(xs[0]);
    lemma_nweekday(xs[0]);
    if xs.len() == 1 {
        lemma_find_concat(t0, seq![], ',');
        assert(t0 + seq![] =~= t0);
        assert(seq![xs[0]] =~= xs);
    } else {
        let rest = xs.drop_first();
        lemma_nweekday_list(rest);
        let r = seq![','] + nweekday_list_text(rest);
        assert(nweekday_list_text(xs) =~= t0 + r);
        lemma_find_concat(t0, r, ',');
        assert(r.drop_first() =~= nweekday_list_text(rest));
        assert(seq![xs[0]] + rest =~= xs);
        let whole = nweekday_list_text(xs);
        assert forall|i: int| 0 <= i < whole.len() implies #[trigger] whole[i] != ';' by {
            if i < t0.len() {
                assert(whole[i] == t0[i]);
            } else if i > t0.len() {
                assert(whole[i] == nweekday_list_text(rest)[i - t0.len() - 1]);
            }
        }
    }
}

proof fn lemma_two_digits(n: nat)
    requires
        n < 100,
    ensures
        two_digits(n) == seq![digit_char(n as int / 10), digit_char(n as int % 10)],
{
    if n < 10 {
        assert(digit_char(0) == '0');
        assert(two_digits(n) =~= seq![digit_char(n as int / 10), digit_char(n as int % 10)]);
    } else {
        assert(nat_text((n / 10) as nat) == seq![digit_char(n as int / 10)]);
        assert(two_digits(n) =~= seq![digit_char(n as int / 10), digit_char(n as int % 10)]);
    }
}

proof fn lemma_stamp(t: Stamp)
    requires
        stamp_valid(t),
    ensures
        until_of(stamp_text(t)) == Some(t),
        no_char(stamp_text(t), ';'),
{
    let y = t.year as int;
    let s = stamp_text(t);
    lemma_two_digits(t.month as nat);
    lemma_two_digits(t.day as nat);
    lemma_two_digits(t.hour as nat);
    lemma_two_digits(t.minute as nat);
    lemma_two_digits(t.second as nat);
    let e = seq![
        digit_char(y / 1000),
        digit_char((y / 100) % 10),
        digit_char((y / 10) % 10),
        digit_char(y % 10),
        '-',
        digit_char(t.month as int / 10),
        digit_char(t.month as int % 10),
        '-',
        digit_char(t.day as int / 10),
        digit_char(t.day as int % 10),
        'T',
        digit_char(t.hour as int / 10),
        digit_char(t.hour as int % 10),
        ':',
        digit_char(t.minute as int / 10),
        digit_char(t.minute as int % 10),
        ':',
        digit_char(t.second as int / 10),
        digit_char(t.second as int % 10),
        'Z',
    ];
    assert(s =~= e);
    lemma_digit_char(y / 1000);
    lemma_digit_char((y / 100) % 10);
    lemma_digit_char((y / 10) % 10);
    lemma_digit_char(y % 10);
    lemma_digit_char(t.month as int / 10);
    lemma_digit_char(t.month as int % 10);
    lemma_digit_char(t.day as int / 10);
    lemma_digit_char(t.day as int % 10);
    lemma_digit_char(t.hour as int / 10);
    lemma_digit_char(t.hour as int % 10);
    lemma_digit_char(t.minute as int / 10);
    lemma_digit_char(t.minute as int % 10);
    lemma_digit_char(t.second as int / 10);
    lemma_digit_char(t.second as int % 10);
    assert(rfc3339_shape(s));
    assert((y / 1000) * 1000 + ((y / 100) % 10) * 100 + ((y / 10) % 10) * 10 + y % 10 == y) by (nonlinear_arith)
        requires
            0 <= y <= 9999,
    ;
    assert(rfc3339_fields(s) == t);
    assert forall|i: int| 0 <= i < s.len() implies #[trigger] s[i] != ';' by {
        assert(s[i] == e[i]);
    }
}

proof fn lemma_key_chars(k: Seq<char>)
    requires
        forall|i: int| 0 <= i < k.len() ==> 'A' <= #[trigger] k[i] <= 'Z',
    ensures
        no_char(k, '='),
        no_char(k, ';'),
{
}

proof fn lemma_field_frequency(d: Draft, f: Frequency)
    ensures
        apply_field(d, "FREQ"@, frequency_name(f)) == Ok::<Draft, ParseErrorModel>((true, RuleModel { frequency: f, ..d.1 })),
{
    lemma_keys();
    lemma_frequency(f);
}

proof fn lemma_field_interval(d: Draft, n: u16)
    requires
        n >= 1,
    ensures
        apply_field(d, "INTERVAL"@, int_text(n as int)) == Ok::<Draft, ParseErrorModel>((d.0, RuleModel { interval: n, ..d.1 })),
        no_char("INTERVAL"@, '=') && no_char("INTERVAL"@, ';') && no_char(int_text(n as int), ';'),
{
    lemma_keys();
    lemma_key_chars("INTERVAL"@);
    lemma_int_text_chars(n as int);
}

proof fn lemma_field_count(d: Draft, n: u32)
    ensures
        apply_field(d, "COUNT"@, int_text(n as int)) == Ok::<Draft, ParseErrorModel>((d.0, RuleModel { count: MaybeCount::Present(n), ..d.1 })),
        no_char("COUNT"@, '=') && no_char("COUNT"@, ';') && no_char(int_text(n as int), ';'),
{
    lemma_keys();
    lemma_key_chars("COUNT"@);
    lemma_int_text_chars(n as int);
}

proof fn lemma_field_until(d: Draft, t: Stamp)
    requires
        stamp_valid(t),
    ensures
        apply_field(d, "UNTIL"@, stamp_text(t)) == Ok::<Draft, ParseErrorModel>((d.0, RuleModel { until: Some(t), ..d.1 })),
        no_char("UNTIL"@, '=') && no_char("UNTIL"@, ';') && no_char(stamp_text(t), ';'),
{
    lemma_keys();
    lemma_key_chars("UNTIL"@);
    lemma_stamp(t);
}

proof fn lemma_field_week_start(d: Draft, w: Weekday)
    ensures
        apply_field(d, "WKST"@, weekday_code(w)) == Ok::<Draft, ParseErrorModel>((d.0, RuleModel { week_start: w, ..d.1 })),
        no_char("WKST"@, '=') && no_char("WKST"@, ';') && no_char(weekday_code(w), ';'),
{
    lemma_keys();
    lemma_key_chars("WKST"@);
    lemma_weekday(w);
}

proof fn lemma_field_by_set_pos(d: Draft, v: Seq<i32>)
    requires
        v.len() > 0,
    ensures
        apply_field(d, "BYSETPOS"@, int_list_text(ints_of(v))) == Ok::<Draft, ParseErrorModel>((d.0, RuleModel { by_set_pos: v, ..d.1 })),
        no_char("BYSETPOS"@, '=') && no_char("BYSETPOS"@, ';') && no_char(int_list_text(ints_of(v)), ';'),
{
    lemma_keys();
    lemma_key_chars("BYSETPOS"@);
    lemma_ints(v);
    lemma_int_list(ints_of(v), i32::lo(), i32::hi());
    assert(int_list(int_list_text(ints_of(v)), i32::lo(), i32::hi()) == Ok::<Seq<int>, Seq<char>>(ints_of(v)));
    assert(ints_as::<i32>(ints_of(v)) == v);
    assert(apply_field(d, "BYSETPOS"@, int_list_text(ints_of(v))) == crate::codec::apply_list_field(d, "BYSETPOS"@, int_list_text(ints_of(v))));
}

proof fn lemma_field_by_month(d: Draft, v: Seq<u8>)
    requires
        v.len() > 0,
    ensures
        apply_field(d, "BYMONTH"@, int_list_text(ints_of(v))) == Ok::<Draft, ParseErrorModel>((d.0, RuleModel { by_month: v, ..d.1 })),
        no_char("BYMONTH"@, '=') && no_char("BYMONTH"@, ';') && no_char(int_list_text(ints_of(v)), ';'),
{
    lemma_keys();
    lemma_key_chars("BYMONTH"@);
    assert("BYMONTH"@ != "BYSETPOS"@) by { assert("BYMONTH"@.len() != "BYSETPOS"@.len() || "BYMONTH"@[2] != "BYSETPOS"@[2]); }
    lemma_ints(v);
    lemma_int_list(ints_of(v), u8::lo(), u8::hi());
    assert(int_list(int_list_text(ints_of(v)), u8::lo(), u8::hi()) == Ok::<Seq<int>, Seq<char>>(ints_of(v)));
    assert(ints_as::<u8>(ints_of(v)) == v);
    assert(apply_field(d, "BYMONTH"@, int_list_text(ints_of(v))) == crate::codec::apply_list_field(d, "BYMONTH"@, int_list_text(ints_of(v))));
}

proof fn lemma_field_by_month_day(d: Draft, v: Seq<i8>)
    requires
        v.len() > 0,
    ensures
        apply_field(d, "BYMONTHDAY"@, int_list_text(ints_of(v))) == Ok::<Draft, ParseErrorModel>((d.0, RuleModel { by_month_day: v, ..d.1 })),
        no_char("BYMONTHDAY"@, '=') && no_char("BYMONTHDAY"@, ';') && no_char(int_list_text(ints_of(v)), ';'),
{
    lemma_keys();
    lemma_key_chars("BYMONTHDAY"@);
    assert("BYMONTHDAY"@ != "BYSETPOS"@) by { assert("BYMONTHDAY"@.len() != "BYSETPOS"@.len() || "BYMONTHDAY"@[2] != "BYSETPOS"@[2]); }
    assert("BYMONTHDAY"@ != "BYMONTH"@) by { assert("BYMONTHDAY"@.len() != "BYMONTH"@.len() || "BYMONTHDAY"@[0] != "BYMONTH"@[0]); }
    lemma_ints(v);
    lemma_int_list(ints_of(v), i8::lo(), i8::hi());
    assert(int_list(int_list_text(ints_of(v)), i8::lo(), i8::hi()) == Ok::<Seq<int>, Seq<char>>(ints_of(v)));
    assert(ints_as::<i8>(ints_of(v)) == v);
    assert(apply_field(d, "BYMONTHDAY"@, int_list_text(ints_of(v))) == crate::codec::apply_list_field(d, "BYMONTHDAY"@, int_list_text(ints_of(v))));
}

proof fn lemma_field_by_year_day(d: Draft, v: Seq<i16>)
    requires
        v.len() > 0,
    ensures
        apply_field(d, "BYYEARDAY"@, int_list_text(ints_of(v))) == Ok::<Draft, ParseErrorModel>((d.0, RuleModel { by_year_day: v, ..d.1 })),
        no_char("BYYEARDAY"@, '=') && no_char("BYYEARDAY"@, ';') && no_char(int_list_text(ints_of(v)), ';'),
{
    lemma_keys();
    lemma_key_chars("BYYEARDAY"@);
    assert("BYYEARDAY"@ != "BYSETPOS"@) by { assert("BYYEARDAY"@.len() != "BYSETPOS"@.len() || "BYYEARDAY"@[2] != "BYSETPOS"@[2]); }
    assert("BYYEARDAY"@ != "BYMONTH"@) by { assert("BYYEARDAY"@.len() != "BYMONTH"@.len() || "BYYEARDAY"@[2] != "BYMONTH"@[2]); }
    assert("BYYEARDAY"@ != "BYMONTHDAY"@) by { assert("BYYEARDAY"@.len() != "BYMONTHDAY"@.len() || "BYYEARDAY"@[2] != "BYMONTHDAY"@[2]); }
    lemma_ints(v);
    lemma_int_list(ints_of(v), i16::lo(), i16::hi());
    assert(int_list(int_list_text(ints_of(v)), i16::lo(), i16::hi()) == Ok::<Seq<int>, Seq<char>>(ints_of(v)));
    assert(ints_as::<i16>(ints_of(v)) == v);
    assert(apply_field(d, "BYYEARDAY"@, int_list_text(ints_of(v))) == crate::codec::apply_list_field(d, "BYYEARDAY"@, int_list_text(ints_of(v))));
}

proof fn lemma_field_by_week_no(d: Draft, v: Seq<i8>)
    requires
        v.len() > 0,
    ensures
        apply_field(d, "BYWEEKNO"@, int_list_text(ints_of(v))) == Ok::<Draft, ParseErrorModel>((d.0, RuleModel { by_week_no: v, ..d.1 })),
        no_char("BYWEEKNO"@, '=') && no_char("BYWEEKNO"@, ';') && no_char(int_list_text(ints_of(v)), ';'),
{
    lemma_keys();
    lemma_key_chars("BYWEEKNO"@);
    assert("BYWEEKNO"@ != "BYSETPOS"@) by { assert("BYWEEKNO"@.len() != "BYSETPOS"@.len() || "BYWEEKNO"@[2] != "BYSETPOS"@[2]); }
    assert("BYWEEKNO"@ != "BYMONTH"@) by { assert("BYWEEKNO"@.len() != "BYMONTH"@.len() || "BYWEEKNO"@[2] != "BYMONTH"@[2]); }
    assert("BYWEEKNO"@ != "BYMONTHDAY"@) by { assert("BYWEEKNO"@.len() != "BYMONTHDAY"@.len() || "BYWEEKNO"@[2] != "BYMONTHDAY"@[2]); }
    assert("BYWEEKNO"@ != "BYYEARDAY"@) by { assert("BYWEEKNO"@.len() != "BYYEARDAY"@.len() || "BYWEEKNO"@[2] != "BYYEARDAY"@[2]); }
    lemma_ints(v);
    lemma_int_list(ints_of(v), i8::lo(), i8::hi());
    assert(int_list(int_list_text(ints_of(v)), i8::lo(), i8::hi()) == Ok::<Seq<int>, Seq<char>>(ints_of(v)));
    assert(ints_as::<i8>(ints_of(v)) == v);
    assert(apply_field(d, "BYWEEKNO"@, int_list_text(ints_of(v))) == crate::codec::apply_list_field(d, "BYWEEKNO"@, int_list_text(ints_of(v))));
}

proof fn lemma_field_by_weekday(d: Draft, v: Seq<NWeekday>)
    requires
        v.len() > 0,
    ensures
        apply_field(d, "BYDAY"@, nweekday_list_text(v)) == Ok::<Draft, ParseErrorModel>((d.0, RuleModel { by_weekday: v, ..d.1 })),
        no_char("BYDAY"@, '=') && no_char("BYDAY"@, ';') && no_char(nweekday_list_text(v), ';'),
{
    lemma_keys();
    lemma_key_chars("BYDAY"@);
    assert("BYDAY"@ != "BYSETPOS"@) by { assert("BYDAY"@.len() != "BYSETPOS"@.len() || "BYDAY"@[2] != "BYSETPOS"@[2]); }
    assert("BYDAY"@ != "BYMONTH"@) by { assert("BYDAY"@.len() != "BYMONTH"@.len() || "BYDAY"@[2] != "BYMONTH"@[2]); }
    assert("BYDAY"@ != "BYMONTHDAY"@) by { assert("BYDAY"@.len() != "BYMONTHDAY"@.len() || "BYDAY"@[2] != "BYMONTHDAY"@[2]); }
    assert("BYDAY"@ != "BYYEARDAY"@) by { assert("BYDAY"@.len() != "BYYEARDAY"@.len() || "BYDAY"@[2] != "BYYEARDAY"@[2]); }
    assert("BYDAY"@ != "BYWEEKNO"@) by { assert("BYDAY"@.len() != "BYWEEKNO"@.len() || "BYDAY"@[2] != "BYWEEKNO"@[2]); }
    lemma_nweekday_list(v);
    assert(apply_field(d, "BYDAY"@, nweekday_list_text(v)) == crate::codec::apply_list_field(d, "BYDAY"@, nweekday_list_text(v)));
}

proof fn lemma_field_by_hour(d: Draft, v: Seq<u8>)
    requires
        v.len() > 0,
    ensures
        apply_field(d, "BYHOUR"@, int_list_text(ints_of(v))) == Ok::<Draft, ParseErrorModel>((d.0, RuleModel { by_hour: v, ..d.1 })),
        no_char("BYHOUR"@, '=') && no_char("BYHOUR"@, ';') && no_char(int_list_text(ints_of(v)), ';'),
{
    lemma_keys();
    lemma_key_chars("BYHOUR"@);
    assert("BYHOUR"@ != "BYSETPOS"@) by { assert("BYHOUR"@.len() != "BYSETPOS"@.len() || "BYHOUR"@[2] != "BYSETPOS"@[2]); }
    assert("BYHOUR"@ != "BYMONTH"@) by { assert("BYHOUR"@.len() != "BYMONTH"@.len() || "BYHOUR"@[2] != "BYMONTH"@[2]); }
    assert("BYHOUR"@ != "BYMONTHDAY"@) by { assert("BYHOUR"@.len() != "BYMONTHDAY"@.len() || "BYHOUR"@[2] != "BYMONTHDAY"@[2]); }
    assert("BYHOUR"@ != "BYYEARDAY"@) by { assert("BYHOUR"@.len() != "BYYEARDAY"@.len() || "BYHOUR"@[2] != "BYYEARDAY"@[2]); }
    assert("BYHOUR"@ != "BYWEEKNO"@) by { assert("BYHOUR"@.len() != "BYWEEKNO"@.len() || "BYHOUR"@[2] != "BYWEEKNO"@[2]); }
    assert("BYHOUR"@ != "BYDAY"@) by { assert("BYHOUR"@.len() != "BYDAY"@.len() || "BYHOUR"@[2] != "BYDAY"@[2]); }
    lemma_ints(v);
    lemma_int_list(ints_of(v), u8::lo(), u8::hi());
    assert(int_list(int_list_text(ints_of(v)), u8::lo(), u8::hi()) == Ok::<Seq<int>, Seq<char>>(ints_of(v)));
    assert(ints_as::<u8>(ints_of(v)) == v);
    assert(apply_field(d, "BYHOUR"@, int_list_text(ints_of(v))) == crate::codec::apply_list_field(d, "BYHOUR"@, int_list_text(ints_of(v))));
}

proof fn lemma_field_by_minute(d: Draft, v: Seq<u8>)
    requires
        v.len() > 0,
    ensures
        apply_field(d, "BYMINUTE"@, int_list_text(ints_of(v))) == Ok::<Draft, ParseErrorModel>((d.0, RuleModel { by_minute: v, ..d.1 })),
        no_char("BYMINUTE"@, '=') && no_char("BYMINUTE"@, ';') && no_char(int_list_text(ints_of(v)), ';'),
{
    lemma_keys();
    lemma_key_chars("BYMINUTE"@);
    assert("BYMINUTE"@ != "BYSETPOS"@) by { assert("BYMINUTE"@.len() != "BYSETPOS"@.len() || "BYMINUTE"@[2] != "BYSETPOS"@[2]); }
    assert("BYMINUTE"@ != "BYMONTH"@) by { assert("BYMINUTE"@.len() != "BYMONTH"@.len() || "BYMINUTE"@[3] != "BYMONTH"@[3]); }
    assert("BYMINUTE"@ != "BYMONTHDAY"@) by { assert("BYMINUTE"@.len() != "BYMONTHDAY"@.len() || "BYMINUTE"@[3] != "BYMONTHDAY"@[3]); }
    assert("BYMINUTE"@ != "BYYEARDAY"@) by { assert("BYMINUTE"@.len() != "BYYEARDAY"@.len() || "BYMINUTE"@[2] != "BYYEARDAY"@[2]); }
    assert("BYMINUTE"@ != "BYWEEKNO"@) by { assert("BYMINUTE"@.len() != "BYWEEKNO"@.len() || "BYMINUTE"@[2] != "BYWEEKNO"@[2]); }
    assert("BYMINUTE"@ != "BYDAY"@) by { assert("BYMINUTE"@.len() != "BYDAY"@.len() || "BYMINUTE"@[2] != "BYDAY"@[2]); }
    assert("BYMINUTE"@ != "BYHOUR"@) by { assert("BYMINUTE"@.len() != "BYHOUR"@.len() || "BYMINUTE"@[2] != "BYHOUR"@[2]); }
    lemma_ints(v);
    lemma_int_list(ints_of(v), u8::lo(), u8::hi());
    assert(int_list(int_list_text(ints_of(v)), u8::lo(), u8::hi()) == Ok::<Seq<int>, Seq<char>>(ints_of(v)));
    assert(ints_as::<u8>(ints_of(v)) == v);
    assert(apply_field(d, "BYMINUTE"@, int_list_text(ints_of(v))) == crate::codec::apply_list_field(d, "BYMINUTE"@, int_list_text(ints_of(v))));
}

proof fn lemma_field_by_second(d: Draft, v: Seq<u8>)
    requires
        v.len() > 0,
    ensures
        apply_field(d, "BYSECOND"@, int_list_text(ints_of(v))) == Ok::<Draft, ParseErrorModel>((d.0, RuleModel { by_second: v, ..d.1 })),
        no_char("BYSECOND"@, '=') && no_char("BYSECOND"@, ';') && no_char(int_list_text(ints_of(v)), ';'),
{
    lemma_keys();
    lemma_key_chars("BYSECOND"@);
    assert("BYSECOND"@ != "BYSETPOS"@) by { assert("BYSECOND"@.len() != "BYSETPOS"@.len() || "BYSECOND"@[4] != "BYSETPOS"@[4]); }
    assert("BYSECOND"@ != "BYMONTH"@) by { assert("BYSECOND"@.len() != "BYMONTH"@.len() || "BYSECOND"@[2] != "BYMONTH"@[2]); }
    assert("BYSECOND"@ != "BYMONTHDAY"@) by { assert("BYSECOND"@.len() != "BYMONTHDAY"@.len() || "BYSECOND"@[2] != "BYMONTHDAY"@[2]); }
    assert("BYSECOND"@ != "BYYEARDAY"@) by { assert("BYSECOND"@.len() != "BYYEARDAY"@.len() || "BYSECOND"@[2] != "BYYEARDAY"@[2]); }
    assert("BYSECOND"@ != "BYWEEKNO"@) by { assert("BYSECOND"@.len() != "BYWEEKNO"@.len() || "BYSECOND"@[2] != "BYWEEKNO"@[2]); }
    assert("BYSECOND"@ != "BYDAY"@) by { assert("BYSECOND"@.len() != "BYDAY"@.len() || "BYSECOND"@[2] != "BYDAY"@[2]); }
    assert("BYSECOND"@ != "BYHOUR"@) by { assert("BYSECOND"@.len() != "BYHOUR"@.len() || "BYSECOND"@[2] != "BYHOUR"@[2]); }
    assert("BYSECOND"@ != "BYMINUTE"@) by { assert("BYSECOND"@.len() != "BYMINUTE"@.len() || "BYSECOND"@[2] != "BYMINUTE"@[2]); }
    lemma_ints(v);
    lemma_int_list(ints_of(v), u8::lo(), u8::hi());
    assert(int_list(int_list_text(ints_of(v)), u8::lo(), u8::hi()) == Ok::<Seq<int>, Seq<char>>(ints_of(v)));
    assert(ints_as::<u8>(ints_of(v)) == v);
    assert(apply_field(d, "BYSECOND"@, int_list_text(ints_of(v))) == crate::codec::apply_list_field(d, "BYSECOND"@, int_list_text(ints_of(v))));
}

proof fn lemma_starts(present: bool, k: Seq<char>, v: Seq<char>, r: Seq<char>)
    requires
        starts_segment(r),
    ensures
        starts_segment(seg_if(present, k, v) + r),
{
    if !present {
        assert(seg_if(present, k, v) + r =~= r);
    }
}

proof fn lemma_list_tail(m: RuleModel, d: Draft)
    requires
        d.0,
        d.1.by_set_pos.len() == 0,
        d.1.by_month.len() == 0,
        d.1.by_month_day.len() == 0,
        d.1.by_year_day.len() == 0,
        d.1.by_week_no.len() == 0,
        d.1.by_weekday.len() == 0,
        d.1.by_hour.len() == 0,
        d.1.by_minute.len() == 0,
        d.1.by_second.len() == 0,
    ensures
        continue_segments(list_tail_text(m), d) == Ok::<Draft, ParseErrorModel>((true, RuleModel {
            by_set_pos: m.by_set_pos,
            by_month: m.by_month,
            by_month_day: m.by_month_day,
            by_year_day: m.by_year_day,
            by_week_no: m.by_week_no,
            by_weekday: m.by_weekday,
            by_hour: m.by_hour,
            by_minute: m.by_minute,
            by_second: m.by_second,
            ..d.1
        })),
        starts_segment(list_tail_text(m)),
{

    let s1 = seg_if(m.by_set_pos.len() > 0, "BYSETPOS"@, int_list_text(ints_of(m.by_set_pos)));
    let s2 = seg_if(m.by_month.len() > 0, "BYMONTH"@, int_list_text(ints_of(m.by_month)));
    let s3 = seg_if(m.by_month_day.len() > 0, "BYMONTHDAY"@, int_list_text(ints_of(m.by_month_day)));
    let s4 = seg_if(m.by_year_day.len() > 0, "BYYEARDAY"@, int_list_text(ints_of(m.by_year_day)));
    let s5 = seg_if(m.by_week_no.len() > 0, "BYWEEKNO"@, int_list_text(ints_of(m.by_week_no)));
    let s6 = seg_if(m.by_weekday.len() > 0, "BYDAY"@, nweekday_list_text(m.by_weekday));
    let s7 = seg_if(m.by_hour.len() > 0, "BYHOUR"@, int_list_text(ints_of(m.by_hour)));
    let s8 = seg_if(m.by_minute.len() > 0, "BYMINUTE"@, int_list_text(ints_of(m.by_minute)));
    let s9 = seg_if(m.by_second.len() > 0, "BYSECOND"@, int_list_text(ints_of(m.by_second)));
    let r9 = Seq::<char>::empty();
    let r8 = s9;
    let r7 = s8 + r8;
    let r6 = s7 + r7;
    let r5 = s6 + r6;
    let r4 = s5 + r5;
    let r3 = s4 + r4;
    let r2 = s3 + r3;
    let r1 = s2 + r2;
    let r0 = s1 + r1;
    assert(r0 == list_tail_text(m));
    assert(s9 + r9 =~= r8);
    let m0 = d.1;
    let m1 = RuleModel { by_set_pos: m.by_set_pos, ..m0 };
    let m2 = RuleModel { by_month: m.by_month, ..m1 };
    let m3 = RuleModel { by_month_day: m.by_month_day, ..m2 };
    let m4 = RuleModel { by_year_day: m.by_year_day, ..m3 };
    let m5 = RuleModel { by_week_no: m.by_week_no, ..m4 };
    let m6 = RuleModel { by_weekday: m.by_weekday, ..m5 };
    let m7 = RuleModel { by_hour: m.by_hour, ..m6 };
    let m8 = RuleModel { by_minute: m.by_minute, ..m7 };
    let m9 = RuleModel { by_second: m.by_second, ..m8 };
    lemma_starts(m.by_second.len() > 0, "BYSECOND"@, int_list_text(ints_of(m.by_second)), r9);
    lemma_starts(m.by_minute.len() > 0, "BYMINUTE"@, int_list_text(ints_of(m.by_minute)), r8);
    lemma_starts(m.by_hour.len() > 0, "BYHOUR"@, int_list_text(ints_of(m.by_hour)), r7);
    lemma_starts(m.by_weekday.len() > 0, "BYDAY"@, nweekday_list_text(m.by_weekday), r6);
    lemma_starts(m.by_week_no.len() > 0, "BYWEEKNO"@, int_list_text(ints_of(m.by_week_no)), r5);
    lemma_starts(m.by_year_day.len() > 0, "BYYEARDAY"@, int_list_text(ints_of(m.by_year_day)), r4);
    lemma_starts(m.by_month_day.len() > 0, "BYMONTHDAY"@, int_list_text(ints_of(m.by_month_day)), r3);
    lemma_starts(m.by_month.len() > 0, "BYMONTH"@, int_list_text(ints_of(m.by_month)), r2);
    lemma_starts(m.by_set_pos.len() > 0, "BYSETPOS"@, int_list_text(ints_of(m.by_set_pos)), r1);
    if m.by_set_pos.len() > 0 {
        lemma_field_by_set_pos((true, m0), m.by_set_pos);
    } else {
        assert(m.by_set_pos =~= m0.by_set_pos);
    }
    lemma_step(m.by_set_pos.len() > 0, "BYSETPOS"@, int_list_text(ints_of(m.by_set_pos)), r1, (true, m0), (true, m1));
    if m.by_month.len() > 0 {
        lemma_field_by_month((true, m1), m.by_month);
    } else {
        assert(m.by_month =~= m1.by_month);
    }
    lemma_step(m.by_month.len() > 0, "BYMONTH"@, int_list_text(ints_of(m.by_month)), r2, (true, m1), (true, m2));
    if m.by_month_day.len() > 0 {
        lemma_field_by_month_day((true, m2), m.by_month_day);
    } else {
        assert(m.by_month_day =~= m2.by_month_day);
    }
    lemma_step(m.by_month_day.len() > 0, "BYMONTHDAY"@, int_list_text(ints_of(m.by_month_day)), r3, (true, m2), (true, m3));
    if m.by_year_day.len() > 0 {
        lemma_field_by_year_day((true, m3), m.by_year_day);
    } else {
        assert(m.by_year_day =~= m3.by_year_day);
    }
    lemma_step(m.by_year_day.len() > 0, "BYYEARDAY"@, int_list_text(ints_of(m.by_year_day)), r4, (true, m3), (true, m4));
    if m.by_week_no.len() > 0 {
        lemma_field_by_week_no((true, m4), m.by_week_no);
    } else {
        assert(m.by_week_no =~= m4.by_week_no);
    }
    lemma_step(m.by_week_no.len() > 0, "BYWEEKNO"@, int_list_text(ints_of(m.by_week_no)), r5, (true, m4), (true, m5));
    if m.by_weekday.len() > 0 {
        lemma_field_by_weekday((true, m5), m.by_weekday);
    } else {
        assert(m.by_weekday =~= m5.by_weekday);
    }
    lemma_step(m.by_weekday.len() > 0, "BYDAY"@, nweekday_list_text(m.by_weekday), r6, (true, m5), (true, m6));
    if m.by_hour.len() > 0 {
        lemma_field_by_hour((true, m6), m.by_hour);
    } else {
        assert(m.by_hour =~= m6.by_hour);
    }
    lemma_step(m.by_hour.len() > 0, "BYHOUR"@, int_list_text(ints_of(m.by_hour)), r7, (true, m6), (true, m7));
    if m.by_minute.len() > 0 {
        lemma_field_by_minute((true, m7), m.by_minute);
    } else {
        assert(m.by_minute =~= m7.by_minute);
    }
    lemma_step(m.by_minute.len() > 0, "BYMINUTE"@, int_list_text(ints_of(m.by_minute)), r8, (true, m7), (true, m8));
    if m.by_second.len() > 0 {
        lemma_field_by_second((true, m8), m.by_second);
    } else {
        assert(m.by_second =~= m8.by_second);
    }
    lemma_step(m.by_second.len() > 0, "BYSECOND"@, int_list_text(ints_of(m.by_second)), r9, (true, m8), (true, m9));
}

/// Writing a rule and reading the text back gives the same rule, for every
/// rule with a positive interval and a real end timestamp with a four-digit
/// year (if it has one).
pub proof fn lemma_round_trip(m: RuleModel)
    requires
        is_writable(m),
    ensures
        parse_model(serialize_model(m)) == Ok::<RuleModel, ParseErrorModel>(m),
{
    let b = blank_rule();
    let name = frequency_name(m.frequency);
    let head = "FREQ"@ + seq!['='] + name;
    let s1 = seg_if(m.interval != 1, "INTERVAL"@, int_text(m.interval as int));
    let s2 = count_seg(m.count);
    let s3 = until_seg(m.until);
    let s4 = seg_if(m.week_start != Weekday::Mon, "WKST"@, weekday_code(m.week_start));
    let l = list_tail_text(m);
    let r3 = s4 + l;
    let r2 = s3 + r3;
    let r1 = s2 + r2;
    let tail = s1 + r1;
    assert(tail == tail_text(m));
    assert(serialize_model(m) == head + tail);
    let m1 = RuleModel { frequency: m.frequency, ..b };
    let m2 = RuleModel { interval: m.interval, ..m1 };
    let m3 = RuleModel { count: m.count, ..m2 };
    let m4 = RuleModel { until: m.until, ..m3 };
    let m5 = RuleModel { week_start: m.week_start, ..m4 };
    lemma_list_tail(m, (true, m5));
    assert(RuleModel {
        by_set_pos: m.by_set_pos,
        by_month: m.by_month,
        by_month_day: m.by_month_day,
        by_year_day: m.by_year_day,
        by_week_no: m.by_week_no,
        by_weekday: m.by_weekday,
        by_hour: m.by_hour,
        by_minute: m.by_minute,
        by_second: m.by_second,
        ..m5
    } == m);
    if m.week_start != Weekday::Mon {
        lemma_field_week_start((true, m4), m.week_start);
    }
    lemma_step(m.week_start != Weekday::Mon, "WKST"@, weekday_code(m.week_start), l, (true, m4), (true, m5));
    match m.until {
        Some(t) => {
            lemma_field_until((true, m3), t);
            lemma_step(true, "UNTIL"@, stamp_text(t), r3, (true, m3), (true, m4));
        },
        None => {
            assert(r2 =~= r3);
        },
    }
    match m.count {
        MaybeCount::Present(n) => {
            lemma_field_count((true, m2), n);
            lemma_step(true, "COUNT"@, int_text(n as int), r2, (true, m2), (true, m3));
        },
        MaybeCount::Absent => {
            assert(r1 =~= r2);
        },
    }
    if m.interval != 1 {
        lemma_field_interval((true, m1), m.interval);
    }
    lemma_step(m.interval != 1, "INTERVAL"@, int_text(m.interval as int), r1, (true, m1), (true, m2));
    lemma_keys();
    lemma_key_chars("FREQ"@);
    lemma_frequency(m.frequency);
    assert(no_char(head, ';')) by {
        assert forall|i: int| 0 <= i < head.len() implies #[trigger] head[i] != ';' by {
            if i > 4 {
                assert(head[i] == name[i - 5]);
            }
        }
    }
    lemma_first_segment(head, tail, (false, b));
    lemma_key_value((false, b), "FREQ"@, name);
    lemma_field_frequency((false, b), m.frequency);
}

proof fn lemma_segment_writable(d: Draft, seg: Seq<char>)
    requires
        is_writable(d.1),
    ensures
        apply_segment(d, seg) matches Ok(d2) ==> is_writable(d2.1),
{
    reveal(apply_segment);
}

proof fn lemma_segments_writable(s: Seq<char>, d: Draft)
    requires
        is_writable(d.1),
    ensures
        apply_segments(s, d) matches Ok(d2) ==> is_writable(d2.1),
    decreases s.len(),
{
    let e = find_from(s, ';');
    crate::text::lemma_find_from(s, ';');
    lemma_segment_writable(d, s.take(e));
    if e < s.len() {
        match apply_segment(d, s.take(e)) {
            Ok(d2) => lemma_segments_writable(s.skip(e + 1), d2),
            Err(_) => {},
        }
    }
}

/// Every rule that [`parse`](crate::codec::parse) returns is one that
/// writes and reads back as itself.
pub proof fn lemma_parsed_is_writable(s: Seq<char>)
    ensures
        parse_model(s) matches Ok(m) ==> is_writable(m),
{
    lemma_segments_writable(s, (false, blank_rule()));
}

/// Reserializing is stable after one pass: for any rule whose text reads
/// back, the rule read back writes text that reads back as itself, so
/// writing it again gives the same text.
pub proof fn lemma_reserialize_stable(f: RuleModel)
    requires
        parse_model(serialize_model(f)) is Ok,
    ensures
        ({
            let g = parse_model(serialize_model(f))->Ok_0;
            &&& parse_model(serialize_model(g)) == Ok::<RuleModel, ParseErrorModel>(g)
            &&& serialize_model(parse_model(serialize_model(g))->Ok_0) == serialize_model(g)
        }),
{
    lemma_parsed_is_writable(serialize_model(f));
    lemma_round_trip(parse_model(serialize_model(f))->Ok_0);
}

} // verus!
