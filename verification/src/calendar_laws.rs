//! What holds of all days and of how they are written.

use crate::calendar;
use crate::calendar::{CivilDate, LocalTime, Timezone};
use crate::text;
use vstd::prelude::*;

verus! {

/// A day exists in the calendar exactly when its year and its month do and its month is as long:
/// thirty-one days, but thirty in April, June, September and November, and in February
/// twenty-eight, or twenty-nine in every fourth year, though not in those that end a century,
/// unless they end four.
pub proof fn lemma_days_of_the_calendar(
    year: i32,
    month: u32,
    day: u32,
    date: Option<CivilDate>,
)
    requires
        call_ensures(CivilDate::from_ymd_opt, (year, month, day), date),
    ensures
        date matches Some(date) ==> date.year == year && date.month == month && date.day == day,
        date is Some ==> -262_143 <= year <= 262_142 && 1 <= month <= 12 && 1 <= day <= 31,
        -262_143 <= year <= 262_142 && 1 <= month <= 12 && 1 <= day <= 28 ==> date is Some,
        day == 31 && -262_143 <= year <= 262_142 ==> (date is Some <==> month == 1 || month == 3
            || month == 5 || month == 7 || month == 8 || month == 10 || month == 12),
        day == 30 && -262_143 <= year <= 262_142 ==> (date is Some <==> 1 <= month <= 12 && month
            != 2),
        day == 29 && month == 2 && -262_143 <= year <= 262_142 ==> (date is Some <==> (year % 4
            == 0 && year % 100 != 0) || year % 400 == 0),
        day == 29 && 1 <= month <= 12 && month != 2 && -262_143 <= year <= 262_142 ==> date is Some,
{
}

/// A day is before another exactly when it is in the order of years, then months, then days.
pub proof fn lemma_order_of_days(a: &CivilDate, b: &CivilDate, before: bool)
    requires
        call_ensures(CivilDate::is_before, (a, b), before),
        1 <= a.month <= 12 && 1 <= a.day <= 31,
        1 <= b.month <= 12 && 1 <= b.day <= 31,
    ensures
        before <==> 10_000 * a.year + 100 * a.month + a.day < 10_000 * b.year + 100 * b.month
            + b.day,
        before == a.earlier(*b),
{
}

/// The day after a day: the next one of its month, or else the first of the next month, or else the
/// first of the next year.
pub open spec fn is_next_day(date: CivilDate, next: CivilDate) -> bool {
    &&& next.in_month()
    &&& {
        ||| next.year == date.year && next.month == date.month && next.day == date.day + 1
        ||| next.year == date.year && next.month == date.month + 1 && next.day == 1
            && !(CivilDate { day: (date.day + 1) as u32, ..date }).in_month()
        ||| next.year == date.year + 1 && next.month == 1 && next.day == 1 && date.month == 12
            && date.day == 31
    }
}

/// The days are numbered one by one.
pub proof fn lemma_days_are_numbered(date: CivilDate, next: CivilDate)
    requires
        date.in_month(),
        is_next_day(date, next),
    ensures
        next.number() == date.number() + 1,
        date.earlier(next),
{
    if next.year == date.year + 1 {
        calendar::lemma_year_length(date.year as int);
        reveal_with_fuel(calendar::days_before_month, 14);
    }
}

/// A day is well before another exactly when so is even the day after it before the other, and well
/// after it exactly when it is after the day after the other.
pub proof fn lemma_more_than_a_day_apart(
    date: &CivilDate,
    bound: &CivilDate,
    next: CivilDate,
    after_bound: CivilDate,
    before: bool,
    after: bool,
)
    requires
        date.wf(),
        bound.wf(),
        is_next_day(*date, next),
        is_next_day(*bound, after_bound),
        call_ensures(calendar::well_before, (date, bound), before),
        call_ensures(calendar::well_after, (date, bound), after),
    ensures
        before <==> next.earlier(*bound),
        after <==> after_bound.earlier(*date),
{
    lemma_days_are_numbered(*date, next);
    lemma_days_are_numbered(*bound, after_bound);
    calendar::lemma_earlier_by_number(next, *bound);
    calendar::lemma_earlier_by_number(after_bound, *date);
}

/// Whether a character is the digit.
pub open spec fn shows(c: char, n: int) -> bool {
    0 <= n <= 9 && c as int == 48 + n
}

/// A month of a year of up to four digits is written as those four digits, a dash and two digits.
pub proof fn lemma_month_is_written(date: &CivilDate, out: String)
    requires
        call_ensures(calendar::format_month, (date,), out),
        date.in_month(),
        0 <= date.year <= 9999,
    ensures
        out@.len() == 7,
        shows(out@[0], date.year as int / 1000),
        shows(out@[1], date.year as int / 100 % 10),
        shows(out@[2], date.year as int / 10 % 10),
        shows(out@[3], date.year as int % 10),
        out@[4] == '-',
        shows(out@[5], date.month as int / 10),
        shows(out@[6], date.month as int % 10),
{
    calendar::lemma_four_digits_of(date.year as nat);
}

/// A day is written as its month, a dash and two digits.
pub proof fn lemma_day_is_written(date: &CivilDate, out: String, month: String)
    requires
        call_ensures(calendar::format_date, (date,), out),
        call_ensures(calendar::format_month, (date,), month),
        date.in_month(),
    ensures
        out@.len() == month@.len() + 3,
        out@.take(month@.len() as int) == month@,
        out@[month@.len() as int] == '-',
        shows(out@[month@.len() as int + 1], date.day as int / 10),
        shows(out@[month@.len() as int + 2], date.day as int % 10),
{
    assert(out@.take(month@.len() as int) =~= month@);
}

/// A year below zero is written with a minus, and one of more than four digits with a plus.
pub proof fn lemma_other_years_are_written(date: &CivilDate, out: String)
    requires
        call_ensures(calendar::format_month, (date,), out),
        date.in_month(),
        date.year < 0 || date.year > 9999,
    ensures
        out@[0] == if date.year < 0 {
            '-'
        } else {
            '+'
        },
        out@.len() >= 8,
        text::digits_value(out@.subrange(1, out@.len() - 3)) == if date.year < 0 {
            -(date.year as int)
        } else {
            date.year as int
        },
        out@[out@.len() - 3] == '-',
        shows(out@[out@.len() - 2], date.month as int / 10),
        shows(out@[out@.len() - 1], date.month as int % 10),
{
    let size = if date.year < 0 {
        (-date.year) as nat
    } else {
        date.year as nat
    };
    reveal_with_fuel(text::digits, 5);
    calendar::lemma_four_digits(size);
    assert(out@.subrange(1, out@.len() - 3) =~= calendar::four_digits(size));
}

/// A time is written as its day, a space, and hours, minutes and seconds of two digits each with
/// colons between them.
pub proof fn lemma_time_is_written(time: &LocalTime, out: String, day: String)
    requires
        call_ensures(calendar::format_time, (time,), out),
        call_ensures(calendar::format_date, (&time.date,), day),
        time.hour < 24,
        time.minute < 60,
        time.second < 60,
    ensures
        ({
            let n = day@.len() as int;
            &&& out@.len() == n + 9
            &&& out@.take(n) == day@
            &&& out@[n] == ' '
            &&& shows(out@[n + 1], time.hour as int / 10)
            &&& shows(out@[n + 2], time.hour as int % 10)
            &&& out@[n + 3] == ':'
            &&& shows(out@[n + 4], time.minute as int / 10)
            &&& shows(out@[n + 5], time.minute as int % 10)
            &&& out@[n + 6] == ':'
            &&& shows(out@[n + 7], time.second as int / 10)
            &&& shows(out@[n + 8], time.second as int % 10)
        }),
{
    assert(out@.take(day@.len() as int) =~= day@);
}

/// Two days are written as one month exactly when they are of one month, and as one day exactly
/// when they are one.
pub proof fn lemma_written_periods(a: CivilDate, b: CivilDate)
    requires
        a.in_month(),
        b.in_month(),
    ensures
        calendar::month_text(a) == calendar::month_text(b) <==> a.year == b.year && a.month
            == b.month,
        calendar::date_text(a) == calendar::date_text(b) <==> a == b,
{
    if calendar::date_text(a) == calendar::date_text(b) {
        calendar::lemma_date_text_injective(a, b);
    }
    if calendar::month_text(a) == calendar::month_text(b) {
        let first_a = CivilDate { day: 1, ..a };
        let first_b = CivilDate { day: 1, ..b };
        assert(calendar::month_text(first_a) == calendar::month_text(a));
        assert(calendar::month_text(first_b) == calendar::month_text(b));
        assert(calendar::date_text(first_a) == calendar::date_text(first_b));
        calendar::lemma_date_text_injective(first_a, first_b);
    }
}

/// A time zone that is known shows, under its name, each instant of the calendar.
pub proof fn lemma_named_zones(
    name: &str,
    zone: Option<Timezone>,
    unix_ms: i64,
    time: Option<LocalTime>,
)
    requires
        call_ensures(Timezone::named, (name,), zone),
        zone matches Some(zone) ==> call_ensures(Timezone::local_time, (&zone, unix_ms), time),
    ensures
        zone is Some <==> calendar::timezone_known(name@),
        zone is Some ==> time == calendar::zone_clock(unix_ms, name@),
{
}

/// A date to filter by is given as eight digits: year, month and day.
pub proof fn lemma_filter_dates(value: &str, date: Option<CivilDate>)
    requires
        call_ensures(calendar::filter_date, (value,), date),
    ensures
        date == calendar::date_by_pattern(value@, "%Y%m%d"@),
{
}

} // verus!
