//! Dates of the Gregorian calendar, local times in a time zone, and their texts.

use crate::text;
use chrono::{Datelike, Timelike, TimeZone};
use vstd::prelude::*;

verus! {

/// The first year of the calendar.
pub const FIRST_YEAR: i32 = -262_143;

/// The last year of the calendar.
pub const LAST_YEAR: i32 = 262_142;

/// The first millisecond of the first year in UTC, counted from the start of 1970.
pub const FIRST_INSTANT: i64 = -8_334_601_228_800_000;

/// The last millisecond of the last year in UTC, counted from the start of 1970.
pub const LAST_INSTANT: i64 = 8_210_266_876_799_999;

/// Whether the year has a 29th of February.
pub open spec fn is_leap(year: int) -> bool {
    year % 4 == 0 && (year % 100 != 0 || year % 400 == 0)
}

/// The number of days of a month.
pub open spec fn days_in_month(year: int, month: int) -> int {
    if month == 2 {
        if is_leap(year) {
            29
        } else {
            28
        }
    } else if month == 4 || month == 6 || month == 9 || month == 11 {
        30
    } else {
        31
    }
}

/// The number of days of a year before a month.
pub open spec fn days_before_month(year: int, month: int) -> int
    decreases month,
{
    if month <= 1 {
        0
    } else {
        days_before_month(year, month - 1) + days_in_month(year, month - 1)
    }
}

/// The number of days before a year, counted from the start of year 1.
pub open spec fn days_before_year(year: int) -> int {
    365 * (year - 1) + (year - 1) / 4 - (year - 1) / 100 + (year - 1) / 400
}

/// A day of the calendar.
#[derive(Debug, Clone, Copy, PartialEq, Eq, Structural)]
pub struct CivilDate {
    pub year: i32,
    pub month: u32,
    pub day: u32,
}

impl CivilDate {
    /// Whether the month and the day exist.
    pub open spec fn in_month(self) -> bool {
        1 <= self.month <= 12 && 1 <= self.day <= days_in_month(self.year as int, self.month as int)
    }

    /// Whether the day exists in the calendar.
    pub open spec fn wf(self) -> bool {
        FIRST_YEAR <= self.year <= LAST_YEAR && self.in_month()
    }

    /// Whether this day comes before `other`.
    pub open spec fn earlier(self, other: CivilDate) -> bool {
        ||| self.year < other.year
        ||| self.year == other.year && self.month < other.month
        ||| self.year == other.year && self.month == other.month && self.day < other.day
    }

    /// The number of the day, counted from the start of year 1.
    pub open spec fn number(self) -> int {
        days_before_year(self.year as int) + days_before_month(self.year as int, self.month as int)
            + self.day
    }

    /// The day of the given year, month and day of the month, where it exists.
    pub fn from_ymd_opt(year: i32, month: u32, day: u32) -> (date: Option<CivilDate>)
        ensures
            date is Some <==> (CivilDate { year, month, day }).wf(),
            date matches Some(date) ==> date == (CivilDate { year, month, day }),
    {
        calendar_date(year, month, day)
    }

    /// Whether this day comes before `other`.
    pub fn is_before(&self, other: &CivilDate) -> (before: bool)
        ensures
            before == self.earlier(*other),
    {
        self.year < other.year || (self.year == other.year && self.month < other.month) || (
        self.year == other.year && self.month == other.month && self.day < other.day)
    }
}

/// The first day of the calendar.
pub open spec fn first_day() -> CivilDate {
    CivilDate { year: FIRST_YEAR, month: 1, day: 1 }
}

/// The last day of the calendar.
pub open spec fn last_day() -> CivilDate {
    CivilDate { year: LAST_YEAR, month: 12, day: 31 }
}

/// `chrono::NaiveDate::from_ymd_opt`: the day exists when its year is within the range of the
/// calendar, its month is one of twelve, and its day one of the month's days.
#[verifier::external_body]
fn calendar_date(year: i32, month: u32, day: u32) -> (date: Option<CivilDate>)
    ensures
        date is Some <==> (CivilDate { year, month, day }).wf(),
        date matches Some(date) ==> date == (CivilDate { year, month, day }),
{
    chrono::NaiveDate::from_ymd_opt(year, month, day).map(
        |date| CivilDate { year: date.year(), month: date.month(), day: date.day() },
    )
}

/// `chrono::NaiveDate::checked_add_signed` with a whole number of days: the day that many days
/// later, where the calendar has it.
#[verifier::external_body]
fn shifted(date: &CivilDate, days: i64) -> (moved: Option<CivilDate>)
    requires
        date.wf(),
        -1_000_000_000 <= days <= 1_000_000_000,
    ensures
        moved is Some <==> first_day().number() <= date.number() + days <= last_day().number(),
        moved matches Some(other) ==> other.wf() && other.number() == date.number() + days,
{
    chrono::NaiveDate::from_ymd_opt(date.year, date.month, date.day).and_then(
        |date| date.checked_add_signed(chrono::Duration::days(days)),
    ).map(|date| CivilDate { year: date.year(), month: date.month(), day: date.day() })
}

pub(crate) proof fn lemma_year_length(year: int)
    ensures
        days_before_year(year + 1) == days_before_year(year) + if is_leap(year) {
            366int
        } else {
            365int
        },
{
    assert(year / 4 - (year - 1) / 4 == if year % 4 == 0 {
        1int
    } else {
        0int
    });
    assert(year / 100 - (year - 1) / 100 == if year % 100 == 0 {
        1int
    } else {
        0int
    });
    assert(year / 400 - (year - 1) / 400 == if year % 400 == 0 {
        1int
    } else {
        0int
    });
    assert(year % 100 == 0 ==> year % 4 == 0) by (nonlinear_arith);
    assert(year % 400 == 0 ==> year % 100 == 0) by (nonlinear_arith);
}

proof fn lemma_years_grow(first: int, second: int)
    requires
        first < second,
    ensures
        days_before_year(first + 1) <= days_before_year(second),
    decreases second - first,
{
    if first + 1 < second {
        lemma_years_grow(first, second - 1);
        lemma_year_length(second - 1);
    }
}

proof fn lemma_months_grow(year: int, first: int, second: int)
    requires
        1 <= first < second,
    ensures
        days_before_month(year, first) + days_in_month(year, first) <= days_before_month(
            year,
            second,
        ),
    decreases second - first,
{
    if first + 1 < second {
        lemma_months_grow(year, first, second - 1);
    }
}

proof fn lemma_day_of_year(year: int, month: int)
    requires
        1 <= month <= 12,
    ensures
        days_before_month(year, month) >= 0,
        days_before_month(year, month) + days_in_month(year, month) <= if is_leap(year) {
            366int
        } else {
            365int
        },
{
    reveal_with_fuel(days_before_month, 14);
}

/// One day comes before another exactly when its number is smaller.
pub proof fn lemma_earlier_by_number(a: CivilDate, b: CivilDate)
    requires
        a.in_month(),
        b.in_month(),
    ensures
        a.earlier(b) <==> a.number() < b.number(),
        a == b <==> a.number() == b.number(),
{
    if a.earlier(b) {
        lemma_earlier(a, b);
    } else if b.earlier(a) {
        lemma_earlier(b, a);
    }
}

proof fn lemma_earlier(a: CivilDate, b: CivilDate)
    requires
        a.in_month(),
        b.in_month(),
        a.earlier(b),
    ensures
        a.number() < b.number(),
{
    let (year_a, month_a) = (a.year as int, a.month as int);
    let (year_b, month_b) = (b.year as int, b.month as int);
    lemma_day_of_year(year_a, month_a);
    lemma_day_of_year(year_b, month_b);
    if year_a < year_b {
        lemma_year_length(year_a);
        lemma_years_grow(year_a, year_b);
    } else if month_a < month_b {
        lemma_months_grow(year_a, month_a, month_b);
    }
}

/// Whether `date` is more than a day before `since`.
pub fn well_before(date: &CivilDate, since: &CivilDate) -> (before: bool)
    requires
        date.wf(),
        since.wf(),
    ensures
        before == (date.number() < since.number() - 1),
{
    match shifted(since, -1) {
        Some(bound) => {
            proof {
                lemma_earlier_by_number(*date, bound);
            }
            date.is_before(&bound)
        },
        None => {
            proof {
                lemma_earlier_by_number(*date, first_day());
                lemma_earlier_by_number(*since, last_day());
            }
            false
        },
    }
}

/// Whether `date` is more than a day after `until`.
pub fn well_after(date: &CivilDate, until: &CivilDate) -> (after: bool)
    requires
        date.wf(),
        until.wf(),
    ensures
        after == (date.number() > until.number() + 1),
{
    match shifted(until, 1) {
        Some(bound) => {
            proof {
                lemma_earlier_by_number(bound, *date);
            }
            bound.is_before(date)
        },
        None => {
            proof {
                lemma_earlier_by_number(last_day(), *date);
                lemma_earlier_by_number(*until, first_day());
            }
            false
        },
    }
}

/// A local date and time of day, to the second.
#[derive(Debug, Clone, Copy, PartialEq, Eq, Structural)]
pub struct LocalTime {
    pub date: CivilDate,
    pub hour: u32,
    pub minute: u32,
    pub second: u32,
}

impl LocalTime {
    /// Whether the date and the time of day exist; a local date may lie a day outside the
    /// calendar's years.
    pub open spec fn wf(self) -> bool {
        &&& FIRST_YEAR - 1 <= self.date.year <= LAST_YEAR + 1
        &&& self.date.in_month()
        &&& self.hour < 24
        &&& self.minute < 60
        &&& self.second < 60
    }
}

/// Whether `chrono_tz` knows a time zone by this name.
pub uninterp spec fn timezone_known(name: Seq<char>) -> bool;

/// What a clock in the named time zone shows at an instant given in milliseconds since the start
/// of 1970 in UTC.
pub uninterp spec fn zone_clock(unix_ms: i64, name: Seq<char>) -> Option<LocalTime>;

/// The instant that an RFC 3339 date and time stands for, in milliseconds since the start of 1970
/// in UTC.
pub uninterp spec fn rfc3339_unix_ms(value: Seq<char>) -> Option<i64>;

/// The date that `chrono` reads in a text by a pattern.
pub uninterp spec fn date_by_pattern(value: Seq<char>, pattern: Seq<char>) -> Option<CivilDate>;

/// `<chrono_tz::Tz as FromStr>::from_str`: the zone is known when the name is in the table of the
/// time zone database.
#[verifier::external_body]
fn is_timezone(name: &str) -> (known: bool)
    ensures
        known == timezone_known(name@),
{
    name.parse::<chrono_tz::Tz>().is_ok()
}

/// `chrono::DateTime::with_timezone` on an instant in UTC: what a clock in the zone shows. There
/// is a time for each instant of the calendar's years, and none for another instant or in a zone
/// that is not known.
#[verifier::external_body]
fn clock_in_zone(unix_ms: i64, name: &str) -> (time: Option<LocalTime>)
    ensures
        time == zone_clock(unix_ms, name@),
        time is Some <==> (timezone_known(name@) && FIRST_INSTANT <= unix_ms <= LAST_INSTANT),
        time matches Some(time) ==> time.wf(),
{
    let zone = name.parse::<chrono_tz::Tz>().ok()?;
    let instant = chrono::Utc.timestamp_millis_opt(unix_ms).single()?;
    let time = instant.with_timezone(&zone);
    Some(
        LocalTime {
            date: CivilDate { year: time.year(), month: time.month(), day: time.day() },
            hour: time.hour(),
            minute: time.minute(),
            second: time.second(),
        },
    )
}

/// `chrono::DateTime::parse_from_rfc3339`: the instant of a date and time in that form, which is
/// one of the calendar's years.
#[verifier::external_body]
pub(crate) fn instant_of(value: &str) -> (unix_ms: Option<i64>)
    ensures
        unix_ms == rfc3339_unix_ms(value@),
        unix_ms matches Some(ms) ==> FIRST_INSTANT <= ms <= LAST_INSTANT,
{
    chrono::DateTime::parse_from_rfc3339(value).ok().map(|instant| instant.timestamp_millis())
}

/// `chrono::NaiveDate::parse_from_str`: a day of the calendar, where the text has the form of the
/// pattern.
#[verifier::external_body]
fn read_date(value: &str, pattern: &str) -> (date: Option<CivilDate>)
    ensures
        date == date_by_pattern(value@, pattern@),
        date matches Some(date) ==> date.wf(),
{
    chrono::NaiveDate::parse_from_str(value, pattern).ok().map(
        |date| CivilDate { year: date.year(), month: date.month(), day: date.day() },
    )
}

/// A time zone of the time zone database.
#[derive(Debug, PartialEq, Eq)]
pub struct Timezone {
    name: String,
}

impl View for Timezone {
    type V = Seq<char>;

    closed spec fn view(&self) -> Seq<char> {
        self.name@
    }
}

impl Timezone {
    #[verifier::type_invariant]
    spec fn known(self) -> bool {
        timezone_known(self.name@)
    }

    /// The time zone of a name, where it is known.
    pub fn named(name: &str) -> (zone: Option<Timezone>)
        ensures
            zone is Some <==> timezone_known(name@),
            zone matches Some(zone) ==> zone@ == name@,
    {
        if is_timezone(name) {
            Some(Timezone { name: name.to_owned() })
        } else {
            None
        }
    }

    /// What a clock in the zone shows at an instant; every instant of the calendar's years has a
    /// local time.
    pub fn local_time(&self, unix_ms: i64) -> (time: Option<LocalTime>)
        ensures
            time == zone_clock(unix_ms, self@),
            time is Some <==> FIRST_INSTANT <= unix_ms <= LAST_INSTANT,
            time matches Some(time) ==> time.wf(),
    {
        proof {
            use_type_invariant(self);
        }
        clock_in_zone(unix_ms, self.name.as_str())
    }
}

/// The filter date in a text of the form `YYYYMMDD`.
pub fn filter_date(value: &str) -> (date: Option<CivilDate>)
    ensures
        date == date_by_pattern(value@, "%Y%m%d"@),
        date matches Some(date) ==> date.wf(),
{
    read_date(value, "%Y%m%d")
}

/// Two decimal digits.
pub open spec fn two_digits(n: nat) -> Seq<char> {
    seq![text::digit(n / 10), text::digit(n % 10)]
}

/// At least four decimal digits, with leading zeros.
pub open spec fn four_digits(n: nat) -> Seq<char> {
    if n < 10 {
        seq!['0', '0', '0'] + text::digits(n)
    } else if n < 100 {
        seq!['0', '0'] + text::digits(n)
    } else if n < 1000 {
        seq!['0'] + text::digits(n)
    } else {
        text::digits(n)
    }
}

/// A year in four digits; one before 0 or after 9999 has a sign.
pub open spec fn year_text(year: int) -> Seq<char> {
    if year < 0 {
        seq!['-'] + four_digits((-year) as nat)
    } else if year > 9999 {
        seq!['+'] + four_digits(year as nat)
    } else {
        four_digits(year as nat)
    }
}

/// A month as year and month, `YYYY-MM`.
pub open spec fn month_text(date: CivilDate) -> Seq<char> {
    year_text(date.year as int).push('-') + two_digits(date.month as nat)
}

/// A date as year, month and day, `YYYY-MM-DD`.
pub open spec fn date_text(date: CivilDate) -> Seq<char> {
    month_text(date).push('-') + two_digits(date.day as nat)
}

/// A date and time of day, `YYYY-MM-DD HH:MM:SS`.
pub open spec fn time_text(time: LocalTime) -> Seq<char> {
    date_text(time.date).push(' ') + two_digits(time.hour as nat).push(':') + two_digits(
        time.minute as nat,
    ).push(':') + two_digits(time.second as nat)
}

fn push_two_digits(out: &mut String, n: u32)
    requires
        n < 100,
    ensures
        final(out)@ == old(out)@ + two_digits(n as nat),
{
    let ghost before = out@;
    out.push((48 + (n / 10) as u8) as char);
    out.push((48 + (n % 10) as u8) as char);
    proof {
        assert(out@ =~= before + two_digits(n as nat));
    }
}

fn year_string(year: i32) -> (out: String)
    requires
        -1_000_000 <= year <= 1_000_000,
    ensures
        out@ == year_text(year as int),
{
    let mut out = String::new();
    let size: u64 = if year < 0 {
        (0 - year) as u64
    } else {
        year as u64
    };
    if year < 0 {
        out.push('-');
    } else if year > 9999 {
        out.push('+');
    }
    if size < 1000 {
        out.push('0');
    }
    if size < 100 {
        out.push('0');
    }
    if size < 10 {
        out.push('0');
    }
    let number = text::decimal(size);
    out.append(number.as_str());
    proof {
        assert(out@ =~= year_text(year as int));
    }
    out
}

/// A month as year and month, `YYYY-MM`.
pub fn format_month(date: &CivilDate) -> (out: String)
    requires
        FIRST_YEAR - 1 <= date.year <= LAST_YEAR + 1,
        date.in_month(),
    ensures
        out@ == month_text(*date),
{
    let mut out = year_string(date.year);
    out.push('-');
    push_two_digits(&mut out, date.month);
    out
}

/// A date as year, month and day, `YYYY-MM-DD`.
pub fn format_date(date: &CivilDate) -> (out: String)
    requires
        FIRST_YEAR - 1 <= date.year <= LAST_YEAR + 1,
        date.in_month(),
    ensures
        out@ == date_text(*date),
{
    let mut out = format_month(date);
    out.push('-');
    push_two_digits(&mut out, date.day);
    out
}

/// A date and time of day, `YYYY-MM-DD HH:MM:SS`.
pub fn format_time(time: &LocalTime) -> (out: String)
    requires
        time.wf(),
    ensures
        out@ == time_text(*time),
{
    let mut out = format_date(&time.date);
    out.push(' ');
    push_two_digits(&mut out, time.hour);
    out.push(':');
    push_two_digits(&mut out, time.minute);
    out.push(':');
    push_two_digits(&mut out, time.second);
    proof {
        assert(out@ =~= time_text(*time));
    }
    out
}

/// The digits of a number are decimal digits, and stand for the number.
pub proof fn lemma_digits(n: nat)
    ensures
        text::all_digits(text::digits(n)),
        text::digits_value(text::digits(n)) == n,
        text::digits(n).len() > 0,
    decreases n,
{
    if n >= 10 {
        lemma_digits(n / 10);
        let start = text::digits(n / 10);
        assert(text::digits(n).drop_last() =~= start);
    } else {
        assert(text::digits(n).drop_last() =~= Seq::<char>::empty());
        reveal_with_fuel(text::digits_value, 2);
    }
}

proof fn lemma_leading_zero(digits: Seq<char>)
    requires
        text::all_digits(digits),
    ensures
        text::digits_value(seq!['0'] + digits) == text::digits_value(digits),
        text::all_digits(seq!['0'] + digits),
    decreases digits.len(),
{
    if digits.len() == 0 {
        assert((seq!['0'] + digits).drop_last() =~= Seq::<char>::empty());
        reveal_with_fuel(text::digits_value, 2);
    } else {
        assert((seq!['0'] + digits).drop_last() =~= seq!['0'] + digits.drop_last());
        lemma_leading_zero(digits.drop_last());
    }
}

pub(crate) proof fn lemma_four_digits(n: nat)
    ensures
        text::all_digits(four_digits(n)),
        text::digits_value(four_digits(n)) == n,
        four_digits(n).len() > 0,
{
    let digits = text::digits(n);
    lemma_digits(n);
    lemma_leading_zero(digits);
    let one = seq!['0'] + digits;
    lemma_leading_zero(one);
    let two = seq!['0'] + one;
    lemma_leading_zero(two);
    assert(seq!['0', '0'] + digits =~= two);
    assert(seq!['0', '0', '0'] + digits =~= seq!['0'] + two);
}

proof fn lemma_year_text_injective(a: int, b: int)
    requires
        year_text(a) == year_text(b),
    ensures
        a == b,
{
    let size_a = if a < 0 {
        (-a) as nat
    } else {
        a as nat
    };
    let size_b = if b < 0 {
        (-b) as nat
    } else {
        b as nat
    };
    lemma_four_digits(size_a);
    lemma_four_digits(size_b);
    let first_a = four_digits(size_a)[0];
    let first_b = four_digits(size_b)[0];
    assert('0' <= first_a <= '9' && '0' <= first_b <= '9');
    assert(year_text(a)[0] == if a < 0 {
        '-'
    } else if a > 9999 {
        '+'
    } else {
        first_a
    });
    assert(year_text(b)[0] == if b < 0 {
        '-'
    } else if b > 9999 {
        '+'
    } else {
        first_b
    });
    if a < 0 || a > 9999 {
        assert(year_text(a).drop_first() =~= four_digits(size_a));
    }
    if b < 0 || b > 9999 {
        assert(year_text(b).drop_first() =~= four_digits(size_b));
    }
}

/// Whether a character is one of those that dates are written in.
pub open spec fn is_date_char(c: char) -> bool {
    '0' <= c <= '9' || c == '-' || c == '+'
}

/// Dates and months are written in digits and signs.
pub proof fn lemma_date_chars(date: CivilDate)
    requires
        date.in_month(),
    ensures
        forall|i: int| 0 <= i < month_text(date).len() ==> is_date_char(#[trigger] month_text(date)[i]),
        forall|i: int| 0 <= i < date_text(date).len() ==> is_date_char(#[trigger] date_text(date)[i]),
{
    let size = if date.year < 0 {
        (-date.year) as nat
    } else {
        date.year as nat
    };
    lemma_four_digits(size);
    let year = year_text(date.year as int);
    assert forall|i: int| 0 <= i < year.len() implies is_date_char(#[trigger] year[i]) by {
        if date.year < 0 || date.year > 9999 {
            if i > 0 {
                assert(year[i] == four_digits(size)[i - 1]);
            }
        } else {
            assert(year[i] == four_digits(size)[i]);
        }
    }
}

/// Different days are written differently.
pub proof fn lemma_date_text_injective(a: CivilDate, b: CivilDate)
    requires
        a.in_month(),
        b.in_month(),
        date_text(a) == date_text(b),
    ensures
        a == b,
{
    let (x, y) = (date_text(a), date_text(b));
    let n = x.len() as int;
    assert(x[n - 1] == text::digit((a.day % 10) as nat));
    assert(y[n - 1] == text::digit((b.day % 10) as nat));
    assert(x[n - 2] == text::digit((a.day / 10) as nat));
    assert(y[n - 2] == text::digit((b.day / 10) as nat));
    assert(x[n - 4] == text::digit((a.month % 10) as nat));
    assert(y[n - 4] == text::digit((b.month % 10) as nat));
    assert(x[n - 5] == text::digit((a.month / 10) as nat));
    assert(y[n - 5] == text::digit((b.month / 10) as nat));
    assert(x.take(n - 6) =~= year_text(a.year as int));
    assert(y.take(n - 6) =~= year_text(b.year as int));
    lemma_year_text_injective(a.year as int, b.year as int);
}

pub(crate) proof fn lemma_four_digits_of(n: nat)
    requires
        n <= 9999,
    ensures
        four_digits(n) == seq![
            text::digit(n / 1000),
            text::digit(n / 100 % 10),
            text::digit(n / 10 % 10),
            text::digit(n % 10),
        ],
{
    reveal_with_fuel(text::digits, 5);
    assert(n / 10 / 10 == n / 100);
    assert(n / 10 / 10 / 10 == n / 1000);
    assert(four_digits(n) =~= seq![
        text::digit(n / 1000),
        text::digit(n / 100 % 10),
        text::digit(n / 10 % 10),
        text::digit(n % 10),
    ]);
}

proof fn lemma_ten_chars(date: CivilDate)
    requires
        date.in_month(),
        0 <= date.year <= 9999,
    ensures
        date_text(date) == seq![
            text::digit(date.year as nat / 1000),
            text::digit(date.year as nat / 100 % 10),
            text::digit(date.year as nat / 10 % 10),
            text::digit(date.year as nat % 10),
            '-',
            text::digit(date.month as nat / 10),
            text::digit(date.month as nat % 10),
            '-',
            text::digit(date.day as nat / 10),
            text::digit(date.day as nat % 10),
        ],
{
    lemma_four_digits_of(date.year as nat);
}

/// A decimal digit of a number of four digits.
spec fn digit_at(n: nat, at: int) -> nat {
    if at == 0 {
        n / 1000
    } else if at == 1 {
        n / 100 % 10
    } else if at == 2 {
        n / 10 % 10
    } else {
        n % 10
    }
}

proof fn lemma_split_digits(n: nat)
    requires
        n <= 9999,
    ensures
        n == 1000 * digit_at(n, 0) + 100 * digit_at(n, 1) + 10 * digit_at(n, 2) + digit_at(n, 3),
        digit_at(n, 0) <= 9,
        digit_at(n, 1) <= 9,
        digit_at(n, 2) <= 9,
        digit_at(n, 3) <= 9,
{
    assert(n == 10 * (n / 10) + n % 10);
    assert(n / 10 == 10 * (n / 100) + n / 10 % 10);
    assert(n / 100 == 10 * (n / 1000) + n / 100 % 10);
}

proof fn lemma_first_smaller_digit(m: nat, n: nat) -> (at: int)
    requires
        m < n <= 9999,
    ensures
        0 <= at < 4,
        forall|i: int| 0 <= i < at ==> digit_at(m, i) == digit_at(n, i),
        digit_at(m, at) < digit_at(n, at) <= 9,
{
    lemma_split_digits(m);
    lemma_split_digits(n);
    if digit_at(m, 0) != digit_at(n, 0) {
        0
    } else if digit_at(m, 1) != digit_at(n, 1) {
        1
    } else if digit_at(m, 2) != digit_at(n, 2) {
        2
    } else {
        3
    }
}

proof fn lemma_smaller_digit(m: nat, n: nat)
    requires
        m < n <= 9,
    ensures
        text::digit(m) < text::digit(n),
{
}

proof fn lemma_earlier_text(a: CivilDate, b: CivilDate)
    requires
        a.in_month(),
        b.in_month(),
        0 <= a.year <= 9999,
        0 <= b.year <= 9999,
        a.earlier(b),
    ensures
        text::precedes(date_text(a), date_text(b)),
{
    lemma_ten_chars(a);
    lemma_ten_chars(b);
    let (x, y) = (date_text(a), date_text(b));
    if a.year != b.year {
        let (m, n) = (a.year as nat, b.year as nat);
        let at = lemma_first_smaller_digit(m, n);
        lemma_smaller_digit(digit_at(m, at), digit_at(n, at));
        assert forall|i: int| 0 <= i < 4 implies x[i] == text::digit(#[trigger] digit_at(m, i))
            && y[i] == text::digit(digit_at(n, i)) by {}
        assert forall|i: int| 0 <= i < at implies x[i] == y[i] by {
            assert(digit_at(m, i) == digit_at(n, i));
        }
        assert(x[at] == text::digit(digit_at(m, at)));
        text::lemma_precedes_at(x, y, at);
    } else if a.month != b.month {
        let (m, n) = (a.month as nat, b.month as nat);
        if m / 10 != n / 10 {
            lemma_smaller_digit(m / 10, n / 10);
            text::lemma_precedes_at(x, y, 5);
        } else {
            lemma_smaller_digit(m % 10, n % 10);
            text::lemma_precedes_at(x, y, 6);
        }
    } else {
        let (m, n) = (a.day as nat, b.day as nat);
        if m / 10 != n / 10 {
            lemma_smaller_digit(m / 10, n / 10);
            text::lemma_precedes_at(x, y, 8);
        } else {
            lemma_smaller_digit(m % 10, n % 10);
            text::lemma_precedes_at(x, y, 9);
        }
    }
}

/// In the years 0 to 9999, days are written in the order in which they come.
pub proof fn lemma_date_text_order(a: CivilDate, b: CivilDate)
    requires
        a.in_month(),
        b.in_month(),
        0 <= a.year <= 9999,
        0 <= b.year <= 9999,
    ensures
        text::precedes(date_text(a), date_text(b)) <==> a.earlier(b),
{
    if a.earlier(b) {
        lemma_earlier_text(a, b);
    } else if b.earlier(a) {
        lemma_earlier_text(b, a);
        text::lemma_not_after_total(date_text(a), date_text(b));
    } else {
        text::lemma_precedes_irreflexive(date_text(a));
    }
}

} // verus!
