//! Dates of the proleptic Gregorian calendar and Unix timestamps.

use chrono::{DateTime, Datelike, Months, NaiveDate, Utc};
use vstd::arithmetic::div_mod::*;
use vstd::prelude::*;
use vstd::string::*;

use crate::reply::{HttpError, BAD_REQUEST};
use crate::text;

verus! {

/// The first year that a [`Date`] can lie in.
pub const FIRST_YEAR: i32 = -262_143;

/// The last year that a [`Date`] can lie in.
pub const LAST_YEAR: i32 = 262_142;

/// Seconds in a day.
pub const DAY_SECONDS: i64 = 86_400;

/// The format of every date that is read or written: `YYYY-MM-DD`.
pub const DATE_FORMAT: &'static str = "%Y-%m-%d";

/// A calendar date; `month` and `day` count from one.
#[derive(Clone, Copy, Debug, PartialEq, Eq, Structural)]
pub struct Date {
    pub year: i32,
    pub month: u32,
    pub day: u32,
}

/// Whether a year has a 29th of February.
pub open spec fn leap(year: int) -> bool {
    year % 4 == 0 && (year % 100 != 0 || year % 400 == 0)
}

/// The number of days in a month of a year.
pub open spec fn month_length(year: int, month: int) -> int {
    if month == 2 {
        if leap(year) {
            29
        } else {
            28
        }
    } else if month == 4 || month == 6 || month == 9 || month == 11 {
        30
    } else {
        31
    }
}

/// The number of days from the first of January to the first of a month.
pub open spec fn days_before_month(year: int, month: int) -> int
    decreases month,
{
    if month <= 1 {
        0
    } else {
        days_before_month(year, month - 1) + month_length(year, month - 1)
    }
}

/// The number of days from the first of January of year 1 to the first of
/// January of a year; negative for the years before.
pub open spec fn days_before_year(year: int) -> int {
    365 * (year - 1) + (year - 1) / 4 - (year - 1) / 100 + (year - 1) / 400
}

impl Date {
    /// A day that exists, in a year that a date can lie in.
    pub open spec fn valid(self) -> bool {
        &&& FIRST_YEAR <= self.year <= LAST_YEAR
        &&& 1 <= self.month <= 12
        &&& 1 <= self.day <= month_length(self.year as int, self.month as int)
    }

    /// The date with the given parts, if there is one.
    pub fn new(year: i32, month: u32, day: u32) -> (r: Option<Date>)
        ensures
            r == (if (Date { year, month, day }).valid() {
                Some(Date { year, month, day })
            } else {
                None
            }),
    {
        if year < FIRST_YEAR || LAST_YEAR < year || month < 1 || 12 < month {
            return None;
        }
        let is_leap: bool = year % 4 == 0 && (year % 100 != 0 || year % 400 == 0);
        let length: u32 = if month == 2 {
            if is_leap {
                29
            } else {
                28
            }
        } else if month == 4 || month == 6 || month == 9 || month == 11 {
            30
        } else {
            31
        };
        if 1 <= day && day <= length {
            Some(Date { year, month, day })
        } else {
            None
        }
    }

    /// The number of days from the first of January 1970 to this date.
    pub open spec fn epoch_day(self) -> int {
        days_before_year(self.year as int) + days_before_month(self.year as int, self.month as int)
            + self.day - 719_163
    }

    /// The Unix timestamp of this date's midnight in UTC.
    pub open spec fn midnight(self) -> int {
        self.epoch_day() * DAY_SECONDS
    }

    /// Comes earlier in the calendar.
    pub open spec fn before(self, other: Self) -> bool {
        ||| self.year < other.year
        ||| self.year == other.year && self.month < other.month
        ||| self.year == other.year && self.month == other.month && self.day < other.day
    }
}

/// The day number of the first date of all.
pub open spec fn first_epoch_day() -> int {
    (Date { year: FIRST_YEAR, month: 1, day: 1 }).epoch_day()
}

/// The day number of the last date of all.
pub open spec fn last_epoch_day() -> int {
    (Date { year: LAST_YEAR, month: 12, day: 31 }).epoch_day()
}

/// Whether a timestamp lies on a day that has a [`Date`].
pub open spec fn has_date(timestamp: int) -> bool {
    first_epoch_day() <= timestamp / (DAY_SECONDS as int) <= last_epoch_day()
}

/// The date on which a timestamp lies in UTC.
pub open spec fn date_at(timestamp: int) -> Date {
    choose|date: Date| date.valid() && #[trigger] date.epoch_day() == timestamp / (
    DAY_SECONDS as int)
}

/// A date as `YYYY-MM-DD`. A year outside of 0 to 9999 has a sign.
pub open spec fn date_text(date: Date) -> Seq<char> {
    let year = if 0 <= date.year <= 9999 {
        text::zero_padded(date.year as nat, 4)
    } else if date.year < 0 {
        seq!['-'] + text::zero_padded((-date.year) as nat, 4)
    } else {
        seq!['+'] + text::zero_padded(date.year as nat, 4)
    };
    year + seq!['-'] + text::zero_padded(date.month as nat, 2) + seq!['-'] + text::zero_padded(
        date.day as nat,
        2,
    )
}

/// What chrono's `NaiveDate::parse_from_str` reads from a text in a format: a date, or
/// nothing where it fails.
pub uninterp spec fn parsed_date(text: Seq<char>, format: Seq<char>) -> Option<Date>;

/// chrono's `NaiveDate::parse_from_str`, with a failure as `None`.
///
/// Nothing is claimed of which texts parse in general, only that the result
/// depends on the text and the format, that it is a date that exists and,
/// for the format [`DATE_FORMAT`]: a date written in that format is read as
/// that date, and a four-digit year, two-digit month and two-digit day that
/// are no date are refused.
#[verifier::external_body]
fn parse_date(text: &str, format: &str) -> (r: Option<Date>)
    ensures
        r == parsed_date(text@, format@),
        r matches Some(date) ==> date.valid(),
        forall|date: Date|
            format@ == DATE_FORMAT@ && date.valid() && text@ == #[trigger] date_text(date) ==> r
                == Some(date),
        forall|date: Date|
            format@ == DATE_FORMAT@ && !date.valid() && 0 <= date.year <= 9999 && date.month <= 99
                && date.day <= 99 && text@ == #[trigger] date_text(date) ==> r is None,
{
    match NaiveDate::parse_from_str(text, format) {
        Ok(date) => Some(Date { year: date.year(), month: date.month(), day: date.day() }),
        Err(_) => None,
    }
}

/// chrono's `NaiveDate::and_hms_opt` at midnight, `and_utc` and `timestamp`: the
/// Unix timestamp of the date's midnight in UTC.
#[verifier::external_body]
fn midnight_of(date: Date) -> (r: i64)
    requires
        date.valid(),
    ensures
        r == date.midnight(),
{
    let day = NaiveDate::from_ymd_opt(date.year, date.month, date.day).unwrap();
    day.and_hms_opt(0, 0, 0).unwrap().and_utc().timestamp()
}

/// chrono's `DateTime::<Utc>::from_timestamp` with no nanoseconds: the date in
/// UTC of a timestamp, or `None` where the day lies outside of the calendar's
/// range.
#[verifier::external_body]
fn date_from_timestamp(timestamp: i64) -> (r: Option<Date>)
    ensures
        r is Some <==> has_date(timestamp as int),
        r matches Some(date) ==> date.valid() && date.epoch_day() == timestamp as int / (
        DAY_SECONDS as int),
{
    match DateTime::<Utc>::from_timestamp(timestamp, 0) {
        Some(at) => Some(Date { year: at.year(), month: at.month(), day: at.day() }),
        None => None,
    }
}

/// chrono's `NaiveDate::format` and `to_string` with the format [`DATE_FORMAT`]: the
/// four-digit year, two-digit month and two-digit day between hyphens, with a
/// sign before a year that is negative or has more digits.
#[verifier::external_body]
fn format_with(date: Date, format: &str) -> (r: String)
    requires
        date.valid(),
        format@ == DATE_FORMAT@,
    ensures
        r@ == date_text(date),
{
    let day = NaiveDate::from_ymd_opt(date.year, date.month, date.day).unwrap();
    day.format(format).to_string()
}

/// The same day of the month, `months` months earlier, or that month's last
/// day where it is shorter.
pub open spec fn months_earlier(date: Date, months: int) -> Date {
    let total = date.year * 12 + date.month - 1 - months;
    let year = total / 12;
    let month = total % 12 + 1;
    let length = month_length(year, month);
    Date {
        year: year as i32,
        month: month as u32,
        day: if date.day <= length {
            date.day
        } else {
            length as u32
        },
    }
}

/// Whether the month that lies `months` months earlier has dates.
pub open spec fn has_months_earlier(date: Date, months: int) -> bool {
    FIRST_YEAR <= (date.year * 12 + date.month - 1 - months) / 12
}

/// chrono's `NaiveDate::checked_sub_months`: the date `months` months earlier,
/// clamped to the end of that month, or `None` before the first year.
#[verifier::external_body]
fn subtract_months(date: Date, months: u32) -> (r: Option<Date>)
    requires
        date.valid(),
    ensures
        r == (if has_months_earlier(date, months as int) {
            Some(months_earlier(date, months as int))
        } else {
            None
        }),
{
    let day = NaiveDate::from_ymd_opt(date.year, date.month, date.day).unwrap();
    match day.checked_sub_months(Months::new(months)) {
        Some(to) => Some(Date { year: to.year(), month: to.month(), day: to.day() }),
        None => None,
    }
}

/// How many months a report reaches back by default.
pub const DEFAULT_MONTHS: u32 = 2;

/// The start date that a report has by default: exactly two months ago.
pub fn default_date(today: Date) -> (r: Option<Date>)
    requires
        today.valid(),
    ensures
        r == (if has_months_earlier(today, DEFAULT_MONTHS as int) {
            Some(months_earlier(today, DEFAULT_MONTHS as int))
        } else {
            None
        }),
        r matches Some(date) ==> date.valid(),
        r matches Some(date) ==> date.year * 12 + date.month + 2 == today.year * 12 + today.month
            && (date.day == today.day || date.day < today.day && date.day == month_length(
            date.year as int,
            date.month as int,
        )),
        r is None ==> today.year * 12 + today.month - 3 < FIRST_YEAR * 12,
{
    proof {
        if has_months_earlier(today, DEFAULT_MONTHS as int) {
            law_months_earlier(today, DEFAULT_MONTHS as int);
        }
    }
    subtract_months(today, DEFAULT_MONTHS)
}

/// Formats a date as `YYYY-MM-DD`.
pub fn format_day(date: Date) -> (r: String)
    requires
        date.valid(),
    ensures
        r@ == date_text(date),
{
    format_with(date, DATE_FORMAT)
}

/// What the `Debug` form of a string slice is: the text in double quotes, with
/// escapes.
pub uninterp spec fn debug_quoted(text: Seq<char>) -> Seq<char>;

/// The `Debug` implementation of `str`, through `format!`. Nothing is claimed
/// of which characters it escapes.
#[verifier::external_body]
fn quoted(text: &str) -> (r: String)
    ensures
        r@ == debug_quoted(text@),
{
    format!("{text:?}")
}

/// The body of the answer to a `start_date` that is no date.
pub open spec fn start_date_refusal(raw: Seq<char>) -> Seq<char> {
    "invalid start_date "@ + debug_quoted(raw) + ": expected YYYY-MM-DD"@
}

/// The answer to a `start_date` once it has been read as a date: the timestamp
/// of that date's midnight in UTC, or a refusal that quotes the input.
pub fn start_of(raw: &str, parsed: Option<Date>) -> (r: Result<i64, HttpError>)
    requires
        parsed matches Some(date) ==> date.valid(),
    ensures
        match parsed {
            Some(date) => r matches Ok(start) && start == date.midnight(),
            None => r matches Err(error) && error.says(BAD_REQUEST, start_date_refusal(raw@)),
        },
        parsed is None ==> (r matches Err(error) && error.status == 400 && error.message@
            == "invalid start_date "@ + debug_quoted(raw@) + ": expected YYYY-MM-DD"@),
{
    match parsed {
        Some(date) => Ok(midnight_of(date)),
        None => {
            let mut message = "invalid start_date ".to_owned();
            message.append(quoted(raw).as_str());
            message.append(": expected YYYY-MM-DD");
            Err(HttpError { status: BAD_REQUEST, message })
        },
    }
}

/// Reads a `YYYY-MM-DD` `start_date` query value as a Unix timestamp at
/// midnight UTC on that date.
pub fn parse_start_date(raw: &str) -> (r: Result<i64, HttpError>)
    ensures
        match parsed_date(raw@, DATE_FORMAT@) {
            Some(date) => date.valid() && (r matches Ok(start) && start == date.midnight()),
            None => r matches Err(error) && error.says(BAD_REQUEST, start_date_refusal(raw@)),
        },
        r matches Err(error) ==> error.status == 400 && error.message@ == "invalid start_date "@
            + debug_quoted(raw@) + ": expected YYYY-MM-DD"@,
        forall|date: Date|
            date.valid() && raw@ == #[trigger] date_text(date) ==> (r matches Ok(start) && start
                == date.midnight() && timestamp_text(start as int) == raw@),
        forall|timestamp: int|
            has_date(timestamp) && raw@ == #[trigger] timestamp_text(timestamp) ==> (r matches Ok(
                start,
            ) && start == timestamp - timestamp % (DAY_SECONDS as int)),
        forall|date: Date|
            !date.valid() && 0 <= date.year <= 9999 && date.month <= 99 && date.day <= 99 && raw@
                == #[trigger] date_text(date) ==> (r matches Err(error) && error.says(
                BAD_REQUEST,
                start_date_refusal(raw@),
            )),
{
    let r = start_of(raw, parse_date(raw, DATE_FORMAT));
    proof {
        assert forall|date: Date|
            date.valid() && raw@ == #[trigger] date_text(date) implies timestamp_text(
            date.midnight(),
        ) == raw@ by {
            law_seconds_of_a_date(date, 0);
        }
        assert forall|timestamp: int|
            has_date(timestamp) && raw@ == #[trigger] timestamp_text(timestamp) implies (r matches Ok(
            start,
        ) && start == timestamp - timestamp % (DAY_SECONDS as int)) by {
            law_every_timestamp_has_its_date(timestamp);
            assert(raw@ == date_text(date_at(timestamp)));
        }
    }
    r
}

/// Formats a Unix timestamp as its `YYYY-MM-DD` date in UTC; a timestamp whose
/// day lies outside of the calendar gives the empty text.
pub fn format_date(timestamp: i64) -> (r: String)
    ensures
        r@ == timestamp_text(timestamp as int),
        forall|date: Date|
            date.valid() && date.midnight() <= timestamp < date.midnight() + 86_400 ==> r@
                == #[trigger] date_text(date),
{
    proof {
        assert forall|date: Date|
            date.valid() && date.midnight() <= timestamp < date.midnight()
                + 86_400 implies timestamp_text(timestamp as int) == #[trigger] date_text(date) by {
            law_seconds_of_a_date(date, timestamp - date.midnight());
        }
    }
    match date_from_timestamp(timestamp) {
        Some(date) => {
            proof {
                lemma_same_day(date, date_at(timestamp as int));
            }
            format_day(date)
        },
        None => String::new(),
    }
}

/// The `YYYY-MM-DD` date of a Unix timestamp in UTC, or the empty text where
/// it has none.
pub open spec fn timestamp_text(timestamp: int) -> Seq<char> {
    if has_date(timestamp) {
        date_text(date_at(timestamp))
    } else {
        seq![]
    }
}

/// Going back some months gives a date that exists, that many months earlier,
/// on the same day of the month or on the last day of a shorter month.
pub proof fn law_months_earlier(date: Date, months: int)
    requires
        date.valid(),
        0 <= months,
        has_months_earlier(date, months),
    ensures
        months_earlier(date, months).valid(),
        months_earlier(date, months).year * 12 + months_earlier(date, months).month + months
            == date.year * 12 + date.month,
        months_earlier(date, months).day == date.day || (months_earlier(date, months).day < date.day
            && months_earlier(date, months).day == month_length(
            months_earlier(date, months).year as int,
            months_earlier(date, months).month as int,
        )),
        months > 0 ==> months_earlier(date, months).before(date),
        months == 0 ==> months_earlier(date, months) == date,
{
    let total = date.year * 12 + date.month - 1 - months;
    lemma_fundamental_div_mod(total, 12);
}

proof fn lemma_quotient_step(a: int, n: int)
    requires
        n > 1,
    ensures
        a / n - (a - 1) / n == (if a % n == 0 {
            1int
        } else {
            0
        }),
{
    let q = a / n;
    let r = a % n;
    lemma_fundamental_div_mod(a, n);
    if r == 0 {
        assert(a - 1 == n * (q - 1) + (n - 1)) by (nonlinear_arith)
            requires
                a == n * q,
        ;
        lemma_fundamental_div_mod_converse(a - 1, n, q - 1, n - 1);
    } else {
        lemma_fundamental_div_mod_converse(a - 1, n, q, r - 1);
    }
}

proof fn lemma_divides(a: int, n: int, k: int)
    requires
        n > 1,
        k > 1,
        a % (n * k) == 0,
    ensures
        a % n == 0,
{
    assert(n * k > 0) by (nonlinear_arith)
        requires
            n > 1,
            k > 1,
    ;
    let q = a / (n * k);
    lemma_fundamental_div_mod(a, n * k);
    assert(a == n * (k * q) + 0) by (nonlinear_arith)
        requires
            a == n * k * q,
    ;
    lemma_fundamental_div_mod_converse(a, n, k * q, 0);
}

proof fn lemma_leap_count(
    year: int,
    fourths: int,
    hundredths: int,
    four_hundredths: int,
)
    requires
        fourths == (if year % 4 == 0 {
            1int
        } else {
            0
        }),
        hundredths == (if year % 100 == 0 {
            1int
        } else {
            0
        }),
        four_hundredths == (if year % 400 == 0 {
            1int
        } else {
            0
        }),
    ensures
        fourths - hundredths + four_hundredths == (if leap(year) {
            1int
        } else {
            0
        }),
{
    if year % 100 == 0 {
        lemma_divides(year, 4, 25);
    }
    if year % 400 == 0 {
        lemma_divides(year, 100, 4);
        lemma_divides(year, 4, 25);
    }
}

proof fn lemma_year_step(year: int)
    ensures
        days_before_year(year + 1) == days_before_year(year) + (if leap(year) {
            366int
        } else {
            365
        }),
{
    lemma_quotient_step(year, 4);
    lemma_quotient_step(year, 100);
    lemma_quotient_step(year, 400);
    lemma_leap_count(
        year,
        year / 4 - (year - 1) / 4,
        year / 100 - (year - 1) / 100,
        year / 400 - (year - 1) / 400,
    );
}

proof fn lemma_years_in_order(year: int, later: int)
    requires
        year <= later,
    ensures
        days_before_year(year) + 365 * (later - year) <= days_before_year(later),
    decreases later - year,
{
    if year < later {
        lemma_years_in_order(year, later - 1);
        lemma_year_step(later - 1);
    }
}

proof fn lemma_months_in_order(year: int, month: int, later: int)
    requires
        1 <= month <= later <= 13,
    ensures
        month < later ==> days_before_month(year, month) + month_length(year, month)
            <= days_before_month(year, later),
        days_before_month(year, month) <= days_before_month(year, later),
    decreases later - month,
{
    if month < later {
        lemma_months_in_order(year, month, later - 1);
    }
}

proof fn lemma_year_length(year: int)
    ensures
        days_before_month(year, 13) == if leap(year) {
            366int
        } else {
            365
        },
{
    reveal_with_fuel(days_before_month, 13);
}

/// Of two dates, the one that comes earlier in the calendar has the smaller
/// day number, and so the earlier midnight.
pub proof fn law_calendar_order(date: Date, later: Date)
    requires
        date.valid(),
        later.valid(),
        date.before(later),
    ensures
        date.epoch_day() < later.epoch_day(),
        date.midnight() < later.midnight(),
{
    let year = date.year as int;
    lemma_months_in_order(year, date.month as int, 13);
    lemma_year_length(year);
    if date.year < later.year {
        lemma_year_step(year);
        lemma_years_in_order(year + 1, later.year as int);
        lemma_months_in_order(later.year as int, 1, later.month as int);
    } else if date.month < later.month {
        lemma_months_in_order(year, date.month as int, later.month as int);
    }
}

proof fn lemma_same_day(date: Date, other: Date)
    requires
        date.valid(),
        other.valid(),
        date.epoch_day() == other.epoch_day(),
    ensures
        date == other,
{
    if date.before(other) {
        law_calendar_order(date, other);
    } else if other.before(date) {
        law_calendar_order(other, date);
    }
}

/// Each second of a date's day lies on that date, and the date's text is what
/// the timestamp is written as.
pub proof fn law_seconds_of_a_date(date: Date, second: int)
    requires
        date.valid(),
        0 <= second < DAY_SECONDS,
    ensures
        has_date(date.midnight() + second),
        date_at(date.midnight() + second) == date,
        timestamp_text(date.midnight() + second) == date_text(date),
{
    let timestamp = date.midnight() + second;
    lemma_fundamental_div_mod_converse(timestamp, 86_400, date.epoch_day(), second);
    let first = Date { year: FIRST_YEAR, month: 1, day: 1 };
    let last = Date { year: LAST_YEAR, month: 12, day: 31 };
    if first.before(date) {
        law_calendar_order(first, date);
    } else {
        assert(date == first);
    }
    if date.before(last) {
        law_calendar_order(date, last);
    } else {
        assert(date == last);
    }
    let found = date_at(timestamp);
    assert(date.valid() && date.epoch_day() == timestamp / (DAY_SECONDS as int));
    lemma_same_day(found, date);
}

/// The day after a date.
pub open spec fn next_day(date: Date) -> Date {
    if date.day < month_length(date.year as int, date.month as int) {
        Date { day: (date.day + 1) as u32, ..date }
    } else if date.month < 12 {
        Date { month: (date.month + 1) as u32, day: 1, ..date }
    } else {
        Date { year: (date.year + 1) as i32, month: 1, day: 1 }
    }
}

/// The day numbers count the days: the day after a date has the next number,
/// and its midnight comes a day's seconds later.
pub proof fn law_days_are_counted(date: Date)
    requires
        date.valid(),
        date != (Date { year: LAST_YEAR, month: 12, day: 31 }),
    ensures
        next_day(date).valid(),
        date.before(next_day(date)),
        next_day(date).epoch_day() == date.epoch_day() + 1,
        next_day(date).midnight() == date.midnight() + DAY_SECONDS,
{
    let year = date.year as int;
    if date.day >= month_length(year, date.month as int) && date.month >= 12 {
        lemma_year_step(year);
        lemma_year_length(year);
    }
}

proof fn lemma_day_has_date(day: int) -> (date: Date)
    requires
        first_epoch_day() <= day <= last_epoch_day(),
    ensures
        date.valid(),
        date.epoch_day() == day,
    decreases day - first_epoch_day(),
{
    if day == first_epoch_day() {
        Date { year: FIRST_YEAR, month: 1, day: 1 }
    } else {
        let before = lemma_day_has_date(day - 1);
        law_days_are_counted(before);
        next_day(before)
    }
}

/// Each timestamp of the calendar's range lies on a date that exists, at most
/// a day after that date's midnight.
pub proof fn law_every_timestamp_has_its_date(timestamp: int)
    requires
        has_date(timestamp),
    ensures
        date_at(timestamp).valid(),
        date_at(timestamp).midnight() <= timestamp < date_at(timestamp).midnight() + DAY_SECONDS,
        date_at(timestamp).midnight() == timestamp - timestamp % (DAY_SECONDS as int),
{
    let date = lemma_day_has_date(timestamp / (DAY_SECONDS as int));
    assert(date.valid() && date.epoch_day() == timestamp / (DAY_SECONDS as int));
    lemma_fundamental_div_mod(timestamp, DAY_SECONDS as int);
}

proof fn lemma_padded_order(number: nat, other: nat, width: nat)
    requires
        text::zero_padded(number, width).len() == text::zero_padded(other, width).len(),
    ensures
        text::sorts_before(
            text::zero_padded(number, width),
            text::zero_padded(other, width),
        ) <==> number < other,
        text::zero_padded(number, width) == text::zero_padded(other, width) <==> number == other,
{
    text::law_zero_padded_denotes(number, width);
    text::law_zero_padded_denotes(other, width);
    text::law_digits_sort_as_numbers(
        text::zero_padded(number, width),
        text::zero_padded(other, width),
    );
}

proof fn lemma_four_digits(year: nat)
    requires
        year <= 9999,
    ensures
        text::zero_padded(year, 4).len() == 4,
{
    reveal_with_fuel(text::zero_padded, 4);
}

proof fn lemma_two_digits(number: nat)
    requires
        number <= 99,
    ensures
        text::zero_padded(number, 2).len() == 2,
{
    reveal_with_fuel(text::zero_padded, 2);
}

/// Dates of the years 0 to 9999 are written in ten characters, and their texts
/// are ordered as the dates are. The midnights of two of them lie a day's
/// seconds apart for each day from the earlier to the later.
pub proof fn law_texts_sort_as_dates(date: Date, later: Date)
    requires
        date.valid(),
        later.valid(),
        0 <= date.year <= 9999,
        0 <= later.year <= 9999,
    ensures
        date_text(date).len() == 10,
        date_text(later).len() == 10,
        text::sorts_before(date_text(date), date_text(later)) <==> date.before(later),
        text::sorts_before(date_text(date), date_text(later)) ==> {
            &&& later.epoch_day() - date.epoch_day() >= 1
            &&& later.midnight() - date.midnight() == DAY_SECONDS * (later.epoch_day()
                - date.epoch_day())
            &&& later.midnight() - date.midnight() >= DAY_SECONDS
        },
{
    let hyphen = seq!['-'];
    let year = text::zero_padded(date.year as nat, 4);
    let month = text::zero_padded(date.month as nat, 2);
    let day = text::zero_padded(date.day as nat, 2);
    let later_year = text::zero_padded(later.year as nat, 4);
    let later_month = text::zero_padded(later.month as nat, 2);
    let later_day = text::zero_padded(later.day as nat, 2);
    lemma_four_digits(date.year as nat);
    lemma_four_digits(later.year as nat);
    lemma_two_digits(date.month as nat);
    lemma_two_digits(later.month as nat);
    lemma_two_digits(date.day as nat);
    lemma_two_digits(later.day as nat);
    lemma_padded_order(date.year as nat, later.year as nat, 4);
    lemma_padded_order(date.month as nat, later.month as nat, 2);
    lemma_padded_order(date.day as nat, later.day as nat, 2);
    let after_month = hyphen + day;
    let later_after_month = hyphen + later_day;
    let after_year = hyphen + (month + after_month);
    let later_after_year = hyphen + (later_month + later_after_month);
    assert(date_text(date) =~= year + after_year);
    assert(date_text(later) =~= later_year + later_after_year);
    text::lemma_order_of_beginnings(year, later_year, after_year, later_after_year);
    text::lemma_order_of_beginnings(
        hyphen,
        hyphen,
        month + after_month,
        later_month + later_after_month,
    );
    text::lemma_order_of_beginnings(month, later_month, after_month, later_after_month);
    text::lemma_order_of_beginnings(hyphen, hyphen, day, later_day);
    reveal_with_fuel(text::sorts_before, 2);
    assert(!text::sorts_before(hyphen, hyphen));
    if date.before(later) {
        law_calendar_order(date, later);
    }
}

/// The timestamps from the start of year 0 to the end of year 9999 lie on a
/// date of these years.
pub proof fn law_four_digit_years(timestamp: int)
    requires
        -62_167_219_200 <= timestamp <= 253_402_300_799,
    ensures
        has_date(timestamp),
        0 <= date_at(timestamp).year <= 9999,
        timestamp_text(timestamp).len() == 10,
{
    reveal_with_fuel(days_before_month, 12);
    let first = Date { year: 0, month: 1, day: 1 };
    let last = Date { year: 9999, month: 12, day: 31 };
    assert(first.midnight() == -62_167_219_200);
    assert(last.midnight() == 253_402_214_400);
    law_every_timestamp_has_its_date(timestamp);
    let date = date_at(timestamp);
    if date.year < 0 {
        law_calendar_order(date, first);
    }
    if date.year > 9999 {
        law_calendar_order(last, date);
    }
    law_texts_sort_as_dates(date, date);
}

/// The text of a date is not empty and holds only digits, hyphens and a sign.
pub proof fn law_characters_of_a_date(date: Date)
    ensures
        date_text(date).len() > 0,
        forall|i: int|
            0 <= i < date_text(date).len() ==> ('0' <= #[trigger] date_text(date)[i] <= '9'
                || date_text(date)[i] == '-' || date_text(date)[i] == '+'),
{
    text::law_zero_padded_denotes(date.year as nat, 4);
    text::law_zero_padded_denotes((-date.year) as nat, 4);
    text::law_zero_padded_denotes(date.month as nat, 2);
    text::law_zero_padded_denotes(date.day as nat, 2);
}

/// A timestamp is written as the date in whose day it lies, and as the empty
/// text exactly if it lies in no date's day.
pub proof fn law_what_a_timestamp_is_written_as(timestamp: int)
    ensures
        forall|date: Date|
            date.valid() && date.midnight() <= timestamp < date.midnight() + 86_400
                ==> timestamp_text(timestamp) == #[trigger] date_text(date),
        timestamp_text(timestamp).len() == 0 <==> forall|date: Date|
            date.valid() ==> !(#[trigger] date.midnight() <= timestamp < date.midnight() + 86_400),
{
    assert forall|date: Date|
        date.valid() && date.midnight() <= timestamp < date.midnight()
            + 86_400 implies timestamp_text(timestamp) == #[trigger] date_text(date) by {
        law_seconds_of_a_date(date, timestamp - date.midnight());
    }
    if has_date(timestamp) {
        law_every_timestamp_has_its_date(timestamp);
        law_characters_of_a_date(date_at(timestamp));
    } else {
        assert forall|date: Date| date.valid() implies !(#[trigger] date.midnight() <= timestamp
            < date.midnight() + 86_400) by {
            if date.midnight() <= timestamp < date.midnight() + 86_400 {
                law_seconds_of_a_date(date, timestamp - date.midnight());
            }
        }
    }
}

/// The text of a date of the years 0 to 9999 spells its year in four digits, its
/// month in two and its day in two, with hyphens between.
pub proof fn law_date_text_spells_the_date(date: Date)
    requires
        date.valid(),
        0 <= date.year <= 9999,
    ensures
        date_text(date).len() == 10,
        date_text(date)[4] == '-',
        date_text(date)[7] == '-',
        text::digits_value(date_text(date).take(4)) == date.year,
        text::digits_value(date_text(date).subrange(5, 7)) == date.month,
        text::digits_value(date_text(date).skip(8)) == date.day,
{
    lemma_four_digits(date.year as nat);
    lemma_two_digits(date.month as nat);
    lemma_two_digits(date.day as nat);
    text::law_zero_padded_denotes(date.year as nat, 4);
    text::law_zero_padded_denotes(date.month as nat, 2);
    text::law_zero_padded_denotes(date.day as nat, 2);
    assert(date_text(date).take(4) =~= text::zero_padded(date.year as nat, 4));
    assert(date_text(date).subrange(5, 7) =~= text::zero_padded(date.month as nat, 2));
    assert(date_text(date).skip(8) =~= text::zero_padded(date.day as nat, 2));
}

/// The first of January 1970 has the day number zero.
pub proof fn law_first_day_of_the_count()
    ensures
        (Date { year: 1970, month: 1, day: 1 }).epoch_day() == 0,
        (Date { year: 1970, month: 1, day: 1 }).midnight() == 0,
{
}

} // verus!
