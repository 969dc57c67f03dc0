use chrono::{Datelike, Days, Months, NaiveDate};
use stripe_ticket_printer::calendar::{
    default_date, format_date, format_day, parse_start_date, start_of, Date,
};

#[test]
fn start_dates_are_read_as_midnight() {
    assert_eq!(parse_start_date("1970-01-01").unwrap(), 0);
    assert_eq!(parse_start_date("2024-02-29").unwrap(), 1_709_164_800);
    assert_eq!(parse_start_date("1969-12-31").unwrap(), -86_400);
    assert_eq!(parse_start_date("+10000-01-01").unwrap(), 253_402_300_800);
    assert_eq!(parse_start_date("-0001-01-01").unwrap(), -62_198_755_200);
}

#[test]
fn texts_that_are_no_date_are_refused() {
    for raw in ["2023-02-29", "2023-13-01", "2023-00-10", "2023-01-00", "", "yesterday", "2023-01"] {
        let error = parse_start_date(raw).unwrap_err();
        assert_eq!(error.status, 400);
        assert_eq!(
            error.message,
            format!("invalid start_date {raw:?}: expected YYYY-MM-DD")
        );
    }
}

#[test]
fn a_refusal_quotes_the_input() {
    let error = parse_start_date("a\"b\n").unwrap_err();
    assert_eq!(
        error.message,
        "invalid start_date \"a\\\"b\\n\": expected YYYY-MM-DD"
    );
    let error = start_of("x", None).unwrap_err();
    assert_eq!(error.status, 400);
    assert_eq!(error.message, "invalid start_date \"x\": expected YYYY-MM-DD");
    assert_eq!(start_of("x", Date::new(1970, 1, 2)).unwrap(), 86_400);
}

#[test]
fn timestamps_are_written_as_their_date() {
    assert_eq!(format_date(0), "1970-01-01");
    assert_eq!(format_date(-1), "1969-12-31");
    assert_eq!(format_date(1_709_164_800 + 86_399), "2024-02-29");
    assert_eq!(format_date(253_402_300_800), "+10000-01-01");
    assert_eq!(format_date(-62_198_755_200), "-0001-01-01");
    assert_eq!(format_date(-62_167_219_200), "0000-01-01");
}

#[test]
fn timestamps_outside_of_the_calendar_have_no_date() {
    assert_eq!(format_date(i64::MAX), "");
    assert_eq!(format_date(i64::MIN), "");
    let last = NaiveDate::MAX.and_hms_opt(23, 59, 59).unwrap().and_utc().timestamp();
    assert_eq!(format_date(last), "+262142-12-31");
    assert_eq!(format_date(last + 1), "");
    let first = NaiveDate::MIN.and_hms_opt(0, 0, 0).unwrap().and_utc().timestamp();
    assert_eq!(format_date(first), "-262143-01-01");
    assert_eq!(format_date(first - 1), "");
}

#[test]
fn a_written_date_is_read_back() {
    for timestamp in [0, 1, 86_399, -1, 1_700_000_000, -1_000_000_000, 8_000_000_000_000] {
        let day = format_date(timestamp);
        assert_eq!(
            parse_start_date(&day).unwrap(),
            timestamp - timestamp.rem_euclid(86_400)
        );
    }
}

#[test]
fn the_first_and_last_dates_are_read_back() {
    for date in [NaiveDate::MIN, NaiveDate::MAX] {
        let midnight = date.and_hms_opt(0, 0, 0).unwrap().and_utc().timestamp();
        assert_eq!(parse_start_date(&format_date(midnight)).unwrap(), midnight);
    }
}

#[test]
fn dates_exist_where_the_calendar_has_them() {
    for year in [-262_144, -262_143, -4, 0, 1900, 2000, 2023, 2024, 262_142, 262_143] {
        for month in 0..=13 {
            for day in 0..=32 {
                assert_eq!(
                    Date::new(year, month, day).is_some(),
                    NaiveDate::from_ymd_opt(year, month, day).is_some()
                );
            }
        }
    }
}

#[test]
fn the_default_start_is_two_months_ago() {
    let before = |year, month, day| default_date(Date::new(year, month, day).unwrap()).unwrap();
    assert_eq!(before(2024, 3, 15), Date::new(2024, 1, 15).unwrap());
    assert_eq!(before(2024, 1, 31), Date::new(2023, 11, 30).unwrap());
    assert_eq!(before(2024, 4, 30), Date::new(2024, 2, 29).unwrap());
    assert_eq!(before(2023, 4, 30), Date::new(2023, 2, 28).unwrap());
    assert_eq!(default_date(Date::new(-262_143, 2, 28).unwrap()), None);
    assert!(default_date(Date::new(-262_143, 3, 1).unwrap()).is_some());
}

#[test]
fn days_keep_their_order_and_text() {
    let mut day = NaiveDate::from_ymd_opt(1899, 12, 1).unwrap();
    let mut last = i64::MIN;
    for _ in 0..2000 {
        let date = Date::new(day.year(), day.month(), day.day()).unwrap();
        let written = format_day(date);
        assert_eq!(written, day.format("%Y-%m-%d").to_string());
        let start = parse_start_date(&written).unwrap();
        assert!(last < start);
        last = start;
        let ago = day.checked_sub_months(Months::new(2)).unwrap();
        let found = default_date(date).unwrap();
        assert_eq!((found.year, found.month, found.day), (ago.year(), ago.month(), ago.day()));
        day = day.checked_add_days(Days::new(1)).unwrap();
    }
}

#[test]
fn texts_sort_as_their_dates() {
    let days = ["0000-01-01", "0999-12-31", "1000-01-01", "2023-12-31", "2024-01-01", "2024-02-29"];
    for (a, b) in days.iter().zip(&days[1..]) {
        assert!(a < b);
        let apart = parse_start_date(b).unwrap() - parse_start_date(a).unwrap();
        let from = NaiveDate::parse_from_str(a, "%Y-%m-%d").unwrap();
        let to = NaiveDate::parse_from_str(b, "%Y-%m-%d").unwrap();
        assert_eq!(apart, 86_400 * to.signed_duration_since(from).num_days());
        assert!(apart >= 86_400);
    }
}

#[test]
fn four_digit_years_take_ten_characters() {
    assert_eq!(format_date(-62_167_219_200), "0000-01-01");
    assert_eq!(format_date(253_402_300_799), "9999-12-31");
    for timestamp in [-62_167_219_200i64, -62_167_219_199, -1, 253_402_300_799] {
        let midnight = timestamp - timestamp.rem_euclid(86_400);
        assert_eq!(parse_start_date(&format_date(timestamp)).unwrap(), midnight);
        assert_eq!(format_date(midnight), format_date(timestamp));
    }
}
