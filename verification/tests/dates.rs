use chrono::Datelike;
use brace::date::{iso_date, long_date, rfc2822_date, short_date, Date};

fn day(y: i32, m: u32, d: u32) -> Date {
    Date::from_ymd(y, m, d).unwrap()
}

#[test]
fn calendar_days_are_dates() {
    assert!(Date::from_ymd(2025, 10, 20).is_some());
    assert!(Date::from_ymd(2024, 2, 29).is_some());
    assert!(Date::from_ymd(2000, 2, 29).is_some());
    assert!(Date::from_ymd(1900, 2, 29).is_none());
    assert!(Date::from_ymd(2025, 2, 29).is_none());
    assert!(Date::from_ymd(2025, 4, 31).is_none());
    assert!(Date::from_ymd(2025, 13, 1).is_none());
    assert!(Date::from_ymd(2025, 0, 1).is_none());
    assert!(Date::from_ymd(2025, 1, 0).is_none());
    assert!(Date::from_ymd(262142, 12, 31).is_some());
    assert!(Date::from_ymd(262143, 1, 1).is_none());
    assert!(Date::from_ymd(-262143, 1, 1).is_some());
    assert!(Date::from_ymd(-262144, 1, 1).is_none());
}

#[test]
fn date_validity_matches_chrono() {
    for y in [-262144, -262143, -1, 0, 1, 1900, 2000, 2023, 2024, 262142, 262143] {
        for m in 0..14u32 {
            for d in 0..33u32 {
                assert_eq!(
                    Date::from_ymd(y, m, d).is_some(),
                    chrono::NaiveDate::from_ymd_opt(y, m, d).is_some(),
                    "{y}-{m}-{d}"
                );
            }
        }
    }
}

#[test]
fn date_fields_read_back() {
    let d = day(2025, 10, 20);
    assert_eq!((d.year(), d.month(), d.day()), (2025, 10, 20));
}

#[test]
fn date_order() {
    assert!(day(2025, 10, 19).is_before(&day(2025, 10, 20)));
    assert!(day(2024, 12, 31).is_before(&day(2025, 1, 1)));
    assert!(day(2025, 9, 30).is_before(&day(2025, 10, 1)));
    assert!(!day(2025, 10, 20).is_before(&day(2025, 10, 20)));
    assert!(!day(2026, 1, 1).is_before(&day(2025, 12, 31)));
}

#[test]
fn iso_form() {
    assert_eq!(iso_date(&day(2025, 10, 20)), "2025-10-20");
    assert_eq!(iso_date(&day(7, 1, 2)), "0007-01-02");
}

#[test]
fn short_form() {
    assert_eq!(short_date(&day(2025, 10, 20)), "Oct 20, 2025");
    assert_eq!(short_date(&day(2026, 2, 5)), "Feb 05, 2026");
}

#[test]
fn long_form() {
    assert_eq!(long_date(&day(2025, 10, 20)), "October 20, 2025");
    assert_eq!(long_date(&day(2025, 9, 1)), "September 01, 2025");
}

#[test]
fn feed_form() {
    assert_eq!(rfc2822_date(&day(2025, 10, 20)), "Mon, 20 Oct 2025 00:00:00 GMT");
    assert_eq!(rfc2822_date(&day(1970, 1, 1)), "Thu, 01 Jan 1970 00:00:00 GMT");
    assert_eq!(rfc2822_date(&day(2000, 2, 29)), "Tue, 29 Feb 2000 00:00:00 GMT");
    assert_eq!(rfc2822_date(&day(1, 1, 1)), "Mon, 01 Jan 0001 00:00:00 GMT");
}

/// The weekday the library's formula gives, counted from Sunday.
fn weekday_formula(y: i64, m: u32, d: u32) -> u32 {
    let leap = |y: i64| (y.rem_euclid(4) == 0 && y.rem_euclid(100) != 0) || y.rem_euclid(400) == 0;
    let p = y - 1;
    let mut days = 365 * p + p.div_euclid(4) - p.div_euclid(100) + p.div_euclid(400);
    let lens = [31, if leap(y) { 29 } else { 28 }, 31, 30, 31, 30, 31, 31, 30, 31, 30, 31];
    for len in lens.iter().take((m - 1) as usize) {
        days += len;
    }
    days += (d - 1) as i64;
    (days + 1).rem_euclid(7) as u32
}

#[test]
fn weekday_formula_matches_chrono() {
    let mut date = chrono::NaiveDate::from_ymd_opt(0, 1, 1).unwrap();
    let end = chrono::NaiveDate::from_ymd_opt(9999, 12, 31).unwrap();
    while date <= end {
        assert_eq!(
            weekday_formula(date.year() as i64, date.month(), date.day()),
            date.weekday().num_days_from_sunday(),
            "{date}"
        );
        date = date + chrono::Days::new(97);
    }
}

#[test]
fn formats_match_chrono_over_many_days() {
    let mut date = chrono::NaiveDate::from_ymd_opt(0, 1, 1).unwrap();
    let end = chrono::NaiveDate::from_ymd_opt(9999, 12, 31).unwrap();
    while date <= end {
        let d = day(date.year(), date.month(), date.day());
        assert_eq!(iso_date(&d), date.format("%Y-%m-%d").to_string());
        assert_eq!(short_date(&d), date.format("%b %d, %Y").to_string());
        assert_eq!(long_date(&d), date.format("%B %d, %Y").to_string());
        assert_eq!(rfc2822_date(&d), date.format("%a, %d %b %Y 00:00:00 GMT").to_string());
        date = date + chrono::Days::new(1013);
    }
}

#[test]
fn years_outside_four_digits() {
    assert_eq!(iso_date(&day(-1, 3, 4)), "-0001-03-04");
    assert_eq!(iso_date(&day(10000, 1, 1)), "+10000-01-01");
    assert_eq!(iso_date(&day(-262143, 1, 1)), "-262143-01-01");
    assert_eq!(short_date(&day(-45, 7, 9)), "Jul 09, -0045");
}

#[test]
fn weekday_formula_and_formats_match_chrono_in_every_year_range() {
    let mut date = chrono::NaiveDate::from_ymd_opt(-262143, 1, 1).unwrap();
    loop {
        assert_eq!(
            weekday_formula(date.year() as i64, date.month(), date.day()),
            date.weekday().num_days_from_sunday(),
            "{date}"
        );
        let d = day(date.year(), date.month(), date.day());
        assert_eq!(iso_date(&d), date.format("%Y-%m-%d").to_string());
        assert_eq!(rfc2822_date(&d), date.format("%a, %d %b %Y 00:00:00 GMT").to_string());
        date = match date.checked_add_days(chrono::Days::new(99_991)) {
            Some(next) => next,
            None => break,
        };
    }
}
