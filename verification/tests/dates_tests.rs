use mango::dates::{date_plus_months, format_date, month_period, parse_date, resolve_dates, resolve_dates_on, today, Date};
use mango::error::MangoError;

fn d(y: i32, m: u32, day: u32) -> Date {
    Date { year: y, month: m, day }
}

#[test]
fn test_resolve_dates() {
    let res = resolve_dates(
        Some("2026-01-15".to_string()),
        Some("2026-03-22".to_string()),
        None,
        None,
    );
    assert!(res.is_ok());
    let (d, h) = res.unwrap();
    assert_eq!(d, "2026-01-15");
    assert_eq!(h, "2026-03-22");

    let res_leap = resolve_dates(None, None, Some(2), Some(2024));
    assert!(res_leap.is_ok());
    let (d_leap, h_leap) = res_leap.unwrap();
    assert_eq!(d_leap, "2024-02-01");
    assert_eq!(h_leap, "2024-02-29");

    let res_non_leap = resolve_dates(None, None, Some(2), Some(2025));
    assert!(res_non_leap.is_ok());
    let (d_nl, h_nl) = res_non_leap.unwrap();
    assert_eq!(d_nl, "2025-02-01");
    assert_eq!(h_nl, "2025-02-28");

    let res_dec = resolve_dates(None, None, Some(12), Some(2026));
    assert!(res_dec.is_ok());
    let (d_dec, h_dec) = res_dec.unwrap();
    assert_eq!(d_dec, "2026-12-01");
    assert_eq!(h_dec, "2026-12-31");
}

#[test]
fn resolve_dates_on_a_given_day() {
    let t = d(2026, 5, 17);
    assert_eq!(resolve_dates_on(t, None, None, None, None).unwrap(), ("1970-01-01".to_string(), "2026-05-17".to_string()));
    assert_eq!(resolve_dates_on(t, None, None, Some(4), None).unwrap(), ("2026-04-01".to_string(), "2026-04-30".to_string()));
    assert_eq!(resolve_dates_on(t, None, None, None, Some(2023)).unwrap(), ("2023-01-01".to_string(), "2023-12-31".to_string()));
    assert_eq!(
        resolve_dates_on(t, Some("x".to_string()), None, None, Some(2023)).unwrap(),
        ("2023-01-01".to_string(), "2023-12-31".to_string())
    );
    assert!(matches!(resolve_dates_on(t, None, None, Some(13), None), Err(MangoError::MonthOutOfRange)));
    assert!(matches!(resolve_dates_on(t, None, None, Some(0), Some(2020)), Err(MangoError::MonthOutOfRange)));
    assert!(matches!(resolve_dates_on(t, None, None, None, Some(300000)), Err(MangoError::InvalidDate)));
    assert!(matches!(resolve_dates_on(t, None, None, Some(3), Some(300000)), Err(MangoError::InvalidDate)));
    assert!(matches!(resolve_dates_on(t, None, None, Some(12), Some(262142)), Err(MangoError::InvalidEndDate)));
}

#[test]
fn month_periods() {
    assert_eq!(month_period(2024, 2).unwrap(), (d(2024, 2, 1), d(2024, 2, 29)));
    assert_eq!(month_period(1900, 2).unwrap(), (d(1900, 2, 1), d(1900, 2, 28)));
    assert_eq!(month_period(2000, 2).unwrap(), (d(2000, 2, 1), d(2000, 2, 29)));
    assert_eq!(month_period(2026, 11).unwrap(), (d(2026, 11, 1), d(2026, 11, 30)));
    assert_eq!(month_period(-4, 12).unwrap(), (d(-4, 12, 1), d(-4, 12, 31)));
}

#[test]
fn date_texts() {
    assert_eq!(format_date(d(2026, 3, 5)), "2026-03-05");
    assert_eq!(format_date(d(7, 1, 1)), "0007-01-01");
    assert_eq!(format_date(d(-12, 1, 1)), "-0012-01-01");
    assert_eq!(format_date(d(12345, 6, 7)), "+12345-06-07");
}

#[test]
fn adding_months_clamps_the_day() {
    assert_eq!(date_plus_months(d(2024, 1, 31), 1), d(2024, 2, 29));
    assert_eq!(date_plus_months(d(2025, 1, 31), 1), d(2025, 2, 28));
    assert_eq!(date_plus_months(d(2025, 11, 30), 3), d(2026, 2, 28));
    assert_eq!(date_plus_months(d(2025, 5, 25), 0), d(2025, 5, 25));
}

#[test]
fn parsing_dates() {
    assert_eq!(parse_date("2026-05-25").unwrap(), d(2026, 5, 25));
    assert!(matches!(parse_date("2026-02-30"), Err(MangoError::InvalidDateFormat)));
    assert!(matches!(parse_date("yesterday"), Err(MangoError::InvalidDateFormat)));
}

#[test]
fn today_is_a_date() {
    let t = today();
    assert!(t.month >= 1 && t.month <= 12);
    assert_eq!(parse_date(&format_date(t)).unwrap(), t);
}

#[test]
fn a_given_year_fixes_the_period() {
    let a = resolve_dates_on(d(2026, 5, 17), Some("2020-01-01".to_string()), None, Some(2), Some(2024)).unwrap();
    let b = resolve_dates_on(d(1999, 12, 31), None, Some("2030-01-01".to_string()), Some(2), Some(2024)).unwrap();
    assert_eq!(a, b);
    assert_eq!(a, ("2024-02-01".to_string(), "2024-02-29".to_string()));
}
