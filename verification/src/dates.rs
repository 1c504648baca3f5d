//! Calendar dates of the proleptic Gregorian calendar, as the `chrono`
//! crate handles them, and the reporting periods built from them.

use chrono::Datelike;
use vstd::prelude::*;
use crate::error::MangoError;
use crate::money::{decimal_text, two_digit_text};

verus! {

/// A calendar date as plain numbers.
#[derive(Clone, Copy, Debug, PartialEq, Eq, Structural)]
pub struct Date {
    pub year: i32,
    pub month: u32,
    pub day: u32,
}

/// The earliest year that `chrono` dates can hold.
pub open spec fn min_year() -> int {
    -262143
}

/// The latest year that `chrono` dates can hold.
pub open spec fn max_year() -> int {
    262142
}

pub open spec fn is_leap_year(y: int) -> bool {
    y % 4 == 0 && (y % 100 != 0 || y % 400 == 0)
}

pub open spec fn days_in_month(y: int, m: int) -> int {
    if m == 2 {
        if is_leap_year(y) {
            29
        } else {
            28
        }
    } else if m == 4 || m == 6 || m == 9 || m == 11 {
        30
    } else {
        31
    }
}

/// The day exists in the calendar and in the range of `chrono`.
pub open spec fn valid_ymd(y: int, m: int, d: int) -> bool {
    &&& min_year() <= y <= max_year()
    &&& 1 <= m <= 12
    &&& 1 <= d <= days_in_month(y, m)
}

impl Date {
    pub open spec fn valid(self) -> bool {
        valid_ymd(self.year as int, self.month as int, self.day as int)
    }
}

/// A number written with at least four digits.
pub open spec fn pad4(n: nat) -> Seq<char> {
    let t = decimal_text(n);
    if t.len() >= 4 {
        t
    } else {
        Seq::new((4 - t.len()) as nat, |i: int| '0') + t
    }
}

/// The year as `%Y` writes it: four digits between 0 and 9999, and
/// otherwise a sign followed by at least four digits.
pub open spec fn year_text(y: int) -> Seq<char> {
    if 0 <= y <= 9999 {
        pad4(y as nat)
    } else if y < 0 {
        seq!['-'] + pad4((-y) as nat)
    } else {
        seq!['+'] + pad4(y as nat)
    }
}

/// The date as `%Y-%m-%d` writes it.
pub open spec fn date_text(d: Date) -> Seq<char> {
    year_text(d.year as int) + seq!['-'] + two_digit_text(d.month as nat) + seq!['-']
        + two_digit_text(d.day as nat)
}

/// The day before a date.
pub open spec fn previous_day(d: Date) -> Date {
    if d.day > 1 {
        Date { year: d.year, month: d.month, day: (d.day - 1) as u32 }
    } else if d.month > 1 {
        Date {
            year: d.year,
            month: (d.month - 1) as u32,
            day: days_in_month(d.year as int, d.month - 1) as u32,
        }
    } else {
        Date { year: (d.year - 1) as i32, month: 12, day: 31 }
    }
}

/// Months counted from January of year zero.
pub open spec fn month_index(d: Date, n: int) -> int {
    d.year * 12 + d.month - 1 + n
}

/// The date `n` months later, with the day clamped to the length of the
/// month reached.
pub open spec fn add_months(d: Date, n: nat) -> Date {
    let t = month_index(d, n as int);
    let y = t / 12;
    let m = t % 12 + 1;
    let dim = days_in_month(y, m);
    Date { year: y as i32, month: m as u32, day: (if d.day <= dim { d.day as int } else { dim }) as u32 }
}

/// The date `n` months later is still in the range of `chrono`.
pub open spec fn add_months_in_range(d: Date, n: nat) -> bool {
    min_year() <= month_index(d, n as int) / 12 <= max_year()
}

/// What `chrono` reads from a text in the format `%Y-%m-%d`: the year, month
/// and day of the date, or nothing when the text is not such a date.
pub uninterp spec fn chrono_parsed_date(text: Seq<char>) -> Option<(i32, u32, u32)>;

/// `chrono::NaiveDate::from_ymd_opt`: gives the date exactly when it exists
/// in the calendar and the year is within the range of `chrono`.
#[verifier::external_body]
fn chrono_from_ymd(year: i32, month: u32, day: u32) -> (r: Option<Date>)
    ensures
        r is Some <==> valid_ymd(year as int, month as int, day as int),
        r matches Some(d) ==> d == (Date { year, month, day }),
{
    match chrono::NaiveDate::from_ymd_opt(year, month, day) {
        Some(nd) => Some(Date { year: nd.year(), month: nd.month(), day: nd.day() }),
        None => None,
    }
}

/// Subtracting one day (`chrono::Duration::days(1)`) from a
/// `chrono::NaiveDate` gives the day before; this panics only below the
/// first day that `chrono` holds, which `requires` leaves out.
#[verifier::external_body]
fn chrono_previous_day(d: Date) -> (r: Date)
    requires
        d.valid(),
        !(d.year == min_year() && d.month == 1 && d.day == 1),
    ensures
        r == previous_day(d),
{
    let nd = chrono::NaiveDate::from_ymd_opt(d.year, d.month, d.day).unwrap()
        - chrono::Duration::days(1);
    Date { year: nd.year(), month: nd.month(), day: nd.day() }
}

/// Adding `chrono::Months` to a `chrono::NaiveDate` moves the month and
/// clamps the day to the length of the month reached; it panics when the
/// result leaves the range of `chrono`, which `requires` leaves out.
#[verifier::external_body]
fn chrono_add_months(d: Date, n: u32) -> (r: Date)
    requires
        d.valid(),
        add_months_in_range(d, n as nat),
    ensures
        r == add_months(d, n as nat),
{
    let nd = chrono::NaiveDate::from_ymd_opt(d.year, d.month, d.day).unwrap()
        + chrono::Months::new(n);
    Date { year: nd.year(), month: nd.month(), day: nd.day() }
}

/// `chrono::NaiveDate::format` with `%Y-%m-%d`, written to a `String`.
#[verifier::external_body]
fn chrono_date_text(d: Date) -> (s: String)
    requires
        d.valid(),
    ensures
        s@ == date_text(d),
{
    chrono::NaiveDate::from_ymd_opt(d.year, d.month, d.day).unwrap().format("%Y-%m-%d").to_string()
}

/// `chrono::NaiveDate::parse_from_str` with `%Y-%m-%d`. What it accepts is
/// named, not stated; a date it gives back always exists in the calendar.
#[verifier::external_body]
fn chrono_parse_date(text: &str) -> (r: Option<Date>)
    ensures
        r is Some <==> chrono_parsed_date(text@) is Some,
        r matches Some(d) ==> (d.year, d.month, d.day) == chrono_parsed_date(text@)->0 && d.valid(),
{
    match chrono::NaiveDate::parse_from_str(text, "%Y-%m-%d") {
        Ok(nd) => Some(Date { year: nd.year(), month: nd.month(), day: nd.day() }),
        Err(_) => None,
    }
}

/// `chrono::Local::now`, taken as a local calendar date. Which day it is
/// depends on the clock and the time zone; it is a valid date.
#[verifier::external_body]
fn chrono_today() -> (d: Date)
    ensures
        d.valid(),
{
    let nd = chrono::Local::now().naive_local().date();
    Date { year: nd.year(), month: nd.month(), day: nd.day() }
}

/// Today's date on the local clock.
pub fn today() -> (d: Date)
    ensures
        d.valid(),
{
    chrono_today()
}

/// The date as `YYYY-MM-DD` text.
pub fn format_date(d: Date) -> (s: String)
    requires
        d.valid(),
    ensures
        s@ == date_text(d),
{
    chrono_date_text(d)
}

/// The date `n` months after `d`, clamped to the end of a shorter month.
pub fn date_plus_months(d: Date, n: u32) -> (r: Date)
    requires
        d.valid(),
        add_months_in_range(d, n as nat),
    ensures
        r == add_months(d, n as nat),
{
    chrono_add_months(d, n)
}

/// Reads a `YYYY-MM-DD` date; refuses text that `chrono` does not read.
pub fn parse_date(text: &str) -> (r: Result<Date, MangoError>)
    ensures
        r is Ok <==> chrono_parsed_date(text@) is Some,
        r matches Ok(d) ==> (d.year, d.month, d.day) == chrono_parsed_date(text@)->0 && d.valid(),
        r matches Err(e) ==> e == MangoError::InvalidDateFormat,
{
    match chrono_parse_date(text) {
        Some(d) => Ok(d),
        None => Err(MangoError::InvalidDateFormat),
    }
}

/// The first and last day of a month, or why there is no such period.
pub open spec fn month_period_spec(year: i32, month: u32) -> Result<(Date, Date), MangoError> {
    if !(1 <= month <= 12) {
        Err(MangoError::MonthOutOfRange)
    } else if !(min_year() <= year <= max_year()) {
        Err(MangoError::InvalidDate)
    } else if month == 12 && year + 1 > max_year() {
        Err(MangoError::InvalidEndDate)
    } else {
        Ok(
            (
                Date { year, month, day: 1 },
                Date { year, month, day: days_in_month(year as int, month as int) as u32 },
            ),
        )
    }
}

/// The first and the last day of `month` in `year`.
pub fn month_period(year: i32, month: u32) -> (r: Result<(Date, Date), MangoError>)
    ensures
        r == month_period_spec(year, month),
{
    if month < 1 || month > 12 {
        return Err(MangoError::MonthOutOfRange);
    }
    let start = match chrono_from_ymd(year, month, 1) {
        Some(d) => d,
        None => return Err(MangoError::InvalidDate),
    };
    let next = if month == 12 {
        chrono_from_ymd(year + 1, 1, 1)
    } else {
        chrono_from_ymd(year, month + 1, 1)
    };
    let next = match next {
        Some(d) => d,
        None => return Err(MangoError::InvalidEndDate),
    };
    let end = chrono_previous_day(next);
    Ok((start, end))
}

/// The period that a report covers, as `YYYY-MM-DD` texts, on a given day.
pub open spec fn resolved_period(
    today: Date,
    from: Option<Seq<char>>,
    to: Option<Seq<char>>,
    month: Option<u32>,
    year: Option<i32>,
) -> Result<(Seq<char>, Seq<char>), MangoError> {
    let y = match year {
        Some(y) => y,
        None => today.year,
    };
    match month {
        Some(m) => match month_period_spec(y, m) {
            Ok((s, e)) => Ok((date_text(s), date_text(e))),
            Err(err) => Err(err),
        },
        None => match year {
            Some(y) => if min_year() <= y <= max_year() {
                Ok(
                    (
                        date_text(Date { year: y, month: 1, day: 1 }),
                        date_text(Date { year: y, month: 12, day: 31 }),
                    ),
                )
            } else {
                Err(MangoError::InvalidDate)
            },
            None => Ok(
                (
                    match from {
                        Some(f) => f,
                        None => "1970-01-01"@,
                    },
                    match to {
                        Some(t) => t,
                        None => date_text(today),
                    },
                ),
            ),
        },
    }
}

/// Once a year is given, the period of a report no longer depends on the
/// day on which it is asked for, nor on the given bounds.
pub proof fn lemma_period_with_year_is_fixed(
    t1: Date,
    t2: Date,
    from1: Option<Seq<char>>,
    from2: Option<Seq<char>>,
    to1: Option<Seq<char>>,
    to2: Option<Seq<char>>,
    month: Option<u32>,
    year: i32,
)
    ensures
        resolved_period(t1, from1, to1, month, Some(year)) == resolved_period(
            t2,
            from2,
            to2,
            month,
            Some(year),
        ),
{
}

/// The period of a report as seen on the day `today`: a month (of `year`,
/// or of the current year), a whole year, or the given bounds, which
/// default to 1970-01-01 and today.
pub fn resolve_dates_on(
    today: Date,
    from: Option<String>,
    to: Option<String>,
    month: Option<u32>,
    year: Option<i32>,
) -> (r: Result<(String, String), MangoError>)
    requires
        today.valid(),
    ensures
        match (r, resolved_period(
            today,
            match from {
                Some(f) => Some(f@),
                None => None,
            },
            match to {
                Some(t) => Some(t@),
                None => None,
            },
            month,
            year,
        )) {
            (Ok((a, b)), Ok((sa, sb))) => a@ == sa && b@ == sb,
            (Err(e), Err(se)) => e == se,
            _ => false,
        },
{
    let resolved_year = match year {
        Some(y) => y,
        None => today.year,
    };
    if let Some(m) = month {
        let (start, end) = month_period(resolved_year, m)?;
        return Ok((chrono_date_text(start), chrono_date_text(end)));
    }
    if let Some(y) = year {
        let start = match chrono_from_ymd(y, 1, 1) {
            Some(d) => d,
            None => return Err(MangoError::InvalidDate),
        };
        let end = match chrono_from_ymd(y, 12, 31) {
            Some(d) => d,
            None => return Err(MangoError::InvalidDate),
        };
        return Ok((chrono_date_text(start), chrono_date_text(end)));
    }
    let final_from = match from {
        Some(f) => f,
        None => String::from_str("1970-01-01"),
    };
    let final_to = match to {
        Some(t) => t,
        None => chrono_date_text(today),
    };
    Ok((final_from, final_to))
}

/// The period of a report as seen today (see `resolve_dates_on`); which
/// day today is comes from the clock.
pub fn resolve_dates(
    from: Option<String>,
    to: Option<String>,
    month: Option<u32>,
    year: Option<i32>,
) -> (r: Result<(String, String), MangoError>)
    ensures
        exists|t: Date|
            #![trigger t.valid()]
            t.valid() && match (r, resolved_period(
                t,
                match from {
                    Some(f) => Some(f@),
                    None => None,
                },
                match to {
                    Some(x) => Some(x@),
                    None => None,
                },
                month,
                year,
            )) {
                (Ok((a, b)), Ok((sa, sb))) => a@ == sa && b@ == sb,
                (Err(e), Err(se)) => e == se,
                _ => false,
            },
{
    let t = chrono_today();
    let r = resolve_dates_on(t, from, to, month, year);
    assert(t.valid());
    r
}

} // verus!
