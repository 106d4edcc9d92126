//! Calendar dates and their text form, `YYYY-MM-DD`.
//!
//! A date is kept as a year, a month and a day. Reading and writing a date,
//! and the clock, are chrono's: the three functions that call into it state
//! what they rely on.

use crate::error::ClosetError;
use crate::text::{chars_of, digit, digit_char, digit_value, is_digit, lemma_digit_char};
use chrono::{Datelike, Local, NaiveDate};
use vstd::prelude::*;

verus! {

/// A year, a month and a day, as plain numbers.
pub struct Ymd {
    pub year: int,
    pub month: int,
    pub day: int,
}

/// The date of a year, a month and a day.
pub open spec fn ymd(year: int, month: int, day: int) -> Ymd {
    Ymd { year, month, day }
}

/// Whether a year of the proleptic Gregorian calendar has a 29th of February.
pub open spec fn is_leap_year(year: int) -> bool {
    year % 4 == 0 && (year % 100 != 0 || year % 400 == 0)
}

/// The number of days of a month.
pub open spec fn days_in_month(year: int, month: int) -> int {
    if month == 2 {
        if is_leap_year(year) {
            29
        } else {
            28
        }
    } else if month == 4 || month == 6 || month == 9 || month == 11 {
        30
    } else {
        31
    }
}

/// Whether the calendar has this day, in a year that four digits can write.
pub open spec fn is_calendar_date(d: Ymd) -> bool {
    &&& 0 <= d.year <= 9999
    &&& 1 <= d.month <= 12
    &&& 1 <= d.day <= days_in_month(d.year, d.month)
}

/// Whether a text has the shape `YYYY-MM-DD`: ten characters, digits but
/// for the two hyphens.
pub open spec fn is_date_shape(s: Seq<char>) -> bool {
    &&& s.len() == 10
    &&& is_digit(s[0])
    &&& is_digit(s[1])
    &&& is_digit(s[2])
    &&& is_digit(s[3])
    &&& s[4] == '-'
    &&& is_digit(s[5])
    &&& is_digit(s[6])
    &&& s[7] == '-'
    &&& is_digit(s[8])
    &&& is_digit(s[9])
}

/// The numbers that a text of the shape `YYYY-MM-DD` holds.
pub open spec fn shape_numbers(s: Seq<char>) -> Ymd
    recommends
        is_date_shape(s),
{
    ymd(
        (digit_value(s[0]) * 1000 + digit_value(s[1]) * 100 + digit_value(s[2]) * 10 + digit_value(
            s[3],
        )) as int,
        (digit_value(s[5]) * 10 + digit_value(s[6])) as int,
        (digit_value(s[8]) * 10 + digit_value(s[9])) as int,
    )
}

/// The numbers that a text of the shape `YYYY-MM-DD` holds, where the
/// calendar has that day.
pub open spec fn calendar_numbers(s: Seq<char>) -> Option<(i32, u32, u32)>
    recommends
        is_date_shape(s),
{
    let d = shape_numbers(s);
    if is_calendar_date(d) {
        Some((d.year as i32, d.month as u32, d.day as u32))
    } else {
        None
    }
}

/// The date that a text denotes: it has the shape `YYYY-MM-DD` and the
/// calendar has that day.
pub open spec fn date_of_text(s: Seq<char>) -> Result<Ymd, ClosetError> {
    if is_date_shape(s) && is_calendar_date(shape_numbers(s)) {
        Ok(shape_numbers(s))
    } else {
        Err(ClosetError::InvalidDate)
    }
}

/// The text form of a date: four digits of the year, two of the month and two
/// of the day, with hyphens between them.
pub open spec fn date_text(d: Ymd) -> Seq<char>
    recommends
        is_calendar_date(d),
{
    seq![
        digit_char((d.year / 1000) as nat),
        digit_char((d.year / 100 % 10) as nat),
        digit_char((d.year / 10 % 10) as nat),
        digit_char((d.year % 10) as nat),
        '-',
        digit_char((d.month / 10) as nat),
        digit_char((d.month % 10) as nat),
        '-',
        digit_char((d.day / 10) as nat),
        digit_char((d.day % 10) as nat),
    ]
}

/// `NaiveDate::parse_from_str` with the format `%Y-%m-%d`, and the year,
/// month and day of the date it returns. On a text of the shape `YYYY-MM-DD`
/// chrono reads the three numbers as they stand and returns a date exactly
/// when the calendar has that day.
#[verifier::external_body]
fn parse_ymd(text: &str) -> (r: Option<(i32, u32, u32)>)
    requires
        is_date_shape(text@),
    ensures
        r == calendar_numbers(text@),
{
    match NaiveDate::parse_from_str(text, "%Y-%m-%d") {
        Ok(date) => Some((date.year(), date.month(), date.day())),
        Err(_) => None,
    }
}

/// `NaiveDate::from_ymd_opt` and the `Display` form of the date it returns.
/// For a day that the calendar has, in a year from 0 to 9999, chrono writes
/// the year with four digits, the month and the day with two, and hyphens
/// between them.
#[verifier::external_body]
fn format_ymd(year: i32, month: u32, day: u32) -> (r: String)
    requires
        is_calendar_date(ymd(year as int, month as int, day as int)),
    ensures
        r@ == date_text(ymd(year as int, month as int, day as int)),
{
    match NaiveDate::from_ymd_opt(year, month, day) {
        Some(date) => date.to_string(),
        None => String::new(),
    }
}

/// `Local::now`, and the year, month and day of its `date_naive`: the day that
/// the clock of the machine shows in its time zone. Which day that is depends
/// on the clock, so nothing is said of it. chrono unwinds where the clock
/// stands before 1970.
#[verifier::external_body]
fn clock_day() -> (r: (i32, u32, u32)) {
    let now = Local::now().date_naive();
    (now.year(), now.month(), now.day())
}

/// A day of the calendar, in a year from 0 to 9999.
#[derive(Debug, Clone, Copy, PartialEq, Eq)]
pub struct Date {
    year: i32,
    month: u32,
    day: u32,
}

impl View for Date {
    type V = Ymd;

    closed spec fn view(&self) -> Ymd {
        ymd(self.year as int, self.month as int, self.day as int)
    }
}

impl Date {
    /// Whether the calendar has this day: this holds of every date.
    #[verifier::type_invariant]
    pub closed spec fn wf(&self) -> bool {
        is_calendar_date(self@)
    }

    /// The date of the given year, month and day, where the calendar has
    /// that day and the year is from 0 to 9999.
    pub fn new(year: i32, month: u32, day: u32) -> (r: Option<Date>)
        ensures
            r is Some <==> is_calendar_date(ymd(year as int, month as int, day as int)),
            r is Some ==> r->0@ == ymd(year as int, month as int, day as int) && r->0.wf(),
    {
        if year < 0 || year > 9999 || month < 1 || month > 12 || day < 1 {
            return None;
        }
        let leap = year % 4 == 0 && (year % 100 != 0 || year % 400 == 0);
        let days: u32 = if month == 2 {
            if leap {
                29
            } else {
                28
            }
        } else if month == 4 || month == 6 || month == 9 || month == 11 {
            30
        } else {
            31
        };
        if day > days {
            None
        } else {
            Some(Date { year, month, day })
        }
    }

    /// The day that the clock of the machine shows, where it is a day of a
    /// year from 0 to 9999.
    pub fn today() -> (r: Option<Date>)
        ensures
            r is Some ==> r->0.wf(),
    {
        let (year, month, day) = clock_day();
        Date::new(year, month, day)
    }

    /// Reads a date written as `YYYY-MM-DD`.
    pub fn from_str(text: &str) -> (r: Result<Date, ClosetError>)
        ensures
            match r {
                Ok(d) => date_of_text(text@) == Ok::<Ymd, ClosetError>(d@) && d.wf(),
                Err(e) => date_of_text(text@) == Err::<Ymd, ClosetError>(e),
            },
    {
        let v = chars_of(text);
        if v.len() != 10 || v[4] != '-' || v[7] != '-' {
            return Err(ClosetError::InvalidDate);
        }
        if digit(v[0]).is_none() || digit(v[1]).is_none() || digit(v[2]).is_none() || digit(
            v[3],
        ).is_none() || digit(v[5]).is_none() || digit(v[6]).is_none() || digit(v[8]).is_none()
            || digit(v[9]).is_none() {
            return Err(ClosetError::InvalidDate);
        }
        match parse_ymd(text) {
            Some((year, month, day)) => Ok(Date { year, month, day }),
            None => Err(ClosetError::InvalidDate),
        }
    }

    /// The year, from 0 to 9999.
    pub fn year(&self) -> (r: i32)
        ensures
            r == self@.year,
    {
        self.year
    }

    /// The month, from 1 to 12.
    pub fn month(&self) -> (r: u32)
        ensures
            r == self@.month,
    {
        self.month
    }

    /// The day of the month, from 1.
    pub fn day(&self) -> (r: u32)
        ensures
            r == self@.day,
    {
        self.day
    }

    /// Writes a date as `YYYY-MM-DD`.
    pub fn to_string(&self) -> (r: String)
        ensures
            r@ == date_text(self@),
    {
        proof {
            use_type_invariant(self);
        }
        format_ymd(self.year, self.month, self.day)
    }

    /// Whether two dates are the same day.
    pub fn same_day(&self, other: &Date) -> (r: bool)
        ensures
            r == (self@ == other@),
    {
        self.year == other.year && self.month == other.month && self.day == other.day
    }
}

/// The four digits of a number below ten thousand denote it.
proof fn lemma_four_digits(y: int)
    requires
        0 <= y <= 9999,
    ensures
        0 <= y / 1000 < 10,
        (y / 1000) * 1000 + (y / 100 % 10) * 100 + (y / 10 % 10) * 10 + y % 10 == y,
{
    let tens = y / 10;
    let hundreds = tens / 10;
    let thousands = hundreds / 10;
    assert(hundreds == y / 100) by {
        vstd::arithmetic::div_mod::lemma_div_denominator(y, 10, 10);
    }
    assert(thousands == y / 1000) by {
        vstd::arithmetic::div_mod::lemma_div_denominator(y, 100, 10);
    }
    assert(y == tens * 10 + y % 10);
    assert(tens == hundreds * 10 + tens % 10);
    assert(hundreds == thousands * 10 + hundreds % 10);
}

/// The two digits of a number below a hundred denote it.
proof fn lemma_two_digits(m: int)
    requires
        0 <= m <= 99,
    ensures
        0 <= m / 10 < 10,
        (m / 10) * 10 + m % 10 == m,
{
}

/// The text of three numbers has the shape of a date and holds those
/// numbers.
proof fn lemma_text_numbers(d: Ymd)
    requires
        0 <= d.year <= 9999,
        0 <= d.month <= 99,
        0 <= d.day <= 99,
    ensures
        is_date_shape(date_text(d)),
        shape_numbers(date_text(d)) == d,
{
    let s = date_text(d);
    let y = d.year;
    lemma_four_digits(y);
    lemma_two_digits(d.month);
    lemma_two_digits(d.day);
    lemma_digit_char((y / 1000) as nat);
    lemma_digit_char((y / 100 % 10) as nat);
    lemma_digit_char((y / 10 % 10) as nat);
    lemma_digit_char((y % 10) as nat);
    lemma_digit_char((d.month / 10) as nat);
    lemma_digit_char((d.month % 10) as nat);
    lemma_digit_char((d.day / 10) as nat);
    lemma_digit_char((d.day % 10) as nat);
    assert(s[0] == digit_char((y / 1000) as nat));
    assert(s[1] == digit_char((y / 100 % 10) as nat));
    assert(s[2] == digit_char((y / 10 % 10) as nat));
    assert(s[3] == digit_char((y % 10) as nat));
    assert(s[5] == digit_char((d.month / 10) as nat));
    assert(s[6] == digit_char((d.month % 10) as nat));
    assert(s[8] == digit_char((d.day / 10) as nat));
    assert(s[9] == digit_char((d.day % 10) as nat));
    assert(s[4] == '-' && s[7] == '-');
    assert(s.len() == 10);
    let n = shape_numbers(s);
    assert(n.year == y);
    assert(n.month == d.month);
    assert(n.day == d.day);
}

/// A date that was written reads back as itself.
pub proof fn date_round_trip(d: Ymd)
    requires
        is_calendar_date(d),
    ensures
        date_of_text(date_text(d)) == Ok::<Ymd, ClosetError>(d),
{
    lemma_text_numbers(d);
}

} // verus!
