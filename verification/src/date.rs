//! Calendar dates: the library's own date value, its validity, and the date
//! arithmetic and formatting that the report and the job handling need.

use vstd::prelude::*;
use crate::text::{decimal, digit_char};

verus! {

/// A calendar date of the proleptic Gregorian calendar.
#[derive(Clone, Copy, Debug, PartialEq, Eq, Structural)]
pub struct Date {
    pub year: i32,
    pub month: u32,
    pub day: u32,
}

/// The first year that a date may have.
pub open spec fn min_year() -> int {
    -262143
}

/// The last year that a date may have.
pub open spec fn max_year() -> int {
    262142
}

/// Leap years of the proleptic Gregorian calendar.
pub open spec fn is_leap_year(y: int) -> bool {
    (y % 4 == 0 && y % 100 != 0) || y % 400 == 0
}

/// The number of days of a month.
pub open spec fn days_in_month(y: int, m: int) -> int {
    if m == 2 {
        if is_leap_year(y) {
            29
        } else {
            28
        }
    } else if m == 4 || m == 6 || m == 9 || m == 11 {
        30
    } else {
        31
    }
}

/// Whether year, month and day name a date of the supported range.
pub open spec fn valid_ymd(y: int, m: int, d: int) -> bool {
    &&& min_year() <= y <= max_year()
    &&& 1 <= m <= 12
    &&& 1 <= d <= days_in_month(y, m)
}

impl Date {
    /// Whether the date exists in the calendar and lies in the supported range.
    pub open spec fn valid(self) -> bool {
        valid_ymd(self.year as int, self.month as int, self.day as int)
    }

    /// The order of dates: by year, then month, then day.
    pub open spec fn spec_before_or_same(self, other: Date) -> bool {
        ||| self.year < other.year
        ||| (self.year == other.year && self.month < other.month)
        ||| (self.year == other.year && self.month == other.month && self.day <= other.day)
    }

    /// Whether `self` comes before `other` or is the same day.
    pub fn before_or_same(&self, other: &Date) -> (r: bool)
        ensures
            r == self.spec_before_or_same(*other),
    {
        self.year < other.year || (self.year == other.year && self.month < other.month) || (
        self.year == other.year && self.month == other.month && self.day <= other.day)
    }
}


/// The day before `d`, when it is in range.
pub open spec fn spec_pred(d: Date) -> Option<Date> {
    if d.day > 1 {
        Some(Date { year: d.year, month: d.month, day: (d.day - 1) as u32 })
    } else if d.month > 1 {
        Some(Date { year: d.year, month: (d.month - 1) as u32, day: days_in_month(d.year as int, d.month - 1) as u32 })
    } else if d.year > min_year() {
        Some(Date { year: (d.year - 1) as i32, month: 12, day: 31 })
    } else {
        None
    }
}

/// The days of the months before month `m` of year `y`.
pub open spec fn days_before_month(y: int, m: int) -> int
    decreases m,
{
    if m <= 1 {
        0
    } else {
        days_before_month(y, m - 1) + days_in_month(y, m - 1)
    }
}

/// Days from the first of January of year 1 (day 1) to `d`.
pub open spec fn days_from_ce(d: Date) -> int {
    let y = d.year - 1;
    365 * y + y / 4 - y / 100 + y / 400 + days_before_month(d.year as int, d.month as int) + d.day
}

/// Days from the first of January of year 1 to the first of January of `y`,
/// less one.
pub open spec fn days_before_year(y: int) -> int {
    let p = y - 1;
    365 * p + p / 4 - p / 100 + p / 400
}

proof fn lemma_year_length(y: int)
    ensures
        days_before_year(y + 1) == days_before_year(y) + 365 + if is_leap_year(y) { 1int } else { 0int },
{
    let p = y - 1;
    assert(y / 4 == p / 4 + if y % 4 == 0 { 1int } else { 0int });
    assert(y / 100 == p / 100 + if y % 100 == 0 { 1int } else { 0int });
    assert(y / 400 == p / 400 + if y % 400 == 0 { 1int } else { 0int });
    if y % 400 == 0 {
        assert(y % 100 == 0 && y % 4 == 0) by {
            assert(y == 400 * (y / 400));
        }
    } else if y % 100 == 0 {
        assert(y % 4 == 0) by {
            assert(y == 100 * (y / 100));
        }
    }
}

proof fn lemma_days_before_year_increasing(y1: int, y2: int)
    requires
        y1 <= y2,
    ensures
        days_before_year(y1) + 365 * (y2 - y1) <= days_before_year(y2),
    decreases y2 - y1,
{
    if y1 < y2 {
        lemma_days_before_year_increasing(y1, y2 - 1);
        lemma_year_length(y2 - 1);
    }
}

proof fn lemma_days_before_month_increasing(y: int, m1: int, m2: int)
    requires
        1 <= m1 < m2,
    ensures
        days_before_month(y, m1) + days_in_month(y, m1) <= days_before_month(y, m2),
    decreases m2 - m1,
{
    if m1 + 1 < m2 {
        lemma_days_before_month_increasing(y, m1, m2 - 1);
    }
}

proof fn lemma_days_before_month_nonneg(y: int, m: int)
    ensures
        days_before_month(y, m) >= 0,
    decreases m,
{
    if m > 1 {
        lemma_days_before_month_nonneg(y, m - 1);
    }
}

proof fn lemma_days_in_year(y: int)
    ensures
        days_before_month(y, 12) + 31 == 365 + if is_leap_year(y) { 1int } else { 0int },
{
    reveal_with_fuel(days_before_month, 13);
}

/// Later days have more days since the start of the era: `days_from_ce`
/// grows by at least one from a valid day to any later valid day.
pub proof fn lemma_days_from_ce_increasing(d1: Date, d2: Date)
    requires
        d1.valid(),
        d2.valid(),
        d1.spec_before_or_same(d2),
        d1 != d2,
    ensures
        days_from_ce(d1) < days_from_ce(d2),
{
    let y1 = d1.year as int;
    let y2 = d2.year as int;
    assert(days_from_ce(d1) == days_before_year(y1) + days_before_month(y1, d1.month as int) + d1.day);
    assert(days_from_ce(d2) == days_before_year(y2) + days_before_month(y2, d2.month as int) + d2.day);
    if y1 == y2 {
        if d1.month < d2.month {
            lemma_days_before_month_increasing(y1, d1.month as int, d2.month as int);
        }
    } else {
        if d1.month < 12 {
            lemma_days_before_month_increasing(y1, d1.month as int, 12);
        }
        lemma_days_in_year(y1);
        lemma_year_length(y1);
        lemma_days_before_year_increasing(y1 + 1, y2);
        lemma_days_before_month_nonneg(y2, d2.month as int);
        assert(y1 < y2);
        assert(days_before_month(y1, d1.month as int) + d1.day <= days_before_month(y1, 12) + 31);
        assert(days_from_ce(d1) <= days_before_year(y1 + 1));
        assert(days_before_year(y1 + 1) <= days_before_year(y2));
    }
}

/// Milliseconds from 1970-01-01T00:00:00 UTC to the time `h:mi:s` of day `d` (UTC).
pub open spec fn epoch_millis(d: Date, h: int, mi: int, s: int) -> int {
    ((days_from_ce(d) - 719163) * 86400 + h * 3600 + mi * 60 + s) * 1000
}

/// A number below 10000 written with at least four digits.
pub open spec fn four_digits(n: nat) -> Seq<char> {
    if n < 10 {
        seq!['0', '0', '0'] + decimal(n)
    } else if n < 100 {
        seq!['0', '0'] + decimal(n)
    } else if n < 1000 {
        seq!['0'] + decimal(n)
    } else {
        decimal(n)
    }
}

/// Two decimal digits.
pub open spec fn two_digits(n: nat) -> Seq<char> {
    seq![digit_char((n / 10) as int), digit_char((n % 10) as int)]
}

/// The ISO 8601 text of a date: `YYYY-MM-DD`, the year with an explicit sign
/// when it lies outside 0..=9999.
pub open spec fn iso_text(d: Date) -> Seq<char> {
    let y = d.year as int;
    let year_text = if 0 <= y <= 9999 {
        four_digits(y as nat)
    } else if y < 0 {
        seq!['-'] + four_digits((-y) as nat)
    } else {
        seq!['+'] + four_digits(y as nat)
    };
    year_text + seq!['-'] + two_digits(d.month as nat) + seq!['-'] + two_digits(d.day as nat)
}

/// What `NaiveDate::parse_from_str(s, "%Y-%m-%d")` yields for the text `s`,
/// as year, month and day.
pub uninterp spec fn parsed_ymd(s: Seq<char>) -> Option<(i32, u32, u32)>;

/// The date that `parsed_ymd` yields, as a `Date`.
pub open spec fn parsed_date(s: Seq<char>) -> Option<Date> {
    match parsed_ymd(s) {
        Some((y, m, d)) => Some(Date { year: y, month: m, day: d }),
        None => None,
    }
}

/// `chrono::NaiveDate::from_ymd_opt`: the date of the given year, month and
/// day when it exists and lies in chrono's range of years, else `None`.
#[verifier::external_body]
pub(crate) fn date_from_ymd(year: i32, month: u32, day: u32) -> (r: Option<Date>)
    ensures
        r is Some <==> valid_ymd(year as int, month as int, day as int),
        r matches Some(d) ==> d == (Date { year, month, day }),
{
    match chrono::NaiveDate::from_ymd_opt(year, month, day) {
        Some(_) => Some(Date { year, month, day }),
        None => None,
    }
}

/// `chrono::NaiveDate::pred_opt`: the previous day, `None` before the first
/// day of chrono's range.
#[verifier::external_body]
pub(crate) fn date_pred(d: Date) -> (r: Option<Date>)
    requires
        d.valid(),
    ensures
        r == spec_pred(d),
{
    let n = chrono::NaiveDate::from_ymd_opt(d.year, d.month, d.day).unwrap();
    match n.pred_opt() {
        Some(p) => Some(Date {
            year: chrono::Datelike::year(&p),
            month: chrono::Datelike::month(&p),
            day: chrono::Datelike::day(&p),
        }),
        None => None,
    }
}

/// `chrono::Datelike::with_day` on a `NaiveDate`: the same month with the day
/// replaced, `None` when that day does not exist.
#[verifier::external_body]
pub(crate) fn date_with_day(d: Date, day: u32) -> (r: Option<Date>)
    requires
        d.valid(),
    ensures
        r is Some <==> valid_ymd(d.year as int, d.month as int, day as int),
        r matches Some(x) ==> x == (Date { year: d.year, month: d.month, day }),
{
    let n = chrono::NaiveDate::from_ymd_opt(d.year, d.month, d.day).unwrap();
    match chrono::Datelike::with_day(&n, day) {
        Some(_) => Some(Date { year: d.year, month: d.month, day }),
        None => None,
    }
}

/// `chrono::NaiveDate::parse_from_str` with the format `%Y-%m-%d`. What it
/// accepts is left to the name `parsed_ymd`; a date it yields is a valid date.
#[verifier::external_body]
pub(crate) fn parse_iso_date(s: &str) -> (r: Option<Date>)
    ensures
        r == (match parsed_ymd(s@) {
            Some((y, m, d)) => Some(Date { year: y, month: m, day: d }),
            None => None,
        }),
        r matches Some(d) ==> d.valid(),
{
    match chrono::NaiveDate::parse_from_str(s, "%Y-%m-%d") {
        Ok(p) => Some(Date {
            year: chrono::Datelike::year(&p),
            month: chrono::Datelike::month(&p),
            day: chrono::Datelike::day(&p),
        }),
        Err(_) => None,
    }
}

/// `Display` of `chrono::NaiveDate` (`to_string`): the ISO 8601 text of the date.
#[verifier::external_body]
pub(crate) fn date_to_text(d: Date) -> (s: String)
    requires
        d.valid(),
    ensures
        s@ == iso_text(d),
{
    chrono::NaiveDate::from_ymd_opt(d.year, d.month, d.day).unwrap().to_string()
}

/// `NaiveDate::and_hms_opt`, `NaiveDateTime::and_utc` and
/// `DateTime::timestamp_millis`: the milliseconds since the Unix epoch of the
/// given time of day of `d`, read as UTC.
#[verifier::external_body]
pub(crate) fn date_time_millis(d: Date, hour: u32, min: u32, sec: u32) -> (ms: i64)
    requires
        d.valid(),
        hour < 24,
        min < 60,
        sec < 60,
    ensures
        ms == epoch_millis(d, hour as int, min as int, sec as int),
{
    chrono::NaiveDate::from_ymd_opt(d.year, d.month, d.day).unwrap().and_hms_opt(hour, min, sec).unwrap().and_utc().timestamp_millis()
}

/// The last day of the month of `date`.
pub fn last_day_of_month(date: Date) -> (r: Date)
    requires
        date.valid(),
        !(date.month == 12 && date.year == max_year()),
    ensures
        r == (Date { year: date.year, month: date.month, day: days_in_month(date.year as int, date.month as int) as u32 }),
        r.valid(),
{
    let next_month = if date.month == 12 {
        date_from_ymd(date.year + 1, 1, 1)
    } else {
        date_from_ymd(date.year, date.month + 1, 1)
    };
    let first = match next_month {
        Some(d) => d,
        None => {
            proof {
                assert(false);
            }
            date
        },
    };
    match date_pred(first) {
        Some(d) => d,
        None => {
            proof {
                assert(false);
            }
            date
        },
    }
}

/// The first day of the month of `today` and the last day of that month, as
/// ISO 8601 text: the default range of a report.
pub fn default_date_range(today: Date) -> (r: (String, String))
    requires
        today.valid(),
        !(today.month == 12 && today.year == max_year()),
    ensures
        r.0@ == iso_text(Date { year: today.year, month: today.month, day: 1 }),
        r.1@ == iso_text(Date { year: today.year, month: today.month, day: days_in_month(today.year as int, today.month as int) as u32 }),
{
    let first = match date_with_day(today, 1) {
        Some(d) => d,
        None => today,
    };
    let last = last_day_of_month(today);
    (date_to_text(first), date_to_text(last))
}

} // verus!
