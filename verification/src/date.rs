//! Calendar dates of the proleptic Gregorian calendar, held as plain
//! year/month/day values; chrono validates, formats, parses and subtracts them.
use vstd::prelude::*;
use chrono::Datelike;

verus! {

/// Earliest year chrono's `NaiveDate` represents.
pub const MIN_YEAR: i32 = -262143;

/// Latest year chrono's `NaiveDate` represents.
pub const MAX_YEAR: i32 = 262142;

/// Leap years of the Gregorian calendar.
pub open spec fn is_leap_year(y: int) -> bool {
    (y % 4 == 0 && y % 100 != 0) || y % 400 == 0
}

/// Number of days in month `m` of year `y`.
pub open spec fn days_in_month(y: int, m: int) -> int {
    if m == 2 {
        if is_leap_year(y) {
            29
        } else {
            28
        }
    } else if m == 4 || m == 6 || m == 9 || m == 11 {
        30
    } else {
        31
    }
}

/// A year, month and day that name a day chrono can represent.
pub open spec fn valid_ymd(y: int, m: int, d: int) -> bool {
    &&& MIN_YEAR <= y <= MAX_YEAR
    &&& 1 <= m <= 12
    &&& 1 <= d <= days_in_month(y, m)
}

/// Days of year `y` before the first of month `m`.
pub open spec fn days_before_month(y: int, m: int) -> int {
    let leap: int = if is_leap_year(y) && m > 2 {
        1
    } else {
        0
    };
    let base: int = if m <= 1 {
        0
    } else if m == 2 {
        31
    } else if m == 3 {
        59
    } else if m == 4 {
        90
    } else if m == 5 {
        120
    } else if m == 6 {
        151
    } else if m == 7 {
        181
    } else if m == 8 {
        212
    } else if m == 9 {
        243
    } else if m == 10 {
        273
    } else if m == 11 {
        304
    } else {
        334
    };
    base + leap
}

/// Days from 0001-01-01 to the first of January of year `y` (negative
/// before year 1).
pub open spec fn days_before_year(y: int) -> int {
    let p = y - 1;
    365 * p + p / 4 - p / 100 + p / 400
}

/// The day number of a date, counting 0001-01-01 as day 1 (chrono's
/// `num_days_from_ce`).
pub open spec fn day_number(y: int, m: int, d: int) -> int {
    days_before_year(y) + days_before_month(y, m) + d
}

/// What chrono's `NaiveDate::parse_from_str(s, "%Y-%m-%d")` reads from `s`.
pub uninterp spec fn parsed_ymd(s: Seq<char>) -> Option<(i32, u32, u32)>;

/// `n` in decimal, with zeros in front up to `w` digits.
pub open spec fn zero_padded(n: nat, w: nat) -> Seq<char> {
    let t = crate::text::decimal(n);
    if t.len() < w {
        Seq::new((w - t.len()) as nat, |i: int| '0') + t
    } else {
        t
    }
}

/// The year of a date as text: four digits for years 0 to 9999, else a
/// sign and at least four digits.
pub open spec fn year_text(y: int) -> Seq<char> {
    if 0 <= y <= 9999 {
        zero_padded(y as nat, 4)
    } else if y < 0 {
        "-"@ + zero_padded((-y) as nat, 4)
    } else {
        "+"@ + zero_padded(y as nat, 4)
    }
}

/// The text chrono's `Display` for `NaiveDate` gives a date: the year,
/// then month and day in two digits each, joined by dashes.
pub open spec fn date_text(y: i32, m: u32, d: u32) -> Seq<char> {
    year_text(y as int) + "-"@ + zero_padded(m as nat, 2) + "-"@ + zero_padded(d as nat, 2)
}

/// Whether chrono accepts the date: `NaiveDate::from_ymd_opt(..).is_some()`.
/// chrono documents that it returns `None` exactly on an invalid month or
/// day or a year out of its range.
#[verifier::external_body]
fn chrono_valid(y: i32, m: u32, d: u32) -> (r: bool)
    ensures
        r == valid_ymd(y as int, m as int, d as int),
{
    chrono::NaiveDate::from_ymd_opt(y, m, d).is_some()
}

/// `(a - b).num_days()` on chrono dates: the signed number of days from `b`
/// to `a`, the difference of their day numbers.
#[verifier::external_body]
fn chrono_days_between(a: (i32, u32, u32), b: (i32, u32, u32)) -> (r: i64)
    requires
        valid_ymd(a.0 as int, a.1 as int, a.2 as int),
        valid_ymd(b.0 as int, b.1 as int, b.2 as int),
    ensures
        r == day_number(a.0 as int, a.1 as int, a.2 as int) - day_number(b.0 as int, b.1 as int, b.2 as int),
{
    match (chrono::NaiveDate::from_ymd_opt(a.0, a.1, a.2), chrono::NaiveDate::from_ymd_opt(b.0, b.1, b.2)) {
        (Some(x), Some(y)) => x.signed_duration_since(y).num_days(),
        _ => 0,
    }
}

/// chrono's `Display` of a `NaiveDate` (`YYYY-MM-DD`, see `date_text`).
/// chrono documents that `parse_from_str` with `%Y-%m-%d` reads this text
/// back to the same date.
#[verifier::external_body]
fn chrono_date_text(y: i32, m: u32, d: u32) -> (r: String)
    requires
        valid_ymd(y as int, m as int, d as int),
    ensures
        r@ == date_text(y, m, d),
        parsed_ymd(r@) == Some((y, m, d)),
{
    match chrono::NaiveDate::from_ymd_opt(y, m, d) {
        Some(x) => x.to_string(),
        None => String::new(),
    }
}

/// chrono's `NaiveDate::parse_from_str(s, "%Y-%m-%d")`, as year, month and
/// day; a parsed date is always a valid one.
#[verifier::external_body]
fn chrono_parse_ymd(s: &str) -> (r: Option<(i32, u32, u32)>)
    ensures
        r == parsed_ymd(s@),
        r matches Some(t) ==> valid_ymd(t.0 as int, t.1 as int, t.2 as int),
{
    match chrono::NaiveDate::parse_from_str(s, "%Y-%m-%d") {
        Ok(x) => Some((x.year(), x.month(), x.day())),
        Err(_) => None,
    }
}

/// A calendar date.
#[derive(Clone, Copy, Debug, PartialEq, Eq, Structural)]
pub struct Date {
    pub year: i32,
    pub month: u32,
    pub day: u32,
}

impl Date {
    /// The date names a real day in chrono's range.
    pub open spec fn wf(self) -> bool {
        valid_ymd(self.year as int, self.month as int, self.day as int)
    }

    /// The day number of the date (see `day_number`).
    pub open spec fn ordinal(self) -> int {
        day_number(self.year as int, self.month as int, self.day as int)
    }

    /// The date of the given year, month and day, if there is one.
    pub fn from_ymd(year: i32, month: u32, day: u32) -> (r: Option<Date>)
        ensures
            r is Some <==> valid_ymd(year as int, month as int, day as int),
            r matches Some(x) ==> x == (Date { year, month, day }),
    {
        if chrono_valid(year, month, day) {
            Some(Date { year, month, day })
        } else {
            None
        }
    }

    /// Signed number of calendar days from `other` to `self`.
    pub fn days_since(&self, other: &Date) -> (r: i64)
        requires
            self.wf(),
            other.wf(),
        ensures
            r == self.ordinal() - other.ordinal(),
    {
        chrono_days_between((self.year, self.month, self.day), (other.year, other.month, other.day))
    }

    /// `true` when `self` is a later day than `other`.
    pub fn is_after(&self, other: &Date) -> (r: bool)
        requires
            self.wf(),
            other.wf(),
        ensures
            r == (self.ordinal() > other.ordinal()),
    {
        self.days_since(other) > 0
    }

    /// The date as text, `YYYY-MM-DD`.
    pub fn to_text(&self) -> (r: String)
        requires
            self.wf(),
        ensures
            r@ == date_text(self.year, self.month, self.day),
            parsed_ymd(r@) == Some((self.year, self.month, self.day)),
    {
        chrono_date_text(self.year, self.month, self.day)
    }

    /// Reads a `YYYY-MM-DD` date.
    pub fn parse(s: &str) -> (r: Option<Date>)
        ensures
            r is Some <==> parsed_ymd(s@) is Some,
            r matches Some(x) ==> x.wf() && parsed_ymd(s@) == Some((x.year, x.month, x.day)),
    {
        match chrono_parse_ymd(s) {
            Some((y, m, d)) => Some(Date { year: y, month: m, day: d }),
            None => None,
        }
    }
}

/// chrono's `weekday().num_days_from_sunday()`: 0 for Sunday through 6 for
/// Saturday. 0001-01-01 (day number 1) is a Monday, so this is the day
/// number modulo 7.
#[verifier::external_body]
fn chrono_weekday_from_sunday(y: i32, m: u32, d: u32) -> (r: u32)
    requires
        valid_ymd(y as int, m as int, d as int),
    ensures
        r as int == day_number(y as int, m as int, d as int) % 7,
{
    match chrono::NaiveDate::from_ymd_opt(y, m, d) {
        Some(x) => x.weekday().num_days_from_sunday(),
        None => 0,
    }
}

impl Date {
    /// The day of the week, counted from Sunday (0) to Saturday (6).
    pub fn weekday_from_sunday(&self) -> (r: u32)
        requires
            self.wf(),
        ensures
            r as int == self.ordinal() % 7,
            r < 7,
    {
        chrono_weekday_from_sunday(self.year, self.month, self.day)
    }
}

/// An instant in UTC: seconds since 1970-01-01T00:00:00Z and the
/// nanoseconds within that second.
#[derive(Clone, Copy, Debug, PartialEq, Eq, Structural)]
pub struct Timestamp {
    pub seconds: i64,
    pub nanos: u32,
}

/// What chrono's `DateTime::parse_from_rfc3339` reads from `s`, as a UTC
/// timestamp.
pub uninterp spec fn parsed_rfc3339(s: Seq<char>) -> Option<Timestamp>;

/// The text chrono's `DateTime<Utc>::to_rfc3339` gives an instant.
pub uninterp spec fn rfc3339_text(t: Timestamp) -> Seq<char>;

/// The current time, from chrono's `Utc::now()`: the system clock's time
/// since 1970, so at least zero seconds, with fewer than 10^9 nanoseconds
/// (chrono panics on a clock set before 1970). Which instant it is, is not
/// known.
#[verifier::external_body]
pub(crate) fn now() -> (t: Timestamp)
    ensures
        t.seconds >= 0,
        t.nanos < 1_000_000_000,
{
    let n = chrono::Utc::now();
    Timestamp { seconds: n.timestamp(), nanos: n.timestamp_subsec_nanos() }
}

/// chrono's `DateTime::parse_from_rfc3339`, converted to UTC and taken
/// apart into seconds and nanoseconds.
#[verifier::external_body]
fn chrono_parse_rfc3339(s: &str) -> (r: Option<Timestamp>)
    ensures
        r == parsed_rfc3339(s@),
{
    match chrono::DateTime::parse_from_rfc3339(s) {
        Ok(x) => Some(Timestamp { seconds: x.timestamp(), nanos: x.timestamp_subsec_nanos() }),
        Err(_) => None,
    }
}

/// chrono's `to_rfc3339` of the UTC instant (`DateTime::from_timestamp`).
#[verifier::external_body]
fn chrono_rfc3339_text(t: Timestamp) -> (r: String)
    ensures
        r@ == rfc3339_text(t),
{
    match chrono::DateTime::from_timestamp(t.seconds, t.nanos) {
        Some(x) => x.to_rfc3339(),
        None => String::new(),
    }
}

impl Timestamp {
    /// Reads an RFC 3339 date and time.
    pub fn parse_rfc3339(s: &str) -> (r: Option<Timestamp>)
        ensures
            r == parsed_rfc3339(s@),
    {
        chrono_parse_rfc3339(s)
    }

    /// The instant as RFC 3339 text.
    pub fn to_rfc3339(&self) -> (r: String)
        ensures
            r@ == rfc3339_text(*self),
    {
        chrono_rfc3339_text(*self)
    }
}

/// chrono's `succ_opt`: the next day, `None` only after the last day chrono
/// represents (the last day of `MAX_YEAR`).
#[verifier::external_body]
fn chrono_succ(y: i32, m: u32, d: u32) -> (r: Option<(i32, u32, u32)>)
    requires
        valid_ymd(y as int, m as int, d as int),
    ensures
        r matches Some(t) ==> valid_ymd(t.0 as int, t.1 as int, t.2 as int) && day_number(t.0 as int, t.1 as int, t.2 as int)
            == day_number(y as int, m as int, d as int) + 1,
        r is None ==> y == MAX_YEAR && m == 12 && d == 31,
{
    match chrono::NaiveDate::from_ymd_opt(y, m, d) {
        Some(x) => match x.succ_opt() {
            Some(n) => Some((n.year(), n.month(), n.day())),
            None => None,
        },
        None => None,
    }
}

impl Date {
    /// The next day; `None` for the last representable day.
    pub fn succ(&self) -> (r: Option<Date>)
        requires
            self.wf(),
        ensures
            r matches Some(n) ==> n.wf() && n.ordinal() == self.ordinal() + 1,
            r is None ==> self.year == MAX_YEAR && self.month == 12 && self.day == 31,
    {
        match chrono_succ(self.year, self.month, self.day) {
            Some((y, m, d)) => Some(Date { year: y, month: m, day: d }),
            None => None,
        }
    }
}

} // verus!
