//! The time window of a request: calendar dates read from `YYYY-MM-DD`
//! text, and the rule that a window never ends before it starts.
use vstd::prelude::*;

verus! {

/// A calendar date of the proleptic Gregorian calendar.
#[derive(Clone, Copy, Debug, PartialEq, Eq, Structural)]
pub struct Date {
    pub year: u32,
    pub month: u32,
    pub day: u32,
}

/// Why a request window was refused.
#[derive(Clone, Copy, Debug, PartialEq, Eq, Structural)]
pub enum RangeError {
    /// The start is not a valid date.
    InvalidFrom,
    /// The end is not a valid date.
    InvalidTo,
    /// The window ends before it starts.
    Inverted,
}

/// The latest year that a date may have: four digits.
pub const MAX_YEAR: u32 = 9999;

pub open spec fn is_leap(y: int) -> bool {
    y % 4 == 0 && (y % 100 != 0 || y % 400 == 0)
}

pub open spec fn days_in_month(y: int, m: int) -> int {
    if m == 2 {
        if is_leap(y) {
            29
        } else {
            28
        }
    } else if m == 4 || m == 6 || m == 9 || m == 11 {
        30
    } else {
        31
    }
}

pub open spec fn valid_date(d: Date) -> bool {
    d.year <= MAX_YEAR && 1 <= d.month <= 12 && 1 <= d.day <= days_in_month(d.year as int, d.month as int)
}

/// Days from 0000-01-01 to the first day of year `y`.
pub open spec fn days_before_year(y: int) -> int {
    365 * y + (y + 3) / 4 - (y + 99) / 100 + (y + 399) / 400
}

/// Days from the first day of year `y` to the first day of its month `m`.
pub open spec fn days_before_month(y: int, m: int) -> int
    decreases m,
{
    if m <= 1 {
        0
    } else {
        days_before_month(y, m - 1) + days_in_month(y, m - 1)
    }
}

/// Days from 0000-01-01 to `d`.
pub open spec fn day_number(d: Date) -> int {
    days_before_year(d.year as int) + days_before_month(d.year as int, d.month as int) + d.day - 1
}

pub open spec fn digit_at(s: Seq<u8>, i: int) -> int {
    s[i] - 48
}

pub open spec fn is_digit_at(s: Seq<u8>, i: int) -> bool {
    48 <= s[i] <= 57
}

/// The date that `s` spells as `YYYY-MM-DD`, if it spells a valid one.
pub open spec fn date_of_text(s: Seq<u8>) -> Option<Date> {
    if s.len() == 10 && is_digit_at(s, 0) && is_digit_at(s, 1) && is_digit_at(s, 2) && is_digit_at(s, 3)
        && s[4] == 45 && is_digit_at(s, 5) && is_digit_at(s, 6) && s[7] == 45 && is_digit_at(s, 8)
        && is_digit_at(s, 9) {
        let d = Date {
            year: (digit_at(s, 0) * 1000 + digit_at(s, 1) * 100 + digit_at(s, 2) * 10 + digit_at(s, 3)) as u32,
            month: (digit_at(s, 5) * 10 + digit_at(s, 6)) as u32,
            day: (digit_at(s, 8) * 10 + digit_at(s, 9)) as u32,
        };
        if valid_date(d) {
            Some(d)
        } else {
            None
        }
    } else {
        None
    }
}

fn is_leap_year(y: u32) -> (r: bool)
    ensures
        r == is_leap(y as int),
{
    y % 4 == 0 && (y % 100 != 0 || y % 400 == 0)
}

/// The number of days of month `m` of year `y`.
pub fn month_length(y: u32, m: u32) -> (r: u32)
    ensures
        r == days_in_month(y as int, m as int),
{
    if m == 2 {
        if is_leap_year(y) {
            29
        } else {
            28
        }
    } else if m == 4 || m == 6 || m == 9 || m == 11 {
        30
    } else {
        31
    }
}

/// Whether `d` is a date of the calendar with a four-digit year.
pub fn is_valid_date(d: &Date) -> (r: bool)
    ensures
        r == valid_date(*d),
{
    d.year <= MAX_YEAR && 1 <= d.month && d.month <= 12 && 1 <= d.day && d.day <= month_length(
        d.year,
        d.month,
    )
}

/// Reads a `YYYY-MM-DD` date.
pub fn parse_date(text: &[u8]) -> (r: Option<Date>)
    ensures
        r == date_of_text(text@),
{
    if text.len() != 10 {
        return None;
    }
    let mut i: usize = 0;
    while i < 10
        invariant
            text@.len() == 10,
            i <= 10,
            forall|k: int| 0 <= k < i && k != 4 && k != 7 ==> is_digit_at(text@, k),
        decreases 10 - i,
    {
        if i != 4 && i != 7 && (text[i] < 48 || text[i] > 57) {
            return None;
        }
        i = i + 1;
    }
    assert(is_digit_at(text@, 0) && is_digit_at(text@, 1) && is_digit_at(text@, 2) && is_digit_at(text@, 3));
    assert(is_digit_at(text@, 5) && is_digit_at(text@, 6) && is_digit_at(text@, 8) && is_digit_at(text@, 9));
    if text[4] != 45 || text[7] != 45 {
        return None;
    }
    let d = Date {
        year: (text[0] - 48) as u32 * 1000 + (text[1] - 48) as u32 * 100 + (text[2] - 48) as u32 * 10
            + (text[3] - 48) as u32,
        month: (text[5] - 48) as u32 * 10 + (text[6] - 48) as u32,
        day: (text[8] - 48) as u32 * 10 + (text[9] - 48) as u32,
    };
    if is_valid_date(&d) {
        Some(d)
    } else {
        None
    }
}

/// The day number of a valid date: days since 0000-01-01.
pub fn date_day_number(d: &Date) -> (r: u32)
    requires
        valid_date(*d),
    ensures
        r == day_number(*d),
        r <= 3_660_000,
{
    let y = d.year;
    let mut before_month: u32 = 0;
    let mut m: u32 = 1;
    while m < d.month
        invariant
            valid_date(*d),
            y == d.year,
            1 <= m <= d.month,
            before_month == days_before_month(y as int, m as int),
            before_month <= 31 * (m - 1),
        decreases d.month - m,
    {
        before_month = before_month + month_length(y, m);
        m = m + 1;
    }
    365 * y + (y + 3) / 4 - (y + 99) / 100 + (y + 399) / 400 + before_month + d.day - 1
}

/// The calendar day before `d`, if the calendar has one.
pub open spec fn previous_day(d: Date) -> Option<Date> {
    if d.day > 1 {
        Some(Date { year: d.year, month: d.month, day: (d.day - 1) as u32 })
    } else if d.month > 1 {
        Some(
            Date {
                year: d.year,
                month: (d.month - 1) as u32,
                day: days_in_month(d.year as int, d.month - 1) as u32,
            },
        )
    } else if d.year > 0 {
        Some(Date { year: (d.year - 1) as u32, month: 12, day: 31 })
    } else {
        None
    }
}

/// The calendar day after `d`, if a four-digit year holds it.
pub open spec fn next_day(d: Date) -> Option<Date> {
    if d.day < days_in_month(d.year as int, d.month as int) {
        Some(Date { year: d.year, month: d.month, day: (d.day + 1) as u32 })
    } else if d.month < 12 {
        Some(Date { year: d.year, month: (d.month + 1) as u32, day: 1 })
    } else if d.year < MAX_YEAR {
        Some(Date { year: (d.year + 1) as u32, month: 1, day: 1 })
    } else {
        None
    }
}

/// The day before a valid date.
pub fn day_before(d: &Date) -> (r: Option<Date>)
    requires
        valid_date(*d),
    ensures
        r == previous_day(*d),
        r matches Some(p) ==> valid_date(p),
{
    if d.day > 1 {
        Some(Date { year: d.year, month: d.month, day: d.day - 1 })
    } else if d.month > 1 {
        Some(Date { year: d.year, month: d.month - 1, day: month_length(d.year, d.month - 1) })
    } else if d.year > 0 {
        Some(Date { year: d.year - 1, month: 12, day: 31 })
    } else {
        None
    }
}

/// The day after a valid date.
pub fn day_after(d: &Date) -> (r: Option<Date>)
    requires
        valid_date(*d),
    ensures
        r == next_day(*d),
        r matches Some(n) ==> valid_date(n),
{
    if d.day < month_length(d.year, d.month) {
        Some(Date { year: d.year, month: d.month, day: d.day + 1 })
    } else if d.month < 12 {
        Some(Date { year: d.year, month: d.month + 1, day: 1 })
    } else if d.year < MAX_YEAR {
        Some(Date { year: d.year + 1, month: 1, day: 1 })
    } else {
        None
    }
}

/// The weeks that a window closed on both sides spans, its last partial
/// week counted whole; `None` for a window open on either side.
pub open spec fn weeks_spanned(w: TimeRange) -> Option<nat> {
    match (w.from, w.to) {
        (Some(f), Some(t)) => Some(((day_number(t) - day_number(f) + 7) / 7) as nat),
        _ => None,
    }
}

/// A request window; either side may be open.
#[derive(Clone, Copy, Debug, PartialEq, Eq, Structural)]
pub struct TimeRange {
    pub from: Option<Date>,
    pub to: Option<Date>,
}

impl TimeRange {
    /// Each bound is a valid date, and the window does not end before it starts.
    pub open spec fn wf(&self) -> bool {
        &&& match self.from {
            Some(f) => valid_date(f),
            None => true,
        }
        &&& match self.to {
            Some(t) => valid_date(t),
            None => true,
        }
        &&& match (self.from, self.to) {
            (Some(f), Some(t)) => day_number(f) <= day_number(t),
            _ => true,
        }
    }

    /// The window that is open on both sides.
    pub fn unbounded() -> (r: TimeRange)
        ensures
            r.wf(),
            r.from is None && r.to is None,
    {
        TimeRange { from: None, to: None }
    }

    /// Builds a window from its bounds, refusing invalid dates and a window
    /// that ends before it starts.
    pub fn new(from: Option<Date>, to: Option<Date>) -> (r: Result<TimeRange, RangeError>)
        ensures
            r == (if from matches Some(f) && !valid_date(f) {
                Err(RangeError::InvalidFrom)
            } else if to matches Some(t) && !valid_date(t) {
                Err(RangeError::InvalidTo)
            } else if from matches Some(f) && to matches Some(t) && day_number(f) > day_number(t) {
                Err(RangeError::Inverted)
            } else {
                Ok(TimeRange { from, to })
            }),
            r matches Ok(w) ==> w.wf(),
    {
        if let Some(f) = &from {
            if !is_valid_date(f) {
                return Err(RangeError::InvalidFrom);
            }
        }
        if let Some(t) = &to {
            if !is_valid_date(t) {
                return Err(RangeError::InvalidTo);
            }
        }
        if let (Some(f), Some(t)) = (&from, &to) {
            if date_day_number(f) > date_day_number(t) {
                return Err(RangeError::Inverted);
            }
        }
        Ok(TimeRange { from, to })
    }

    /// Builds a window from the `YYYY-MM-DD` texts of its bounds.
    pub fn parse(from: Option<&[u8]>, to: Option<&[u8]>) -> (r: Result<TimeRange, RangeError>)
        ensures
            r == (if from matches Some(f) && date_of_text(f@) is None {
                Err(RangeError::InvalidFrom)
            } else if to matches Some(t) && date_of_text(t@) is None {
                Err(RangeError::InvalidTo)
            } else {
                let fd = match from {
                    Some(f) => date_of_text(f@),
                    None => None,
                };
                let td = match to {
                    Some(t) => date_of_text(t@),
                    None => None,
                };
                if fd matches Some(f) && td matches Some(t) && day_number(f) > day_number(t) {
                    Err(RangeError::Inverted)
                } else {
                    Ok(TimeRange { from: fd, to: td })
                }
            }),
            r matches Ok(w) ==> w.wf(),
    {
        let fd = match from {
            Some(f) => match parse_date(f) {
                Some(d) => Some(d),
                None => {
                    return Err(RangeError::InvalidFrom);
                },
            },
            None => None,
        };
        let td = match to {
            Some(t) => match parse_date(t) {
                Some(d) => Some(d),
                None => {
                    return Err(RangeError::InvalidTo);
                },
            },
            None => None,
        };
        TimeRange::new(fd, td)
    }

    /// The number of weeks that a window closed on both sides spans, its
    /// last partial week counted whole; `None` for an open window.
    pub fn span_weeks(&self) -> (r: Option<u32>)
        requires
            self.wf(),
        ensures
            match r {
                Some(n) => weeks_spanned(*self) == Some(n as nat) && n >= 1,
                None => weeks_spanned(*self) is None,
            },
    {
        match (&self.from, &self.to) {
            (Some(f), Some(t)) => {
                let a = date_day_number(f);
                let b = date_day_number(t);
                Some((b - a + 7) / 7)
            },
            _ => None,
        }
    }
}

} // verus!
