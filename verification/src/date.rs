//! Calendar dates without a time of day, in the proleptic Gregorian calendar.

use vstd::prelude::*;
use crate::text::{append_zero_padded, zero_padded};

verus! {

/// The earliest year a date may lie in.
pub const MIN_YEAR: i32 = -262_143;

/// The latest year a date may lie in.
pub const MAX_YEAR: i32 = 262_142;

/// Whether `year` has a 29th of February. Year 0 is the year before year 1,
/// and the rule holds for the years before it too.
pub open spec fn is_leap_year(year: int) -> bool {
    year % 4 == 0 && (year % 100 != 0 || year % 400 == 0)
}

/// The number of days of the month `month` (1 to 12) of `year`.
pub open spec fn days_in_month(year: int, month: int) -> int {
    if month == 2 {
        if is_leap_year(year) {
            29
        } else {
            28
        }
    } else if month == 4 || month == 6 || month == 9 || month == 11 {
        30
    } else {
        31
    }
}

/// Whether year, month and day name a day of the calendar, in a year from
/// `MIN_YEAR` to `MAX_YEAR`.
pub open spec fn valid_ymd(year: int, month: int, day: int) -> bool {
    &&& MIN_YEAR <= year <= MAX_YEAR
    &&& 1 <= month <= 12
    &&& 1 <= day <= days_in_month(year, month)
}

/// The text of a year: four digits for the years 0 to 9999, and a sign
/// followed by at least four digits for all others.
pub open spec fn year_text(year: int) -> Seq<char> {
    if 0 <= year <= 9999 {
        zero_padded(year as nat, 4)
    } else if year < 0 {
        "-"@ + zero_padded((-year) as nat, 4)
    } else {
        "+"@ + zero_padded(year as nat, 4)
    }
}

/// A calendar date: year, month (1 to 12) and day of the month.
#[derive(Debug, Clone, Copy, PartialEq, Eq, Structural)]
pub struct Date {
    pub year: i32,
    pub month: u32,
    pub day: u32,
}

impl Date {
    /// The date names a day of the calendar.
    pub open spec fn wf(self) -> bool {
        valid_ymd(self.year as int, self.month as int, self.day as int)
    }

    /// `self` is an earlier day than `other`.
    pub open spec fn earlier(self, other: Date) -> bool {
        ||| self.year < other.year
        ||| self.year == other.year && self.month < other.month
        ||| self.year == other.year && self.month == other.month && self.day < other.day
    }

    /// The date as text: year, month and day joined by `-`, month and day
    /// with two digits each.
    pub open spec fn text(self) -> Seq<char> {
        year_text(self.year as int) + "-"@ + zero_padded(self.month as nat, 2) + "-"@
            + zero_padded(self.day as nat, 2)
    }

    /// The date of the given year, month and day, if there is such a day.
    pub fn new(year: i32, month: u32, day: u32) -> (r: Option<Date>)
        ensures
            r is Some <==> valid_ymd(year as int, month as int, day as int),
            r matches Some(d) ==> d == (Date { year, month, day }),
    {
        if year < MIN_YEAR || year > MAX_YEAR || month < 1 || month > 12 || day < 1 {
            return None;
        }
        let last: u32 = if month == 2 {
            if leap_year(year) {
                29
            } else {
                28
            }
        } else if month == 4 || month == 6 || month == 9 || month == 11 {
            30
        } else {
            31
        };
        if day > last {
            None
        } else {
            Some(Date { year, month, day })
        }
    }

    /// Computes `earlier`.
    pub fn is_before(&self, other: &Date) -> (r: bool)
        ensures
            r == self.earlier(*other),
    {
        self.year < other.year || (self.year == other.year && (self.month < other.month || (
        self.month == other.month && self.day < other.day)))
    }

    /// Appends `text` to `out`.
    pub fn append_to(&self, out: &mut String)
        ensures
            final(out)@ == old(out)@ + self.text(),
    {
        if 0 <= self.year && self.year <= 9999 {
            append_zero_padded(out, self.year as u32, 4);
        } else if self.year < 0 {
            out.append("-");
            let magnitude: u32 = (-(self.year as i64)) as u32;
            append_zero_padded(out, magnitude, 4);
        } else {
            out.append("+");
            append_zero_padded(out, self.year as u32, 4);
        }
        assert(out@ =~= old(out)@ + year_text(self.year as int));
        out.append("-");
        append_zero_padded(out, self.month, 2);
        out.append("-");
        append_zero_padded(out, self.day, 2);
        assert(out@ =~= old(out)@ + self.text());
    }

    /// Computes `text`.
    pub fn to_text(&self) -> (s: String)
        ensures
            s@ == self.text(),
    {
        let mut s = String::new();
        self.append_to(&mut s);
        assert(s@ =~= self.text());
        s
    }
}

/// Computes `is_leap_year`.
pub fn leap_year(year: i32) -> (r: bool)
    ensures
        r == is_leap_year(year as int),
{
    // A multiple of 400 that lifts every `i32` above zero.
    let shifted: u64 = (year as i64 + 2_147_484_000) as u64;
    assert(shifted as int == year + 2_147_484_000);
    assert(shifted % 4 == 0 <==> (year as int) % 4 == 0);
    assert(shifted % 100 == 0 <==> (year as int) % 100 == 0);
    assert(shifted % 400 == 0 <==> (year as int) % 400 == 0);
    shifted % 4 == 0 && (shifted % 100 != 0 || shifted % 400 == 0)
}

} // verus!
