//! Calendar dates as plain year, month and day values.
use vstd::prelude::*;

verus! {

/// A calendar date. Dates are ordered as their `YYYY-MM-DD` renderings are.
#[derive(Clone, Copy, Debug, PartialEq, Eq, Structural)]
pub struct Date {
    pub year: u16,
    pub month: u8,
    pub day: u8,
}

pub open spec fn is_leap_year(year: int) -> bool {
    year % 4 == 0 && (year % 100 != 0 || year % 400 == 0)
}

pub open spec fn days_in_month(year: int, month: int) -> int {
    if month == 2 {
        if is_leap_year(year) { 29 } else { 28 }
    } else if month == 4 || month == 6 || month == 9 || month == 11 {
        30
    } else {
        31
    }
}

impl Date {
    /// The position of the date on the time line: an earlier date has a smaller key.
    pub open spec fn key(self) -> int {
        self.year as int * 65536 + self.month as int * 256 + self.day as int
    }

    /// The date names a day of the proleptic Gregorian calendar.
    pub open spec fn is_valid(self) -> bool {
        1 <= self.month <= 12 && 1 <= self.day <= days_in_month(self.year as int, self.month as int)
    }

    /// The first day of the month that holds this date.
    pub open spec fn spec_month_start(self) -> Date {
        Date { year: self.year, month: self.month, day: 1 }
    }

    /// Builds a date, or `None` where the triple names no calendar day.
    pub fn new(year: u16, month: u8, day: u8) -> (r: Option<Date>)
        ensures
            r is Some <==> (Date { year, month, day }).is_valid(),
            r is Some ==> r->0 == (Date { year, month, day }),
    {
        let leap = year % 4 == 0 && (year % 100 != 0 || year % 400 == 0);
        let last: u8 = if month == 2 {
            if leap { 29 } else { 28 }
        } else if month == 4 || month == 6 || month == 9 || month == 11 {
            30
        } else {
            31
        };
        if 1 <= month && month <= 12 && 1 <= day && day <= last {
            Some(Date { year, month, day })
        } else {
            None
        }
    }

    pub fn order_key(&self) -> (r: u32)
        ensures
            r as int == self.key(),
    {
        self.year as u32 * 65536 + self.month as u32 * 256 + self.day as u32
    }

    /// `self` falls strictly before `other`.
    pub fn is_before(&self, other: &Date) -> (r: bool)
        ensures
            r == (self.key() < other.key()),
    {
        self.order_key() < other.order_key()
    }

    /// `self` falls on or before `other`.
    pub fn is_on_or_before(&self, other: &Date) -> (r: bool)
        ensures
            r == (self.key() <= other.key()),
    {
        self.order_key() <= other.order_key()
    }

    /// The first day of the month that holds this date.
    pub fn month_start(&self) -> (r: Date)
        ensures
            r == self.spec_month_start(),
    {
        Date { year: self.year, month: self.month, day: 1 }
    }
}

/// Two dates with the same key are the same date.
pub proof fn lemma_key_injective(a: Date, b: Date)
    ensures
        a.key() == b.key() <==> a == b,
{
}

} // verus!
