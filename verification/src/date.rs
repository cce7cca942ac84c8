//! Calendar dates and their order.

use vstd::prelude::*;

verus! {

/// A calendar date. Dates are ordered by year, then month, then day.
#[derive(Clone, Copy, Debug, PartialEq, Eq, Structural)]
pub struct Date {
    pub year: i32,
    pub month: u8,
    pub day: u8,
}

impl Date {
    /// The date's rank: an earlier date has a smaller rank, and two dates
    /// share a rank only if they are the same date.
    pub open spec fn ordinal(self) -> int {
        self.year as int * 65536 + self.month as int * 256 + self.day as int
    }

    pub fn new(year: i32, month: u8, day: u8) -> (date: Date)
        ensures
            date == (Date { year, month, day }),
    {
        Date { year, month, day }
    }

    /// Whether `self` is strictly earlier than `other`.
    pub fn is_before(&self, other: &Date) -> (earlier: bool)
        ensures
            earlier == (self.ordinal() < other.ordinal()),
    {
        if self.year != other.year {
            self.year < other.year
        } else if self.month != other.month {
            self.month < other.month
        } else {
            self.day < other.day
        }
    }

    /// Whether `self` is `other` or earlier.
    pub fn is_at_most(&self, other: &Date) -> (r: bool)
        ensures
            r == (self.ordinal() <= other.ordinal()),
    {
        !other.is_before(self)
    }

    /// Distinct dates have distinct ranks.
    pub proof fn lemma_ordinal_identifies(self, other: Date)
        ensures
            self.ordinal() == other.ordinal() <==> self == other,
    {
    }
}

} // verus!
