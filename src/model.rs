//! Stored records: customers and invoices, with calendar dates held as plain
//! year, month and day values.
use vstd::prelude::*;
use crate::text::{digit_of, digit_char_of};

verus! {

/// A calendar date.
#[derive(Clone, Copy, Debug, PartialEq, Eq, Structural)]
pub struct Date {
    pub year: i32,
    pub month: u32,
    pub day: u32,
}

/// A Gregorian leap year.
pub open spec fn is_leap_year(y: int) -> bool {
    (y % 4 == 0 && y % 100 != 0) || y % 400 == 0
}

/// The number of days of month `m` in year `y`.
pub open spec fn days_in_month(y: int, m: int) -> int {
    if m == 2 {
        if is_leap_year(y) {
            29
        } else {
            28
        }
    } else if m == 4 || m == 6 || m == 9 || m == 11 {
        30
    } else {
        31
    }
}

impl Date {
    /// A calendar date whose text form is exactly `YYYY-MM-DD`.
    pub open spec fn wf(&self) -> bool {
        &&& 0 <= self.year <= 9999
        &&& 1 <= self.month <= 12
        &&& 1 <= self.day <= days_in_month(self.year as int, self.month as int)
    }

    /// Whether this is a calendar date of years 0 to 9999.
    pub fn is_valid(&self) -> (r: bool)
        ensures
            r == self.wf(),
    {
        if self.year < 0 || self.year > 9999 || self.month < 1 || self.month > 12 || self.day < 1 {
            return false;
        }
        let leap = (self.year % 4 == 0 && self.year % 100 != 0) || self.year % 400 == 0;
        let last: u32 = if self.month == 2 {
            if leap { 29 } else { 28 }
        } else if self.month == 4 || self.month == 6 || self.month == 9 || self.month == 11 {
            30
        } else {
            31
        };
        self.day <= last
    }

    /// `self` lies strictly after `other`.
    pub open spec fn after(&self, other: Date) -> bool {
        self.year > other.year || (self.year == other.year && (self.month > other.month || (
        self.month == other.month && self.day > other.day)))
    }

    /// The `YYYY-MM-DD` text of a well-formed date.
    pub open spec fn text(&self) -> Seq<char> {
        let y = self.year as nat;
        let m = self.month as nat;
        let d = self.day as nat;
        seq![
            digit_of(y / 1000),
            digit_of((y / 100) % 10),
            digit_of((y / 10) % 10),
            digit_of(y % 10),
            '-',
            digit_of(m / 10),
            digit_of(m % 10),
            '-',
            digit_of(d / 10),
            digit_of(d % 10),
        ]
    }

    pub fn is_after(&self, other: &Date) -> (r: bool)
        ensures
            r == self.after(*other),
    {
        self.year > other.year || (self.year == other.year && (self.month > other.month || (
        self.month == other.month && self.day > other.day)))
    }

    /// The `YYYY-MM-DD` text of this date.
    pub fn text_chars(&self) -> (r: Vec<char>)
        requires
            self.wf(),
        ensures
            r@ == self.text(),
    {
        let y = self.year as u64;
        let m = self.month as u64;
        let d = self.day as u64;
        let mut out: Vec<char> = Vec::new();
        out.push(digit_char_of(y / 1000));
        out.push(digit_char_of((y / 100) % 10));
        out.push(digit_char_of((y / 10) % 10));
        out.push(digit_char_of(y % 10));
        out.push('-');
        out.push(digit_char_of(m / 10));
        out.push(digit_char_of(m % 10));
        out.push('-');
        out.push(digit_char_of(d / 10));
        out.push(digit_char_of(d % 10));
        assert(out@ =~= self.text());
        out
    }
}

/// A stored customer.
#[derive(Clone, Debug)]
pub struct Customer {
    pub id: u128,
    pub name: String,
    pub email: String,
    pub image_url: Option<String>,
}

/// A stored invoice.
#[derive(Clone, Debug)]
pub struct Invoice {
    pub id: u128,
    pub customer_id: u128,
    pub amount: i32,
    pub status: String,
    pub date: Date,
}

impl Invoice {
    pub open spec fn wf(&self) -> bool {
        self.date.wf()
    }
}

/// Every invoice of the sequence has a well-formed date, if any.
pub open spec fn invoices_wf(invs: Seq<Invoice>) -> bool {
    forall|k: int| 0 <= k < invs.len() ==> (#[trigger] invs[k]).wf()
}

} // verus!
