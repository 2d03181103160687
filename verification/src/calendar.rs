//! Calendar dates, as plain year, month and day.
//!
//! Whether a date exists is asked of `chrono`, the calendar the rest of the
//! program already trusts; what a valid date is, is stated here so contracts
//! can speak of it.

use vstd::prelude::*;

verus! {

/// A day in the proleptic Gregorian calendar.
#[derive(Clone, Copy, Debug, PartialEq, Eq)]
pub struct Date {
    pub year: i32,
    /// 1 to 12.
    pub month: u32,
    /// 1 to the length of the month.
    pub day: u32,
}

#[verifier::external_type_specification]
#[verifier::external_body]
pub struct ExNaiveDate(chrono::NaiveDate);

pub open spec fn is_leap_year(y: int) -> bool {
    (y % 4 == 0 && y % 100 != 0) || y % 400 == 0
}

pub open spec fn days_in_month(y: int, m: int) -> int {
    if m == 2 {
        if is_leap_year(y) {
            29
        } else {
            28
        }
    } else if m == 4 || m == 6 || m == 9 || m == 11 {
        30
    } else {
        31
    }
}

/// The years `chrono` holds dates for: 262,143 BCE to 262,142 CE.
pub open spec fn in_calendar_range(y: int) -> bool {
    -262_143 <= y <= 262_142
}

/// Whether `y-m-d` names a real day.
pub open spec fn valid_ymd(y: int, m: int, d: int) -> bool {
    1 <= m <= 12 && 1 <= d <= days_in_month(y, m)
}

impl Date {
    pub open spec fn valid(self) -> bool {
        valid_ymd(self.year as int, self.month as int, self.day as int)
    }

    /// Strictly earlier in the calendar.
    pub open spec fn before(self, other: Date) -> bool {
        ||| self.year < other.year
        ||| (self.year == other.year && self.month < other.month)
        ||| (self.year == other.year && self.month == other.month && self.day < other.day)
    }

    /// Whether this day comes strictly before `other`.
    pub fn is_before(&self, other: &Date) -> (r: bool)
        ensures
            r == self.before(*other),
    {
        self.year < other.year || (self.year == other.year && self.month < other.month) || (
        self.year == other.year && self.month == other.month && self.day < other.day)
    }

    /// Whether this names a real day.
    pub fn is_valid(&self) -> (r: bool)
        ensures
            r == self.valid(),
    {
        let y: i64 = self.year as i64;
        let magnitude: u64 = if y < 0 { (0 - y) as u64 } else { y as u64 };
        proof {
            lemma_divisible_either_sign(y as int, 4);
            lemma_divisible_either_sign(y as int, 100);
            lemma_divisible_either_sign(y as int, 400);
        }
        let leap = (magnitude % 4 == 0 && magnitude % 100 != 0) || magnitude % 400 == 0;
        let days: u32 = if self.month == 2 {
            if leap { 29 } else { 28 }
        } else if self.month == 4 || self.month == 6 || self.month == 9 || self.month == 11 {
            30
        } else {
            31
        };
        1 <= self.month && self.month <= 12 && 1 <= self.day && self.day <= days
    }

    /// The date `year-month-day`, if there is such a day in the years the
    /// calendar covers.
    pub fn from_ymd(year: i32, month: u32, day: u32) -> (r: Option<Date>)
        ensures
            r == if in_calendar_range(year as int) && valid_ymd(year as int, month as int, day as int) {
                Some(Date { year, month, day })
            } else {
                None::<Date>
            },
    {
        match naive_date(year, month, day) {
            Some(_) => Some(Date { year, month, day }),
            None => None,
        }
    }
}

/// A number and its negation are divisible by the same things.
pub proof fn lemma_divisible_either_sign(y: int, d: int)
    requires
        d > 0,
    ensures
        (y % d == 0) <==> ((if y < 0 { -y } else { y }) % d == 0),
{
    if y < 0 {
        let q = y / d;
        let q2 = (-y) / d;
        vstd::arithmetic::div_mod::lemma_fundamental_div_mod(y, d);
        vstd::arithmetic::div_mod::lemma_fundamental_div_mod(-y, d);
        if y % d == 0 {
            vstd::arithmetic::mul::lemma_mul_unary_negation(d, q);
            vstd::arithmetic::mul::lemma_mul_is_commutative(-q, d);
            vstd::arithmetic::div_mod::lemma_mod_multiples_basic(-q, d);
            assert(-y == (-q) * d);
        }
        if (-y) % d == 0 {
            vstd::arithmetic::mul::lemma_mul_unary_negation(d, q2);
            vstd::arithmetic::mul::lemma_mul_is_commutative(-q2, d);
            vstd::arithmetic::div_mod::lemma_mod_multiples_basic(-q2, d);
            assert(y == (-q2) * d);
        }
    }
}

/// `chrono::NaiveDate::from_ymd_opt`: a date exactly when the year is within
/// the calendar's range (`MIN_YEAR` to `MAX_YEAR` in chrono's source), the
/// month is 1 to 12 and the day falls within that month, leap years of the
/// proleptic Gregorian calendar included. Nothing is claimed of the value,
/// which is only tested for being there.
#[verifier::external_body]
fn naive_date(year: i32, month: u32, day: u32) -> (r: Option<chrono::NaiveDate>)
    ensures
        r is Some <==> (in_calendar_range(year as int) && valid_ymd(year as int, month as int, day as int)),
{
    chrono::NaiveDate::from_ymd_opt(year, month, day)
}

/// `chrono::Local::now().date_naive()`: today on this machine's clock, in its
/// time zone. Only that it is a real day is claimed; which day depends on the
/// clock.
#[verifier::external_body]
pub fn today() -> (d: Date)
    ensures
        d.valid(),
{
    let now = chrono::Local::now().date_naive();
    Date {
        year: chrono::Datelike::year(&now),
        month: chrono::Datelike::month(&now),
        day: chrono::Datelike::day(&now),
    }
}

} // verus!
