//! Calendar dates, held as plain year/month/day values.
//!
//! The Leaflet `yyyy.mm.dd` field type and the date-shaped vault pages work
//! on this model; validity is the proleptic Gregorian calendar rule.

use vstd::prelude::*;

use crate::text;

verus! {

use vstd::arithmetic::div_mod::lemma_fundamental_div_mod;
use vstd::arithmetic::div_mod::lemma_fundamental_div_mod_converse;

/// Negating a value keeps or removes divisibility together.
proof fn lemma_neg_divisible(a: int, d: int)
    requires
        d > 0,
    ensures
        (a % d == 0) == ((-a) % d == 0),
{
    lemma_fundamental_div_mod(a, d);
    lemma_fundamental_div_mod(-a, d);
    if a % d == 0 {
        assert(a == d * (a / d));
        assert((-(a / d)) * d == -(d * (a / d))) by (nonlinear_arith);
        assert(-a == (-(a / d)) * d + 0);
        lemma_fundamental_div_mod_converse(-a, d, -(a / d), 0);
    }
    if (-a) % d == 0 {
        assert(-a == d * ((-a) / d));
        assert((-((-a) / d)) * d == -(d * ((-a) / d))) by (nonlinear_arith);
        assert(a == (-((-a) / d)) * d + 0);
        lemma_fundamental_div_mod_converse(a, d, -((-a) / d), 0);
    }
}

/// Whether `year` is a leap year; executable.
pub fn is_leap_year_exec(year: i32) -> (r: bool)
    ensures
        r == is_leap_year(year as int),
{
    let y: i64 = year as i64;
    let m: i64 = if y < 0 {
        -y
    } else {
        y
    };
    proof {
        lemma_neg_divisible(y as int, 4);
        lemma_neg_divisible(y as int, 100);
        lemma_neg_divisible(y as int, 400);
    }
    m % 4 == 0 && (m % 100 != 0 || m % 400 == 0)
}

/// Whether `year` is a leap year (Gregorian rule).
pub open spec fn is_leap_year(year: int) -> bool {
    year % 4 == 0 && (year % 100 != 0 || year % 400 == 0)
}

/// Number of days in `month` of `year`; zero for an invalid month.
pub open spec fn days_in_month_spec(year: int, month: int) -> int {
    if month == 1 || month == 3 || month == 5 || month == 7 || month == 8 || month == 10 || month
        == 12 {
        31
    } else if month == 4 || month == 6 || month == 9 || month == 11 {
        30
    } else if month == 2 {
        if is_leap_year(year) {
            29
        } else {
            28
        }
    } else {
        0
    }
}

/// Whether year/month/day name a real calendar date.
pub open spec fn date_valid(year: int, month: int, day: int) -> bool {
    1 <= month <= 12 && 1 <= day <= days_in_month_spec(year, month)
}

/// A real calendar date.
#[derive(Debug, Clone, Copy, PartialEq, Eq, Structural)]
pub struct Date {
    pub year: i32,
    pub month: u8,
    pub day: u8,
}

impl Date {
    /// Whether the fields name a real calendar date.
    pub open spec fn valid(self) -> bool {
        date_valid(self.year as int, self.month as int, self.day as int)
    }

    /// Builds a date when the components name a real calendar date,
    /// and nothing otherwise.
    pub fn from_ymd(year: i32, month: u8, day: u8) -> (r: Option<Date>)
        ensures
            r.is_some() == date_valid(year as int, month as int, day as int),
            r.is_some() ==> r->0 == (Date { year, month, day }),
    {
        let count = days_in_month_count(year, month);
        if 1 <= month && month <= 12 && 1 <= day && day <= count {
            Some(Date { year, month, day })
        } else {
            None
        }
    }
}

/// Number of days in `month` of `year`; zero for an invalid month.
pub fn days_in_month_count(year: i32, month: u8) -> (r: u8)
    ensures
        r == days_in_month_spec(year as int, month as int),
{
    if month == 1 || month == 3 || month == 5 || month == 7 || month == 8 || month == 10 || month
        == 12 {
        31
    } else if month == 4 || month == 6 || month == 9 || month == 11 {
        30
    } else if month == 2 {
        if is_leap_year_exec(year) {
            29
        } else {
            28
        }
    } else {
        0
    }
}

/// A calendar year.
#[derive(Debug, Clone, Copy, PartialEq, Eq, Structural)]
pub struct Year(pub i32);

impl Year {
    pub fn new(year: i32) -> (r: Year)
        ensures
            r == Year(year),
    {
        Year(year)
    }
}

/// A month number, always between 1 and 12.
#[derive(Debug, Clone, Copy, PartialEq, Eq, Structural)]
pub struct Month(pub u8);

impl Month {
    /// The month constructor refuses numbers outside 1..=12, so a
    /// `Month` value is always a real month.
    pub fn new(month: u8) -> (r: Month)
        requires
            1 <= month <= 12,
        ensures
            r == Month(month),
    {
        Month(month)
    }
}

/// A day-of-month number, always between 1 and 31.
#[derive(Debug, Clone, Copy, PartialEq, Eq, Structural)]
pub struct DayOfTheMonth(pub u8);

impl DayOfTheMonth {
    /// The constructor refuses numbers outside 1..=31.
    pub fn new(day_of_the_month: u8) -> (r: DayOfTheMonth)
        requires
            1 <= day_of_the_month <= 31,
        ensures
            r == DayOfTheMonth(day_of_the_month),
    {
        DayOfTheMonth(day_of_the_month)
    }
}

pub fn is_valid_month(number: u8) -> (r: bool)
    ensures
        r == (1 <= number <= 12),
{
    1 <= number && number <= 12
}

pub fn is_valid_day_of_month(number: u8) -> (r: bool)
    ensures
        r == (1 <= number <= 31),
{
    1 <= number && number <= 31
}

/// The twelve months, in order.
pub fn months() -> (r: Vec<Month>)
    ensures
        r@.len() == 12,
        forall|i: int| 0 <= i < 12 ==> r@[i] == Month((i + 1) as u8),
{
    let mut r: Vec<Month> = Vec::new();
    let mut m: u8 = 1;
    while m <= 12
        invariant
            1 <= m <= 13,
            r@.len() == m - 1,
            forall|i: int| 0 <= i < m - 1 ==> r@[i] == Month((i + 1) as u8),
        decreases 13 - m,
    {
        r.push(Month::new(m));
        m = m + 1;
    }
    r
}

/// The days of `month` in `year`, in order.
pub fn days_in_month(year: Year, month: Month) -> (r: Vec<DayOfTheMonth>)
    requires
        1 <= month.0 <= 12,
    ensures
        r@.len() == days_in_month_spec(year.0 as int, month.0 as int),
        forall|i: int| 0 <= i < r@.len() ==> r@[i] == DayOfTheMonth((i + 1) as u8),
{
    let count = days_in_month_count(year.0, month.0);
    let mut r: Vec<DayOfTheMonth> = Vec::new();
    let mut d: u8 = 1;
    while d <= count
        invariant
            1 <= d <= count + 1,
            count <= 31,
            r@.len() == d - 1,
            forall|i: int| 0 <= i < d - 1 ==> r@[i] == DayOfTheMonth((i + 1) as u8),
        decreases count + 1 - d,
    {
        r.push(DayOfTheMonth::new(d));
        d = d + 1;
    }
    r
}

/// Whether `s` is a signed decimal literal whose value fits in an `i32`,
/// in the shape `i32::from_str` accepts.
pub open spec fn is_i32_literal(s: Seq<u8>) -> bool {
    let d = signed_digits_part(s);
    d.len() > 0 && text::all_digits(d) && (if is_negative_literal(s) {
        text::dec_value(d) <= 0x8000_0000
    } else {
        text::dec_value(d) <= 0x7fff_ffff
    })
}

/// Whether `s` carries a leading minus sign.
pub open spec fn is_negative_literal(s: Seq<u8>) -> bool {
    s.len() > 0 && s[0] == 45
}

/// The digits of a signed decimal literal: everything after an optional
/// leading `+` or `-`.
pub open spec fn signed_digits_part(s: Seq<u8>) -> Seq<u8> {
    if s.len() > 0 && (s[0] == 43 || s[0] == 45) {
        s.skip(1)
    } else {
        s
    }
}

/// Value of a signed decimal literal.
pub open spec fn i32_literal_value(s: Seq<u8>) -> int {
    if is_negative_literal(s) {
        -text::dec_value(signed_digits_part(s))
    } else {
        text::dec_value(signed_digits_part(s))
    }
}

/// Parses a signed 32-bit decimal literal, as `str::parse::<i32>` does.
pub fn parse_i32(s: &[u8]) -> (r: Option<i32>)
    ensures
        r.is_some() == is_i32_literal(s@),
        r.is_some() ==> r->0 == i32_literal_value(s@),
{
    let negative: bool = s.len() > 0 && s[0] == 45;
    let rest: Vec<u8> = if s.len() > 0 && (s[0] == 43 || s[0] == 45) {
        text::subrange_vec(s, 1, s.len())
    } else {
        text::subrange_vec(s, 0, s.len())
    };
    proof {
        assert(rest@ =~= signed_digits_part(s@));
    }
    if rest.len() > 0 && rest[0] == 43 {
        // A second sign character: `i32::from_str` allows only one.
        assert(!text::all_digits(rest@));
        return None;
    }
    proof {
        assert(text::digits_part(rest@) =~= rest@);
    }
    match text::parse_u64(rest.as_slice()) {
        None => None,
        Some(magnitude) => {
            if negative {
                if magnitude <= 0x8000_0000 {
                    Some((-(magnitude as i64)) as i32)
                } else {
                    None
                }
            } else {
                if magnitude <= 0x7fff_ffff {
                    Some(magnitude as i32)
                } else {
                    None
                }
            }
        },
    }
}

/// Whether `s` is an unsigned decimal literal whose value fits in a `u32`.
pub open spec fn is_u32_literal(s: Seq<u8>) -> bool {
    text::is_u64_literal(s) && text::dec_value(text::digits_part(s)) <= u32::MAX
}

/// Parses an unsigned 32-bit decimal literal, as `str::parse::<u32>` does.
pub fn parse_u32(s: &[u8]) -> (r: Option<u32>)
    ensures
        r.is_some() == is_u32_literal(s@),
        r.is_some() ==> r->0 == text::dec_value(text::digits_part(s@)),
{
    match text::parse_u64(s) {
        None => None,
        Some(v) => {
            if v <= 0xffff_ffff {
                Some(v as u32)
            } else {
                None
            }
        },
    }
}

} // verus!
