//! Calendar dates and the two textual forms that man pages use for them.

use vstd::prelude::*;

verus! {

/// A day of the proleptic Gregorian calendar, with a four-digit year.
#[derive(Clone, Copy, Debug, PartialEq, Eq, Structural)]
pub struct Date {
    pub year: u32,
    pub month: u32,
    pub day: u32,
}

pub open spec fn is_leap_year(y: int) -> bool {
    (y % 4 == 0 && y % 100 != 0) || y % 400 == 0
}

pub open spec fn days_in_month(y: int, m: int) -> int {
    if m == 2 {
        if is_leap_year(y) { 29 } else { 28 }
    } else if m == 4 || m == 6 || m == 9 || m == 11 {
        30
    } else {
        31
    }
}

/// The digit character for `n`, which is below ten.
pub open spec fn digit_char(n: int) -> char {
    (('0' as u32) + n as u32) as char
}

/// `n` in decimal, zero-padded to two digits.
pub open spec fn two_digits(n: int) -> Seq<char> {
    seq![digit_char((n / 10) % 10), digit_char(n % 10)]
}

/// `n` in decimal, zero-padded to four digits.
pub open spec fn four_digits(n: int) -> Seq<char> {
    seq![digit_char((n / 1000) % 10), digit_char((n / 100) % 10), digit_char((n / 10) % 10), digit_char(n % 10)]
}

/// The English name of month `m`.
pub open spec fn month_name(m: u32) -> Seq<char> {
    match m {
        1 => seq!['J', 'a', 'n', 'u', 'a', 'r', 'y'],
        2 => seq!['F', 'e', 'b', 'r', 'u', 'a', 'r', 'y'],
        3 => seq!['M', 'a', 'r', 'c', 'h'],
        4 => seq!['A', 'p', 'r', 'i', 'l'],
        5 => seq!['M', 'a', 'y'],
        6 => seq!['J', 'u', 'n', 'e'],
        7 => seq!['J', 'u', 'l', 'y'],
        8 => seq!['A', 'u', 'g', 'u', 's', 't'],
        9 => seq!['S', 'e', 'p', 't', 'e', 'm', 'b', 'e', 'r'],
        10 => seq!['O', 'c', 't', 'o', 'b', 'e', 'r'],
        11 => seq!['N', 'o', 'v', 'e', 'm', 'b', 'e', 'r'],
        _ => seq!['D', 'e', 'c', 'e', 'm', 'b', 'e', 'r'],
    }
}

/// The date as `YYYY-MM-DD`.
pub open spec fn iso_text(d: Date) -> Seq<char> {
    four_digits(d.year as int) + seq!['-'] + two_digits(d.month as int) + seq!['-'] + two_digits(d.day as int)
}

/// The date as the month's name, a space and the year, as in `January 2020`.
pub open spec fn month_year_text(d: Date) -> Seq<char> {
    month_name(d.month) + seq![' '] + four_digits(d.year as int)
}

fn digit(n: u32) -> (c: char)
    requires
        n < 10,
    ensures
        c == digit_char(n as int),
{
    (('0' as u32) + n) as u8 as char
}

fn month_chars(m: u32) -> (r: Vec<char>)
    ensures
        r@ == month_name(m),
{
    let r = match m {
            1 => vec!['J', 'a', 'n', 'u', 'a', 'r', 'y'],
            2 => vec!['F', 'e', 'b', 'r', 'u', 'a', 'r', 'y'],
            3 => vec!['M', 'a', 'r', 'c', 'h'],
            4 => vec!['A', 'p', 'r', 'i', 'l'],
            5 => vec!['M', 'a', 'y'],
            6 => vec!['J', 'u', 'n', 'e'],
            7 => vec!['J', 'u', 'l', 'y'],
            8 => vec!['A', 'u', 'g', 'u', 's', 't'],
            9 => vec!['S', 'e', 'p', 't', 'e', 'm', 'b', 'e', 'r'],
            10 => vec!['O', 'c', 't', 'o', 'b', 'e', 'r'],
            11 => vec!['N', 'o', 'v', 'e', 'm', 'b', 'e', 'r'],
            _ => vec!['D', 'e', 'c', 'e', 'm', 'b', 'e', 'r'],
        };
    assert(r@ =~= month_name(m));
    r
}

impl Date {
    /// A date is a real calendar day whose year has at most four digits.
    pub open spec fn wf(&self) -> bool {
        &&& self.year <= 9999
        &&& 1 <= self.month <= 12
        &&& 1 <= self.day <= days_in_month(self.year as int, self.month as int)
    }

    /// The date with the given year, month and day, if it is one.
    pub fn new(year: u32, month: u32, day: u32) -> (r: Option<Date>)
        ensures
            r matches Some(d) ==> d.wf() && d.year == year && d.month == month && d.day == day,
            r is None ==> !(Date { year, month, day }).wf(),
    {
        if year > 9999 || month < 1 || month > 12 || day < 1 {
            return None;
        }
        let leap = (year % 4 == 0 && year % 100 != 0) || year % 400 == 0;
        let dim: u32 = if month == 2 {
            if leap { 29 } else { 28 }
        } else if month == 4 || month == 6 || month == 9 || month == 11 {
            30
        } else {
            31
        };
        if day > dim {
            return None;
        }
        Some(Date { year, month, day })
    }

    /// The date as `YYYY-MM-DD`.
    pub fn iso_chars(&self) -> (r: Vec<char>)
        requires
            self.wf(),
        ensures
            r@ == iso_text(*self),
    {
        let y = self.year;
        let r = vec![
            digit((y / 1000) % 10), digit((y / 100) % 10), digit((y / 10) % 10), digit(y % 10), '-',
            digit((self.month / 10) % 10), digit(self.month % 10), '-',
            digit((self.day / 10) % 10), digit(self.day % 10),
        ];
        assert(r@ =~= iso_text(*self));
        r
    }

    /// The date as the month's name and the year, as in `January 2020`.
    pub fn month_year_chars(&self) -> (r: Vec<char>)
        requires
            self.wf(),
        ensures
            r@ == month_year_text(*self),
    {
        let y = self.year;
        let mut r = month_chars(self.month);
        r.push(' ');
        r.push(digit((y / 1000) % 10));
        r.push(digit((y / 100) % 10));
        r.push(digit((y / 10) % 10));
        r.push(digit(y % 10));
        assert(r@ =~= month_year_text(*self));
        r
    }
}

} // verus!
