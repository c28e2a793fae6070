//! Wall-clock date-times, as the device wants them written.

use crate::proto::IntoTTP;
use crate::text::{decimal_string, decimal_text, digit_char, digit_str};
use vstd::prelude::*;
use vstd::string::StringExecFns;

verus! {

/// Whether `year` is a leap year of the Gregorian calendar.
pub open spec fn is_leap_year(year: int) -> bool {
    year % 4 == 0 && (year % 100 != 0 || year % 400 == 0)
}

/// The number of days of `month` (1 to 12) in `year`; 0 for any other month.
pub open spec fn days_in_month(year: int, month: int) -> int {
    if month == 2 {
        if is_leap_year(year) {
            29
        } else {
            28
        }
    } else if month == 4 || month == 6 || month == 9 || month == 11 {
        30
    } else if 1 <= month <= 12 {
        31
    } else {
        0
    }
}

/// The mathematical content of a [`DateTime`].
pub struct DateTimeView {
    /// The year, from 0 to 9999.
    pub year: int,
    /// The month, from 1 to 12.
    pub month: int,
    /// The day of the month, from 1.
    pub day: int,
    /// The hour, from 0 to 23.
    pub hour: int,
    /// The minute, from 0 to 59.
    pub minute: int,
    /// The second, from 0 to 60; 60 stands for a leap second.
    pub second: int,
}

/// `n` as two digits, padded with a zero.
pub open spec fn two_digits(n: int) -> Seq<char> {
    seq![digit_char((n / 10) as nat), digit_char((n % 10) as nat)]
}

/// `n` as four digits, padded with zeros.
pub open spec fn four_digits(n: int) -> Seq<char> {
    two_digits(n / 100) + two_digits(n % 100)
}

impl DateTimeView {
    /// Whether the fields name a moment of the calendar and the clock.
    pub open spec fn valid(self) -> bool {
        &&& 0 <= self.year <= 9999
        &&& 1 <= self.month <= 12
        &&& 1 <= self.day <= days_in_month(self.year, self.month)
        &&& 0 <= self.hour <= 23
        &&& 0 <= self.minute <= 59
        &&& 0 <= self.second <= 60
    }

    /// The token of the date-time: `"HH:MM:SS:M:DD:YYYY"`, quotes included.
    /// Hour, minute, second and day have two digits and the year four; the
    /// month is not padded.
    pub open spec fn text(self) -> Seq<char> {
        seq!['"'] + two_digits(self.hour) + seq![':'] + two_digits(self.minute) + seq![':']
            + two_digits(self.second) + seq![':'] + decimal_text(self.month as nat) + seq![':']
            + two_digits(self.day) + seq![':'] + four_digits(self.year) + seq!['"']
    }
}

/// A date and a time of day, without time zone.
#[derive(Debug, Clone, Copy, PartialEq, Eq)]
pub struct DateTime {
    year: u16,
    month: u8,
    day: u8,
    hour: u8,
    minute: u8,
    second: u8,
}

impl View for DateTime {
    type V = DateTimeView;

    closed spec fn view(&self) -> DateTimeView {
        DateTimeView {
            year: self.year as int,
            month: self.month as int,
            day: self.day as int,
            hour: self.hour as int,
            minute: self.minute as int,
            second: self.second as int,
        }
    }
}

/// Appends `n` as two digits.
fn push_two_digits(out: &mut String, n: u8)
    requires
        n < 100,
    ensures
        final(out)@ == old(out)@ + two_digits(n as int),
{
    out.append(digit_str(n / 10));
    out.append(digit_str(n % 10));
    assert(out@ =~= old(out)@ + two_digits(n as int));
}

impl DateTime {
    #[verifier::type_invariant]
    spec fn well_formed(&self) -> bool {
        self@.valid()
    }

    /// The number of days of `month` in `year`.
    pub fn month_length(year: u16, month: u8) -> (days: u8)
        ensures
            days == days_in_month(year as int, month as int),
    {
        if month == 2 {
            if year % 4 == 0 && (year % 100 != 0 || year % 400 == 0) {
                29
            } else {
                28
            }
        } else if month == 4 || month == 6 || month == 9 || month == 11 {
            30
        } else if 1 <= month && month <= 12 {
            31
        } else {
            0
        }
    }

    /// Makes a date-time of its fields. `None` unless they name a moment of
    /// the calendar and the clock.
    pub fn new(year: u16, month: u8, day: u8, hour: u8, minute: u8, second: u8) -> (made: Option<
        DateTime,
    >)
        ensures
            made is Some <==> (DateTimeView {
                year: year as int,
                month: month as int,
                day: day as int,
                hour: hour as int,
                minute: minute as int,
                second: second as int,
            }).valid(),
            made matches Some(d) ==> d@ == (DateTimeView {
                year: year as int,
                month: month as int,
                day: day as int,
                hour: hour as int,
                minute: minute as int,
                second: second as int,
            }),
    {
        if year <= 9999 && 1 <= month && month <= 12 && 1 <= day && day <= DateTime::month_length(
            year,
            month,
        ) && hour <= 23 && minute <= 59 && second <= 60 {
            Some(DateTime { year, month, day, hour, minute, second })
        } else {
            None
        }
    }
}

impl IntoTTP for DateTime {
    open spec fn ttp(&self) -> Seq<char> {
        self@.text()
    }

    fn into_ttp(self) -> (token: String) {
        proof {
            use_type_invariant(&self);
            reveal_strlit("\"");
            reveal_strlit(":");
        }
        let mut out = "\"".to_owned();
        push_two_digits(&mut out, self.hour);
        out.append(":");
        push_two_digits(&mut out, self.minute);
        out.append(":");
        push_two_digits(&mut out, self.second);
        out.append(":");
        out.append(decimal_string(self.month as u128).as_str());
        out.append(":");
        push_two_digits(&mut out, self.day);
        out.append(":");
        push_two_digits(&mut out, (self.year / 100) as u8);
        push_two_digits(&mut out, (self.year % 100) as u8);
        out.append("\"");
        assert(out@ =~= self@.text());
        out
    }
}

} // verus!
