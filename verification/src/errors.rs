//! The typed errors of format validation and parsing.

use vstd::prelude::*;
use crate::numfmt::push_char;

verus! {

/// An error from validating a format string or parsing a time string.
#[derive(Copy, Clone, Debug, PartialEq, Eq, Structural)]
pub enum ParseError {
    InvalidSecond,
    InvalidMinute,
    InvalidHour,
    InvalidDay,
    InvalidMonth,
    InvalidYear,
    InvalidDayOfWeek,
    InvalidDayOfMonth,
    InvalidDayOfYear,
    InvalidZoneOffset,
    InvalidTime,
    MissingFormatConverter,
    InvalidFormatSpecifier(char),
    UnexpectedCharacter(char, char),
}

/// The human-readable message of each error.
pub open spec fn message_spec(e: ParseError) -> Seq<char> {
    match e {
        ParseError::InvalidSecond => "Invalid second."@,
        ParseError::InvalidMinute => "Invalid minute."@,
        ParseError::InvalidHour => "Invalid hour."@,
        ParseError::InvalidDay => "Invalid day."@,
        ParseError::InvalidMonth => "Invalid month."@,
        ParseError::InvalidYear => "Invalid year."@,
        ParseError::InvalidDayOfWeek => "Invalid day of the week."@,
        ParseError::InvalidDayOfMonth => "Invalid day of the month."@,
        ParseError::InvalidDayOfYear => "Invalid day of the year."@,
        ParseError::InvalidZoneOffset => "Invalid zone offset."@,
        ParseError::InvalidTime => "Invalid time."@,
        ParseError::MissingFormatConverter => "Missing format converter after `%`"@,
        ParseError::InvalidFormatSpecifier(c) => "Invalid format specifier: %"@.push(c),
        ParseError::UnexpectedCharacter(a, b) => "Expected: "@.push(a) + ", found: "@.push(b)
            + "."@,
    }
}

impl ParseError {
    /// The error's message, for display to a user.
    pub fn to_string(&self) -> (r: String)
        ensures
            r@ == message_spec(*self),
    {
        match *self {
            ParseError::InvalidSecond => String::from_str("Invalid second."),
            ParseError::InvalidMinute => String::from_str("Invalid minute."),
            ParseError::InvalidHour => String::from_str("Invalid hour."),
            ParseError::InvalidDay => String::from_str("Invalid day."),
            ParseError::InvalidMonth => String::from_str("Invalid month."),
            ParseError::InvalidYear => String::from_str("Invalid year."),
            ParseError::InvalidDayOfWeek => String::from_str("Invalid day of the week."),
            ParseError::InvalidDayOfMonth => String::from_str("Invalid day of the month."),
            ParseError::InvalidDayOfYear => String::from_str("Invalid day of the year."),
            ParseError::InvalidZoneOffset => String::from_str("Invalid zone offset."),
            ParseError::InvalidTime => String::from_str("Invalid time."),
            ParseError::MissingFormatConverter => String::from_str(
                "Missing format converter after `%`"),
            ParseError::InvalidFormatSpecifier(c) => {
                let mut s = String::from_str("Invalid format specifier: %");
                push_char(&mut s, c);
                s
            },
            ParseError::UnexpectedCharacter(a, b) => {
                let mut s = String::from_str("Expected: ");
                push_char(&mut s, a);
                s.append(", found: ");
                push_char(&mut s, b);
                s.append(".");
                proof {
                    assert(s@ =~= "Expected: "@.push(a) + ", found: "@.push(b) + "."@);
                }
                s
            },
        }
    }
}

} // verus!
