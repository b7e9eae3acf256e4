//! Format descriptors: a validated format string, or one of the fixed
//! presets, paired with the broken-down time it renders.

use vstd::prelude::*;
use crate::errors::ParseError;
use crate::render::conv_spec;
use crate::render::push_conv;
use crate::render::push_format;
use crate::render::push_rfc3339;
use crate::render::render_spec;
use crate::render::rfc3339_spec;
use crate::render::str_to_chars;
use crate::tm::Tm;

verus! {

/// The recognized specifier characters.
pub open spec fn is_conv_char(c: char) -> bool {
    ||| c == 'A'
    ||| c == 'a'
    ||| c == 'B'
    ||| c == 'b'
    ||| c == 'C'
    ||| c == 'c'
    ||| c == 'D'
    ||| c == 'd'
    ||| c == 'e'
    ||| c == 'F'
    ||| c == 'f'
    ||| c == 'G'
    ||| c == 'g'
    ||| c == 'H'
    ||| c == 'h'
    ||| c == 'I'
    ||| c == 'j'
    ||| c == 'k'
    ||| c == 'l'
    ||| c == 'M'
    ||| c == 'm'
    ||| c == 'n'
    ||| c == 'P'
    ||| c == 'p'
    ||| c == 'R'
    ||| c == 'r'
    ||| c == 'S'
    ||| c == 's'
    ||| c == 'T'
    ||| c == 't'
    ||| c == 'U'
    ||| c == 'u'
    ||| c == 'V'
    ||| c == 'v'
    ||| c == 'W'
    ||| c == 'w'
    ||| c == 'X'
    ||| c == 'x'
    ||| c == 'Y'
    ||| c == 'y'
    ||| c == 'Z'
    ||| c == 'z'
    ||| c == '+'
    ||| c == '%'
}

/// Scans a format string: `None` when every `%` is followed by a
/// recognized specifier, otherwise the first error.
pub open spec fn scan_format(f: Seq<char>) -> Option<ParseError>
    decreases f.len(),
{
    if f.len() == 0 {
        None
    } else if f[0] == '%' {
        if f.len() == 1 {
            Some(ParseError::MissingFormatConverter)
        } else if is_conv_char(f[1]) {
            scan_format(f.skip(2))
        } else {
            Some(ParseError::InvalidFormatSpecifier(f[1]))
        }
    } else {
        scan_format(f.skip(1))
    }
}

pub open spec fn fmt_wf(f: Seq<char>) -> bool {
    scan_format(f) is None
}

/// The field-range check run before any rendering: the weekday and month
/// must be in range.
pub open spec fn field_err(tm: Tm) -> Option<ParseError> {
    if 0 <= tm.tm_wday <= 6 && 0 <= tm.tm_mon <= 11 {
        None
    } else if 0 <= tm.tm_mon <= 11 {
        Some(ParseError::InvalidDayOfWeek)
    } else if 0 <= tm.tm_wday <= 6 {
        Some(ParseError::InvalidMonth)
    } else {
        Some(ParseError::InvalidDay)
    }
}

/// The first error that validation reports for a time and a format
/// string: a field-range error, else a format-scan error.
pub open spec fn strftime_err(tm: Tm, f: Seq<char>) -> Option<ParseError> {
    match field_err(tm) {
        Some(e) => Some(e),
        None => scan_format(f),
    }
}

/// How a `TmFmt` renders: a format string, the RFC 3339 preset, or the
/// `asctime` preset.
#[derive(Clone, Copy, Debug)]
pub enum Fmt<'a> {
    FmtStr(&'a str),
    FmtRfc3339,
    FmtCtime,
}

/// A wrapper around a `Tm` and format that renders to a `String`.
#[derive(Debug)]
pub struct TmFmt<'a> {
    pub tm: &'a Tm,
    pub format: Fmt<'a>,
}

/// The error that validation reports for a descriptor: presets bypass
/// the character scan but still receive the field-range check.
pub open spec fn validate_err(tm: Tm, f: Fmt) -> Option<ParseError> {
    match field_err(tm) {
        Some(e) => Some(e),
        None => match f {
            Fmt::FmtStr(s) => scan_format(s@),
            _ => None,
        },
    }
}

fn is_conv_char_exec(c: char) -> (b: bool)
    ensures
        b == is_conv_char(c),
{
    c == 'A' || c == 'a' || c == 'B' || c == 'b' || c == 'C' || c == 'c' || c == 'D' || c == 'd'
        || c == 'e' || c == 'F' || c == 'f' || c == 'G' || c == 'g' || c == 'H' || c == 'h'
        || c == 'I' || c == 'j' || c == 'k' || c == 'l' || c == 'M' || c == 'm' || c == 'n'
        || c == 'P' || c == 'p' || c == 'R' || c == 'r' || c == 'S' || c == 's' || c == 'T'
        || c == 't' || c == 'U' || c == 'u' || c == 'V' || c == 'v' || c == 'W' || c == 'w'
        || c == 'X' || c == 'x' || c == 'Y' || c == 'y' || c == 'Z' || c == 'z' || c == '+'
        || c == '%'
}

/// Validates a descriptor: the weekday and month fields must be in
/// range, and every `%` of a format string must select a recognized
/// specifier.
pub fn validate_format<'a>(fmt: TmFmt<'a>) -> (r: Result<TmFmt<'a>, ParseError>)
    ensures
        validate_err(*fmt.tm, fmt.format) is None ==> r is Ok && r->Ok_0.tm == fmt.tm
            && r->Ok_0.format == fmt.format,
        validate_err(*fmt.tm, fmt.format) matches Some(e) ==> r == Result::<
            TmFmt<'a>,
            ParseError,
        >::Err(e),
{
    let wday_ok = 0 <= fmt.tm.tm_wday && fmt.tm.tm_wday <= 6;
    let mon_ok = 0 <= fmt.tm.tm_mon && fmt.tm.tm_mon <= 11;
    if !wday_ok && mon_ok {
        return Err(ParseError::InvalidDayOfWeek);
    }
    if wday_ok && !mon_ok {
        return Err(ParseError::InvalidMonth);
    }
    if !wday_ok && !mon_ok {
        return Err(ParseError::InvalidDay);
    }
    match fmt.format {
        Fmt::FmtStr(s) => {
            let f = str_to_chars(s);
            let n = f.len();
            let mut i: usize = 0;
            proof {
                assert(f@.skip(0) =~= f@);
            }
            while i < n
                invariant
                    i <= n,
                    n == f@.len(),
                    f@ == s@,
                    scan_format(s@) == scan_format(f@.skip(i as int)),
                    fmt.format matches Fmt::FmtStr(fs) && fs@ == s@,
                    field_err(*fmt.tm) is None,
                decreases n - i,
            {
                let c = f[i];
                if c == '%' {
                    if i + 1 == n {
                        proof {
                            assert(f@.skip(i as int).len() == 1);
                            assert(f@.skip(i as int)[0] == '%');
                            assert(scan_format(f@.skip(i as int))
                                == Some(ParseError::MissingFormatConverter));
                        }
                        return Err(ParseError::MissingFormatConverter);
                    }
                    let sp = f[i + 1];
                    if !is_conv_char_exec(sp) {
                        proof {
                            assert(f@.skip(i as int)[0] == '%');
                            assert(f@.skip(i as int)[1] == sp);
                            assert(scan_format(f@.skip(i as int))
                                == Some(ParseError::InvalidFormatSpecifier(sp)));
                        }
                        return Err(ParseError::InvalidFormatSpecifier(sp));
                    }
                    proof {
                        assert(f@.skip(i as int).skip(2) =~= f@.skip(i as int + 2));
                    }
                    i = i + 2;
                } else {
                    proof {
                        assert(f@.skip(i as int).skip(1) =~= f@.skip(i as int + 1));
                    }
                    i = i + 1;
                }
            }
            proof {
                assert(f@.skip(n as int) =~= Seq::<char>::empty());
            }
            Ok(fmt)
        },
        _ => Ok(fmt),
    }
}

/// What a descriptor renders.
pub open spec fn tmfmt_render_spec(tm: Tm, f: Fmt) -> Seq<char> {
    match f {
        Fmt::FmtStr(s) => render_spec(tm, s@),
        Fmt::FmtRfc3339 => rfc3339_spec(tm),
        Fmt::FmtCtime => conv_spec(tm, 'c'),
    }
}

impl<'a> TmFmt<'a> {
    /// Renders the descriptor to its text.
    pub fn to_string(&self) -> (out: String)
        ensures
            out@ == tmfmt_render_spec(*self.tm, self.format),
    {
        let mut out = String::new();
        match self.format {
            Fmt::FmtStr(s) => {
                let f = str_to_chars(s);
                push_format(&mut out, self.tm, &f);
            },
            Fmt::FmtRfc3339 => {
                push_rfc3339(&mut out, self.tm);
            },
            Fmt::FmtCtime => {
                push_conv(&mut out, self.tm, 'c');
            },
        }
        proof {
            assert(out@ =~= tmfmt_render_spec(*self.tm, self.format));
        }
        out
    }
}

impl Tm {
    /// Returns a `TmFmt` that outputs according to the `asctime` format
    /// in ISO C, read against the time's own zone.
    ///
    /// Example: "Thu Jan  1 00:00:00 1970"
    pub fn ctime(&self) -> (fmt: TmFmt<'_>)
        ensures
            fmt.tm == self,
            fmt.format is FmtCtime,
    {
        TmFmt { tm: self, format: Fmt::FmtCtime }
    }

    /// Returns a `TmFmt` that outputs according to the `asctime` format
    /// in ISO C.
    ///
    /// Example: "Thu Jan  1 00:00:00 1970"
    pub fn asctime(&self) -> (fmt: TmFmt<'_>)
        ensures
            fmt.tm == self,
            fmt.format matches Fmt::FmtStr(s) && s@ == "%c"@,
    {
        TmFmt { tm: self, format: Fmt::FmtStr("%c") }
    }

    /// Formats the time according to the format string.
    pub fn strftime<'a>(&'a self, format: &'a str) -> (r: Result<TmFmt<'a>, ParseError>)
        ensures
            strftime_err(*self, format@) is None ==> r is Ok && r->Ok_0.tm == self
                && (r->Ok_0.format matches Fmt::FmtStr(s) && s@ == format@),
            strftime_err(*self, format@) matches Some(e) ==> r == Result::<
                TmFmt<'a>,
                ParseError,
            >::Err(e),
    {
        validate_format(TmFmt { tm: self, format: Fmt::FmtStr(format) })
    }

    /// Returns a `TmFmt` that outputs according to RFC 822.
    ///
    /// local: "Thu, 22 Mar 2012 07:53:18 PST"
    /// utc:   "Thu, 22 Mar 2012 14:53:18 GMT"
    pub fn rfc822(&self) -> (fmt: TmFmt<'_>)
        ensures
            fmt.tm == self,
            self.tm_utcoff == 0 ==> (fmt.format matches Fmt::FmtStr(s) && s@ == "%a, %d %b %Y %T GMT"@),
            self.tm_utcoff != 0 ==> (fmt.format matches Fmt::FmtStr(s) && s@ == "%a, %d %b %Y %T %Z"@),
    {
        let f = if self.tm_utcoff == 0 {
            "%a, %d %b %Y %T GMT"
        } else {
            "%a, %d %b %Y %T %Z"
        };
        TmFmt { tm: self, format: Fmt::FmtStr(f) }
    }

    /// Returns a `TmFmt` that outputs according to RFC 822 with a
    /// numeric zone.
    ///
    /// local: "Thu, 22 Mar 2012 07:53:18 -0700"
    pub fn rfc822z(&self) -> (fmt: TmFmt<'_>)
        ensures
            fmt.tm == self,
            fmt.format matches Fmt::FmtStr(s) && s@ == "%a, %d %b %Y %T %z"@,
    {
        TmFmt { tm: self, format: Fmt::FmtStr("%a, %d %b %Y %T %z") }
    }

    /// Returns a `TmFmt` that outputs according to RFC 3339, which is
    /// compatible with ISO 8601.
    ///
    /// local: "2012-02-22T07:53:18-07:00"
    /// utc:   "2012-02-22T14:53:18Z"
    pub fn rfc3339(&self) -> (fmt: TmFmt<'_>)
        ensures
            fmt.tm == self,
            fmt.format is FmtRfc3339,
    {
        TmFmt { tm: self, format: Fmt::FmtRfc3339 }
    }
}

/// Formats the time according to the format string.
pub fn strftime(format: &str, tm: &Tm) -> (r: Result<String, ParseError>)
    ensures
        strftime_err(*tm, format@) is None ==> r is Ok && r->Ok_0@ == render_spec(*tm, format@),
        strftime_err(*tm, format@) matches Some(e) ==> r == Result::<String, ParseError>::Err(e),
{
    match tm.strftime(format) {
        Ok(fmt) => Ok(fmt.to_string()),
        Err(e) => Err(e),
    }
}

} // verus!
