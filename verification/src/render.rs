//! Render mode of the format interpreter: turning a broken-down time and
//! a format specifier into text.
//!
//! Composite specifiers expand into the same primitive specifiers they
//! are documented as, by genuine recursive delegation, so the composites
//! cannot drift from their primitives.

use vstd::prelude::*;
use crate::tm::Tm;
use crate::tm::tm_to_secs_spec;
use crate::tm::tm_to_secs;
use crate::calendar::days_in_year_spec;
use crate::calendar::days_in_year;
use crate::numfmt::pad_space;
use crate::numfmt::pad_zero;
use crate::numfmt::push_dec_i64;
use crate::numfmt::push_space_padded_i64;
use crate::numfmt::push_zero_padded_i64;
use crate::numfmt::signed_dec;

verus! {

/// Rust's truncating division (toward zero), for a positive divisor.
pub open spec fn trunc_div(a: int, b: int) -> int {
    if a >= 0 {
        a / b
    } else {
        -((-a) / b)
    }
}

/// Rust's truncating remainder (sign of the dividend), for a positive
/// divisor.
pub open spec fn trunc_mod(a: int, b: int) -> int {
    if a >= 0 {
        a % b
    } else {
        -((-a) % b)
    }
}

pub open spec fn wday_full(w: int) -> Seq<char> {
    if w == 0 {
        "Sunday"@
    } else if w == 1 {
        "Monday"@
    } else if w == 2 {
        "Tuesday"@
    } else if w == 3 {
        "Wednesday"@
    } else if w == 4 {
        "Thursday"@
    } else if w == 5 {
        "Friday"@
    } else if w == 6 {
        "Saturday"@
    } else {
        Seq::empty()
    }
}

pub open spec fn wday_abbr(w: int) -> Seq<char> {
    if w == 0 {
        "Sun"@
    } else if w == 1 {
        "Mon"@
    } else if w == 2 {
        "Tue"@
    } else if w == 3 {
        "Wed"@
    } else if w == 4 {
        "Thu"@
    } else if w == 5 {
        "Fri"@
    } else if w == 6 {
        "Sat"@
    } else {
        Seq::empty()
    }
}

pub open spec fn month_full(m: int) -> Seq<char> {
    if m == 0 {
        "January"@
    } else if m == 1 {
        "February"@
    } else if m == 2 {
        "March"@
    } else if m == 3 {
        "April"@
    } else if m == 4 {
        "May"@
    } else if m == 5 {
        "June"@
    } else if m == 6 {
        "July"@
    } else if m == 7 {
        "August"@
    } else if m == 8 {
        "September"@
    } else if m == 9 {
        "October"@
    } else if m == 10 {
        "November"@
    } else if m == 11 {
        "December"@
    } else {
        Seq::empty()
    }
}

pub open spec fn month_abbr(m: int) -> Seq<char> {
    if m == 0 {
        "Jan"@
    } else if m == 1 {
        "Feb"@
    } else if m == 2 {
        "Mar"@
    } else if m == 3 {
        "Apr"@
    } else if m == 4 {
        "May"@
    } else if m == 5 {
        "Jun"@
    } else if m == 6 {
        "Jul"@
    } else if m == 7 {
        "Aug"@
    } else if m == 8 {
        "Sep"@
    } else if m == 9 {
        "Oct"@
    } else if m == 10 {
        "Nov"@
    } else if m == 11 {
        "Dec"@
    } else {
        Seq::empty()
    }
}

/// The hour on the 12-hour clock: 0 becomes 12, 13 to 23 drop 12.
pub open spec fn hour12(h: int) -> int {
    let h = if h == 0 {
        12
    } else {
        h
    };
    if h > 12 {
        h - 12
    } else {
        h
    }
}

/// The days from the first day of the first ISO week of the year to the
/// given year day.  ISO weeks start on Monday; the first ISO week holds
/// the year's first Thursday.
pub open spec fn iso_week_days_spec(yday: int, wday: int) -> int {
    yday - trunc_mod(yday - wday + 4 + 378, 7) + 4 - 1
}

/// The ISO week-numbering year and the day offset into it, disambiguated
/// across the previous, current and next year.
pub open spec fn iso_week_state(tm: Tm) -> (int, int) {
    let year = tm.tm_year + 1900;
    let days = iso_week_days_spec(tm.tm_yday as int, tm.tm_wday as int);
    if days < 0 {
        (year - 1, iso_week_days_spec(tm.tm_yday + days_in_year_spec(year - 1), tm.tm_wday as int))
    } else {
        let d = iso_week_days_spec(tm.tm_yday - days_in_year_spec(year), tm.tm_wday as int);
        if 0 <= d {
            (year + 1, d)
        } else {
            (year, days)
        }
    }
}

/// The `±HHMM` zone of `%z`: `+` for an offset at least zero.
pub open spec fn zone_hhmm_spec(off: int) -> Seq<char> {
    let sign = if off >= 0 {
        "+"@
    } else {
        "-"@
    };
    let a = if off >= 0 {
        off
    } else {
        -off
    };
    let m0 = a / 60;
    let h = m0 / 60;
    let m = m0 - h * 60;
    sign + pad_zero(h, 2) + pad_zero(m, 2)
}

/// The `±HH:MM` zone of the RFC 3339 rendering of a non-zero offset.
pub open spec fn zone_colon_spec(off: int) -> Seq<char> {
    let sign = if off > 0 {
        "+"@
    } else {
        "-"@
    };
    let a = if off >= 0 {
        off
    } else {
        -off
    };
    let m0 = a / 60;
    let h = m0 / 60;
    let m = m0 - h * 60;
    sign + pad_zero(h, 2) + ":"@ + pad_zero(m, 2)
}

/// What one primitive specifier renders.
#[verifier::opaque]
pub open spec fn conv_prim(tm: Tm, c: char) -> Seq<char> {
    if c == 'A' {
        wday_full(tm.tm_wday as int)
    } else if c == 'a' {
        wday_abbr(tm.tm_wday as int)
    } else if c == 'B' {
        month_full(tm.tm_mon as int)
    } else if c == 'b' || c == 'h' {
        month_abbr(tm.tm_mon as int)
    } else if c == 'C' {
        pad_zero(trunc_div(tm.tm_year + 1900, 100), 2)
    } else if c == 'd' {
        pad_zero(tm.tm_mday as int, 2)
    } else if c == 'e' {
        pad_space(tm.tm_mday as int, 2)
    } else if c == 'f' {
        pad_zero(tm.tm_nsec as int, 9)
    } else if c == 'G' {
        signed_dec(iso_week_state(tm).0)
    } else if c == 'g' {
        pad_zero(iso_week_state(tm).0 % 100, 2)
    } else if c == 'H' {
        pad_zero(tm.tm_hour as int, 2)
    } else if c == 'I' {
        pad_zero(hour12(tm.tm_hour as int), 2)
    } else if c == 'j' {
        pad_zero(tm.tm_yday + 1, 3)
    } else if c == 'k' {
        pad_space(tm.tm_hour as int, 2)
    } else if c == 'l' {
        pad_space(hour12(tm.tm_hour as int), 2)
    } else if c == 'M' {
        pad_zero(tm.tm_min as int, 2)
    } else if c == 'm' {
        pad_zero(tm.tm_mon + 1, 2)
    } else if c == 'n' {
        "\n"@
    } else if c == 'P' {
        if tm.tm_hour < 12 {
            "am"@
        } else {
            "pm"@
        }
    } else if c == 'p' {
        if tm.tm_hour < 12 {
            "AM"@
        } else {
            "PM"@
        }
    } else if c == 'S' {
        pad_zero(tm.tm_sec as int, 2)
    } else if c == 's' {
        signed_dec(tm_to_secs_spec(tm))
    } else if c == 't' {
        "\t"@
    } else if c == 'U' {
        pad_zero(trunc_div(tm.tm_yday - tm.tm_wday + 7, 7), 2)
    } else if c == 'u' {
        signed_dec(
            if tm.tm_wday == 0 {
                7
            } else {
                tm.tm_wday as int
            },
        )
    } else if c == 'V' {
        pad_zero(trunc_div(iso_week_state(tm).1, 7) + 1, 2)
    } else if c == 'W' {
        pad_zero(trunc_div(tm.tm_yday - trunc_mod(tm.tm_wday - 1 + 7, 7) + 7, 7), 2)
    } else if c == 'w' {
        signed_dec(tm.tm_wday as int)
    } else if c == 'Y' {
        signed_dec(tm.tm_year + 1900)
    } else if c == 'y' {
        pad_zero(trunc_mod(tm.tm_year + 1900, 100), 2)
    } else if c == 'Z' {
        if tm.tm_utcoff == 0 {
            "UTC"@
        } else {
            Seq::empty()
        }
    } else if c == 'z' {
        zone_hhmm_spec(tm.tm_utcoff as int)
    } else if c == '%' {
        "%"@
    } else {
        Seq::empty()
    }
}

/// The fixed RFC 3339 rendering: date and time joined by `T`, then `Z`
/// for UTC or the signed `HH:MM` offset.
pub open spec fn rfc3339_spec(tm: Tm) -> Seq<char> {
    let stamp = conv_prim(tm, 'Y') + "-"@ + conv_prim(tm, 'm') + "-"@ + conv_prim(
        tm, 'd') + "T"@ + conv_prim(tm, 'H') + ":"@ + conv_prim(tm, 'M') + ":"@
        + conv_prim(tm, 'S');
    if tm.tm_utcoff == 0 {
        stamp + "Z"@
    } else {
        stamp + zone_colon_spec(tm.tm_utcoff as int)
    }
}

/// What one specifier renders: composites expand to their primitive
/// sequences.
pub open spec fn conv_spec(tm: Tm, c: char) -> Seq<char> {
    if c == 'c' {
        conv_prim(tm, 'a') + " "@ + conv_prim(tm, 'b') + " "@ + conv_prim(tm, 'e')
            + " "@ + conv_prim(tm, 'H') + ":"@ + conv_prim(tm, 'M') + ":"@
            + conv_prim(tm, 'S') + " "@ + conv_prim(tm, 'Y')
    } else if c == 'D' || c == 'x' {
        conv_prim(tm, 'm') + "/"@ + conv_prim(tm, 'd') + "/"@ + conv_prim(tm, 'y')
    } else if c == 'F' {
        conv_prim(tm, 'Y') + "-"@ + conv_prim(tm, 'm') + "-"@ + conv_prim(tm, 'd')
    } else if c == 'R' {
        conv_prim(tm, 'H') + ":"@ + conv_prim(tm, 'M')
    } else if c == 'r' {
        conv_prim(tm, 'I') + ":"@ + conv_prim(tm, 'M') + ":"@ + conv_prim(tm, 'S')
            + " "@ + conv_prim(tm, 'p')
    } else if c == 'T' || c == 'X' {
        conv_prim(tm, 'H') + ":"@ + conv_prim(tm, 'M') + ":"@ + conv_prim(tm, 'S')
    } else if c == 'v' {
        conv_prim(tm, 'e') + "-"@ + conv_prim(tm, 'b') + "-"@ + conv_prim(tm, 'Y')
    } else if c == '+' {
        rfc3339_spec(tm)
    } else {
        conv_prim(tm, c)
    }
}

/// What a whole format string renders: literal characters pass through,
/// `%` consumes the next character as a specifier.  A trailing bare `%`
/// (which validation refuses) renders nothing.
pub open spec fn render_spec(tm: Tm, f: Seq<char>) -> Seq<char>
    decreases f.len(),
{
    if f.len() == 0 {
        Seq::empty()
    } else if f[0] == '%' {
        if f.len() >= 2 {
            conv_spec(tm, f[1]) + render_spec(tm, f.skip(2))
        } else {
            Seq::empty()
        }
    } else {
        seq![f[0]] + render_spec(tm, f.skip(1))
    }
}

fn wday_full_str(w: i32) -> (s: &'static str)
    requires
        0 <= w <= 6,
    ensures
        s@ == wday_full(w as int),
{
    if w == 0 {
        "Sunday"
    } else if w == 1 {
        "Monday"
    } else if w == 2 {
        "Tuesday"
    } else if w == 3 {
        "Wednesday"
    } else if w == 4 {
        "Thursday"
    } else if w == 5 {
        "Friday"
    } else {
        "Saturday"
    }
}

fn wday_abbr_str(w: i32) -> (s: &'static str)
    requires
        0 <= w <= 6,
    ensures
        s@ == wday_abbr(w as int),
{
    if w == 0 {
        "Sun"
    } else if w == 1 {
        "Mon"
    } else if w == 2 {
        "Tue"
    } else if w == 3 {
        "Wed"
    } else if w == 4 {
        "Thu"
    } else if w == 5 {
        "Fri"
    } else {
        "Sat"
    }
}

fn month_full_str(m: i32) -> (s: &'static str)
    requires
        0 <= m <= 11,
    ensures
        s@ == month_full(m as int),
{
    if m == 0 {
        "January"
    } else if m == 1 {
        "February"
    } else if m == 2 {
        "March"
    } else if m == 3 {
        "April"
    } else if m == 4 {
        "May"
    } else if m == 5 {
        "June"
    } else if m == 6 {
        "July"
    } else if m == 7 {
        "August"
    } else if m == 8 {
        "September"
    } else if m == 9 {
        "October"
    } else if m == 10 {
        "November"
    } else {
        "December"
    }
}

fn month_abbr_str(m: i32) -> (s: &'static str)
    requires
        0 <= m <= 11,
    ensures
        s@ == month_abbr(m as int),
{
    if m == 0 {
        "Jan"
    } else if m == 1 {
        "Feb"
    } else if m == 2 {
        "Mar"
    } else if m == 3 {
        "Apr"
    } else if m == 4 {
        "May"
    } else if m == 5 {
        "Jun"
    } else if m == 6 {
        "Jul"
    } else if m == 7 {
        "Aug"
    } else if m == 8 {
        "Sep"
    } else if m == 9 {
        "Oct"
    } else if m == 10 {
        "Nov"
    } else {
        "Dec"
    }
}

fn iso_week_days(yday: i64, wday: i64) -> (r: i64)
    requires
        -10_000_000_000 <= yday <= 10_000_000_000,
        -10_000_000_000 <= wday <= 10_000_000_000,
    ensures
        r == iso_week_days_spec(yday as int, wday as int),
{
    yday - (yday - wday + 4 + 378) % 7 + 4 - 1
}

/// The ISO week-numbering year and day offset for a broken-down time.
fn iso_week_nums(tm: &Tm) -> (r: (i64, i64))
    ensures
        r.0 == iso_week_state(*tm).0,
        r.1 == iso_week_state(*tm).1,
{
    let yday: i64 = tm.tm_yday as i64;
    let wday: i64 = tm.tm_wday as i64;
    let year: i64 = tm.tm_year as i64 + 1900;
    let days = iso_week_days(yday, wday);
    if days < 0 {
        let d2 = iso_week_days(yday + days_in_year(year - 1), wday);
        (year - 1, d2)
    } else {
        let d = iso_week_days(yday - days_in_year(year), wday);
        if 0 <= d {
            (year + 1, d)
        } else {
            (year, days)
        }
    }
}

/// Appends the `±HHMM` zone of `%z`.
fn push_zone_hhmm(out: &mut String, off: i32)
    ensures
        final(out)@ == old(out)@ + zone_hhmm_spec(off as int),
{
    let a: i64 = if off >= 0 {
        out.append("+");
        off as i64
    } else {
        out.append("-");
        -(off as i64)
    };
    let m0: i64 = a / 60;
    let h: i64 = m0 / 60;
    let m: i64 = m0 - h * 60;
    push_zero_padded_i64(out, h, 2);
    push_zero_padded_i64(out, m, 2);
    proof {
        assert(out@ =~= old(out)@ + zone_hhmm_spec(off as int));
    }
}

/// Appends the `±HH:MM` zone of the RFC 3339 form of a non-zero offset.
fn push_zone_colon(out: &mut String, off: i32)
    ensures
        final(out)@ == old(out)@ + zone_colon_spec(off as int),
{
    let a: i64 = if off > 0 {
        out.append("+");
        off as i64
    } else {
        out.append("-");
        if off >= 0 {
            off as i64
        } else {
            -(off as i64)
        }
    };
    let m0: i64 = a / 60;
    let h: i64 = m0 / 60;
    let m: i64 = m0 - h * 60;
    push_zero_padded_i64(out, h, 2);
    out.append(":");
    push_zero_padded_i64(out, m, 2);
    proof {
        assert(out@ =~= old(out)@ + zone_colon_spec(off as int));
    }
}

/// Appends what one primitive specifier renders.
#[verifier::rlimit(40)]
fn push_conv_prim(out: &mut String, tm: &Tm, c: char)
    ensures
        final(out)@ == old(out)@ + conv_prim(*tm, c),
{
    proof {
        reveal(conv_prim);
    }
    if c == 'A' {
        if 0 <= tm.tm_wday && tm.tm_wday <= 6 {
            let s = wday_full_str(tm.tm_wday);
            out.append(s);
        } else {
            proof {
                assert(out@ =~= old(out)@ + conv_prim(*tm, c));
            }
        }
    } else if c == 'a' {
        if 0 <= tm.tm_wday && tm.tm_wday <= 6 {
            let s = wday_abbr_str(tm.tm_wday);
            out.append(s);
        } else {
            proof {
                assert(out@ =~= old(out)@ + conv_prim(*tm, c));
            }
        }
    } else if c == 'B' {
        if 0 <= tm.tm_mon && tm.tm_mon <= 11 {
            let s = month_full_str(tm.tm_mon);
            out.append(s);
        } else {
            proof {
                assert(out@ =~= old(out)@ + conv_prim(*tm, c));
            }
        }
    } else if c == 'b' || c == 'h' {
        if 0 <= tm.tm_mon && tm.tm_mon <= 11 {
            let s = month_abbr_str(tm.tm_mon);
            out.append(s);
        } else {
            proof {
                assert(out@ =~= old(out)@ + conv_prim(*tm, c));
            }
        }
    } else if c == 'C' {
        let v: i64 = (tm.tm_year as i64 + 1900) / 100;
        push_zero_padded_i64(out, v, 2);
    } else if c == 'd' {
        push_zero_padded_i64(out, tm.tm_mday as i64, 2);
    } else if c == 'e' {
        push_space_padded_i64(out, tm.tm_mday as i64, 2);
    } else if c == 'f' {
        push_zero_padded_i64(out, tm.tm_nsec as i64, 9);
    } else if c == 'G' {
        let (y, _d) = iso_week_nums(tm);
        push_dec_i64(out, y);
    } else if c == 'g' {
        let (y, _d) = iso_week_nums(tm);
        let v = crate::calendar::floor_mod_i64(y, 100);
        push_zero_padded_i64(out, v, 2);
    } else if c == 'H' {
        push_zero_padded_i64(out, tm.tm_hour as i64, 2);
    } else if c == 'I' {
        push_zero_padded_i64(out, hour12_exec(tm.tm_hour), 2);
    } else if c == 'j' {
        push_zero_padded_i64(out, tm.tm_yday as i64 + 1, 3);
    } else if c == 'k' {
        push_space_padded_i64(out, tm.tm_hour as i64, 2);
    } else if c == 'l' {
        push_space_padded_i64(out, hour12_exec(tm.tm_hour), 2);
    } else if c == 'M' {
        push_zero_padded_i64(out, tm.tm_min as i64, 2);
    } else if c == 'm' {
        push_zero_padded_i64(out, tm.tm_mon as i64 + 1, 2);
    } else if c == 'n' {
        out.append("\n");
    } else if c == 'P' {
        if tm.tm_hour < 12 {
            out.append("am");
        } else {
            out.append("pm");
        }
    } else if c == 'p' {
        if tm.tm_hour < 12 {
            out.append("AM");
        } else {
            out.append("PM");
        }
    } else if c == 'S' {
        push_zero_padded_i64(out, tm.tm_sec as i64, 2);
    } else if c == 's' {
        let sec = tm_to_secs(tm);
        push_dec_i64(out, sec);
    } else if c == 't' {
        out.append("\t");
    } else if c == 'U' {
        let v: i64 = (tm.tm_yday as i64 - tm.tm_wday as i64 + 7) / 7;
        push_zero_padded_i64(out, v, 2);
    } else if c == 'u' {
        let v: i64 = if tm.tm_wday == 0 {
            7
        } else {
            tm.tm_wday as i64
        };
        push_dec_i64(out, v);
    } else if c == 'V' {
        let (_y, d) = iso_week_nums(tm);
        push_zero_padded_i64(out, d / 7 + 1, 2);
    } else if c == 'W' {
        let inner: i64 = (tm.tm_wday as i64 - 1 + 7) % 7;
        let v: i64 = (tm.tm_yday as i64 - inner + 7) / 7;
        push_zero_padded_i64(out, v, 2);
    } else if c == 'w' {
        push_dec_i64(out, tm.tm_wday as i64);
    } else if c == 'Y' {
        push_dec_i64(out, tm.tm_year as i64 + 1900);
    } else if c == 'y' {
        let v: i64 = (tm.tm_year as i64 + 1900) % 100;
        push_zero_padded_i64(out, v, 2);
    } else if c == 'Z' {
        if tm.tm_utcoff == 0 {
            out.append("UTC");
        } else {
            proof {
                assert(out@ =~= old(out)@ + conv_prim(*tm, c));
            }
        }
    } else if c == 'z' {
        push_zone_hhmm(out, tm.tm_utcoff);
    } else if c == '%' {
        out.append("%");
    } else {
        proof {
            assert(out@ =~= old(out)@ + conv_prim(*tm, c));
        }
    }
}

fn hour12_exec(h: i32) -> (r: i64)
    ensures
        r == hour12(h as int),
{
    let mut v: i64 = h as i64;
    if v == 0 {
        v = 12;
    }
    if v > 12 {
        v = v - 12;
    }
    v
}

/// Appends the fixed RFC 3339 rendering of the time.
pub(crate) fn push_rfc3339(out: &mut String, tm: &Tm)
    ensures
        final(out)@ == old(out)@ + rfc3339_spec(*tm),
{
    push_conv_prim(out, tm, 'Y');
    out.append("-");
    push_conv_prim(out, tm, 'm');
    out.append("-");
    push_conv_prim(out, tm, 'd');
    out.append("T");
    push_conv_prim(out, tm, 'H');
    out.append(":");
    push_conv_prim(out, tm, 'M');
    out.append(":");
    push_conv_prim(out, tm, 'S');
    if tm.tm_utcoff == 0 {
        out.append("Z");
    } else {
        push_zone_colon(out, tm.tm_utcoff);
    }
    proof {
        assert(out@ =~= old(out)@ + rfc3339_spec(*tm));
    }
}

/// Appends what one specifier renders, composites delegating to their
/// primitives.
#[verifier::rlimit(60)]
pub(crate) fn push_conv(out: &mut String, tm: &Tm, c: char)
    ensures
        final(out)@ == old(out)@ + conv_spec(*tm, c),
{
    if c == 'c' {
        push_conv_prim(out, tm, 'a');
        out.append(" ");
        push_conv_prim(out, tm, 'b');
        out.append(" ");
        push_conv_prim(out, tm, 'e');
        out.append(" ");
        push_conv_prim(out, tm, 'H');
        out.append(":");
        push_conv_prim(out, tm, 'M');
        out.append(":");
        push_conv_prim(out, tm, 'S');
        out.append(" ");
        push_conv_prim(out, tm, 'Y');
        proof {
            assert(out@ =~= old(out)@ + conv_spec(*tm, c));
        }
    } else if c == 'D' || c == 'x' {
        push_conv_prim(out, tm, 'm');
        out.append("/");
        push_conv_prim(out, tm, 'd');
        out.append("/");
        push_conv_prim(out, tm, 'y');
        proof {
            assert(out@ =~= old(out)@ + conv_spec(*tm, c));
        }
    } else if c == 'F' {
        push_conv_prim(out, tm, 'Y');
        out.append("-");
        push_conv_prim(out, tm, 'm');
        out.append("-");
        push_conv_prim(out, tm, 'd');
        proof {
            assert(out@ =~= old(out)@ + conv_spec(*tm, c));
        }
    } else if c == 'R' {
        push_conv_prim(out, tm, 'H');
        out.append(":");
        push_conv_prim(out, tm, 'M');
        proof {
            assert(out@ =~= old(out)@ + conv_spec(*tm, c));
        }
    } else if c == 'r' {
        push_conv_prim(out, tm, 'I');
        out.append(":");
        push_conv_prim(out, tm, 'M');
        out.append(":");
        push_conv_prim(out, tm, 'S');
        out.append(" ");
        push_conv_prim(out, tm, 'p');
        proof {
            assert(out@ =~= old(out)@ + conv_spec(*tm, c));
        }
    } else if c == 'T' || c == 'X' {
        push_conv_prim(out, tm, 'H');
        out.append(":");
        push_conv_prim(out, tm, 'M');
        out.append(":");
        push_conv_prim(out, tm, 'S');
        proof {
            assert(out@ =~= old(out)@ + conv_spec(*tm, c));
        }
    } else if c == 'v' {
        push_conv_prim(out, tm, 'e');
        out.append("-");
        push_conv_prim(out, tm, 'b');
        out.append("-");
        push_conv_prim(out, tm, 'Y');
        proof {
            assert(out@ =~= old(out)@ + conv_spec(*tm, c));
        }
    } else if c == '+' {
        push_rfc3339(out, tm);
    } else {
        push_conv_prim(out, tm, c);
    }
}

/// Appends what a whole format string renders.
pub(crate) fn push_format(out: &mut String, tm: &Tm, f: &Vec<char>)
    ensures
        final(out)@ == old(out)@ + render_spec(*tm, f@),
{
    let ghost orig = out@;
    let n = f.len();
    let mut i: usize = 0;
    proof {
        assert(f@.skip(0) =~= f@);
    }
    while i < n
        invariant
            i <= n,
            n == f@.len(),
            out@ + render_spec(*tm, f@.skip(i as int)) == orig + render_spec(*tm, f@),
        decreases n - i,
    {
        let c = f[i];
        if c == '%' {
            if i + 1 < n {
                let sp = f[i + 1];
                push_conv(out, tm, sp);
                proof {
                    assert(f@.skip(i as int).skip(2) =~= f@.skip(i as int + 2));
                }
                i = i + 2;
            } else {
                proof {
                    assert(f@.skip(i as int).len() == 1);
                }
                i = i + 1;
                proof {
                    assert(f@.skip(i as int) =~= Seq::<char>::empty());
                }
            }
        } else {
            crate::numfmt::push_char(out, c);
            proof {
                assert(f@.skip(i as int).skip(1) =~= f@.skip(i as int + 1));
                assert(out@ + render_spec(*tm, f@.skip(i as int + 1)) =~= orig + render_spec(
                    *tm, f@));
            }
            i = i + 1;
        }
    }
    proof {
        assert(f@.skip(n as int) =~= Seq::<char>::empty());
        assert(final(out)@ =~= old(out)@ + render_spec(*tm, f@));
    }
}

/// The characters of a string, one sequence element per character.
pub fn str_to_chars(s: &str) -> (v: Vec<char>)
    ensures
        v@ == s@,
{
    let n = s.unicode_len();
    let mut v: Vec<char> = Vec::new();
    let mut i: usize = 0;
    while i < n
        invariant
            i <= n,
            n == s@.len(),
            v@ == s@.take(i as int),
        decreases n - i,
    {
        let c = s.get_char(i);
        v.push(c);
        i = i + 1;
        proof {
            assert(v@ =~= s@.take(i as int));
        }
    }
    proof {
        assert(v@ =~= s@);
    }
    v
}

} // verus!
