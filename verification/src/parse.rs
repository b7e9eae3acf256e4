//! Match mode of the format interpreter: parsing a time string against a
//! format string (`strptime`).
//!
//! The format string is walked literally; `%` selects a specifier that
//! consumes a prefix of the remaining input and fills broken-down-time
//! fields.  Parsing succeeds only when format and input are exhausted
//! together.

use vstd::prelude::*;
use crate::errors::ParseError;
use crate::tm::Tm;
use crate::tm::empty_tm_spec;
use crate::tm::empty_tm;
use crate::render::str_to_chars;

verus! {

/// The outcome of consuming one specifier: the updated time and input
/// position, or the error that stopped parsing.
pub enum PRes {
    POk(Tm, int),
    PFail(ParseError),
}

pub open spec fn is_digit(c: char) -> bool {
    48 <= c as u32 <= 57
}

pub open spec fn digit_val(c: char) -> int {
    c as u32 - 48
}

/// The literal `lit` occurs in `s` at position `pos`.
pub open spec fn match_at(s: Seq<char>, pos: int, lit: Seq<char>) -> bool {
    0 <= pos && pos + lit.len() <= s.len() && s.subrange(pos, pos + lit.len()) == lit
}

/// Consumes exactly `n` characters, each a digit or (when `ws` holds) a
/// space, accumulating the base-10 value of the digits.
pub open spec fn digits_val(s: Seq<char>, pos: int, n: int, ws: bool, acc: int) -> Option<int>
    decreases n,
{
    if n <= 0 {
        Some(acc)
    } else if pos < 0 || pos >= s.len() {
        None
    } else if is_digit(s[pos]) {
        digits_val(s, pos + 1, n - 1, ws, acc * 10 + digit_val(s[pos]))
    } else if s[pos] == ' ' && ws {
        digits_val(s, pos + 1, n - 1, ws, acc)
    } else {
        None
    }
}

/// Greedily consumes digits as fractional seconds, each weighted by a
/// falling power of ten from `10^8`; digits past the ninth weigh nothing.
pub open spec fn frac_nsec(s: Seq<char>, pos: int, acc: int, mult: int) -> (int, int)
    decreases s.len() - pos,
{
    if 0 <= pos && pos < s.len() && is_digit(s[pos]) {
        frac_nsec(s, pos + 1, acc + digit_val(s[pos]) * mult, mult / 10)
    } else {
        (acc, pos)
    }
}

/// Consumes up to and including the next space, as the lenient zone-name
/// rule of `%Z` does.
pub open spec fn skip_to_space(s: Seq<char>, pos: int) -> int
    decreases s.len() - pos,
{
    if 0 <= pos && pos < s.len() {
        if s[pos] == ' ' {
            pos + 1
        } else {
            skip_to_space(s, pos + 1)
        }
    } else {
        pos
    }
}

/// A 32-bit wraparound of a sum that left the `i32` range by less than
/// one full turn.
pub open spec fn wrap_add_i32(cur: int, delta: int) -> int {
    let x = cur + delta;
    if x > i32::MAX {
        x - 0x1_0000_0000
    } else if x < i32::MIN {
        x + 0x1_0000_0000
    } else {
        x
    }
}

/// Matching a literal character of a composite: the input must hold
/// exactly that character.
pub open spec fn pchar(s: Seq<char>, pos: int, c: char, tm: Tm) -> PRes {
    if 0 <= pos && pos < s.len() {
        if s[pos] == c {
            PRes::POk(tm, pos + 1)
        } else {
            PRes::PFail(ParseError::UnexpectedCharacter(c, s[pos]))
        }
    } else {
        PRes::PFail(ParseError::InvalidTime)
    }
}

pub open spec fn conv_rank(c: char) -> nat {
    if c == 'c' || c == 'r' {
        2
    } else if c == 'D' || c == 'x' || c == 'F' || c == 'R' || c == 'T' || c == 'X' || c == 'v' {
        1
    } else {
        0
    }
}

/// What one specifier consumes and writes, at spec level.
pub open spec fn pconv(s: Seq<char>, pos: int, c: char, tm: Tm) -> PRes
    decreases conv_rank(c), 9int, 0int,
{
    if c == 'c' {
        pseq(s, pos, seq!['a', ' ', 'b', ' ', 'e', ' ', 'T', ' ', 'Y'], tm, 1)
    } else if c == 'r' {
        pseq(s, pos, seq!['I', ':', 'M', ':', 'S', ' ', 'p'], tm, 0)
    } else if c == 'D' || c == 'x' {
        pseq(s, pos, seq!['m', '/', 'd', '/', 'y'], tm, 0)
    } else if c == 'F' {
        pseq(s, pos, seq!['Y', '-', 'm', '-', 'd'], tm, 0)
    } else if c == 'R' {
        pseq(s, pos, seq!['H', ':', 'M'], tm, 0)
    } else if c == 'T' || c == 'X' {
        pseq(s, pos, seq!['H', ':', 'M', ':', 'S'], tm, 0)
    } else if c == 'v' {
        pseq(s, pos, seq!['e', '-', 'b', '-', 'Y'], tm, 0)
    } else {
        pconv_prim(s, pos, c, tm)
    }
}

/// Runs a composite's expansion: specifiers at even indices, literal
/// separator characters at odd indices.  `sub` bounds the rank of every
/// specifier in the expansion.
pub open spec fn pseq(s: Seq<char>, pos: int, steps: Seq<char>, tm: Tm, sub: nat) -> PRes
    decreases sub, 10int, steps.len(),
{
    if steps.len() == 0 {
        PRes::POk(tm, pos)
    } else if conv_rank(steps[0]) > sub {
        PRes::PFail(ParseError::InvalidTime)
    } else {
        match pconv(s, pos, steps[0], tm) {
            PRes::PFail(e) => PRes::PFail(e),
            PRes::POk(tm1, p1) => {
                if steps.len() == 1 {
                    PRes::POk(tm1, p1)
                } else {
                    match pchar(s, p1, steps[1], tm1) {
                        PRes::PFail(e) => PRes::PFail(e),
                        PRes::POk(tm2, p2) => pseq(s, p2, steps.skip(2), tm2, sub),
                    }
                }
            },
        }
    }
}

/// What one primitive specifier consumes and writes.
pub open spec fn pconv_prim(s: Seq<char>, pos: int, c: char, tm: Tm) -> PRes {
    if c == 'A' {
        if match_at(s, pos, "Sunday"@) {
            PRes::POk(Tm { tm_wday: 0, ..tm }, pos + "Sunday"@.len())
        } else if match_at(s, pos, "Monday"@) {
            PRes::POk(Tm { tm_wday: 1, ..tm }, pos + "Monday"@.len())
        } else if match_at(s, pos, "Tuesday"@) {
            PRes::POk(Tm { tm_wday: 2, ..tm }, pos + "Tuesday"@.len())
        } else if match_at(s, pos, "Wednesday"@) {
            PRes::POk(Tm { tm_wday: 3, ..tm }, pos + "Wednesday"@.len())
        } else if match_at(s, pos, "Thursday"@) {
            PRes::POk(Tm { tm_wday: 4, ..tm }, pos + "Thursday"@.len())
        } else if match_at(s, pos, "Friday"@) {
            PRes::POk(Tm { tm_wday: 5, ..tm }, pos + "Friday"@.len())
        } else if match_at(s, pos, "Saturday"@) {
            PRes::POk(Tm { tm_wday: 6, ..tm }, pos + "Saturday"@.len())
        } else {
            PRes::PFail(ParseError::InvalidDay)
        }
    } else if c == 'a' {
        if match_at(s, pos, "Sun"@) {
            PRes::POk(Tm { tm_wday: 0, ..tm }, pos + "Sun"@.len())
        } else if match_at(s, pos, "Mon"@) {
            PRes::POk(Tm { tm_wday: 1, ..tm }, pos + "Mon"@.len())
        } else if match_at(s, pos, "Tue"@) {
            PRes::POk(Tm { tm_wday: 2, ..tm }, pos + "Tue"@.len())
        } else if match_at(s, pos, "Wed"@) {
            PRes::POk(Tm { tm_wday: 3, ..tm }, pos + "Wed"@.len())
        } else if match_at(s, pos, "Thu"@) {
            PRes::POk(Tm { tm_wday: 4, ..tm }, pos + "Thu"@.len())
        } else if match_at(s, pos, "Fri"@) {
            PRes::POk(Tm { tm_wday: 5, ..tm }, pos + "Fri"@.len())
        } else if match_at(s, pos, "Sat"@) {
            PRes::POk(Tm { tm_wday: 6, ..tm }, pos + "Sat"@.len())
        } else {
            PRes::PFail(ParseError::InvalidDay)
        }
    } else if c == 'B' {
        if match_at(s, pos, "January"@) {
            PRes::POk(Tm { tm_mon: 0, ..tm }, pos + "January"@.len())
        } else if match_at(s, pos, "February"@) {
            PRes::POk(Tm { tm_mon: 1, ..tm }, pos + "February"@.len())
        } else if match_at(s, pos, "March"@) {
            PRes::POk(Tm { tm_mon: 2, ..tm }, pos + "March"@.len())
        } else if match_at(s, pos, "April"@) {
            PRes::POk(Tm { tm_mon: 3, ..tm }, pos + "April"@.len())
        } else if match_at(s, pos, "May"@) {
            PRes::POk(Tm { tm_mon: 4, ..tm }, pos + "May"@.len())
        } else if match_at(s, pos, "June"@) {
            PRes::POk(Tm { tm_mon: 5, ..tm }, pos + "June"@.len())
        } else if match_at(s, pos, "July"@) {
            PRes::POk(Tm { tm_mon: 6, ..tm }, pos + "July"@.len())
        } else if match_at(s, pos, "August"@) {
            PRes::POk(Tm { tm_mon: 7, ..tm }, pos + "August"@.len())
        } else if match_at(s, pos, "September"@) {
            PRes::POk(Tm { tm_mon: 8, ..tm }, pos + "September"@.len())
        } else if match_at(s, pos, "October"@) {
            PRes::POk(Tm { tm_mon: 9, ..tm }, pos + "October"@.len())
        } else if match_at(s, pos, "November"@) {
            PRes::POk(Tm { tm_mon: 10, ..tm }, pos + "November"@.len())
        } else if match_at(s, pos, "December"@) {
            PRes::POk(Tm { tm_mon: 11, ..tm }, pos + "December"@.len())
        } else {
            PRes::PFail(ParseError::InvalidMonth)
        }
    } else if c == 'b' || c == 'h' {
        if match_at(s, pos, "Jan"@) {
            PRes::POk(Tm { tm_mon: 0, ..tm }, pos + "Jan"@.len())
        } else if match_at(s, pos, "Feb"@) {
            PRes::POk(Tm { tm_mon: 1, ..tm }, pos + "Feb"@.len())
        } else if match_at(s, pos, "Mar"@) {
            PRes::POk(Tm { tm_mon: 2, ..tm }, pos + "Mar"@.len())
        } else if match_at(s, pos, "Apr"@) {
            PRes::POk(Tm { tm_mon: 3, ..tm }, pos + "Apr"@.len())
        } else if match_at(s, pos, "May"@) {
            PRes::POk(Tm { tm_mon: 4, ..tm }, pos + "May"@.len())
        } else if match_at(s, pos, "Jun"@) {
            PRes::POk(Tm { tm_mon: 5, ..tm }, pos + "Jun"@.len())
        } else if match_at(s, pos, "Jul"@) {
            PRes::POk(Tm { tm_mon: 6, ..tm }, pos + "Jul"@.len())
        } else if match_at(s, pos, "Aug"@) {
            PRes::POk(Tm { tm_mon: 7, ..tm }, pos + "Aug"@.len())
        } else if match_at(s, pos, "Sep"@) {
            PRes::POk(Tm { tm_mon: 8, ..tm }, pos + "Sep"@.len())
        } else if match_at(s, pos, "Oct"@) {
            PRes::POk(Tm { tm_mon: 9, ..tm }, pos + "Oct"@.len())
        } else if match_at(s, pos, "Nov"@) {
            PRes::POk(Tm { tm_mon: 10, ..tm }, pos + "Nov"@.len())
        } else if match_at(s, pos, "Dec"@) {
            PRes::POk(Tm { tm_mon: 11, ..tm }, pos + "Dec"@.len())
        } else {
            PRes::PFail(ParseError::InvalidMonth)
        }
    } else if c == 'C' {
        match digits_val(s, pos, 2, false, 0) {
            Some(v) => if 0 <= v <= 99 {
                PRes::POk(
                    Tm { tm_year: wrap_add_i32(tm.tm_year as int, v * 100 - 1900) as i32, ..tm },
                    pos + 2,
                )
            } else {
                PRes::PFail(ParseError::InvalidYear)
            },
            None => PRes::PFail(ParseError::InvalidYear),
        }
    } else if c == 'd' {
        match digits_val(s, pos, 2, false, 0) {
            Some(v) => if 1 <= v <= 31 {
                PRes::POk(Tm { tm_mday: v as i32, ..tm }, pos + 2)
            } else {
                PRes::PFail(ParseError::InvalidDayOfMonth)
            },
            None => PRes::PFail(ParseError::InvalidDayOfMonth),
        }
    } else if c == 'e' {
        match digits_val(s, pos, 2, true, 0) {
            Some(v) => if 1 <= v <= 31 {
                PRes::POk(Tm { tm_mday: v as i32, ..tm }, pos + 2)
            } else {
                PRes::PFail(ParseError::InvalidDayOfMonth)
            },
            None => PRes::PFail(ParseError::InvalidDayOfMonth),
        }
    } else if c == 'f' {
        let (v, p) = frac_nsec(s, pos, 0, 100_000_000);
        PRes::POk(Tm { tm_nsec: v as i32, ..tm }, p)
    } else if c == 'H' {
        match digits_val(s, pos, 2, false, 0) {
            Some(v) => if 0 <= v <= 23 {
                PRes::POk(Tm { tm_hour: v as i32, ..tm }, pos + 2)
            } else {
                PRes::PFail(ParseError::InvalidHour)
            },
            None => PRes::PFail(ParseError::InvalidHour),
        }
    } else if c == 'I' {
        match digits_val(s, pos, 2, false, 0) {
            Some(v) => if 1 <= v <= 12 {
                PRes::POk(
                    Tm {
                        tm_hour: if v == 12 {
                            0
                        } else {
                            v as i32
                        },
                        ..tm
                    },
                    pos + 2,
                )
            } else {
                PRes::PFail(ParseError::InvalidHour)
            },
            None => PRes::PFail(ParseError::InvalidHour),
        }
    } else if c == 'j' {
        match digits_val(s, pos, 3, false, 0) {
            Some(v) => if 1 <= v <= 366 {
                PRes::POk(Tm { tm_yday: (v - 1) as i32, ..tm }, pos + 3)
            } else {
                PRes::PFail(ParseError::InvalidDayOfYear)
            },
            None => PRes::PFail(ParseError::InvalidDayOfYear),
        }
    } else if c == 'k' {
        match digits_val(s, pos, 2, true, 0) {
            Some(v) => if 0 <= v <= 23 {
                PRes::POk(Tm { tm_hour: v as i32, ..tm }, pos + 2)
            } else {
                PRes::PFail(ParseError::InvalidHour)
            },
            None => PRes::PFail(ParseError::InvalidHour),
        }
    } else if c == 'l' {
        match digits_val(s, pos, 2, true, 0) {
            Some(v) => if 1 <= v <= 12 {
                PRes::POk(
                    Tm {
                        tm_hour: if v == 12 {
                            0
                        } else {
                            v as i32
                        },
                        ..tm
                    },
                    pos + 2,
                )
            } else {
                PRes::PFail(ParseError::InvalidHour)
            },
            None => PRes::PFail(ParseError::InvalidHour),
        }
    } else if c == 'M' {
        match digits_val(s, pos, 2, false, 0) {
            Some(v) => if 0 <= v <= 59 {
                PRes::POk(Tm { tm_min: v as i32, ..tm }, pos + 2)
            } else {
                PRes::PFail(ParseError::InvalidMinute)
            },
            None => PRes::PFail(ParseError::InvalidMinute),
        }
    } else if c == 'm' {
        match digits_val(s, pos, 2, false, 0) {
            Some(v) => if 1 <= v <= 12 {
                PRes::POk(Tm { tm_mon: (v - 1) as i32, ..tm }, pos + 2)
            } else {
                PRes::PFail(ParseError::InvalidMonth)
            },
            None => PRes::PFail(ParseError::InvalidMonth),
        }
    } else if c == 'n' {
        pchar(s, pos, '\n', tm)
    } else if c == 'P' {
        if match_at(s, pos, "am"@) {
            PRes::POk(tm, pos + "am"@.len())
        } else if match_at(s, pos, "pm"@) {
            PRes::POk(
                Tm { tm_hour: wrap_add_i32(tm.tm_hour as int, 12) as i32, ..tm },
                pos + "pm"@.len(),
            )
        } else {
            PRes::PFail(ParseError::InvalidHour)
        }
    } else if c == 'p' {
        if match_at(s, pos, "AM"@) {
            PRes::POk(tm, pos + "AM"@.len())
        } else if match_at(s, pos, "PM"@) {
            PRes::POk(
                Tm { tm_hour: wrap_add_i32(tm.tm_hour as int, 12) as i32, ..tm },
                pos + "PM"@.len(),
            )
        } else {
            PRes::PFail(ParseError::InvalidHour)
        }
    } else if c == 'S' {
        match digits_val(s, pos, 2, false, 0) {
            Some(v) => if 0 <= v <= 60 {
                PRes::POk(Tm { tm_sec: v as i32, ..tm }, pos + 2)
            } else {
                PRes::PFail(ParseError::InvalidSecond)
            },
            None => PRes::PFail(ParseError::InvalidSecond),
        }
    } else if c == 't' {
        pchar(s, pos, '\t', tm)
    } else if c == 'u' {
        match digits_val(s, pos, 1, false, 0) {
            Some(v) => if 1 <= v <= 7 {
                PRes::POk(
                    Tm {
                        tm_wday: if v == 7 {
                            0
                        } else {
                            v as i32
                        },
                        ..tm
                    },
                    pos + 1,
                )
            } else {
                PRes::PFail(ParseError::InvalidDayOfWeek)
            },
            None => PRes::PFail(ParseError::InvalidDayOfWeek),
        }
    } else if c == 'w' {
        match digits_val(s, pos, 1, false, 0) {
            Some(v) => if 0 <= v <= 6 {
                PRes::POk(Tm { tm_wday: v as i32, ..tm }, pos + 1)
            } else {
                PRes::PFail(ParseError::InvalidDayOfWeek)
            },
            None => PRes::PFail(ParseError::InvalidDayOfWeek),
        }
    } else if c == 'Y' {
        match digits_val(s, pos, 4, false, 0) {
            Some(v) => PRes::POk(Tm { tm_year: (v - 1900) as i32, ..tm }, pos + 4),
            None => PRes::PFail(ParseError::InvalidYear),
        }
    } else if c == 'y' {
        match digits_val(s, pos, 2, false, 0) {
            Some(v) => if 0 <= v <= 99 {
                PRes::POk(Tm { tm_year: v as i32, ..tm }, pos + 2)
            } else {
                PRes::PFail(ParseError::InvalidYear)
            },
            None => PRes::PFail(ParseError::InvalidYear),
        }
    } else if c == 'Z' {
        if match_at(s, pos, "UTC"@) {
            PRes::POk(Tm { tm_utcoff: 0, ..tm }, pos + "UTC"@.len())
        } else if match_at(s, pos, "GMT"@) {
            PRes::POk(Tm { tm_utcoff: 0, ..tm }, pos + "GMT"@.len())
        } else {
            PRes::POk(tm, skip_to_space(s, pos))
        }
    } else if c == 'z' {
        if 0 <= pos && pos < s.len() && (s[pos] == '+' || s[pos] == '-') {
            let sign: int = if s[pos] == '+' {
                1
            } else {
                -1
            };
            match digits_val(s, pos + 1, 4, false, 0) {
                Some(v) => {
                    let off: int = if v == 0 {
                        0
                    } else {
                        let hours = v / 100;
                        let minutes = v - hours * 100;
                        sign * (hours * 3600 + minutes * 60)
                    };
                    PRes::POk(Tm { tm_utcoff: off as i32, ..tm }, pos + 5)
                },
                None => PRes::PFail(ParseError::InvalidZoneOffset),
            }
        } else {
            PRes::PFail(ParseError::InvalidZoneOffset)
        }
    } else if c == '%' {
        pchar(s, pos, '%', tm)
    } else {
        PRes::PFail(ParseError::InvalidFormatSpecifier(c))
    }
}

/// Walks the rest of the format against the rest of the input: literal
/// characters must match exactly, `%` consumes a specifier, and success
/// needs both strings exhausted together.
pub open spec fn strptime_rec(s: Seq<char>, f: Seq<char>, pos: int, fpos: int, tm: Tm) -> PRes
    decreases f.len() - fpos,
{
    if pos >= s.len() {
        if fpos >= f.len() {
            PRes::POk(tm, pos)
        } else {
            PRes::PFail(ParseError::InvalidTime)
        }
    } else if fpos < 0 || fpos >= f.len() {
        PRes::PFail(ParseError::InvalidTime)
    } else if f[fpos] == '%' {
        if fpos + 1 >= f.len() {
            PRes::PFail(ParseError::InvalidTime)
        } else {
            match pconv(s, pos, f[fpos + 1], tm) {
                PRes::PFail(e) => PRes::PFail(e),
                PRes::POk(tm2, p2) => strptime_rec(s, f, p2, fpos + 2, tm2),
            }
        }
    } else if f[fpos] == s[pos] {
        strptime_rec(s, f, pos + 1, fpos + 1, tm)
    } else {
        PRes::PFail(ParseError::UnexpectedCharacter(f[fpos], s[pos]))
    }
}

/// What `strptime` returns for an input and a format, starting from the
/// all-zero broken-down time.
pub open spec fn strptime_spec(s: Seq<char>, f: Seq<char>) -> Result<Tm, ParseError> {
    match strptime_rec(s, f, 0, 0, empty_tm_spec()) {
        PRes::POk(tm, _pos) => Ok(tm),
        PRes::PFail(e) => Err(e),
    }
}

fn wrap_add_exec(cur: i32, delta: i64) -> (r: i32)
    requires
        -100_000 <= delta <= 100_000,
    ensures
        r as int == wrap_add_i32(cur as int, delta as int),
{
    let x: i64 = cur as i64 + delta;
    if x > i32::MAX as i64 {
        (x - 0x1_0000_0000) as i32
    } else if x < i32::MIN as i64 {
        (x + 0x1_0000_0000) as i32
    } else {
        x as i32
    }
}

/// The position after the literal, when it occurs in the input at the
/// given position.
fn match_lit(s: &Vec<char>, pos: usize, lit: &str) -> (r: Option<usize>)
    requires
        pos <= s@.len(),
    ensures
        match_at(s@, pos as int, lit@) <==> r is Some,
        r matches Some(p) ==> p == pos + lit@.len() && p <= s@.len(),
{
    let l = str_to_chars(lit);
    let ll = l.len();
    if ll > s.len() - pos {
        return None;
    }
    let mut i: usize = 0;
    while i < ll
        invariant
            i <= ll,
            ll == l@.len(),
            l@ == lit@,
            pos + ll <= s@.len(),
            s@.len() <= usize::MAX,
            forall|k: int| 0 <= k < i ==> s@[pos + k] == l@[k],
        decreases ll - i,
    {
        if s[pos + i] != l[i] {
            proof {
                if match_at(s@, pos as int, lit@) {
                    assert(s@.subrange(pos as int, pos + ll)[i as int] == s@[pos + i]);
                }
            }
            return None;
        }
        i = i + 1;
    }
    proof {
        assert(s@.subrange(pos as int, pos + ll) =~= lit@);
    }
    Some(pos + ll)
}

/// Consumes exactly `n` digit-or-space characters and accumulates the
/// digits' base-10 value.
fn match_digits(s: &Vec<char>, pos: usize, n: usize, ws: bool) -> (r: Option<(i64, usize)>)
    requires
        pos <= s@.len(),
        n <= 4,
    ensures
        ({
            let dv = digits_val(s@, pos as int, n as int, ws, 0);
            match dv {
                Some(v) => r matches Some(q) && q.0 == v && q.1 == pos + n && 0 <= v < 10_000
                    && pos + n <= s@.len(),
                None => r is None,
            }
        }),
{
    let mut p: usize = pos;
    let mut i: usize = 0;
    let mut value: i64 = 0;
    proof {
        assert(crate::numfmt::pow10(0) == 1 && crate::numfmt::pow10(1) == 10
            && crate::numfmt::pow10(2) == 100 && crate::numfmt::pow10(3) == 1000
            && crate::numfmt::pow10(4) == 10_000) by {
            reveal_with_fuel(crate::numfmt::pow10, 5);
        }
    }
    while i < n
        invariant
            i <= n,
            n <= 4,
            p == pos + i,
            p <= s@.len(),
            0 <= value < crate::numfmt::pow10(i as nat),
            crate::numfmt::pow10(0) == 1 && crate::numfmt::pow10(1) == 10 && crate::numfmt::pow10(
                2,
            ) == 100 && crate::numfmt::pow10(3) == 1000 && crate::numfmt::pow10(4) == 10_000,
            digits_val(s@, pos as int, n as int, ws, 0) == digits_val(
                s@,
                p as int,
                (n - i) as int,
                ws,
                value as int,
            ),
        decreases n - i,
    {
        if p >= s.len() {
            return None;
        }
        let c = s[p];
        let u: u32 = c as u32;
        if 48 <= u && u <= 57 {
            value = value * 10 + (u - 48) as i64;
        } else if c == ' ' && ws {
        } else {
            return None;
        }
        p = p + 1;
        i = i + 1;
    }
    Some((value, p))
}

/// Greedily consumes fractional-second digits.
fn match_frac(s: &Vec<char>, pos: usize) -> (r: (i64, usize))
    requires
        pos <= s@.len(),
    ensures
        r.0 == frac_nsec(s@, pos as int, 0, 100_000_000).0,
        r.1 == frac_nsec(s@, pos as int, 0, 100_000_000).1,
        0 <= r.0 <= 999_999_999,
        pos <= r.1 <= s@.len(),
{
    let mut p: usize = pos;
    let mut value: i64 = 0;
    let mut mult: i64 = 100_000_000;
    loop
        invariant
            pos <= p <= s@.len(),
            0 <= value,
            0 <= mult <= 100_000_000,
            mult > 0 ==> value + 10 * mult <= 1_000_000_000,
            mult == 0 ==> value <= 999_999_999,
            frac_nsec(s@, pos as int, 0, 100_000_000) == frac_nsec(
                s@,
                p as int,
                value as int,
                mult as int,
            ),
        decreases s@.len() - p,
    {
        if p >= s.len() {
            return (value, p);
        }
        let u: u32 = s[p] as u32;
        if !(48 <= u && u <= 57) {
            return (value, p);
        }
        let du: i64 = (u - 48) as i64;
        proof {
            assert(du * mult <= 9 * mult) by (nonlinear_arith)
                requires
                    0 <= du <= 9,
                    mult >= 0,
            ;
        }
        value = value + du * mult;
        mult = mult / 10;
        p = p + 1;
    }
}

/// Consumes up to and including the next space.
fn skip_space(s: &Vec<char>, pos: usize) -> (r: usize)
    requires
        pos <= s@.len(),
    ensures
        r == skip_to_space(s@, pos as int),
        pos <= r <= s@.len(),
{
    let mut p: usize = pos;
    loop
        invariant
            pos <= p <= s@.len(),
            skip_to_space(s@, pos as int) == skip_to_space(s@, p as int),
        decreases s@.len() - p,
    {
        if p >= s.len() {
            return p;
        }
        if s[p] == ' ' {
            return p + 1;
        }
        p = p + 1;
    }
}

/// Matches one literal character of a composite.
fn parse_char(s: &Vec<char>, pos: usize, c: char, tm: Tm) -> (r: Result<(Tm, usize), ParseError>)
    requires
        pos <= s@.len(),
    ensures
        ({
            let sr = pchar(s@, pos as int, c, tm);
            match sr {
                PRes::POk(t2, p2) => r matches Ok(q) && q.0 == t2 && q.1 == p2 && p2 <= s@.len(),
                PRes::PFail(e) => r == Result::<(Tm, usize), ParseError>::Err(e),
            }
        }),
{
    if pos < s.len() {
        if s[pos] == c {
            Ok((tm, pos + 1))
        } else {
            Err(ParseError::UnexpectedCharacter(c, s[pos]))
        }
    } else {
        Err(ParseError::InvalidTime)
    }
}

fn conv_rank_exec(c: char) -> (r: u8)
    ensures
        r as nat == conv_rank(c),
{
    if c == 'c' || c == 'r' {
        2
    } else if c == 'D' || c == 'x' || c == 'F' || c == 'R' || c == 'T' || c == 'X' || c == 'v' {
        1
    } else {
        0
    }
}

/// Consumes one specifier, composites delegating to their primitive
/// sequences.
pub fn parse_conv(s: &Vec<char>, pos: usize, c: char, tm: Tm) -> (r: Result<
    (Tm, usize),
    ParseError,
>)
    requires
        pos <= s@.len(),
    ensures
        ({
            let sr = pconv(s@, pos as int, c, tm);
            match sr {
                PRes::POk(t2, p2) => r matches Ok(q) && q.0 == t2 && q.1 == p2 && p2 <= s@.len(),
                PRes::PFail(e) => r == Result::<(Tm, usize), ParseError>::Err(e),
            }
        }),
    decreases conv_rank(c), 9int, 0int,
{
    if c == 'c' {
        let steps: Vec<char> = vec!['a', ' ', 'b', ' ', 'e', ' ', 'T', ' ', 'Y'];
        proof {
            assert(steps@ =~= seq!['a', ' ', 'b', ' ', 'e', ' ', 'T', ' ', 'Y']);
            assert(steps@.skip(0) =~= steps@);
        }
        parse_seq_from(s, pos, &steps, 0, tm, 1)
    } else if c == 'r' {
        let steps: Vec<char> = vec!['I', ':', 'M', ':', 'S', ' ', 'p'];
        proof {
            assert(steps@ =~= seq!['I', ':', 'M', ':', 'S', ' ', 'p']);
            assert(steps@.skip(0) =~= steps@);
        }
        parse_seq_from(s, pos, &steps, 0, tm, 0)
    } else if c == 'D' || c == 'x' {
        let steps: Vec<char> = vec!['m', '/', 'd', '/', 'y'];
        proof {
            assert(steps@ =~= seq!['m', '/', 'd', '/', 'y']);
            assert(steps@.skip(0) =~= steps@);
        }
        parse_seq_from(s, pos, &steps, 0, tm, 0)
    } else if c == 'F' {
        let steps: Vec<char> = vec!['Y', '-', 'm', '-', 'd'];
        proof {
            assert(steps@ =~= seq!['Y', '-', 'm', '-', 'd']);
            assert(steps@.skip(0) =~= steps@);
        }
        parse_seq_from(s, pos, &steps, 0, tm, 0)
    } else if c == 'R' {
        let steps: Vec<char> = vec!['H', ':', 'M'];
        proof {
            assert(steps@ =~= seq!['H', ':', 'M']);
            assert(steps@.skip(0) =~= steps@);
        }
        parse_seq_from(s, pos, &steps, 0, tm, 0)
    } else if c == 'T' || c == 'X' {
        let steps: Vec<char> = vec!['H', ':', 'M', ':', 'S'];
        proof {
            assert(steps@ =~= seq!['H', ':', 'M', ':', 'S']);
            assert(steps@.skip(0) =~= steps@);
        }
        parse_seq_from(s, pos, &steps, 0, tm, 0)
    } else if c == 'v' {
        let steps: Vec<char> = vec!['e', '-', 'b', '-', 'Y'];
        proof {
            assert(steps@ =~= seq!['e', '-', 'b', '-', 'Y']);
            assert(steps@.skip(0) =~= steps@);
        }
        parse_seq_from(s, pos, &steps, 0, tm, 0)
    } else {
        parse_conv_prim(s, pos, c, tm)
    }
}

/// Runs a composite's expansion from the given step index.
fn parse_seq_from(s: &Vec<char>, pos: usize, steps: &Vec<char>, idx: usize, tm: Tm, sub: u8) -> (r:
    Result<(Tm, usize), ParseError>)
    requires
        pos <= s@.len(),
        idx <= steps@.len(),
    ensures
        ({
            let sr = pseq(s@, pos as int, steps@.skip(idx as int), tm, sub as nat);
            match sr {
                PRes::POk(t2, p2) => r matches Ok(q) && q.0 == t2 && q.1 == p2 && p2 <= s@.len(),
                PRes::PFail(e) => r == Result::<(Tm, usize), ParseError>::Err(e),
            }
        }),
    decreases sub, 10int, steps@.len() - idx,
{
    if idx >= steps.len() {
        proof {
            assert(steps@.skip(idx as int) =~= Seq::<char>::empty());
        }
        return Ok((tm, pos));
    }
    let c0 = steps[idx];
    if conv_rank_exec(c0) > sub {
        return Err(ParseError::InvalidTime);
    }
    match parse_conv(s, pos, c0, tm) {
        Err(e) => Err(e),
        Ok((t1, p1)) => {
            if idx + 1 >= steps.len() {
                Ok((t1, p1))
            } else {
                match parse_char(s, p1, steps[idx + 1], t1) {
                    Err(e) => Err(e),
                    Ok((t2, p2)) => {
                        proof {
                            assert(steps@.skip(idx as int).skip(2) =~= steps@.skip(idx as int + 2));
                        }
                        parse_seq_from(s, p2, steps, idx + 2, t2, sub)
                    },
                }
            }
        },
    }
}

/// Consumes one primitive specifier.
#[verifier::rlimit(100)]
fn parse_conv_prim(s: &Vec<char>, pos: usize, c: char, tm: Tm) -> (r: Result<
    (Tm, usize),
    ParseError,
>)
    requires
        pos <= s@.len(),
    ensures
        ({
            let sr = pconv_prim(s@, pos as int, c, tm);
            match sr {
                PRes::POk(t2, p2) => r matches Ok(q) && q.0 == t2 && q.1 == p2 && p2 <= s@.len(),
                PRes::PFail(e) => r == Result::<(Tm, usize), ParseError>::Err(e),
            }
        }),
{
    if c == 'A' {
        if let Some(p) = match_lit(s, pos, "Sunday") {
            Ok((Tm { tm_wday: 0, ..tm }, p))
        } else if let Some(p) = match_lit(s, pos, "Monday") {
            Ok((Tm { tm_wday: 1, ..tm }, p))
        } else if let Some(p) = match_lit(s, pos, "Tuesday") {
            Ok((Tm { tm_wday: 2, ..tm }, p))
        } else if let Some(p) = match_lit(s, pos, "Wednesday") {
            Ok((Tm { tm_wday: 3, ..tm }, p))
        } else if let Some(p) = match_lit(s, pos, "Thursday") {
            Ok((Tm { tm_wday: 4, ..tm }, p))
        } else if let Some(p) = match_lit(s, pos, "Friday") {
            Ok((Tm { tm_wday: 5, ..tm }, p))
        } else if let Some(p) = match_lit(s, pos, "Saturday") {
            Ok((Tm { tm_wday: 6, ..tm }, p))
        } else {
            Err(ParseError::InvalidDay)
        }
    } else if c == 'a' {
        if let Some(p) = match_lit(s, pos, "Sun") {
            Ok((Tm { tm_wday: 0, ..tm }, p))
        } else if let Some(p) = match_lit(s, pos, "Mon") {
            Ok((Tm { tm_wday: 1, ..tm }, p))
        } else if let Some(p) = match_lit(s, pos, "Tue") {
            Ok((Tm { tm_wday: 2, ..tm }, p))
        } else if let Some(p) = match_lit(s, pos, "Wed") {
            Ok((Tm { tm_wday: 3, ..tm }, p))
        } else if let Some(p) = match_lit(s, pos, "Thu") {
            Ok((Tm { tm_wday: 4, ..tm }, p))
        } else if let Some(p) = match_lit(s, pos, "Fri") {
            Ok((Tm { tm_wday: 5, ..tm }, p))
        } else if let Some(p) = match_lit(s, pos, "Sat") {
            Ok((Tm { tm_wday: 6, ..tm }, p))
        } else {
            Err(ParseError::InvalidDay)
        }
    } else if c == 'B' {
        if let Some(p) = match_lit(s, pos, "January") {
            Ok((Tm { tm_mon: 0, ..tm }, p))
        } else if let Some(p) = match_lit(s, pos, "February") {
            Ok((Tm { tm_mon: 1, ..tm }, p))
        } else if let Some(p) = match_lit(s, pos, "March") {
            Ok((Tm { tm_mon: 2, ..tm }, p))
        } else if let Some(p) = match_lit(s, pos, "April") {
            Ok((Tm { tm_mon: 3, ..tm }, p))
        } else if let Some(p) = match_lit(s, pos, "May") {
            Ok((Tm { tm_mon: 4, ..tm }, p))
        } else if let Some(p) = match_lit(s, pos, "June") {
            Ok((Tm { tm_mon: 5, ..tm }, p))
        } else if let Some(p) = match_lit(s, pos, "July") {
            Ok((Tm { tm_mon: 6, ..tm }, p))
        } else if let Some(p) = match_lit(s, pos, "August") {
            Ok((Tm { tm_mon: 7, ..tm }, p))
        } else if let Some(p) = match_lit(s, pos, "September") {
            Ok((Tm { tm_mon: 8, ..tm }, p))
        } else if let Some(p) = match_lit(s, pos, "October") {
            Ok((Tm { tm_mon: 9, ..tm }, p))
        } else if let Some(p) = match_lit(s, pos, "November") {
            Ok((Tm { tm_mon: 10, ..tm }, p))
        } else if let Some(p) = match_lit(s, pos, "December") {
            Ok((Tm { tm_mon: 11, ..tm }, p))
        } else {
            Err(ParseError::InvalidMonth)
        }
    } else if c == 'b' || c == 'h' {
        if let Some(p) = match_lit(s, pos, "Jan") {
            Ok((Tm { tm_mon: 0, ..tm }, p))
        } else if let Some(p) = match_lit(s, pos, "Feb") {
            Ok((Tm { tm_mon: 1, ..tm }, p))
        } else if let Some(p) = match_lit(s, pos, "Mar") {
            Ok((Tm { tm_mon: 2, ..tm }, p))
        } else if let Some(p) = match_lit(s, pos, "Apr") {
            Ok((Tm { tm_mon: 3, ..tm }, p))
        } else if let Some(p) = match_lit(s, pos, "May") {
            Ok((Tm { tm_mon: 4, ..tm }, p))
        } else if let Some(p) = match_lit(s, pos, "Jun") {
            Ok((Tm { tm_mon: 5, ..tm }, p))
        } else if let Some(p) = match_lit(s, pos, "Jul") {
            Ok((Tm { tm_mon: 6, ..tm }, p))
        } else if let Some(p) = match_lit(s, pos, "Aug") {
            Ok((Tm { tm_mon: 7, ..tm }, p))
        } else if let Some(p) = match_lit(s, pos, "Sep") {
            Ok((Tm { tm_mon: 8, ..tm }, p))
        } else if let Some(p) = match_lit(s, pos, "Oct") {
            Ok((Tm { tm_mon: 9, ..tm }, p))
        } else if let Some(p) = match_lit(s, pos, "Nov") {
            Ok((Tm { tm_mon: 10, ..tm }, p))
        } else if let Some(p) = match_lit(s, pos, "Dec") {
            Ok((Tm { tm_mon: 11, ..tm }, p))
        } else {
            Err(ParseError::InvalidMonth)
        }
    } else if c == 'C' {
        match match_digits(s, pos, 2, false) {
            Some((v, p)) => if 0 <= v && v <= 99 {
                let y = wrap_add_exec(tm.tm_year, v * 100 - 1900);
                Ok((Tm { tm_year: y, ..tm }, p))
            } else {
                Err(ParseError::InvalidYear)
            },
            None => Err(ParseError::InvalidYear),
        }
    } else if c == 'd' {
        match match_digits(s, pos, 2, false) {
            Some((v, p)) => if 1 <= v && v <= 31 {
                Ok((Tm { tm_mday: v as i32, ..tm }, p))
            } else {
                Err(ParseError::InvalidDayOfMonth)
            },
            None => Err(ParseError::InvalidDayOfMonth),
        }
    } else if c == 'e' {
        match match_digits(s, pos, 2, true) {
            Some((v, p)) => if 1 <= v && v <= 31 {
                Ok((Tm { tm_mday: v as i32, ..tm }, p))
            } else {
                Err(ParseError::InvalidDayOfMonth)
            },
            None => Err(ParseError::InvalidDayOfMonth),
        }
    } else if c == 'f' {
        let (v, p) = match_frac(s, pos);
        Ok((Tm { tm_nsec: v as i32, ..tm }, p))
    } else if c == 'H' {
        match match_digits(s, pos, 2, false) {
            Some((v, p)) => if 0 <= v && v <= 23 {
                Ok((Tm { tm_hour: v as i32, ..tm }, p))
            } else {
                Err(ParseError::InvalidHour)
            },
            None => Err(ParseError::InvalidHour),
        }
    } else if c == 'I' {
        match match_digits(s, pos, 2, false) {
            Some((v, p)) => if 1 <= v && v <= 12 {
                let h: i32 = if v == 12 {
                    0
                } else {
                    v as i32
                };
                Ok((Tm { tm_hour: h, ..tm }, p))
            } else {
                Err(ParseError::InvalidHour)
            },
            None => Err(ParseError::InvalidHour),
        }
    } else if c == 'j' {
        match match_digits(s, pos, 3, false) {
            Some((v, p)) => if 1 <= v && v <= 366 {
                Ok((Tm { tm_yday: (v - 1) as i32, ..tm }, p))
            } else {
                Err(ParseError::InvalidDayOfYear)
            },
            None => Err(ParseError::InvalidDayOfYear),
        }
    } else if c == 'k' {
        match match_digits(s, pos, 2, true) {
            Some((v, p)) => if 0 <= v && v <= 23 {
                Ok((Tm { tm_hour: v as i32, ..tm }, p))
            } else {
                Err(ParseError::InvalidHour)
            },
            None => Err(ParseError::InvalidHour),
        }
    } else if c == 'l' {
        match match_digits(s, pos, 2, true) {
            Some((v, p)) => if 1 <= v && v <= 12 {
                let h: i32 = if v == 12 {
                    0
                } else {
                    v as i32
                };
                Ok((Tm { tm_hour: h, ..tm }, p))
            } else {
                Err(ParseError::InvalidHour)
            },
            None => Err(ParseError::InvalidHour),
        }
    } else if c == 'M' {
        match match_digits(s, pos, 2, false) {
            Some((v, p)) => if 0 <= v && v <= 59 {
                Ok((Tm { tm_min: v as i32, ..tm }, p))
            } else {
                Err(ParseError::InvalidMinute)
            },
            None => Err(ParseError::InvalidMinute),
        }
    } else if c == 'm' {
        match match_digits(s, pos, 2, false) {
            Some((v, p)) => if 1 <= v && v <= 12 {
                Ok((Tm { tm_mon: (v - 1) as i32, ..tm }, p))
            } else {
                Err(ParseError::InvalidMonth)
            },
            None => Err(ParseError::InvalidMonth),
        }
    } else if c == 'n' {
        parse_char(s, pos, '\n', tm)
    } else if c == 'P' {
        if let Some(p) = match_lit(s, pos, "am") {
            Ok((tm, p))
        } else if let Some(p) = match_lit(s, pos, "pm") {
            let h = wrap_add_exec(tm.tm_hour, 12);
            Ok((Tm { tm_hour: h, ..tm }, p))
        } else {
            Err(ParseError::InvalidHour)
        }
    } else if c == 'p' {
        if let Some(p) = match_lit(s, pos, "AM") {
            Ok((tm, p))
        } else if let Some(p) = match_lit(s, pos, "PM") {
            let h = wrap_add_exec(tm.tm_hour, 12);
            Ok((Tm { tm_hour: h, ..tm }, p))
        } else {
            Err(ParseError::InvalidHour)
        }
    } else if c == 'S' {
        match match_digits(s, pos, 2, false) {
            Some((v, p)) => if 0 <= v && v <= 60 {
                Ok((Tm { tm_sec: v as i32, ..tm }, p))
            } else {
                Err(ParseError::InvalidSecond)
            },
            None => Err(ParseError::InvalidSecond),
        }
    } else if c == 't' {
        parse_char(s, pos, '\t', tm)
    } else if c == 'u' {
        match match_digits(s, pos, 1, false) {
            Some((v, p)) => if 1 <= v && v <= 7 {
                let w: i32 = if v == 7 {
                    0
                } else {
                    v as i32
                };
                Ok((Tm { tm_wday: w, ..tm }, p))
            } else {
                Err(ParseError::InvalidDayOfWeek)
            },
            None => Err(ParseError::InvalidDayOfWeek),
        }
    } else if c == 'w' {
        match match_digits(s, pos, 1, false) {
            Some((v, p)) => if 0 <= v && v <= 6 {
                Ok((Tm { tm_wday: v as i32, ..tm }, p))
            } else {
                Err(ParseError::InvalidDayOfWeek)
            },
            None => Err(ParseError::InvalidDayOfWeek),
        }
    } else if c == 'Y' {
        match match_digits(s, pos, 4, false) {
            Some((v, p)) => Ok((Tm { tm_year: (v - 1900) as i32, ..tm }, p)),
            None => Err(ParseError::InvalidYear),
        }
    } else if c == 'y' {
        match match_digits(s, pos, 2, false) {
            Some((v, p)) => if 0 <= v && v <= 99 {
                Ok((Tm { tm_year: v as i32, ..tm }, p))
            } else {
                Err(ParseError::InvalidYear)
            },
            None => Err(ParseError::InvalidYear),
        }
    } else if c == 'Z' {
        if let Some(p) = match_lit(s, pos, "UTC") {
            Ok((Tm { tm_utcoff: 0, ..tm }, p))
        } else if let Some(p) = match_lit(s, pos, "GMT") {
            Ok((Tm { tm_utcoff: 0, ..tm }, p))
        } else {
            let p = skip_space(s, pos);
            Ok((tm, p))
        }
    } else if c == 'z' {
        if pos < s.len() && (s[pos] == '+' || s[pos] == '-') {
            let neg = s[pos] == '-';
            match match_digits(s, pos + 1, 4, false) {
                Some((v, p)) => {
                    let off: i64 = if v == 0 {
                        0
                    } else {
                        let hours = v / 100;
                        let minutes = v - hours * 100;
                        let a = hours * 3600 + minutes * 60;
                        proof {
                            if neg {
                                assert((-1) * (a as int) == -(a as int)) by (nonlinear_arith);
                            } else {
                                assert(1 * (a as int) == a as int) by (nonlinear_arith);
                            }
                        }
                        if neg {
                            -a
                        } else {
                            a
                        }
                    };
                    Ok((Tm { tm_utcoff: off as i32, ..tm }, p))
                },
                None => Err(ParseError::InvalidZoneOffset),
            }
        } else {
            Err(ParseError::InvalidZoneOffset)
        }
    } else if c == '%' {
        parse_char(s, pos, '%', tm)
    } else {
        Err(ParseError::InvalidFormatSpecifier(c))
    }
}

/// Parses the time from the string according to the format string.
pub fn strptime(s: &str, format: &str) -> (r: Result<Tm, ParseError>)
    ensures
        r == strptime_spec(s@, format@),
{
    let sv = str_to_chars(s);
    let fv = str_to_chars(format);
    let mut tm = empty_tm();
    let mut pos: usize = 0;
    let mut fpos: usize = 0;
    loop
        invariant
            pos <= sv@.len(),
            fpos <= fv@.len(),
            sv@ == s@,
            fv@ == format@,
            strptime_rec(s@, format@, pos as int, fpos as int, tm) == strptime_rec(
                s@,
                format@,
                0,
                0,
                empty_tm_spec(),
            ),
        decreases fv@.len() - fpos,
    {
        if pos >= sv.len() {
            if fpos >= fv.len() {
                return Ok(tm);
            } else {
                return Err(ParseError::InvalidTime);
            }
        }
        if fpos >= fv.len() {
            return Err(ParseError::InvalidTime);
        }
        let c = fv[fpos];
        if c == '%' {
            if fpos + 1 >= fv.len() {
                return Err(ParseError::InvalidTime);
            }
            match parse_conv(&sv, pos, fv[fpos + 1], tm) {
                Ok((t2, p2)) => {
                    tm = t2;
                    pos = p2;
                    fpos = fpos + 2;
                },
                Err(e) => {
                    return Err(e);
                },
            }
        } else if c == sv[pos] {
            pos = pos + 1;
            fpos = fpos + 1;
        } else {
            return Err(ParseError::UnexpectedCharacter(c, sv[pos]));
        }
    }
}

} // verus!
