//! The library-wide laws: round trips between rendering and parsing,
//! and the normalization of absolute-time arithmetic.

use vstd::prelude::*;
use crate::Timespec;
use crate::duration::Duration;
use crate::lemma_timespec_unique;
use crate::errors::ParseError;
use crate::numfmt::digit_char;
use crate::numfmt::dec_rep;
use crate::numfmt::pad_space;
use crate::numfmt::pad_zero;
use crate::numfmt::pow10;
use crate::numfmt::repeat_char;
use crate::parse::PRes;
use crate::parse::digit_val;
use crate::parse::digits_val;
use crate::parse::is_digit;
use crate::parse::match_at;
use crate::parse::pconv;
use crate::parse::pconv_prim;
use crate::parse::strptime_rec;
use crate::parse::strptime_spec;
use crate::render::conv_prim;
use crate::render::conv_spec;
use crate::render::hour12;
use crate::render::render_spec;
use crate::render::zone_hhmm_spec;
use crate::tm::Tm;
use crate::tm::empty_tm_spec;

verus! {

/// Subtracting a span and then adding it back restores the instant, and
/// the nanosecond field of every result stays normalized.  The two
/// hypotheses on `s` and `a` are exactly what `Timespec::sub` and
/// `Timespec::add` ensure of their results.
pub proof fn lemma_sub_add_round_trip(t: Timespec, d: Duration, s: Timespec, a: Timespec)
    requires
        t.wf(),
        d.wf(),
        s.wf(),
        a.wf(),
        s.as_nanos() == t.as_nanos() - d.total_nanos(),
        a.as_nanos() == s.as_nanos() + d.total_nanos(),
    ensures
        a == t,
        0 <= a.nsec < 1_000_000_000,
        0 <= s.nsec < 1_000_000_000,
{
    lemma_timespec_unique(a, t);
}

/// Parsing an empty input against a non-empty format fails with
/// `InvalidTime`.
pub proof fn lemma_empty_input(f: Seq<char>)
    requires
        f.len() > 0,
    ensures
        strptime_spec(Seq::empty(), f) == Result::<Tm, ParseError>::Err(ParseError::InvalidTime),
{
}

/// Parsing a non-empty input against an empty format fails with
/// `InvalidTime`.
pub proof fn lemma_empty_format(s: Seq<char>)
    requires
        s.len() > 0,
    ensures
        strptime_spec(s, Seq::empty()) == Result::<Tm, ParseError>::Err(ParseError::InvalidTime),
{
}

/// Parsing an empty input against an empty format succeeds with the
/// all-zero broken-down time.
pub proof fn lemma_empty_both()
    ensures
        strptime_spec(Seq::empty(), Seq::empty()) == Result::<Tm, ParseError>::Ok(empty_tm_spec()),
{
}

/// Each digit character carries its digit value.
proof fn lemma_digit_char(k: int)
    requires
        0 <= k <= 9,
    ensures
        is_digit(digit_char(k)),
        digit_val(digit_char(k)) == k,
{
}

/// The two characters of a zero-padded two-digit number, and the value
/// read back from them.
proof fn lemma_two_digit(v: int)
    requires
        0 <= v <= 99,
    ensures
        pad_zero(v, 2).len() == 2,
        is_digit(pad_zero(v, 2)[0]),
        is_digit(pad_zero(v, 2)[1]),
        digit_val(pad_zero(v, 2)[0]) == v / 10,
        digit_val(pad_zero(v, 2)[1]) == v % 10,
{
    let s = pad_zero(v, 2);
    lemma_digit_char(v / 10);
    lemma_digit_char(v % 10);
    if v < 10 {
        assert(dec_rep(v) == seq![digit_char(v)]);
        assert(s =~= repeat_char('0', 1) + dec_rep(v));
        assert(s[0] == '0');
        assert(s[1] == digit_char(v));
    } else {
        assert(dec_rep(v) == dec_rep(v / 10) + seq![digit_char(v % 10)]);
        assert(dec_rep(v / 10) == seq![digit_char(v / 10)]);
        assert(s =~= repeat_char('0', 0) + dec_rep(v));
        assert(s[0] == digit_char(v / 10));
        assert(s[1] == digit_char(v % 10));
    }
}

/// Reading two digit characters accumulates their two-digit value.
proof fn lemma_read_two_digits(s: Seq<char>, pos: int, ws: bool, acc: int)
    requires
        0 <= pos,
        pos + 2 <= s.len(),
        is_digit(s[pos]),
        is_digit(s[pos + 1]),
    ensures
        digits_val(s, pos, 2, ws, acc) == Some(
            (acc * 10 + digit_val(s[pos])) * 10 + digit_val(s[pos + 1]),
        ),
{
    assert(digits_val(s, pos, 2, ws, acc) == digits_val(
        s, pos + 1, 1, ws, acc * 10 + digit_val(s[pos])));
    assert(digits_val(s, pos + 1, 1, ws, acc * 10 + digit_val(s[pos])) == digits_val(
        s, pos + 2, 0, ws, (acc * 10 + digit_val(s[pos])) * 10 + digit_val(s[pos + 1])));
}

/// A two-character format `%X` and its rendering of one numeric field.
proof fn lemma_fmt2(f: Seq<char>, tm: Tm, body: Seq<char>)
    requires
        f.len() == 2,
        f[0] == '%',
        conv_spec(tm, f[1]) == body,
    ensures
        render_spec(tm, f) == body,
{
    assert(render_spec(tm, f) == conv_spec(tm, f[1]) + render_spec(tm, f.skip(2)));
    assert(f.skip(2) =~= Seq::<char>::empty());
    assert(render_spec(tm, f.skip(2)) =~= Seq::<char>::empty());
    assert(body + Seq::<char>::empty() =~= body);
}

/// Finishing the walk: one specifier consumed the whole input and the
/// whole format, so parsing succeeds with its result.
proof fn lemma_single_conv(s: Seq<char>, f: Seq<char>, out: Tm)
    requires
        f.len() == 2,
        f[0] == '%',
        pconv(s, 0, f[1], empty_tm_spec()) == PRes::POk(out, s.len() as int),
        s.len() > 0,
    ensures
        strptime_spec(s, f) == Result::<Tm, ParseError>::Ok(out),
{
    assert(strptime_rec(s, f, 0, 0, empty_tm_spec()) == strptime_rec(
        s, f, s.len() as int, 2, out));
}

/// A zero-padded two-digit rendering parses back to the same value,
/// with or without space-padding accepted.
proof fn lemma_round_trip_2digit(v: int)
    requires
        0 <= v <= 99,
    ensures
        digits_val(pad_zero(v, 2), 0, 2, false, 0) == Some(v),
        digits_val(pad_zero(v, 2), 0, 2, true, 0) == Some(v),
        pad_zero(v, 2).len() == 2,
{
    let s = pad_zero(v, 2);
    lemma_two_digit(v);
    lemma_read_two_digits(s, 0, false, 0);
    lemma_read_two_digits(s, 0, true, 0);
    vstd::arithmetic::div_mod::lemma_fundamental_div_mod(v, 10);
}

/// Rendering `%H` and parsing it back reproduces the hour field.
pub proof fn lemma_round_trip_hour(t: Tm)
    requires
        0 <= t.tm_hour <= 23,
    ensures
        ({
            let rendered = render_spec(t, "%H"@);
            strptime_spec(rendered, "%H"@) matches Ok(p) && p.tm_hour == t.tm_hour
        }),
{
    reveal_strlit("%H");
    reveal(conv_prim);
    let f = "%H"@;
    let h = t.tm_hour as int;
    lemma_fmt2(f, t, pad_zero(h, 2));
    lemma_round_trip_2digit(h);
    let s = pad_zero(h, 2);
    assert(pconv_prim(s, 0, 'H', empty_tm_spec()) == PRes::POk(
        Tm { tm_hour: t.tm_hour, ..empty_tm_spec() }, 2));
    lemma_single_conv(s, f, Tm { tm_hour: t.tm_hour, ..empty_tm_spec() });
}

/// Rendering `%M` and parsing it back reproduces the minute field.
pub proof fn lemma_round_trip_minute(t: Tm)
    requires
        0 <= t.tm_min <= 59,
    ensures
        ({
            let rendered = render_spec(t, "%M"@);
            strptime_spec(rendered, "%M"@) matches Ok(p) && p.tm_min == t.tm_min
        }),
{
    reveal_strlit("%M");
    reveal(conv_prim);
    let f = "%M"@;
    let v = t.tm_min as int;
    lemma_fmt2(f, t, pad_zero(v, 2));
    lemma_round_trip_2digit(v);
    let s = pad_zero(v, 2);
    assert(pconv_prim(s, 0, 'M', empty_tm_spec()) == PRes::POk(
        Tm { tm_min: t.tm_min, ..empty_tm_spec() }, 2));
    lemma_single_conv(s, f, Tm { tm_min: t.tm_min, ..empty_tm_spec() });
}

/// Rendering `%S` and parsing it back reproduces the second field.
pub proof fn lemma_round_trip_second(t: Tm)
    requires
        0 <= t.tm_sec <= 60,
    ensures
        ({
            let rendered = render_spec(t, "%S"@);
            strptime_spec(rendered, "%S"@) matches Ok(p) && p.tm_sec == t.tm_sec
        }),
{
    reveal_strlit("%S");
    reveal(conv_prim);
    let f = "%S"@;
    let v = t.tm_sec as int;
    lemma_fmt2(f, t, pad_zero(v, 2));
    lemma_round_trip_2digit(v);
    let s = pad_zero(v, 2);
    assert(pconv_prim(s, 0, 'S', empty_tm_spec()) == PRes::POk(
        Tm { tm_sec: t.tm_sec, ..empty_tm_spec() }, 2));
    lemma_single_conv(s, f, Tm { tm_sec: t.tm_sec, ..empty_tm_spec() });
}

/// Rendering `%d` and parsing it back reproduces the day of the month.
pub proof fn lemma_round_trip_mday(t: Tm)
    requires
        1 <= t.tm_mday <= 31,
    ensures
        ({
            let rendered = render_spec(t, "%d"@);
            strptime_spec(rendered, "%d"@) matches Ok(p) && p.tm_mday == t.tm_mday
        }),
{
    reveal_strlit("%d");
    reveal(conv_prim);
    let f = "%d"@;
    let v = t.tm_mday as int;
    lemma_fmt2(f, t, pad_zero(v, 2));
    lemma_round_trip_2digit(v);
    let s = pad_zero(v, 2);
    assert(pconv_prim(s, 0, 'd', empty_tm_spec()) == PRes::POk(
        Tm { tm_mday: t.tm_mday, ..empty_tm_spec() }, 2));
    lemma_single_conv(s, f, Tm { tm_mday: t.tm_mday, ..empty_tm_spec() });
}

/// Rendering `%I` and parsing it back reproduces the hour modulo the
/// 12-hour clock: noon and midnight both render as 12, which parses to
/// hour zero.
pub proof fn lemma_round_trip_hour12(t: Tm)
    requires
        0 <= t.tm_hour <= 23,
    ensures
        ({
            let rendered = render_spec(t, "%I"@);
            strptime_spec(rendered, "%I"@) matches Ok(p) && p.tm_hour == t.tm_hour % 12
        }),
{
    reveal_strlit("%I");
    reveal(conv_prim);
    let f = "%I"@;
    let v = hour12(t.tm_hour as int);
    lemma_fmt2(f, t, pad_zero(v, 2));
    lemma_round_trip_2digit(v);
    let s = pad_zero(v, 2);
    let out: i32 = if v == 12 {
        0
    } else {
        v as i32
    };
    assert(pconv_prim(s, 0, 'I', empty_tm_spec()) == PRes::POk(
        Tm { tm_hour: out, ..empty_tm_spec() }, 2));
    lemma_single_conv(s, f, Tm { tm_hour: out, ..empty_tm_spec() });
}

/// Rendering `%P` and parsing it back reproduces which half of the day
/// the hour lies in: the parsed hour is 0 before noon and 12 after.
pub proof fn lemma_round_trip_ampm(t: Tm)
    ensures
        ({
            let rendered = render_spec(t, "%P"@);
            strptime_spec(rendered, "%P"@) matches Ok(p) && p.tm_hour == (
            if t.tm_hour < 12 {
                0int
            } else {
                12int
            })
        }),
{
    reveal_strlit("%P");
    reveal_strlit("am");
    reveal_strlit("pm");
    reveal(conv_prim);
    let f = "%P"@;
    if t.tm_hour < 12 {
        let s = "am"@;
        lemma_fmt2(f, t, s);
        assert(s.subrange(0, 2) =~= "am"@);
        assert(pconv_prim(s, 0, 'P', empty_tm_spec()) == PRes::POk(empty_tm_spec(), 2));
        lemma_single_conv(s, f, empty_tm_spec());
    } else {
        let s = "pm"@;
        lemma_fmt2(f, t, s);
        if crate::parse::match_at(s, 0, "am"@) {
            assert(s.subrange(0, 2)[0] == 'p');
        }
        assert(s.subrange(0, 2) =~= "pm"@);
        assert(pconv_prim(s, 0, 'P', empty_tm_spec()) == PRes::POk(
            Tm { tm_hour: 12, ..empty_tm_spec() }, 2));
        lemma_single_conv(s, f, Tm { tm_hour: 12, ..empty_tm_spec() });
    }
}

/// Rendering `%p` and parsing it back: as `%P`, with upper-case names.
pub proof fn lemma_round_trip_ampm_upper(t: Tm)
    ensures
        ({
            let rendered = render_spec(t, "%p"@);
            strptime_spec(rendered, "%p"@) matches Ok(p) && p.tm_hour == (
            if t.tm_hour < 12 {
                0int
            } else {
                12int
            })
        }),
{
    reveal_strlit("%p");
    reveal_strlit("AM");
    reveal_strlit("PM");
    reveal(conv_prim);
    let f = "%p"@;
    if t.tm_hour < 12 {
        let s = "AM"@;
        lemma_fmt2(f, t, s);
        assert(s.subrange(0, 2) =~= "AM"@);
        assert(pconv_prim(s, 0, 'p', empty_tm_spec()) == PRes::POk(empty_tm_spec(), 2));
        lemma_single_conv(s, f, empty_tm_spec());
    } else {
        let s = "PM"@;
        lemma_fmt2(f, t, s);
        if crate::parse::match_at(s, 0, "AM"@) {
            assert(s.subrange(0, 2)[0] == 'P');
        }
        assert(s.subrange(0, 2) =~= "PM"@);
        assert(pconv_prim(s, 0, 'p', empty_tm_spec()) == PRes::POk(
            Tm { tm_hour: 12, ..empty_tm_spec() }, 2));
        lemma_single_conv(s, f, Tm { tm_hour: 12, ..empty_tm_spec() });
    }
}

/// A space-padded two-digit number and the value read back from it with
/// space-accepting digit matching.
proof fn lemma_space2(v: int)
    requires
        0 <= v <= 99,
    ensures
        pad_space(v, 2).len() == 2,
        digits_val(pad_space(v, 2), 0, 2, true, 0) == Some(v),
{
    let s = pad_space(v, 2);
    lemma_digit_char(v / 10);
    lemma_digit_char(v % 10);
    vstd::arithmetic::div_mod::lemma_fundamental_div_mod(v, 10);
    if v < 10 {
        assert(crate::numfmt::signed_dec(v) == seq![digit_char(v)]);
        assert(s =~= repeat_char(' ', 1) + seq![digit_char(v)]);
        assert(s[0] == ' ');
        assert(s[1] == digit_char(v));
        assert(digits_val(s, 0, 2, true, 0) == digits_val(s, 1, 1, true, 0));
        assert(digits_val(s, 1, 1, true, 0) == digits_val(s, 2, 0, true, v));
    } else {
        assert(crate::numfmt::signed_dec(v) == dec_rep(v));
        assert(dec_rep(v) == dec_rep(v / 10) + seq![digit_char(v % 10)]);
        assert(dec_rep(v / 10) == seq![digit_char(v / 10)]);
        assert(s =~= repeat_char(' ', 0) + dec_rep(v));
        assert(s[0] == digit_char(v / 10));
        assert(s[1] == digit_char(v % 10));
        lemma_read_two_digits(s, 0, true, 0);
    }
}

/// Rendering `%l` and parsing it back reproduces the hour modulo the
/// 12-hour clock, as `%I` does.
pub proof fn lemma_round_trip_hour12_space(t: Tm)
    requires
        0 <= t.tm_hour <= 23,
    ensures
        ({
            let rendered = render_spec(t, "%l"@);
            strptime_spec(rendered, "%l"@) matches Ok(p) && p.tm_hour == t.tm_hour % 12
        }),
{
    reveal_strlit("%l");
    reveal(conv_prim);
    let f = "%l"@;
    let v = hour12(t.tm_hour as int);
    lemma_fmt2(f, t, pad_space(v, 2));
    lemma_space2(v);
    let s = pad_space(v, 2);
    let out: i32 = if v == 12 {
        0
    } else {
        v as i32
    };
    assert(pconv_prim(s, 0, 'l', empty_tm_spec()) == PRes::POk(
        Tm { tm_hour: out, ..empty_tm_spec() }, 2));
    lemma_single_conv(s, f, Tm { tm_hour: out, ..empty_tm_spec() });
}

/// Reading four digit characters accumulates their four-digit value.
proof fn lemma_read_four_digits(s: Seq<char>, pos: int)
    requires
        0 <= pos,
        pos + 4 <= s.len(),
        is_digit(s[pos]),
        is_digit(s[pos + 1]),
        is_digit(s[pos + 2]),
        is_digit(s[pos + 3]),
    ensures
        digits_val(s, pos, 4, false, 0) == Some(
            ((digit_val(s[pos]) * 10 + digit_val(s[pos + 1])) * 10 + digit_val(s[pos + 2])) * 10
                + digit_val(s[pos + 3]),
        ),
{
    assert(digits_val(s, pos, 4, false, 0) == digits_val(s, pos + 1, 3, false, digit_val(s[pos])));
    assert(digits_val(s, pos + 1, 3, false, digit_val(s[pos])) == digits_val(
        s, pos + 2, 2, false, digit_val(s[pos]) * 10 + digit_val(s[pos + 1])));
    lemma_read_two_digits(s, pos + 2, false, digit_val(s[pos]) * 10 + digit_val(s[pos + 1]));
}

/// Rendering `%z` and parsing it back reproduces the UTC offset, for
/// every offset that is a whole number of minutes and whose hour part
/// fits the two rendered digits.  An offset with a sub-minute remainder
/// loses that remainder in the rendering, so those are left out.
pub proof fn lemma_round_trip_zone(t: Tm)
    requires
        t.tm_utcoff % 60 == 0,
        -360_000 < t.tm_utcoff < 360_000,
    ensures
        ({
            let rendered = render_spec(t, "%z"@);
            strptime_spec(rendered, "%z"@) matches Ok(p) && p.tm_utcoff == t.tm_utcoff
        }),
{
    reveal_strlit("%z");
    reveal(conv_prim);
    let f = "%z"@;
    let off = t.tm_utcoff as int;
    let a = if off >= 0 { off } else { -off };
    let m0 = a / 60;
    let h = m0 / 60;
    let m = m0 - h * 60;
    let s = zone_hhmm_spec(off);
    lemma_fmt2(f, t, s);
    vstd::arithmetic::div_mod::lemma_fundamental_div_mod(a, 60);
    vstd::arithmetic::div_mod::lemma_fundamental_div_mod(m0, 60);
    assert(a % 60 == 0) by {
        crate::calendar::lemma_neg_mod_zero_pub(off, 60);
    }
    assert(a == 3600 * h + 60 * m);
    assert(0 <= m < 60);
    assert(0 <= h <= 99);
    lemma_two_digit(h);
    lemma_two_digit(m);
    reveal_strlit("+");
    reveal_strlit("-");
    assert(s.len() == 5);
    assert(s[0] == if off >= 0 { '+' } else { '-' });
    assert(s[1] == pad_zero(h, 2)[0]);
    assert(s[2] == pad_zero(h, 2)[1]);
    assert(s[3] == pad_zero(m, 2)[0]);
    assert(s[4] == pad_zero(m, 2)[1]);
    lemma_read_four_digits(s, 1);
    let v = h * 100 + m;
    assert(digits_val(s, 1, 4, false, 0) == Some(v)) by {
        vstd::arithmetic::div_mod::lemma_fundamental_div_mod(h, 10);
        vstd::arithmetic::div_mod::lemma_fundamental_div_mod(m, 10);
    }
    let parsed_off: int = if v == 0 {
        0
    } else {
        let hours = v / 100;
        let minutes = v - hours * 100;
        (if s[0] == '+' { 1int } else { -1int }) * (hours * 3600 + minutes * 60)
    };
    if v == 0 {
        assert(h == 0 && m == 0);
        assert(a == 0);
        assert(off == 0);
    } else {
        assert(v / 100 == h) by {
            vstd::arithmetic::div_mod::lemma_fundamental_div_mod_converse(v, 100, h, m);
        }
        if off >= 0 {
            assert(1 * (h * 3600 + m * 60) == a) by (nonlinear_arith)
                requires
                    a == 3600 * h + 60 * m,
            ;
        } else {
            assert((-1) * (h * 3600 + m * 60) == -a) by (nonlinear_arith)
                requires
                    a == 3600 * h + 60 * m,
            ;
        }
    }
    assert(pconv_prim(s, 0, 'z', empty_tm_spec()) == PRes::POk(
        Tm { tm_utcoff: t.tm_utcoff, ..empty_tm_spec() }, 5));
    lemma_single_conv(s, f, Tm { tm_utcoff: t.tm_utcoff, ..empty_tm_spec() });
}

/// Rendering `%A` and parsing it back reproduces the weekday field.
pub proof fn lemma_round_trip_weekday_full(t: Tm)
    requires
        0 <= t.tm_wday <= 6,
    ensures
        ({
            let rendered = render_spec(t, "%A"@);
            strptime_spec(rendered, "%A"@) matches Ok(p) && p.tm_wday == t.tm_wday
        }),
{
    reveal_strlit("%A");
    reveal(conv_prim);
    reveal_strlit("Sunday");
    reveal_strlit("Monday");
    reveal_strlit("Tuesday");
    reveal_strlit("Wednesday");
    reveal_strlit("Thursday");
    reveal_strlit("Friday");
    reveal_strlit("Saturday");
    let f = "%A"@;
    if t.tm_wday == 0 {
        let s = "Sunday"@;
        lemma_fmt2(f, t, s);
        assert(s.subrange(0, 6) =~= s);
        assert(pconv_prim(s, 0, 'A', empty_tm_spec()) == PRes::POk(
            Tm { tm_wday: 0, ..empty_tm_spec() }, 6));
        lemma_single_conv(s, f, Tm { tm_wday: 0, ..empty_tm_spec() });
    } else if t.tm_wday == 1 {
        let s = "Monday"@;
        lemma_fmt2(f, t, s);
        if match_at(s, 0, "Sunday"@) {
            assert(s.subrange(0, 6)[0] == 'M');
        }
        assert(s.subrange(0, 6) =~= s);
        assert(pconv_prim(s, 0, 'A', empty_tm_spec()) == PRes::POk(
            Tm { tm_wday: 1, ..empty_tm_spec() }, 6));
        lemma_single_conv(s, f, Tm { tm_wday: 1, ..empty_tm_spec() });
    } else if t.tm_wday == 2 {
        let s = "Tuesday"@;
        lemma_fmt2(f, t, s);
        if match_at(s, 0, "Sunday"@) {
            assert(s.subrange(0, 6)[0] == 'T');
        }
        if match_at(s, 0, "Monday"@) {
            assert(s.subrange(0, 6)[0] == 'T');
        }
        assert(s.subrange(0, 7) =~= s);
        assert(pconv_prim(s, 0, 'A', empty_tm_spec()) == PRes::POk(
            Tm { tm_wday: 2, ..empty_tm_spec() }, 7));
        lemma_single_conv(s, f, Tm { tm_wday: 2, ..empty_tm_spec() });
    } else if t.tm_wday == 3 {
        let s = "Wednesday"@;
        lemma_fmt2(f, t, s);
        if match_at(s, 0, "Sunday"@) {
            assert(s.subrange(0, 6)[0] == 'W');
        }
        if match_at(s, 0, "Monday"@) {
            assert(s.subrange(0, 6)[0] == 'W');
        }
        if match_at(s, 0, "Tuesday"@) {
            assert(s.subrange(0, 7)[0] == 'W');
        }
        assert(s.subrange(0, 9) =~= s);
        assert(pconv_prim(s, 0, 'A', empty_tm_spec()) == PRes::POk(
            Tm { tm_wday: 3, ..empty_tm_spec() }, 9));
        lemma_single_conv(s, f, Tm { tm_wday: 3, ..empty_tm_spec() });
    } else if t.tm_wday == 4 {
        let s = "Thursday"@;
        lemma_fmt2(f, t, s);
        if match_at(s, 0, "Sunday"@) {
            assert(s.subrange(0, 6)[0] == 'T');
        }
        if match_at(s, 0, "Monday"@) {
            assert(s.subrange(0, 6)[0] == 'T');
        }
        if match_at(s, 0, "Tuesday"@) {
            assert(s.subrange(0, 7)[1] == 'h');
        }
        assert(s.subrange(0, 8) =~= s);
        assert(pconv_prim(s, 0, 'A', empty_tm_spec()) == PRes::POk(
            Tm { tm_wday: 4, ..empty_tm_spec() }, 8));
        lemma_single_conv(s, f, Tm { tm_wday: 4, ..empty_tm_spec() });
    } else if t.tm_wday == 5 {
        let s = "Friday"@;
        lemma_fmt2(f, t, s);
        if match_at(s, 0, "Sunday"@) {
            assert(s.subrange(0, 6)[0] == 'F');
        }
        if match_at(s, 0, "Monday"@) {
            assert(s.subrange(0, 6)[0] == 'F');
        }
        assert(s.subrange(0, 6) =~= s);
        assert(pconv_prim(s, 0, 'A', empty_tm_spec()) == PRes::POk(
            Tm { tm_wday: 5, ..empty_tm_spec() }, 6));
        lemma_single_conv(s, f, Tm { tm_wday: 5, ..empty_tm_spec() });
    } else if t.tm_wday == 6 {
        let s = "Saturday"@;
        lemma_fmt2(f, t, s);
        if match_at(s, 0, "Sunday"@) {
            assert(s.subrange(0, 6)[1] == 'a');
        }
        if match_at(s, 0, "Monday"@) {
            assert(s.subrange(0, 6)[0] == 'S');
        }
        if match_at(s, 0, "Tuesday"@) {
            assert(s.subrange(0, 7)[0] == 'S');
        }
        if match_at(s, 0, "Thursday"@) {
            assert(s.subrange(0, 8)[0] == 'S');
        }
        if match_at(s, 0, "Friday"@) {
            assert(s.subrange(0, 6)[0] == 'S');
        }
        assert(s.subrange(0, 8) =~= s);
        assert(pconv_prim(s, 0, 'A', empty_tm_spec()) == PRes::POk(
            Tm { tm_wday: 6, ..empty_tm_spec() }, 8));
        lemma_single_conv(s, f, Tm { tm_wday: 6, ..empty_tm_spec() });
    }
}

/// Rendering `%a` and parsing it back reproduces the weekday field.
pub proof fn lemma_round_trip_weekday_abbr(t: Tm)
    requires
        0 <= t.tm_wday <= 6,
    ensures
        ({
            let rendered = render_spec(t, "%a"@);
            strptime_spec(rendered, "%a"@) matches Ok(p) && p.tm_wday == t.tm_wday
        }),
{
    reveal_strlit("%a");
    reveal(conv_prim);
    reveal_strlit("Sun");
    reveal_strlit("Mon");
    reveal_strlit("Tue");
    reveal_strlit("Wed");
    reveal_strlit("Thu");
    reveal_strlit("Fri");
    reveal_strlit("Sat");
    let f = "%a"@;
    if t.tm_wday == 0 {
        let s = "Sun"@;
        lemma_fmt2(f, t, s);
        assert(s.subrange(0, 3) =~= s);
        assert(pconv_prim(s, 0, 'a', empty_tm_spec()) == PRes::POk(
            Tm { tm_wday: 0, ..empty_tm_spec() }, 3));
        lemma_single_conv(s, f, Tm { tm_wday: 0, ..empty_tm_spec() });
    } else if t.tm_wday == 1 {
        let s = "Mon"@;
        lemma_fmt2(f, t, s);
        if match_at(s, 0, "Sun"@) {
            assert(s.subrange(0, 3)[0] == 'M');
        }
        assert(s.subrange(0, 3) =~= s);
        assert(pconv_prim(s, 0, 'a', empty_tm_spec()) == PRes::POk(
            Tm { tm_wday: 1, ..empty_tm_spec() }, 3));
        lemma_single_conv(s, f, Tm { tm_wday: 1, ..empty_tm_spec() });
    } else if t.tm_wday == 2 {
        let s = "Tue"@;
        lemma_fmt2(f, t, s);
        if match_at(s, 0, "Sun"@) {
            assert(s.subrange(0, 3)[0] == 'T');
        }
        if match_at(s, 0, "Mon"@) {
            assert(s.subrange(0, 3)[0] == 'T');
        }
        assert(s.subrange(0, 3) =~= s);
        assert(pconv_prim(s, 0, 'a', empty_tm_spec()) == PRes::POk(
            Tm { tm_wday: 2, ..empty_tm_spec() }, 3));
        lemma_single_conv(s, f, Tm { tm_wday: 2, ..empty_tm_spec() });
    } else if t.tm_wday == 3 {
        let s = "Wed"@;
        lemma_fmt2(f, t, s);
        if match_at(s, 0, "Sun"@) {
            assert(s.subrange(0, 3)[0] == 'W');
        }
        if match_at(s, 0, "Mon"@) {
            assert(s.subrange(0, 3)[0] == 'W');
        }
        if match_at(s, 0, "Tue"@) {
            assert(s.subrange(0, 3)[0] == 'W');
        }
        assert(s.subrange(0, 3) =~= s);
        assert(pconv_prim(s, 0, 'a', empty_tm_spec()) == PRes::POk(
            Tm { tm_wday: 3, ..empty_tm_spec() }, 3));
        lemma_single_conv(s, f, Tm { tm_wday: 3, ..empty_tm_spec() });
    } else if t.tm_wday == 4 {
        let s = "Thu"@;
        lemma_fmt2(f, t, s);
        if match_at(s, 0, "Sun"@) {
            assert(s.subrange(0, 3)[0] == 'T');
        }
        if match_at(s, 0, "Mon"@) {
            assert(s.subrange(0, 3)[0] == 'T');
        }
        if match_at(s, 0, "Tue"@) {
            assert(s.subrange(0, 3)[1] == 'h');
        }
        if match_at(s, 0, "Wed"@) {
            assert(s.subrange(0, 3)[0] == 'T');
        }
        assert(s.subrange(0, 3) =~= s);
        assert(pconv_prim(s, 0, 'a', empty_tm_spec()) == PRes::POk(
            Tm { tm_wday: 4, ..empty_tm_spec() }, 3));
        lemma_single_conv(s, f, Tm { tm_wday: 4, ..empty_tm_spec() });
    } else if t.tm_wday == 5 {
        let s = "Fri"@;
        lemma_fmt2(f, t, s);
        if match_at(s, 0, "Sun"@) {
            assert(s.subrange(0, 3)[0] == 'F');
        }
        if match_at(s, 0, "Mon"@) {
            assert(s.subrange(0, 3)[0] == 'F');
        }
        if match_at(s, 0, "Tue"@) {
            assert(s.subrange(0, 3)[0] == 'F');
        }
        if match_at(s, 0, "Wed"@) {
            assert(s.subrange(0, 3)[0] == 'F');
        }
        if match_at(s, 0, "Thu"@) {
            assert(s.subrange(0, 3)[0] == 'F');
        }
        assert(s.subrange(0, 3) =~= s);
        assert(pconv_prim(s, 0, 'a', empty_tm_spec()) == PRes::POk(
            Tm { tm_wday: 5, ..empty_tm_spec() }, 3));
        lemma_single_conv(s, f, Tm { tm_wday: 5, ..empty_tm_spec() });
    } else if t.tm_wday == 6 {
        let s = "Sat"@;
        lemma_fmt2(f, t, s);
        if match_at(s, 0, "Sun"@) {
            assert(s.subrange(0, 3)[1] == 'a');
        }
        if match_at(s, 0, "Mon"@) {
            assert(s.subrange(0, 3)[0] == 'S');
        }
        if match_at(s, 0, "Tue"@) {
            assert(s.subrange(0, 3)[0] == 'S');
        }
        if match_at(s, 0, "Wed"@) {
            assert(s.subrange(0, 3)[0] == 'S');
        }
        if match_at(s, 0, "Thu"@) {
            assert(s.subrange(0, 3)[0] == 'S');
        }
        if match_at(s, 0, "Fri"@) {
            assert(s.subrange(0, 3)[0] == 'S');
        }
        assert(s.subrange(0, 3) =~= s);
        assert(pconv_prim(s, 0, 'a', empty_tm_spec()) == PRes::POk(
            Tm { tm_wday: 6, ..empty_tm_spec() }, 3));
        lemma_single_conv(s, f, Tm { tm_wday: 6, ..empty_tm_spec() });
    }
}

/// Rendering `%B` and parsing it back reproduces the month field.
pub proof fn lemma_round_trip_month_full(t: Tm)
    requires
        0 <= t.tm_mon <= 11,
    ensures
        ({
            let rendered = render_spec(t, "%B"@);
            strptime_spec(rendered, "%B"@) matches Ok(p) && p.tm_mon == t.tm_mon
        }),
{
    reveal_strlit("%B");
    reveal(conv_prim);
    reveal_strlit("January");
    reveal_strlit("February");
    reveal_strlit("March");
    reveal_strlit("April");
    reveal_strlit("May");
    reveal_strlit("June");
    reveal_strlit("July");
    reveal_strlit("August");
    reveal_strlit("September");
    reveal_strlit("October");
    reveal_strlit("November");
    reveal_strlit("December");
    let f = "%B"@;
    if t.tm_mon == 0 {
        let s = "January"@;
        lemma_fmt2(f, t, s);
        assert(s.subrange(0, 7) =~= s);
        assert(pconv_prim(s, 0, 'B', empty_tm_spec()) == PRes::POk(
            Tm { tm_mon: 0, ..empty_tm_spec() }, 7));
        lemma_single_conv(s, f, Tm { tm_mon: 0, ..empty_tm_spec() });
    } else if t.tm_mon == 1 {
        let s = "February"@;
        lemma_fmt2(f, t, s);
        if match_at(s, 0, "January"@) {
            assert(s.subrange(0, 7)[0] == 'F');
        }
        assert(s.subrange(0, 8) =~= s);
        assert(pconv_prim(s, 0, 'B', empty_tm_spec()) == PRes::POk(
            Tm { tm_mon: 1, ..empty_tm_spec() }, 8));
        lemma_single_conv(s, f, Tm { tm_mon: 1, ..empty_tm_spec() });
    } else if t.tm_mon == 2 {
        let s = "March"@;
        lemma_fmt2(f, t, s);
        assert(s.subrange(0, 5) =~= s);
        assert(pconv_prim(s, 0, 'B', empty_tm_spec()) == PRes::POk(
            Tm { tm_mon: 2, ..empty_tm_spec() }, 5));
        lemma_single_conv(s, f, Tm { tm_mon: 2, ..empty_tm_spec() });
    } else if t.tm_mon == 3 {
        let s = "April"@;
        lemma_fmt2(f, t, s);
        if match_at(s, 0, "March"@) {
            assert(s.subrange(0, 5)[0] == 'A');
        }
        assert(s.subrange(0, 5) =~= s);
        assert(pconv_prim(s, 0, 'B', empty_tm_spec()) == PRes::POk(
            Tm { tm_mon: 3, ..empty_tm_spec() }, 5));
        lemma_single_conv(s, f, Tm { tm_mon: 3, ..empty_tm_spec() });
    } else if t.tm_mon == 4 {
        let s = "May"@;
        lemma_fmt2(f, t, s);
        assert(s.subrange(0, 3) =~= s);
        assert(pconv_prim(s, 0, 'B', empty_tm_spec()) == PRes::POk(
            Tm { tm_mon: 4, ..empty_tm_spec() }, 3));
        lemma_single_conv(s, f, Tm { tm_mon: 4, ..empty_tm_spec() });
    } else if t.tm_mon == 5 {
        let s = "June"@;
        lemma_fmt2(f, t, s);
        if match_at(s, 0, "May"@) {
            assert(s.subrange(0, 3)[0] == 'J');
        }
        assert(s.subrange(0, 4) =~= s);
        assert(pconv_prim(s, 0, 'B', empty_tm_spec()) == PRes::POk(
            Tm { tm_mon: 5, ..empty_tm_spec() }, 4));
        lemma_single_conv(s, f, Tm { tm_mon: 5, ..empty_tm_spec() });
    } else if t.tm_mon == 6 {
        let s = "July"@;
        lemma_fmt2(f, t, s);
        if match_at(s, 0, "May"@) {
            assert(s.subrange(0, 3)[0] == 'J');
        }
        if match_at(s, 0, "June"@) {
            assert(s.subrange(0, 4)[2] == 'l');
        }
        assert(s.subrange(0, 4) =~= s);
        assert(pconv_prim(s, 0, 'B', empty_tm_spec()) == PRes::POk(
            Tm { tm_mon: 6, ..empty_tm_spec() }, 4));
        lemma_single_conv(s, f, Tm { tm_mon: 6, ..empty_tm_spec() });
    } else if t.tm_mon == 7 {
        let s = "August"@;
        lemma_fmt2(f, t, s);
        if match_at(s, 0, "March"@) {
            assert(s.subrange(0, 5)[0] == 'A');
        }
        if match_at(s, 0, "April"@) {
            assert(s.subrange(0, 5)[1] == 'u');
        }
        if match_at(s, 0, "May"@) {
            assert(s.subrange(0, 3)[0] == 'A');
        }
        if match_at(s, 0, "June"@) {
            assert(s.subrange(0, 4)[0] == 'A');
        }
        if match_at(s, 0, "July"@) {
            assert(s.subrange(0, 4)[0] == 'A');
        }
        assert(s.subrange(0, 6) =~= s);
        assert(pconv_prim(s, 0, 'B', empty_tm_spec()) == PRes::POk(
            Tm { tm_mon: 7, ..empty_tm_spec() }, 6));
        lemma_single_conv(s, f, Tm { tm_mon: 7, ..empty_tm_spec() });
    } else if t.tm_mon == 8 {
        let s = "September"@;
        lemma_fmt2(f, t, s);
        if match_at(s, 0, "January"@) {
            assert(s.subrange(0, 7)[0] == 'S');
        }
        if match_at(s, 0, "February"@) {
            assert(s.subrange(0, 8)[0] == 'S');
        }
        if match_at(s, 0, "March"@) {
            assert(s.subrange(0, 5)[0] == 'S');
        }
        if match_at(s, 0, "April"@) {
            assert(s.subrange(0, 5)[0] == 'S');
        }
        if match_at(s, 0, "May"@) {
            assert(s.subrange(0, 3)[0] == 'S');
        }
        if match_at(s, 0, "June"@) {
            assert(s.subrange(0, 4)[0] == 'S');
        }
        if match_at(s, 0, "July"@) {
            assert(s.subrange(0, 4)[0] == 'S');
        }
        if match_at(s, 0, "August"@) {
            assert(s.subrange(0, 6)[0] == 'S');
        }
        assert(s.subrange(0, 9) =~= s);
        assert(pconv_prim(s, 0, 'B', empty_tm_spec()) == PRes::POk(
            Tm { tm_mon: 8, ..empty_tm_spec() }, 9));
        lemma_single_conv(s, f, Tm { tm_mon: 8, ..empty_tm_spec() });
    } else if t.tm_mon == 9 {
        let s = "October"@;
        lemma_fmt2(f, t, s);
        if match_at(s, 0, "January"@) {
            assert(s.subrange(0, 7)[0] == 'O');
        }
        if match_at(s, 0, "March"@) {
            assert(s.subrange(0, 5)[0] == 'O');
        }
        if match_at(s, 0, "April"@) {
            assert(s.subrange(0, 5)[0] == 'O');
        }
        if match_at(s, 0, "May"@) {
            assert(s.subrange(0, 3)[0] == 'O');
        }
        if match_at(s, 0, "June"@) {
            assert(s.subrange(0, 4)[0] == 'O');
        }
        if match_at(s, 0, "July"@) {
            assert(s.subrange(0, 4)[0] == 'O');
        }
        if match_at(s, 0, "August"@) {
            assert(s.subrange(0, 6)[0] == 'O');
        }
        assert(s.subrange(0, 7) =~= s);
        assert(pconv_prim(s, 0, 'B', empty_tm_spec()) == PRes::POk(
            Tm { tm_mon: 9, ..empty_tm_spec() }, 7));
        lemma_single_conv(s, f, Tm { tm_mon: 9, ..empty_tm_spec() });
    } else if t.tm_mon == 10 {
        let s = "November"@;
        lemma_fmt2(f, t, s);
        if match_at(s, 0, "January"@) {
            assert(s.subrange(0, 7)[0] == 'N');
        }
        if match_at(s, 0, "February"@) {
            assert(s.subrange(0, 8)[0] == 'N');
        }
        if match_at(s, 0, "March"@) {
            assert(s.subrange(0, 5)[0] == 'N');
        }
        if match_at(s, 0, "April"@) {
            assert(s.subrange(0, 5)[0] == 'N');
        }
        if match_at(s, 0, "May"@) {
            assert(s.subrange(0, 3)[0] == 'N');
        }
        if match_at(s, 0, "June"@) {
            assert(s.subrange(0, 4)[0] == 'N');
        }
        if match_at(s, 0, "July"@) {
            assert(s.subrange(0, 4)[0] == 'N');
        }
        if match_at(s, 0, "August"@) {
            assert(s.subrange(0, 6)[0] == 'N');
        }
        if match_at(s, 0, "October"@) {
            assert(s.subrange(0, 7)[0] == 'N');
        }
        assert(s.subrange(0, 8) =~= s);
        assert(pconv_prim(s, 0, 'B', empty_tm_spec()) == PRes::POk(
            Tm { tm_mon: 10, ..empty_tm_spec() }, 8));
        lemma_single_conv(s, f, Tm { tm_mon: 10, ..empty_tm_spec() });
    } else if t.tm_mon == 11 {
        let s = "December"@;
        lemma_fmt2(f, t, s);
        if match_at(s, 0, "January"@) {
            assert(s.subrange(0, 7)[0] == 'D');
        }
        if match_at(s, 0, "February"@) {
            assert(s.subrange(0, 8)[0] == 'D');
        }
        if match_at(s, 0, "March"@) {
            assert(s.subrange(0, 5)[0] == 'D');
        }
        if match_at(s, 0, "April"@) {
            assert(s.subrange(0, 5)[0] == 'D');
        }
        if match_at(s, 0, "May"@) {
            assert(s.subrange(0, 3)[0] == 'D');
        }
        if match_at(s, 0, "June"@) {
            assert(s.subrange(0, 4)[0] == 'D');
        }
        if match_at(s, 0, "July"@) {
            assert(s.subrange(0, 4)[0] == 'D');
        }
        if match_at(s, 0, "August"@) {
            assert(s.subrange(0, 6)[0] == 'D');
        }
        if match_at(s, 0, "October"@) {
            assert(s.subrange(0, 7)[0] == 'D');
        }
        if match_at(s, 0, "November"@) {
            assert(s.subrange(0, 8)[0] == 'D');
        }
        assert(s.subrange(0, 8) =~= s);
        assert(pconv_prim(s, 0, 'B', empty_tm_spec()) == PRes::POk(
            Tm { tm_mon: 11, ..empty_tm_spec() }, 8));
        lemma_single_conv(s, f, Tm { tm_mon: 11, ..empty_tm_spec() });
    }
}

/// Rendering `%b` and parsing it back reproduces the month field.
pub proof fn lemma_round_trip_month_abbr(t: Tm)
    requires
        0 <= t.tm_mon <= 11,
    ensures
        ({
            let rendered = render_spec(t, "%b"@);
            strptime_spec(rendered, "%b"@) matches Ok(p) && p.tm_mon == t.tm_mon
        }),
{
    reveal_strlit("%b");
    reveal(conv_prim);
    reveal_strlit("Jan");
    reveal_strlit("Feb");
    reveal_strlit("Mar");
    reveal_strlit("Apr");
    reveal_strlit("May");
    reveal_strlit("Jun");
    reveal_strlit("Jul");
    reveal_strlit("Aug");
    reveal_strlit("Sep");
    reveal_strlit("Oct");
    reveal_strlit("Nov");
    reveal_strlit("Dec");
    let f = "%b"@;
    if t.tm_mon == 0 {
        let s = "Jan"@;
        lemma_fmt2(f, t, s);
        assert(s.subrange(0, 3) =~= s);
        assert(pconv_prim(s, 0, 'b', empty_tm_spec()) == PRes::POk(
            Tm { tm_mon: 0, ..empty_tm_spec() }, 3));
        lemma_single_conv(s, f, Tm { tm_mon: 0, ..empty_tm_spec() });
    } else if t.tm_mon == 1 {
        let s = "Feb"@;
        lemma_fmt2(f, t, s);
        if match_at(s, 0, "Jan"@) {
            assert(s.subrange(0, 3)[0] == 'F');
        }
        assert(s.subrange(0, 3) =~= s);
        assert(pconv_prim(s, 0, 'b', empty_tm_spec()) == PRes::POk(
            Tm { tm_mon: 1, ..empty_tm_spec() }, 3));
        lemma_single_conv(s, f, Tm { tm_mon: 1, ..empty_tm_spec() });
    } else if t.tm_mon == 2 {
        let s = "Mar"@;
        lemma_fmt2(f, t, s);
        if match_at(s, 0, "Jan"@) {
            assert(s.subrange(0, 3)[0] == 'M');
        }
        if match_at(s, 0, "Feb"@) {
            assert(s.subrange(0, 3)[0] == 'M');
        }
        assert(s.subrange(0, 3) =~= s);
        assert(pconv_prim(s, 0, 'b', empty_tm_spec()) == PRes::POk(
            Tm { tm_mon: 2, ..empty_tm_spec() }, 3));
        lemma_single_conv(s, f, Tm { tm_mon: 2, ..empty_tm_spec() });
    } else if t.tm_mon == 3 {
        let s = "Apr"@;
        lemma_fmt2(f, t, s);
        if match_at(s, 0, "Jan"@) {
            assert(s.subrange(0, 3)[0] == 'A');
        }
        if match_at(s, 0, "Feb"@) {
            assert(s.subrange(0, 3)[0] == 'A');
        }
        if match_at(s, 0, "Mar"@) {
            assert(s.subrange(0, 3)[0] == 'A');
        }
        assert(s.subrange(0, 3) =~= s);
        assert(pconv_prim(s, 0, 'b', empty_tm_spec()) == PRes::POk(
            Tm { tm_mon: 3, ..empty_tm_spec() }, 3));
        lemma_single_conv(s, f, Tm { tm_mon: 3, ..empty_tm_spec() });
    } else if t.tm_mon == 4 {
        let s = "May"@;
        lemma_fmt2(f, t, s);
        if match_at(s, 0, "Jan"@) {
            assert(s.subrange(0, 3)[0] == 'M');
        }
        if match_at(s, 0, "Feb"@) {
            assert(s.subrange(0, 3)[0] == 'M');
        }
        if match_at(s, 0, "Mar"@) {
            assert(s.subrange(0, 3)[2] == 'y');
        }
        if match_at(s, 0, "Apr"@) {
            assert(s.subrange(0, 3)[0] == 'M');
        }
        assert(s.subrange(0, 3) =~= s);
        assert(pconv_prim(s, 0, 'b', empty_tm_spec()) == PRes::POk(
            Tm { tm_mon: 4, ..empty_tm_spec() }, 3));
        lemma_single_conv(s, f, Tm { tm_mon: 4, ..empty_tm_spec() });
    } else if t.tm_mon == 5 {
        let s = "Jun"@;
        lemma_fmt2(f, t, s);
        if match_at(s, 0, "Jan"@) {
            assert(s.subrange(0, 3)[1] == 'u');
        }
        if match_at(s, 0, "Feb"@) {
            assert(s.subrange(0, 3)[0] == 'J');
        }
        if match_at(s, 0, "Mar"@) {
            assert(s.subrange(0, 3)[0] == 'J');
        }
        if match_at(s, 0, "Apr"@) {
            assert(s.subrange(0, 3)[0] == 'J');
        }
        if match_at(s, 0, "May"@) {
            assert(s.subrange(0, 3)[0] == 'J');
        }
        assert(s.subrange(0, 3) =~= s);
        assert(pconv_prim(s, 0, 'b', empty_tm_spec()) == PRes::POk(
            Tm { tm_mon: 5, ..empty_tm_spec() }, 3));
        lemma_single_conv(s, f, Tm { tm_mon: 5, ..empty_tm_spec() });
    } else if t.tm_mon == 6 {
        let s = "Jul"@;
        lemma_fmt2(f, t, s);
        if match_at(s, 0, "Jan"@) {
            assert(s.subrange(0, 3)[1] == 'u');
        }
        if match_at(s, 0, "Feb"@) {
            assert(s.subrange(0, 3)[0] == 'J');
        }
        if match_at(s, 0, "Mar"@) {
            assert(s.subrange(0, 3)[0] == 'J');
        }
        if match_at(s, 0, "Apr"@) {
            assert(s.subrange(0, 3)[0] == 'J');
        }
        if match_at(s, 0, "May"@) {
            assert(s.subrange(0, 3)[0] == 'J');
        }
        if match_at(s, 0, "Jun"@) {
            assert(s.subrange(0, 3)[2] == 'l');
        }
        assert(s.subrange(0, 3) =~= s);
        assert(pconv_prim(s, 0, 'b', empty_tm_spec()) == PRes::POk(
            Tm { tm_mon: 6, ..empty_tm_spec() }, 3));
        lemma_single_conv(s, f, Tm { tm_mon: 6, ..empty_tm_spec() });
    } else if t.tm_mon == 7 {
        let s = "Aug"@;
        lemma_fmt2(f, t, s);
        if match_at(s, 0, "Jan"@) {
            assert(s.subrange(0, 3)[0] == 'A');
        }
        if match_at(s, 0, "Feb"@) {
            assert(s.subrange(0, 3)[0] == 'A');
        }
        if match_at(s, 0, "Mar"@) {
            assert(s.subrange(0, 3)[0] == 'A');
        }
        if match_at(s, 0, "Apr"@) {
            assert(s.subrange(0, 3)[1] == 'u');
        }
        if match_at(s, 0, "May"@) {
            assert(s.subrange(0, 3)[0] == 'A');
        }
        if match_at(s, 0, "Jun"@) {
            assert(s.subrange(0, 3)[0] == 'A');
        }
        if match_at(s, 0, "Jul"@) {
            assert(s.subrange(0, 3)[0] == 'A');
        }
        assert(s.subrange(0, 3) =~= s);
        assert(pconv_prim(s, 0, 'b', empty_tm_spec()) == PRes::POk(
            Tm { tm_mon: 7, ..empty_tm_spec() }, 3));
        lemma_single_conv(s, f, Tm { tm_mon: 7, ..empty_tm_spec() });
    } else if t.tm_mon == 8 {
        let s = "Sep"@;
        lemma_fmt2(f, t, s);
        if match_at(s, 0, "Jan"@) {
            assert(s.subrange(0, 3)[0] == 'S');
        }
        if match_at(s, 0, "Feb"@) {
            assert(s.subrange(0, 3)[0] == 'S');
        }
        if match_at(s, 0, "Mar"@) {
            assert(s.subrange(0, 3)[0] == 'S');
        }
        if match_at(s, 0, "Apr"@) {
            assert(s.subrange(0, 3)[0] == 'S');
        }
        if match_at(s, 0, "May"@) {
            assert(s.subrange(0, 3)[0] == 'S');
        }
        if match_at(s, 0, "Jun"@) {
            assert(s.subrange(0, 3)[0] == 'S');
        }
        if match_at(s, 0, "Jul"@) {
            assert(s.subrange(0, 3)[0] == 'S');
        }
        if match_at(s, 0, "Aug"@) {
            assert(s.subrange(0, 3)[0] == 'S');
        }
        assert(s.subrange(0, 3) =~= s);
        assert(pconv_prim(s, 0, 'b', empty_tm_spec()) == PRes::POk(
            Tm { tm_mon: 8, ..empty_tm_spec() }, 3));
        lemma_single_conv(s, f, Tm { tm_mon: 8, ..empty_tm_spec() });
    } else if t.tm_mon == 9 {
        let s = "Oct"@;
        lemma_fmt2(f, t, s);
        if match_at(s, 0, "Jan"@) {
            assert(s.subrange(0, 3)[0] == 'O');
        }
        if match_at(s, 0, "Feb"@) {
            assert(s.subrange(0, 3)[0] == 'O');
        }
        if match_at(s, 0, "Mar"@) {
            assert(s.subrange(0, 3)[0] == 'O');
        }
        if match_at(s, 0, "Apr"@) {
            assert(s.subrange(0, 3)[0] == 'O');
        }
        if match_at(s, 0, "May"@) {
            assert(s.subrange(0, 3)[0] == 'O');
        }
        if match_at(s, 0, "Jun"@) {
            assert(s.subrange(0, 3)[0] == 'O');
        }
        if match_at(s, 0, "Jul"@) {
            assert(s.subrange(0, 3)[0] == 'O');
        }
        if match_at(s, 0, "Aug"@) {
            assert(s.subrange(0, 3)[0] == 'O');
        }
        if match_at(s, 0, "Sep"@) {
            assert(s.subrange(0, 3)[0] == 'O');
        }
        assert(s.subrange(0, 3) =~= s);
        assert(pconv_prim(s, 0, 'b', empty_tm_spec()) == PRes::POk(
            Tm { tm_mon: 9, ..empty_tm_spec() }, 3));
        lemma_single_conv(s, f, Tm { tm_mon: 9, ..empty_tm_spec() });
    } else if t.tm_mon == 10 {
        let s = "Nov"@;
        lemma_fmt2(f, t, s);
        if match_at(s, 0, "Jan"@) {
            assert(s.subrange(0, 3)[0] == 'N');
        }
        if match_at(s, 0, "Feb"@) {
            assert(s.subrange(0, 3)[0] == 'N');
        }
        if match_at(s, 0, "Mar"@) {
            assert(s.subrange(0, 3)[0] == 'N');
        }
        if match_at(s, 0, "Apr"@) {
            assert(s.subrange(0, 3)[0] == 'N');
        }
        if match_at(s, 0, "May"@) {
            assert(s.subrange(0, 3)[0] == 'N');
        }
        if match_at(s, 0, "Jun"@) {
            assert(s.subrange(0, 3)[0] == 'N');
        }
        if match_at(s, 0, "Jul"@) {
            assert(s.subrange(0, 3)[0] == 'N');
        }
        if match_at(s, 0, "Aug"@) {
            assert(s.subrange(0, 3)[0] == 'N');
        }
        if match_at(s, 0, "Sep"@) {
            assert(s.subrange(0, 3)[0] == 'N');
        }
        if match_at(s, 0, "Oct"@) {
            assert(s.subrange(0, 3)[0] == 'N');
        }
        assert(s.subrange(0, 3) =~= s);
        assert(pconv_prim(s, 0, 'b', empty_tm_spec()) == PRes::POk(
            Tm { tm_mon: 10, ..empty_tm_spec() }, 3));
        lemma_single_conv(s, f, Tm { tm_mon: 10, ..empty_tm_spec() });
    } else if t.tm_mon == 11 {
        let s = "Dec"@;
        lemma_fmt2(f, t, s);
        if match_at(s, 0, "Jan"@) {
            assert(s.subrange(0, 3)[0] == 'D');
        }
        if match_at(s, 0, "Feb"@) {
            assert(s.subrange(0, 3)[0] == 'D');
        }
        if match_at(s, 0, "Mar"@) {
            assert(s.subrange(0, 3)[0] == 'D');
        }
        if match_at(s, 0, "Apr"@) {
            assert(s.subrange(0, 3)[0] == 'D');
        }
        if match_at(s, 0, "May"@) {
            assert(s.subrange(0, 3)[0] == 'D');
        }
        if match_at(s, 0, "Jun"@) {
            assert(s.subrange(0, 3)[0] == 'D');
        }
        if match_at(s, 0, "Jul"@) {
            assert(s.subrange(0, 3)[0] == 'D');
        }
        if match_at(s, 0, "Aug"@) {
            assert(s.subrange(0, 3)[0] == 'D');
        }
        if match_at(s, 0, "Sep"@) {
            assert(s.subrange(0, 3)[0] == 'D');
        }
        if match_at(s, 0, "Oct"@) {
            assert(s.subrange(0, 3)[0] == 'D');
        }
        if match_at(s, 0, "Nov"@) {
            assert(s.subrange(0, 3)[0] == 'D');
        }
        assert(s.subrange(0, 3) =~= s);
        assert(pconv_prim(s, 0, 'b', empty_tm_spec()) == PRes::POk(
            Tm { tm_mon: 11, ..empty_tm_spec() }, 3));
        lemma_single_conv(s, f, Tm { tm_mon: 11, ..empty_tm_spec() });
    }
}

/// The positional value of a string of digit characters.
spec fn pv(s: Seq<char>) -> int
    decreases s.len(),
{
    if s.len() == 0 {
        0
    } else {
        pv(s.drop_last()) * 10 + digit_val(s.last())
    }
}

/// The digits of a number carry the number as their positional value.
proof fn lemma_pv_dec_rep(n: int)
    requires
        n >= 0,
    ensures
        pv(dec_rep(n)) == n,
    decreases n,
{
    assert(pv(Seq::<char>::empty()) == 0);
    if n < 10 {
        lemma_digit_char(n);
        assert(seq![digit_char(n)].drop_last() =~= Seq::<char>::empty());
        assert(seq![digit_char(n)].last() == digit_char(n));
    } else {
        lemma_pv_dec_rep(n / 10);
        lemma_digit_char(n % 10);
        let d = dec_rep(n / 10) + seq![digit_char(n % 10)];
        assert(d.drop_last() =~= dec_rep(n / 10));
        assert(d.last() == digit_char(n % 10));
        vstd::arithmetic::div_mod::lemma_fundamental_div_mod(n, 10);
    }
}

/// Zero characters in front do not change the positional value.
proof fn lemma_pv_zeros(k: int, s: Seq<char>)
    ensures
        pv(repeat_char('0', k) + s) == pv(s),
    decreases s.len(),
{
    let z = repeat_char('0', k);
    if s.len() == 0 {
        assert(z + s =~= z);
        lemma_pv_all_zeros(k);
    } else {
        lemma_pv_zeros(k, s.drop_last());
        assert((z + s).drop_last() =~= z + s.drop_last());
        assert((z + s).last() == s.last());
    }
}

/// A string of zero characters has positional value zero.
proof fn lemma_pv_all_zeros(k: int)
    ensures
        pv(repeat_char('0', k)) == 0,
    decreases (if k >= 0 { k } else { 0 }),
{
    let z = repeat_char('0', k);
    if k <= 0 {
        assert(z =~= Seq::<char>::empty());
    } else {
        lemma_pv_all_zeros(k - 1);
        assert(z.drop_last() =~= repeat_char('0', k - 1));
        assert(z.last() == '0');
    }
}

/// Every character of a decimal representation is a digit.
proof fn lemma_dec_rep_digits(n: int)
    requires
        n >= 0,
    ensures
        forall|j: int| 0 <= j < dec_rep(n).len() ==> is_digit(#[trigger] dec_rep(n)[j]),
    decreases n,
{
    if n < 10 {
        lemma_digit_char(n);
        assert(dec_rep(n)[0] == digit_char(n));
    } else {
        lemma_dec_rep_digits(n / 10);
        lemma_digit_char(n % 10);
        let d = dec_rep(n / 10) + seq![digit_char(n % 10)];
        assert forall|j: int| 0 <= j < dec_rep(n).len() implies is_digit(
            #[trigger] dec_rep(n)[j]) by {
            if j < dec_rep(n / 10).len() {
                assert(dec_rep(n)[j] == dec_rep(n / 10)[j]);
            } else {
                assert(dec_rep(n)[j] == digit_char(n % 10));
            }
        }
    }
}

/// Peeling the leading digit off a positional value.
proof fn lemma_pv_front(s: Seq<char>)
    requires
        s.len() >= 1,
    ensures
        pv(s) == digit_val(s[0]) * pow10((s.len() - 1) as nat) + pv(s.drop_first()),
    decreases s.len(),
{
    if s.len() == 1 {
        assert(s.drop_last() =~= Seq::<char>::empty());
        assert(s.drop_first() =~= Seq::<char>::empty());
        assert(pow10(0) == 1);
    } else {
        lemma_pv_front(s.drop_last());
        assert(s.drop_last()[0] == s[0]);
        assert(s.drop_first().drop_last() =~= s.drop_last().drop_first());
        assert(s.drop_first().last() == s.last());
        let l = s.len() as int;
        assert(pow10((l - 1) as nat) == 10 * pow10((l - 2) as nat));
        assert(digit_val(s[0]) * pow10((l - 2) as nat) * 10 == digit_val(s[0]) * pow10(
            (l - 1) as nat)) by (nonlinear_arith)
            requires
                pow10((l - 1) as nat) == 10 * pow10((l - 2) as nat),
        ;
    }
}

/// Greedy fractional-second matching of a nine-digit string reads its
/// positional value, weighting the first digit by `10^8`.
proof fn lemma_frac_eval(s: Seq<char>, i: int, acc: int)
    requires
        s.len() == 9,
        0 <= i <= 8,
        forall|j: int| 0 <= j < 9 ==> is_digit(#[trigger] s[j]),
    ensures
        crate::parse::frac_nsec(s, i, acc, pow10((8 - i) as nat)) == (
        acc + pv(s.skip(i)), 9int),
    decreases 9 - i,
{
    let mult = pow10((8 - i) as nat);
    assert(is_digit(s[i]));
    lemma_pv_front(s.skip(i));
    assert(s.skip(i)[0] == s[i]);
    assert(s.skip(i).drop_first() =~= s.skip(i + 1));
    assert(s.skip(i).len() - 1 == 8 - i);
    if i == 8 {
        assert(pow10(0) == 1);
        assert(s.skip(8).drop_first() =~= Seq::<char>::empty());
        assert(crate::parse::frac_nsec(s, 9, acc + digit_val(s[8]) * 1, 1int / 10) == (
        acc + digit_val(s[8]) * 1, 9int));
    } else {
        assert(pow10((8 - i) as nat) == 10 * pow10((7 - i) as nat));
        assert(mult / 10 == pow10((7 - i) as nat)) by {
            vstd::arithmetic::div_mod::lemma_fundamental_div_mod_converse(
                mult, 10, pow10((7 - i) as nat), 0);
        }
        lemma_frac_eval(s, i + 1, acc + digit_val(s[i]) * mult);
    }
}

/// Rendering `%f` and parsing it back reproduces the nanosecond field.
pub proof fn lemma_round_trip_frac(t: Tm)
    requires
        0 <= t.tm_nsec < 1_000_000_000,
    ensures
        ({
            let rendered = render_spec(t, "%f"@);
            strptime_spec(rendered, "%f"@) matches Ok(p) && p.tm_nsec == t.tm_nsec
        }),
{
    reveal_strlit("%f");
    reveal(conv_prim);
    let f = "%f"@;
    let n = t.tm_nsec as int;
    let s = pad_zero(n, 9);
    lemma_fmt2(f, t, s);
    assert(pow10(9) == 1_000_000_000 && pow10(8) == 100_000_000) by {
        reveal_with_fuel(pow10, 10);
    }
    crate::numfmt::lemma_dec_rep_len_le(n, 9);
    let d = dec_rep(n);
    let k = 9 - d.len();
    assert(s == repeat_char('0', k as int) + d);
    assert(s.len() == 9);
    lemma_dec_rep_digits(n);
    assert(forall|j: int| 0 <= j < 9 ==> is_digit(#[trigger] s[j])) by {
        assert forall|j: int| 0 <= j < 9 implies is_digit(#[trigger] s[j]) by {
            if j < k {
                assert(s[j] == '0');
            } else {
                assert(s[j] == d[j - k]);
            }
        }
    }
    lemma_pv_dec_rep(n);
    lemma_pv_zeros(k as int, d);
    assert(s.skip(0) =~= s);
    lemma_frac_eval(s, 0, 0);
    assert(crate::parse::frac_nsec(s, 0, 0, 100_000_000) == (n, 9int));
    assert(pconv_prim(s, 0, 'f', empty_tm_spec()) == PRes::POk(
        Tm { tm_nsec: t.tm_nsec, ..empty_tm_spec() }, 9));
    lemma_single_conv(s, f, Tm { tm_nsec: t.tm_nsec, ..empty_tm_spec() });
}


/// Decomposition inverts composition: a broken-down time produced by
/// decomposing an instant under an offset converts back to exactly that
/// instant.  The hypothesis on `r` is what `at_offset` ensures of its
/// result.
pub proof fn lemma_decompose_compose(clock: Timespec, off: int, r: Tm)
    requires
        clock.wf(),
        crate::tm::decomposes(clock, off, r),
    ensures
        crate::tm::tm_to_secs_spec(r) == clock.sec,
        r.tm_nsec == clock.nsec,
{
    let loc = clock.sec + off;
    let days = loc / 86400;
    let sod = loc % 86400;
    vstd::arithmetic::div_mod::lemma_fundamental_div_mod(loc, 86400);
    vstd::arithmetic::div_mod::lemma_fundamental_div_mod(sod, 3600);
    vstd::arithmetic::div_mod::lemma_fundamental_div_mod(sod % 3600, 60);
    assert(r.tm_mon as int / 12 == 0);
    assert(r.tm_mon as int % 12 == r.tm_mon as int);
    assert(sod % 3600 < 3600) by {
        vstd::arithmetic::div_mod::lemma_mod_division_less_than_divisor(sod, 3600);
    }
}


/// Validation rejects every character outside the recognized specifier
/// set with `InvalidFormatSpecifier`, carrying that character.
pub proof fn lemma_validation_rejects_unknown(tm: Tm, c: char)
    requires
        0 <= tm.tm_wday <= 6,
        0 <= tm.tm_mon <= 11,
        !crate::tmfmt::is_conv_char(c),
    ensures
        crate::tmfmt::strftime_err(tm, seq!['%', c]) == Some(
            ParseError::InvalidFormatSpecifier(c),
        ),
{
}

/// Validation rejects a trailing bare `%` with `MissingFormatConverter`.
pub proof fn lemma_validation_rejects_trailing_percent(tm: Tm)
    requires
        0 <= tm.tm_wday <= 6,
        0 <= tm.tm_mon <= 11,
    ensures
        crate::tmfmt::strftime_err(tm, seq!['%']) == Some(ParseError::MissingFormatConverter),
{
}


/// The lexicographic order on normalized `(sec, nsec)` pairs is the
/// chronological order of the instants they denote.
pub proof fn lemma_order_chronological(a: Timespec, b: Timespec)
    requires
        a.wf(),
        b.wf(),
    ensures
        (a.as_nanos() < b.as_nanos()) <==> (a.sec < b.sec || (a.sec == b.sec && a.nsec < b.nsec)),
{
    if a.sec < b.sec {
        assert((a.sec + 1) * 1_000_000_000 <= b.sec * 1_000_000_000) by (nonlinear_arith)
            requires
                a.sec + 1 <= b.sec,
        ;
    }
    if b.sec < a.sec {
        assert((b.sec + 1) * 1_000_000_000 <= a.sec * 1_000_000_000) by (nonlinear_arith)
            requires
                b.sec + 1 <= a.sec,
        ;
    }
}

proof fn lemma_pow10_pos(k: nat)
    ensures
        pow10(k) >= 1,
    decreases k,
{
    if k > 0 {
        lemma_pow10_pos((k - 1) as nat);
    }
}

/// Reading `n` digit characters accumulates the positional value of the
/// span onto `pow10(n)` times the accumulator.
proof fn lemma_digits_val_pv(s: Seq<char>, pos: int, n: int, ws: bool, acc: int)
    requires
        0 <= pos,
        0 <= n,
        pos + n <= s.len(),
        forall|j: int| pos <= j < pos + n ==> is_digit(#[trigger] s[j]),
    ensures
        digits_val(s, pos, n, ws, acc) == Some(
            acc * pow10(n as nat) + pv(s.subrange(pos, pos + n)),
        ),
    decreases n,
{
    if n == 0 {
        assert(s.subrange(pos, pos) =~= Seq::<char>::empty());
        assert(pow10(0) == 1);
    } else {
        assert(is_digit(s[pos]));
        let d = digit_val(s[pos]);
        lemma_digits_val_pv(s, pos + 1, n - 1, ws, acc * 10 + d);
        let span = s.subrange(pos, pos + n);
        lemma_pv_front(span);
        assert(span[0] == s[pos]);
        assert(span.drop_first() =~= s.subrange(pos + 1, pos + n));
        assert(pow10(n as nat) == 10 * pow10((n - 1) as nat));
        assert((acc * 10 + d) * pow10((n - 1) as nat) == acc * pow10(n as nat) + d * pow10(
            (n - 1) as nat)) by (nonlinear_arith)
            requires
                pow10(n as nat) == 10 * pow10((n - 1) as nat),
        ;
    }
}

proof fn lemma_dec_rep_len_pos(n: int)
    requires
        n >= 0,
    ensures
        dec_rep(n).len() >= 1,
    decreases n,
{
    if n >= 10 {
        lemma_dec_rep_len_pos(n / 10);
    }
}

/// A number at least `10^k` has more than `k` digits.
proof fn lemma_dec_rep_len_ge(n: int, k: nat)
    requires
        n >= pow10(k),
        k >= 0,
    ensures
        dec_rep(n).len() >= k + 1,
    decreases k,
{
    lemma_pow10_pos(k);
    if k == 0 {
        lemma_dec_rep_len_pos(n);
    } else {
        lemma_pow10_pos((k - 1) as nat);
        assert(pow10(k) == 10 * pow10((k - 1) as nat));
        assert(n >= 10);
        assert(n / 10 >= pow10((k - 1) as nat)) by {
            vstd::arithmetic::div_mod::lemma_div_is_ordered(
                10 * pow10((k - 1) as nat), n, 10);
            vstd::arithmetic::div_mod::lemma_fundamental_div_mod_converse(
                10 * pow10((k - 1) as nat), 10, pow10((k - 1) as nat), 0);
        }
        lemma_dec_rep_len_ge(n / 10, (k - 1) as nat);
    }
}

/// A zero-padded rendering of width `w` of a number below `10^w` is `w`
/// digit characters whose positional value is the number.
proof fn lemma_padded_digits(v: int, w: int)
    requires
        1 <= w <= 9,
        0 <= v < pow10(w as nat),
    ensures
        pad_zero(v, w).len() == w,
        forall|j: int| 0 <= j < w ==> is_digit(#[trigger] pad_zero(v, w)[j]),
        digits_val(pad_zero(v, w), 0, w, false, 0) == Some(v),
        digits_val(pad_zero(v, w), 0, w, true, 0) == Some(v),
{
    let s = pad_zero(v, w);
    let d = dec_rep(v);
    crate::numfmt::lemma_dec_rep_len_le(v, w as nat);
    let k = w - d.len();
    assert(s == repeat_char('0', k as int) + d);
    assert(s.len() == w);
    lemma_dec_rep_digits(v);
    assert forall|j: int| 0 <= j < w implies is_digit(#[trigger] s[j]) by {
        if j < k {
            assert(s[j] == '0');
        } else {
            assert(s[j] == d[j - k]);
        }
    }
    lemma_pv_dec_rep(v);
    lemma_pv_zeros(k as int, d);
    assert(s.subrange(0, w) =~= s);
    lemma_digits_val_pv(s, 0, w, false, 0);
    lemma_digits_val_pv(s, 0, w, true, 0);
}

/// Rendering `%m` and parsing it back reproduces the month field.
pub proof fn lemma_round_trip_month_number(t: Tm)
    requires
        0 <= t.tm_mon <= 11,
    ensures
        ({
            let rendered = render_spec(t, "%m"@);
            strptime_spec(rendered, "%m"@) matches Ok(p) && p.tm_mon == t.tm_mon
        }),
{
    reveal_strlit("%m");
    reveal(conv_prim);
    let f = "%m"@;
    let v = t.tm_mon + 1;
    lemma_fmt2(f, t, pad_zero(v as int, 2));
    lemma_round_trip_2digit(v as int);
    let s = pad_zero(v as int, 2);
    assert(pconv_prim(s, 0, 'm', empty_tm_spec()) == PRes::POk(
        Tm { tm_mon: t.tm_mon, ..empty_tm_spec() }, 2));
    lemma_single_conv(s, f, Tm { tm_mon: t.tm_mon, ..empty_tm_spec() });
}

/// Rendering `%e` (space-padded day) and parsing it back reproduces the
/// day of the month.
pub proof fn lemma_round_trip_mday_space(t: Tm)
    requires
        1 <= t.tm_mday <= 31,
    ensures
        ({
            let rendered = render_spec(t, "%e"@);
            strptime_spec(rendered, "%e"@) matches Ok(p) && p.tm_mday == t.tm_mday
        }),
{
    reveal_strlit("%e");
    reveal(conv_prim);
    let f = "%e"@;
    let v = t.tm_mday as int;
    lemma_fmt2(f, t, pad_space(v, 2));
    lemma_space2(v);
    let s = pad_space(v, 2);
    assert(pconv_prim(s, 0, 'e', empty_tm_spec()) == PRes::POk(
        Tm { tm_mday: t.tm_mday, ..empty_tm_spec() }, 2));
    lemma_single_conv(s, f, Tm { tm_mday: t.tm_mday, ..empty_tm_spec() });
}

/// Rendering `%k` (space-padded hour) and parsing it back reproduces the
/// hour field.
pub proof fn lemma_round_trip_hour_space(t: Tm)
    requires
        0 <= t.tm_hour <= 23,
    ensures
        ({
            let rendered = render_spec(t, "%k"@);
            strptime_spec(rendered, "%k"@) matches Ok(p) && p.tm_hour == t.tm_hour
        }),
{
    reveal_strlit("%k");
    reveal(conv_prim);
    let f = "%k"@;
    let v = t.tm_hour as int;
    lemma_fmt2(f, t, pad_space(v, 2));
    lemma_space2(v);
    let s = pad_space(v, 2);
    assert(pconv_prim(s, 0, 'k', empty_tm_spec()) == PRes::POk(
        Tm { tm_hour: t.tm_hour, ..empty_tm_spec() }, 2));
    lemma_single_conv(s, f, Tm { tm_hour: t.tm_hour, ..empty_tm_spec() });
}

/// Rendering `%u` (weekday, Monday 1 to Sunday 7) and parsing it back
/// reproduces the weekday field.
pub proof fn lemma_round_trip_weekday_mon1(t: Tm)
    requires
        0 <= t.tm_wday <= 6,
    ensures
        ({
            let rendered = render_spec(t, "%u"@);
            strptime_spec(rendered, "%u"@) matches Ok(p) && p.tm_wday == t.tm_wday
        }),
{
    reveal_strlit("%u");
    reveal(conv_prim);
    let f = "%u"@;
    let v: int = if t.tm_wday == 0 {
        7
    } else {
        t.tm_wday as int
    };
    lemma_digit_char(v);
    let s = crate::numfmt::signed_dec(v);
    assert(s == seq![digit_char(v)]);
    lemma_fmt2(f, t, s);
    assert(digits_val(s, 0, 1, false, 0) == digits_val(s, 1, 0, false, v));
    assert(pconv_prim(s, 0, 'u', empty_tm_spec()) == PRes::POk(
        Tm { tm_wday: t.tm_wday, ..empty_tm_spec() }, 1));
    lemma_single_conv(s, f, Tm { tm_wday: t.tm_wday, ..empty_tm_spec() });
}

/// Rendering `%w` (weekday, Sunday 0) and parsing it back reproduces the
/// weekday field.
pub proof fn lemma_round_trip_weekday_sun0(t: Tm)
    requires
        0 <= t.tm_wday <= 6,
    ensures
        ({
            let rendered = render_spec(t, "%w"@);
            strptime_spec(rendered, "%w"@) matches Ok(p) && p.tm_wday == t.tm_wday
        }),
{
    reveal_strlit("%w");
    reveal(conv_prim);
    let f = "%w"@;
    let v = t.tm_wday as int;
    lemma_digit_char(v);
    let s = crate::numfmt::signed_dec(v);
    assert(s == seq![digit_char(v)]);
    lemma_fmt2(f, t, s);
    assert(digits_val(s, 0, 1, false, 0) == digits_val(s, 1, 0, false, v));
    assert(pconv_prim(s, 0, 'w', empty_tm_spec()) == PRes::POk(
        Tm { tm_wday: t.tm_wday, ..empty_tm_spec() }, 1));
    lemma_single_conv(s, f, Tm { tm_wday: t.tm_wday, ..empty_tm_spec() });
}

/// Rendering `%j` and parsing it back reproduces the day of the year.
pub proof fn lemma_round_trip_yday(t: Tm)
    requires
        0 <= t.tm_yday <= 365,
    ensures
        ({
            let rendered = render_spec(t, "%j"@);
            strptime_spec(rendered, "%j"@) matches Ok(p) && p.tm_yday == t.tm_yday
        }),
{
    reveal_strlit("%j");
    reveal(conv_prim);
    let f = "%j"@;
    let v = t.tm_yday + 1;
    assert(pow10(3) == 1000) by {
        reveal_with_fuel(pow10, 4);
    }
    lemma_fmt2(f, t, pad_zero(v as int, 3));
    lemma_padded_digits(v as int, 3);
    let s = pad_zero(v as int, 3);
    assert(pconv_prim(s, 0, 'j', empty_tm_spec()) == PRes::POk(
        Tm { tm_yday: t.tm_yday, ..empty_tm_spec() }, 3));
    lemma_single_conv(s, f, Tm { tm_yday: t.tm_yday, ..empty_tm_spec() });
}

/// Rendering `%Y` and parsing it back reproduces the year field, for the
/// years whose full rendering is the four digits the parser consumes.
pub proof fn lemma_round_trip_year(t: Tm)
    requires
        1000 <= t.tm_year + 1900 <= 9999,
    ensures
        ({
            let rendered = render_spec(t, "%Y"@);
            strptime_spec(rendered, "%Y"@) matches Ok(p) && p.tm_year == t.tm_year
        }),
{
    reveal_strlit("%Y");
    reveal(conv_prim);
    let f = "%Y"@;
    let v = t.tm_year + 1900;
    assert(pow10(3) == 1000 && pow10(4) == 10000) by {
        reveal_with_fuel(pow10, 5);
    }
    let s = crate::numfmt::signed_dec(v as int);
    assert(s == dec_rep(v as int));
    lemma_fmt2(f, t, s);
    crate::numfmt::lemma_dec_rep_len_le(v as int, 4);
    lemma_dec_rep_len_ge(v as int, 3);
    assert(s.len() == 4);
    lemma_dec_rep_digits(v as int);
    lemma_pv_dec_rep(v as int);
    assert(s.subrange(0, 4) =~= s);
    lemma_digits_val_pv(s, 0, 4, false, 0);
    assert(digits_val(s, 0, 4, false, 0) == Some(v as int));
    assert(pconv_prim(s, 0, 'Y', empty_tm_spec()) == PRes::POk(
        Tm { tm_year: t.tm_year, ..empty_tm_spec() }, 4));
    lemma_single_conv(s, f, Tm { tm_year: t.tm_year, ..empty_tm_spec() });
}

/// Rendering `%C` and parsing it back reproduces the century: the parsed
/// year is the first year of the rendered century.
pub proof fn lemma_round_trip_century(t: Tm)
    requires
        0 <= t.tm_year + 1900 <= 9999,
    ensures
        ({
            let rendered = render_spec(t, "%C"@);
            strptime_spec(rendered, "%C"@) matches Ok(p) && p.tm_year + 1900 == 100 * (
            (t.tm_year + 1900) / 100)
        }),
{
    reveal_strlit("%C");
    reveal(conv_prim);
    let f = "%C"@;
    let y = t.tm_year + 1900;
    let v = y / 100;
    assert(crate::render::trunc_div(y, 100) == v);
    assert(0 <= v <= 99) by {
        vstd::arithmetic::div_mod::lemma_fundamental_div_mod(y, 100);
    }
    lemma_fmt2(f, t, pad_zero(v, 2));
    lemma_round_trip_2digit(v);
    let s = pad_zero(v, 2);
    let out: i32 = (crate::parse::wrap_add_i32(0, v * 100 - 1900)) as i32;
    assert(out == v * 100 - 1900);
    assert(pconv_prim(s, 0, 'C', empty_tm_spec()) == PRes::POk(
        Tm { tm_year: out, ..empty_tm_spec() }, 2));
    lemma_single_conv(s, f, Tm { tm_year: out, ..empty_tm_spec() });
}

/// Rendering `%y` and parsing it back reproduces the year within its
/// century, stored directly as the year field.
pub proof fn lemma_round_trip_year2(t: Tm)
    requires
        t.tm_year + 1900 >= 0,
    ensures
        ({
            let rendered = render_spec(t, "%y"@);
            strptime_spec(rendered, "%y"@) matches Ok(p) && p.tm_year == (t.tm_year + 1900) % 100
        }),
{
    reveal_strlit("%y");
    reveal(conv_prim);
    let f = "%y"@;
    let y = t.tm_year + 1900;
    let v = y % 100;
    assert(crate::render::trunc_mod(y, 100) == v);
    assert(0 <= v <= 99) by {
        vstd::arithmetic::div_mod::lemma_fundamental_div_mod(y, 100);
    }
    lemma_fmt2(f, t, pad_zero(v, 2));
    lemma_round_trip_2digit(v);
    let s = pad_zero(v, 2);
    assert(pconv_prim(s, 0, 'y', empty_tm_spec()) == PRes::POk(
        Tm { tm_year: v as i32, ..empty_tm_spec() }, 2));
    lemma_single_conv(s, f, Tm { tm_year: v as i32, ..empty_tm_spec() });
}

/// Rendering the composite `%T` and parsing it back reproduces the hour,
/// minute and second fields together.
#[verifier::rlimit(60)]
pub proof fn lemma_round_trip_hms(t: Tm)
    requires
        0 <= t.tm_hour <= 23,
        0 <= t.tm_min <= 59,
        0 <= t.tm_sec <= 60,
    ensures
        ({
            let rendered = render_spec(t, "%T"@);
            strptime_spec(rendered, "%T"@) matches Ok(p) && p.tm_hour == t.tm_hour
                && p.tm_min == t.tm_min && p.tm_sec == t.tm_sec
        }),
{
    reveal_strlit("%T");
    reveal_strlit(":");
    reveal(conv_prim);
    let f = "%T"@;
    let h = t.tm_hour as int;
    let m = t.tm_min as int;
    let sec = t.tm_sec as int;
    let sh = pad_zero(h, 2);
    let sm = pad_zero(m, 2);
    let ss = pad_zero(sec, 2);
    lemma_two_digit(h);
    lemma_two_digit(m);
    lemma_two_digit(sec);
    vstd::arithmetic::div_mod::lemma_fundamental_div_mod(h, 10);
    vstd::arithmetic::div_mod::lemma_fundamental_div_mod(m, 10);
    vstd::arithmetic::div_mod::lemma_fundamental_div_mod(sec, 10);
    let s = conv_spec(t, 'T');
    lemma_fmt2(f, t, s);
    assert(s == sh + ":"@ + sm + ":"@ + ss);
    assert(s.len() == 8);
    assert(s[0] == sh[0] && s[1] == sh[1]);
    assert(s[2] == ':');
    assert(s[3] == sm[0] && s[4] == sm[1]);
    assert(s[5] == ':');
    assert(s[6] == ss[0] && s[7] == ss[1]);
    lemma_read_two_digits(s, 0, false, 0);
    lemma_read_two_digits(s, 3, false, 0);
    lemma_read_two_digits(s, 6, false, 0);
    let tm0 = empty_tm_spec();
    let tm1 = Tm { tm_hour: t.tm_hour, ..tm0 };
    let tm2 = Tm { tm_min: t.tm_min, ..tm1 };
    let tm3 = Tm { tm_sec: t.tm_sec, ..tm2 };
    assert(pconv_prim(s, 0, 'H', tm0) == PRes::POk(tm1, 2));
    assert(crate::parse::pchar(s, 2, ':', tm1) == PRes::POk(tm1, 3));
    assert(pconv_prim(s, 3, 'M', tm1) == PRes::POk(tm2, 5));
    assert(crate::parse::pchar(s, 5, ':', tm2) == PRes::POk(tm2, 6));
    assert(pconv_prim(s, 6, 'S', tm2) == PRes::POk(tm3, 8));
    assert(pconv(s, 0, 'H', tm0) == PRes::POk(tm1, 2));
    assert(pconv(s, 3, 'M', tm1) == PRes::POk(tm2, 5));
    assert(pconv(s, 6, 'S', tm2) == PRes::POk(tm3, 8));
    let steps = seq!['H', ':', 'M', ':', 'S'];
    assert(steps.skip(2) =~= seq!['M', ':', 'S']);
    assert(steps.skip(2).skip(2) =~= seq!['S']);
    assert(crate::parse::pseq(s, 6, seq!['S'], tm2, 0) == PRes::POk(tm3, 8));
    assert(crate::parse::pseq(s, 3, seq!['M', ':', 'S'], tm1, 0) == PRes::POk(tm3, 8));
    assert(crate::parse::pseq(s, 0, steps, tm0, 0) == PRes::POk(tm3, 8));
    assert(pconv(s, 0, 'T', tm0) == PRes::POk(tm3, 8));
    lemma_single_conv(s, f, tm3);
}

/// Rendering the composite `%r` and parsing it back reproduces the
/// hour, minute and second fields: the 12-hour rendering and the am/pm
/// marker recombine into the 24-hour hour value.
#[verifier::rlimit(100)]
pub proof fn lemma_round_trip_12hour_clock(t: Tm)
    requires
        0 <= t.tm_hour <= 23,
        0 <= t.tm_min <= 59,
        0 <= t.tm_sec <= 60,
    ensures
        ({
            let rendered = render_spec(t, "%r"@);
            strptime_spec(rendered, "%r"@) matches Ok(p) && p.tm_hour == t.tm_hour
                && p.tm_min == t.tm_min && p.tm_sec == t.tm_sec
        }),
{
    reveal_strlit("%r");
    reveal_strlit(":");
    reveal_strlit(" ");
    reveal_strlit("AM");
    reveal_strlit("PM");
    reveal(conv_prim);
    let f = "%r"@;
    let h12 = hour12(t.tm_hour as int);
    let m = t.tm_min as int;
    let sec = t.tm_sec as int;
    let sh = pad_zero(h12, 2);
    let sm = pad_zero(m, 2);
    let ss = pad_zero(sec, 2);
    lemma_two_digit(h12);
    lemma_two_digit(m);
    lemma_two_digit(sec);
    vstd::arithmetic::div_mod::lemma_fundamental_div_mod(h12, 10);
    vstd::arithmetic::div_mod::lemma_fundamental_div_mod(m, 10);
    vstd::arithmetic::div_mod::lemma_fundamental_div_mod(sec, 10);
    let ampm = if t.tm_hour < 12 {
        "AM"@
    } else {
        "PM"@
    };
    let s = conv_spec(t, 'r');
    lemma_fmt2(f, t, s);
    assert(s == sh + ":"@ + sm + ":"@ + ss + " "@ + ampm);
    assert(s.len() == 11);
    assert(s[0] == sh[0] && s[1] == sh[1]);
    assert(s[2] == ':');
    assert(s[3] == sm[0] && s[4] == sm[1]);
    assert(s[5] == ':');
    assert(s[6] == ss[0] && s[7] == ss[1]);
    assert(s[8] == ' ');
    assert(s[9] == ampm[0] && s[10] == ampm[1]);
    lemma_read_two_digits(s, 0, false, 0);
    lemma_read_two_digits(s, 3, false, 0);
    lemma_read_two_digits(s, 6, false, 0);
    let tm0 = empty_tm_spec();
    let hi: i32 = if h12 == 12 {
        0
    } else {
        h12 as i32
    };
    let tm1 = Tm { tm_hour: hi, ..tm0 };
    let tm2 = Tm { tm_min: t.tm_min, ..tm1 };
    let tm3 = Tm { tm_sec: t.tm_sec, ..tm2 };
    let tm4 = if t.tm_hour < 12 {
        tm3
    } else {
        Tm { tm_hour: crate::parse::wrap_add_i32(tm3.tm_hour as int, 12) as i32, ..tm3 }
    };
    assert(pconv_prim(s, 0, 'I', tm0) == PRes::POk(tm1, 2));
    assert(crate::parse::pchar(s, 2, ':', tm1) == PRes::POk(tm1, 3));
    assert(pconv_prim(s, 3, 'M', tm1) == PRes::POk(tm2, 5));
    assert(crate::parse::pchar(s, 5, ':', tm2) == PRes::POk(tm2, 6));
    assert(pconv_prim(s, 6, 'S', tm2) == PRes::POk(tm3, 8));
    assert(crate::parse::pchar(s, 8, ' ', tm3) == PRes::POk(tm3, 9));
    if t.tm_hour < 12 {
        assert(s.subrange(9, 11) =~= "AM"@);
        assert(pconv_prim(s, 9, 'p', tm3) == PRes::POk(tm4, 11));
    } else {
        if match_at(s, 9, "AM"@) {
            assert(s.subrange(9, 11)[0] == 'P');
        }
        assert(s.subrange(9, 11) =~= "PM"@);
        assert(pconv_prim(s, 9, 'p', tm3) == PRes::POk(tm4, 11));
    }
    assert(pconv(s, 0, 'I', tm0) == PRes::POk(tm1, 2));
    assert(pconv(s, 3, 'M', tm1) == PRes::POk(tm2, 5));
    assert(pconv(s, 6, 'S', tm2) == PRes::POk(tm3, 8));
    assert(pconv(s, 9, 'p', tm3) == PRes::POk(tm4, 11));
    let steps = seq!['I', ':', 'M', ':', 'S', ' ', 'p'];
    assert(steps.skip(2) =~= seq!['M', ':', 'S', ' ', 'p']);
    assert(seq!['M', ':', 'S', ' ', 'p'].skip(2) =~= seq!['S', ' ', 'p']);
    assert(seq!['S', ' ', 'p'].skip(2) =~= seq!['p']);
    assert(crate::parse::pseq(s, 9, seq!['p'], tm3, 0) == PRes::POk(tm4, 11));
    assert(crate::parse::pseq(s, 6, seq!['S', ' ', 'p'], tm2, 0) == PRes::POk(tm4, 11));
    assert(crate::parse::pseq(s, 3, seq!['M', ':', 'S', ' ', 'p'], tm1, 0) == PRes::POk(tm4, 11));
    assert(crate::parse::pseq(s, 0, steps, tm0, 0) == PRes::POk(tm4, 11));
    assert(pconv(s, 0, 'r', tm0) == PRes::POk(tm4, 11));
    lemma_single_conv(s, f, tm4);
    assert(tm4.tm_hour == t.tm_hour);
}

/// Rendering the combined format `"%d %H %M %S"` and parsing it back
/// reproduces all four fields together: each literal space passes
/// through and each specifier consumes exactly its own rendering.
#[verifier::rlimit(100)]
pub proof fn lemma_round_trip_dhms(t: Tm)
    requires
        1 <= t.tm_mday <= 31,
        0 <= t.tm_hour <= 23,
        0 <= t.tm_min <= 59,
        0 <= t.tm_sec <= 60,
    ensures
        ({
            let rendered = render_spec(t, "%d %H %M %S"@);
            strptime_spec(rendered, "%d %H %M %S"@) matches Ok(p) && p.tm_mday == t.tm_mday
                && p.tm_hour == t.tm_hour && p.tm_min == t.tm_min && p.tm_sec == t.tm_sec
        }),
{
    reveal_strlit("%d %H %M %S");
    reveal(conv_prim);
    let f = "%d %H %M %S"@;
    assert(f.len() == 11);
    let d = t.tm_mday as int;
    let h = t.tm_hour as int;
    let m = t.tm_min as int;
    let sec = t.tm_sec as int;
    let sd = pad_zero(d, 2);
    let sh = pad_zero(h, 2);
    let sm = pad_zero(m, 2);
    let ss = pad_zero(sec, 2);
    lemma_two_digit(d);
    lemma_two_digit(h);
    lemma_two_digit(m);
    lemma_two_digit(sec);
    vstd::arithmetic::div_mod::lemma_fundamental_div_mod(d, 10);
    vstd::arithmetic::div_mod::lemma_fundamental_div_mod(h, 10);
    vstd::arithmetic::div_mod::lemma_fundamental_div_mod(m, 10);
    vstd::arithmetic::div_mod::lemma_fundamental_div_mod(sec, 10);
    let s = sd + seq![' '] + sh + seq![' '] + sm + seq![' '] + ss;
    assert(f.skip(2).skip(1) =~= f.skip(3));
    assert(f.skip(3).skip(2) =~= f.skip(5));
    assert(f.skip(5).skip(1) =~= f.skip(6));
    assert(f.skip(6).skip(2) =~= f.skip(8));
    assert(f.skip(8).skip(1) =~= f.skip(9));
    assert(f.skip(9).skip(2) =~= f.skip(11));
    assert(f.skip(11) =~= Seq::<char>::empty());
    assert(render_spec(t, f.skip(11)) =~= Seq::<char>::empty());
    assert(render_spec(t, f.skip(9)) =~= ss);
    assert(render_spec(t, f.skip(8)) =~= seq![' '] + ss);
    assert(render_spec(t, f.skip(6)) =~= sm + seq![' '] + ss);
    assert(render_spec(t, f.skip(5)) =~= seq![' '] + sm + seq![' '] + ss);
    assert(render_spec(t, f.skip(3)) =~= sh + seq![' '] + sm + seq![' '] + ss);
    assert(render_spec(t, f.skip(2)) =~= seq![' '] + sh + seq![' '] + sm + seq![' '] + ss);
    assert(render_spec(t, f) =~= s);
    assert(s.len() == 11);
    assert(s[0] == sd[0] && s[1] == sd[1]);
    assert(s[2] == ' ');
    assert(s[3] == sh[0] && s[4] == sh[1]);
    assert(s[5] == ' ');
    assert(s[6] == sm[0] && s[7] == sm[1]);
    assert(s[8] == ' ');
    assert(s[9] == ss[0] && s[10] == ss[1]);
    lemma_read_two_digits(s, 0, false, 0);
    lemma_read_two_digits(s, 3, false, 0);
    lemma_read_two_digits(s, 6, false, 0);
    lemma_read_two_digits(s, 9, false, 0);
    let tm0 = empty_tm_spec();
    let tm1 = Tm { tm_mday: t.tm_mday, ..tm0 };
    let tm2 = Tm { tm_hour: t.tm_hour, ..tm1 };
    let tm3 = Tm { tm_min: t.tm_min, ..tm2 };
    let tm4 = Tm { tm_sec: t.tm_sec, ..tm3 };
    assert(pconv_prim(s, 0, 'd', tm0) == PRes::POk(tm1, 2));
    assert(pconv_prim(s, 3, 'H', tm1) == PRes::POk(tm2, 5));
    assert(pconv_prim(s, 6, 'M', tm2) == PRes::POk(tm3, 8));
    assert(pconv_prim(s, 9, 'S', tm3) == PRes::POk(tm4, 11));
    assert(pconv(s, 0, 'd', tm0) == PRes::POk(tm1, 2));
    assert(pconv(s, 3, 'H', tm1) == PRes::POk(tm2, 5));
    assert(pconv(s, 6, 'M', tm2) == PRes::POk(tm3, 8));
    assert(pconv(s, 9, 'S', tm3) == PRes::POk(tm4, 11));
    assert(strptime_rec(s, f, 0, 0, tm0) == strptime_rec(s, f, 2, 2, tm1));
    assert(strptime_rec(s, f, 2, 2, tm1) == strptime_rec(s, f, 3, 3, tm1));
    assert(strptime_rec(s, f, 3, 3, tm1) == strptime_rec(s, f, 5, 5, tm2));
    assert(strptime_rec(s, f, 5, 5, tm2) == strptime_rec(s, f, 6, 6, tm2));
    assert(strptime_rec(s, f, 6, 6, tm2) == strptime_rec(s, f, 8, 8, tm3));
    assert(strptime_rec(s, f, 8, 8, tm3) == strptime_rec(s, f, 9, 9, tm3));
    assert(strptime_rec(s, f, 9, 9, tm3) == strptime_rec(s, f, 11, 11, tm4));
    assert(strptime_rec(s, f, 11, 11, tm4) == PRes::POk(tm4, 11));
    assert(strptime_spec(s, f) == Result::<Tm, ParseError>::Ok(tm4));
}

} // verus!
