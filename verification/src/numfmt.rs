//! Fixed-width decimal rendering of integers, as the format interpreter
//! needs it: plain, zero-padded and space-padded, with the sign counted
//! into the width as Rust's formatting does.

use vstd::prelude::*;

verus! {

pub open spec fn digit_char(d: int) -> char {
    if d == 0 {
        '0'
    } else if d == 1 {
        '1'
    } else if d == 2 {
        '2'
    } else if d == 3 {
        '3'
    } else if d == 4 {
        '4'
    } else if d == 5 {
        '5'
    } else if d == 6 {
        '6'
    } else if d == 7 {
        '7'
    } else if d == 8 {
        '8'
    } else {
        '9'
    }
}

/// The decimal digits of a non-negative number, most significant first.
pub open spec fn dec_rep(n: int) -> Seq<char>
    decreases n,
{
    if n < 10 {
        seq![digit_char(n)]
    } else {
        dec_rep(n / 10) + seq![digit_char(n % 10)]
    }
}

/// The decimal form of a signed number, as `{}` renders it.
pub open spec fn signed_dec(n: int) -> Seq<char> {
    if n >= 0 {
        dec_rep(n)
    } else {
        seq!['-'] + dec_rep(-n)
    }
}

pub open spec fn repeat_char(c: char, k: int) -> Seq<char> {
    Seq::new(
        if k >= 0 {
            k as nat
        } else {
            0
        },
        |i: int| c,
    )
}

/// The sign-aware zero padding of `{:0w}`: a minus sign is written first
/// and counted into the width.
pub open spec fn pad_zero(n: int, w: int) -> Seq<char> {
    if n >= 0 {
        repeat_char('0', w - dec_rep(n).len()) + dec_rep(n)
    } else {
        seq!['-'] + repeat_char('0', w - 1 - dec_rep(-n).len()) + dec_rep(-n)
    }
}

/// The space padding of `{:w}` for numbers: right-aligned.
pub open spec fn pad_space(n: int, w: int) -> Seq<char> {
    repeat_char(' ', w - signed_dec(n).len()) + signed_dec(n)
}

pub open spec fn pow10(k: nat) -> int
    decreases k,
{
    if k == 0 {
        1
    } else {
        10 * pow10((k - 1) as nat)
    }
}

/// A number below `10^k` has at most `k` digits.
pub(crate) proof fn lemma_dec_rep_len_le(n: int, k: nat)
    requires
        0 <= n < pow10(k),
        k >= 1,
    ensures
        dec_rep(n).len() <= k,
    decreases k,
{
    if n < 10 {
    } else {
        assert(pow10(k) == 10 * pow10((k - 1) as nat));
        vstd::arithmetic::div_mod::lemma_multiply_divide_lt(n, 10, pow10((k - 1) as nat));
        lemma_dec_rep_len_le(n / 10, (k - 1) as nat);
    }
}

fn digit_str(d: u64) -> (s: &'static str)
    requires
        d < 10,
    ensures
        s@ == seq![digit_char(d as int)],
{
    proof {
        reveal_strlit("0");
        reveal_strlit("1");
        reveal_strlit("2");
        reveal_strlit("3");
        reveal_strlit("4");
        reveal_strlit("5");
        reveal_strlit("6");
        reveal_strlit("7");
        reveal_strlit("8");
        reveal_strlit("9");
    }
    if d == 0 {
        proof {
            assert("0"@ =~= seq![digit_char(0)]);
        }
        "0"
    } else if d == 1 {
        proof {
            assert("1"@ =~= seq![digit_char(1)]);
        }
        "1"
    } else if d == 2 {
        proof {
            assert("2"@ =~= seq![digit_char(2)]);
        }
        "2"
    } else if d == 3 {
        proof {
            assert("3"@ =~= seq![digit_char(3)]);
        }
        "3"
    } else if d == 4 {
        proof {
            assert("4"@ =~= seq![digit_char(4)]);
        }
        "4"
    } else if d == 5 {
        proof {
            assert("5"@ =~= seq![digit_char(5)]);
        }
        "5"
    } else if d == 6 {
        proof {
            assert("6"@ =~= seq![digit_char(6)]);
        }
        "6"
    } else if d == 7 {
        proof {
            assert("7"@ =~= seq![digit_char(7)]);
        }
        "7"
    } else if d == 8 {
        proof {
            assert("8"@ =~= seq![digit_char(8)]);
        }
        "8"
    } else {
        proof {
            assert("9"@ =~= seq![digit_char(9)]);
        }
        "9"
    }
}

/// Relies on `String::push`: appends exactly the given character.
#[verifier::external_body]
pub(crate) fn push_char(s: &mut String, c: char)
    ensures
        final(s)@ == old(s)@.push(c),
{
    s.push(c);
}

/// Appends the decimal digits of `n`.
pub fn push_dec_u64(out: &mut String, n: u64)
    ensures
        final(out)@ == old(out)@ + dec_rep(n as int),
    decreases n,
{
    if n < 10 {
        let s = digit_str(n);
        out.append(s);
    } else {
        push_dec_u64(out, n / 10);
        let s = digit_str(n % 10);
        out.append(s);
        proof {
            assert(out@ =~= old(out)@ + dec_rep(n as int));
        }
    }
}

/// The count of decimal digits of `n`.
pub fn dec_len_u64(n: u64) -> (l: usize)
    ensures
        l == dec_rep(n as int).len(),
        1 <= l <= 20,
    decreases n,
{
    proof {
        assert(pow10(20) == 100_000_000_000_000_000_000) by {
            reveal_with_fuel(pow10, 21);
        }
        lemma_dec_rep_len_le(n as int, 20);
    }
    if n < 10 {
        1
    } else {
        1 + dec_len_u64(n / 10)
    }
}

fn push_zeros(out: &mut String, k: usize)
    ensures
        final(out)@ == old(out)@ + repeat_char('0', k as int),
{
    proof {
        reveal_strlit("0");
    }
    let mut i: usize = 0;
    while i < k
        invariant
            i <= k,
            out@ == old(out)@ + repeat_char('0', i as int),
            "0"@ == seq!['0'],
        decreases k - i,
    {
        out.append("0");
        i = i + 1;
        proof {
            assert(out@ =~= old(out)@ + repeat_char('0', i as int));
        }
    }
    proof {
        assert(out@ =~= old(out)@ + repeat_char('0', k as int));
    }
}

fn push_spaces(out: &mut String, k: usize)
    ensures
        final(out)@ == old(out)@ + repeat_char(' ', k as int),
{
    proof {
        reveal_strlit(" ");
    }
    let mut i: usize = 0;
    while i < k
        invariant
            i <= k,
            out@ == old(out)@ + repeat_char(' ', i as int),
            " "@ == seq![' '],
        decreases k - i,
    {
        out.append(" ");
        i = i + 1;
        proof {
            assert(out@ =~= old(out)@ + repeat_char(' ', i as int));
        }
    }
    proof {
        assert(out@ =~= old(out)@ + repeat_char(' ', k as int));
    }
}

/// Appends `n` as `{}` would render it.
pub fn push_dec_i64(out: &mut String, n: i64)
    requires
        n > i64::MIN,
    ensures
        final(out)@ == old(out)@ + signed_dec(n as int),
{
    if n >= 0 {
        push_dec_u64(out, n as u64);
    } else {
        proof {
            reveal_strlit("-");
            assert("-"@ =~= seq!['-']);
        }
        out.append("-");
        push_dec_u64(out, (-n) as u64);
        proof {
            assert(out@ =~= old(out)@ + signed_dec(n as int));
        }
    }
}

/// Appends `n` as `{:0w}` would render it.
pub fn push_zero_padded_i64(out: &mut String, n: i64, w: usize)
    requires
        n > i64::MIN,
    ensures
        final(out)@ == old(out)@ + pad_zero(n as int, w as int),
{
    if n >= 0 {
        let l = dec_len_u64(n as u64);
        if w > l {
            push_zeros(out, w - l);
        }
        push_dec_u64(out, n as u64);
        proof {
            assert(out@ =~= old(out)@ + pad_zero(n as int, w as int));
        }
    } else {
        proof {
            reveal_strlit("-");
            assert("-"@ =~= seq!['-']);
        }
        out.append("-");
        let m: u64 = (-n) as u64;
        let l = dec_len_u64(m);
        if w > l + 1 {
            push_zeros(out, w - 1 - l);
        }
        push_dec_u64(out, m);
        proof {
            assert(out@ =~= old(out)@ + pad_zero(n as int, w as int));
        }
    }
}

/// Appends `n` as `{:w}` would render it.
pub fn push_space_padded_i64(out: &mut String, n: i64, w: usize)
    requires
        n > i64::MIN,
    ensures
        final(out)@ == old(out)@ + pad_space(n as int, w as int),
{
    let l: usize = if n >= 0 {
        dec_len_u64(n as u64)
    } else {
        1 + dec_len_u64((-n) as u64)
    };
    if w > l {
        push_spaces(out, w - l);
    }
    push_dec_i64(out, n);
    proof {
        assert(final(out)@ =~= old(out)@ + pad_space(n as int, w as int));
    }
}

} // verus!
