//! Decimal rendering of integers and of micro-unit fixed-point values.
//!
//! A micro-unit value carries six decimal places: `297_000` renders as
//! `"0.297000"`, matching the six-place serialization used in prompts.

use vstd::prelude::*;

verus! {

/// The decimal digit character for `d` (`d < 10`).
pub open spec fn digit_char(d: nat) -> char {
    if d == 0 {
        '0'
    } else if d == 1 {
        '1'
    } else if d == 2 {
        '2'
    } else if d == 3 {
        '3'
    } else if d == 4 {
        '4'
    } else if d == 5 {
        '5'
    } else if d == 6 {
        '6'
    } else if d == 7 {
        '7'
    } else if d == 8 {
        '8'
    } else {
        '9'
    }
}

fn digit_char_exec(d: u64) -> (r: char)
    requires
        d < 10,
    ensures
        r == digit_char(d as nat),
{
    match d {
        0 => '0',
        1 => '1',
        2 => '2',
        3 => '3',
        4 => '4',
        5 => '5',
        6 => '6',
        7 => '7',
        8 => '8',
        _ => '9',
    }
}

/// The decimal representation of `n`, without leading zeros (just `"0"` for
/// zero).
pub open spec fn dec_rep(n: nat) -> Seq<char>
    decreases n,
{
    if n < 10 {
        seq![digit_char(n)]
    } else {
        dec_rep(n / 10) + seq![digit_char(n % 10)]
    }
}

/// The decimal representation of `n` padded with leading zeros to exactly
/// `w` digits (truncating high digits if `n` needs more than `w`).
pub open spec fn dec_rep_width(n: nat, w: nat) -> Seq<char>
    decreases w,
{
    if w == 0 {
        Seq::empty()
    } else {
        dec_rep_width(n / 10, (w - 1) as nat) + seq![digit_char(n % 10)]
    }
}

/// The digits of `n` in decimal.
pub fn u64_to_chars(n: u64) -> (r: Vec<char>)
    ensures
        r@ == dec_rep(n as nat),
{
    let mut digits: Vec<char> = Vec::new();
    if n < 10 {
        digits.push(digit_char_exec(n));
        return digits;
    }
    let mut m: u64 = n;
    while m > 0
        invariant
            if m > 0 {
                dec_rep(n as nat) == dec_rep(m as nat) + digits@
            } else {
                dec_rep(n as nat) == digits@
            },
        decreases m,
    {
        let ghost pre = digits@;
        let d = m % 10;
        digits.insert(0, digit_char_exec(d));
        proof {
            assert(digits@ =~= seq![digit_char((m % 10) as nat)] + pre);
            if m >= 10 {
                assert(dec_rep(m as nat) == dec_rep((m / 10) as nat) + seq![
                    digit_char((m % 10) as nat),
                ]);
                assert(dec_rep((m / 10) as nat) + (seq![digit_char((m % 10) as nat)]
                    + pre) =~= (dec_rep((m / 10) as nat) + seq![
                    digit_char((m % 10) as nat),
                ]) + pre);
            } else {
                assert(dec_rep(m as nat) =~= seq![digit_char((m % 10) as nat)]);
            }
        }
        m = m / 10;
    }
    digits
}

/// The digits of `n` in decimal, zero-padded to `w` digits.
pub fn u64_to_chars_padded(n: u64, w: usize) -> (r: Vec<char>)
    ensures
        r@ == dec_rep_width(n as nat, w as nat),
{
    let mut digits: Vec<char> = Vec::new();
    let mut m: u64 = n;
    let mut k: usize = 0;
    while k < w
        invariant
            k <= w,
            dec_rep_width(n as nat, w as nat) == dec_rep_width(m as nat, (w - k) as nat)
                + digits@,
        decreases w - k,
    {
        let ghost pre = digits@;
        let d = m % 10;
        digits.insert(0, digit_char_exec(d));
        proof {
            assert(digits@ =~= seq![digit_char((m % 10) as nat)] + pre);
            assert(dec_rep_width(m as nat, (w - k) as nat) == dec_rep_width(
                (m / 10) as nat,
                (w - k - 1) as nat,
            ) + seq![digit_char((m % 10) as nat)]);
            assert(dec_rep_width((m / 10) as nat, (w - k - 1) as nat) + (seq![
                digit_char((m % 10) as nat),
            ] + pre) =~= (dec_rep_width((m / 10) as nat, (w - k - 1) as nat)
                + seq![digit_char((m % 10) as nat)]) + pre);
        }
        m = m / 10;
        k = k + 1;
    }
    proof {
        assert(dec_rep_width(m as nat, 0) =~= Seq::<char>::empty());
        assert(Seq::<char>::empty() + digits@ =~= digits@);
    }
    digits
}

/// The decimal representation of `n`, as a string.
pub fn u64_to_string(n: u64) -> (r: String)
    ensures
        r@ == dec_rep(n as nat),
{
    let digits = u64_to_chars(n);
    crate::text::string_from_chars(&digits)
}

/// The decimal representation of a signed value: a leading `-` for
/// negatives.
pub open spec fn int_rep(n: int) -> Seq<char> {
    if n < 0 {
        seq!['-'] + dec_rep((-n) as nat)
    } else {
        dec_rep(n as nat)
    }
}

/// The decimal representation of `n`, as a string.
pub fn i64_to_string(n: i64) -> (r: String)
    requires
        n != i64::MIN,
    ensures
        r@ == int_rep(n as int),
{
    if n < 0 {
        let mut chars: Vec<char> = Vec::new();
        chars.push('-');
        let mut digits = u64_to_chars((-n) as u64);
        chars.append(&mut digits);
        proof {
            assert(chars@ =~= seq!['-'] + dec_rep((-n) as nat));
        }
        crate::text::string_from_chars(&chars)
    } else {
        u64_to_string(n as u64)
    }
}

/// The rendering of a micro-unit fixed-point value with six decimal places:
/// sign, integer part, `.`, then exactly six fractional digits.
pub open spec fn micro_rep(v: int) -> Seq<char> {
    let a = if v < 0 {
        -v
    } else {
        v
    };
    let sign: Seq<char> = if v < 0 {
        seq!['-']
    } else {
        Seq::empty()
    };
    sign + dec_rep((a / 1_000_000) as nat) + seq!['.'] + dec_rep_width(
        (a % 1_000_000) as nat,
        6,
    )
}

/// Render a micro-unit value with six decimal places, e.g. `297000` as
/// `"0.297000"`.
pub fn micro_to_string(v: i64) -> (r: String)
    requires
        v != i64::MIN,
    ensures
        r@ == micro_rep(v as int),
{
    let a: u64 = if v < 0 {
        (-v) as u64
    } else {
        v as u64
    };
    let mut chars: Vec<char> = Vec::new();
    if v < 0 {
        chars.push('-');
    }
    let mut int_digits = u64_to_chars(a / 1_000_000);
    chars.append(&mut int_digits);
    chars.push('.');
    let mut frac_digits = u64_to_chars_padded(a % 1_000_000, 6);
    chars.append(&mut frac_digits);
    proof {
        assert(chars@ =~= micro_rep(v as int));
    }
    crate::text::string_from_chars(&chars)
}

} // verus!
