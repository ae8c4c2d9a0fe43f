//! Human-readable counters: large integers are abbreviated with the k, M
//! and G suffixes at one decimal place.

use vstd::prelude::*;

verus! {

/// The decimal digits of `n`, most significant first.
pub open spec fn spec_decimal(n: int) -> Seq<char>
    decreases n,
{
    if n <= 9 {
        seq![spec_digit_char(n)]
    } else {
        spec_decimal(n / 10).push(spec_digit_char(n % 10))
    }
}

/// The character of one decimal digit.
pub open spec fn spec_digit_char(d: int) -> char {
    if d == 0 {
        '0'
    } else if d == 1 {
        '1'
    } else if d == 2 {
        '2'
    } else if d == 3 {
        '3'
    } else if d == 4 {
        '4'
    } else if d == 5 {
        '5'
    } else if d == 6 {
        '6'
    } else if d == 7 {
        '7'
    } else if d == 8 {
        '8'
    } else {
        '9'
    }
}

/// `n / unit` rounded to the nearest integer, ties going to the even value.
pub open spec fn spec_rounded(n: int, unit: int) -> int
    recommends
        unit >= 1,
{
    let q = n / unit;
    let rem = n % unit;
    if 2 * rem > unit {
        q + 1
    } else if 2 * rem < unit {
        q
    } else if q % 2 == 0 {
        q
    } else {
        q + 1
    }
}

/// A value scaled by `unit * 10` and shown with one decimal place.
pub open spec fn spec_scaled(n: int, unit: int) -> Seq<char> {
    let tenths = spec_rounded(n, unit);
    spec_decimal(tenths / 10) + seq!['.'] + seq![spec_digit_char(tenths % 10)]
}

/// The abbreviated form of a counter: plain digits below one thousand, then
/// the k, M and G suffixes at one decimal place.
pub open spec fn spec_format_big_int(n: int) -> Seq<char> {
    if n < 1000 {
        spec_decimal(n)
    } else if n < 1000000 {
        spec_scaled(n, 100) + seq!['k']
    } else if n < 1000000000 {
        spec_scaled(n, 100000) + seq!['M']
    } else {
        spec_scaled(n, 100000000) + seq!['G']
    }
}

/// The string of one decimal digit.
fn digit_str(d: u64) -> (r: &'static str)
    requires
        d <= 9,
    ensures
        r@ == seq![spec_digit_char(d as int)],
{
    proof {
        reveal_strlit("0");
        reveal_strlit("1");
        reveal_strlit("2");
        reveal_strlit("3");
        reveal_strlit("4");
        reveal_strlit("5");
        reveal_strlit("6");
        reveal_strlit("7");
        reveal_strlit("8");
        reveal_strlit("9");
    }
    if d == 0 {
        "0"
    } else if d == 1 {
        "1"
    } else if d == 2 {
        "2"
    } else if d == 3 {
        "3"
    } else if d == 4 {
        "4"
    } else if d == 5 {
        "5"
    } else if d == 6 {
        "6"
    } else if d == 7 {
        "7"
    } else if d == 8 {
        "8"
    } else {
        "9"
    }
}

/// The decimal digits of `n`, most significant first.
fn decimal_string(n: u64) -> (r: String)
    ensures
        r@ == spec_decimal(n as int),
    decreases n,
{
    if n <= 9 {
        let mut s = String::new();
        s.append(digit_str(n));
        s
    } else {
        let mut s = decimal_string(n / 10);
        s.append(digit_str(n % 10));
        s
    }
}

/// `n / unit` rounded to the nearest integer, ties going to the even value.
fn rounded(n: u64, unit: u64) -> (r: u64)
    requires
        1 <= unit <= 1000000000,
    ensures
        r == spec_rounded(n as int, unit as int),
{
    let q = n / unit;
    let rem = n % unit;
    proof {
        vstd::arithmetic::div_mod::lemma_fundamental_div_mod(n as int, unit as int);
        assert(q <= unit * q) by (nonlinear_arith)
            requires
                unit >= 1 && q >= 0,
        ;
        assert(rem >= 1 ==> q < n);
    }
    if 2 * rem > unit {
        q + 1
    } else if 2 * rem < unit {
        q
    } else if q % 2 == 0 {
        q
    } else {
        q + 1
    }
}

/// A value scaled by `unit * 10` and shown with one decimal place.
fn scaled_string(n: u64, unit: u64) -> (r: String)
    requires
        1 <= unit <= 1000000000,
    ensures
        r@ == spec_scaled(n as int, unit as int),
{
    let tenths = rounded(n, unit);
    let mut s = decimal_string(tenths / 10);
    proof {
        reveal_strlit(".");
        assert((".")@ =~= seq!['.']);
    }
    s.append(".");
    s.append(digit_str(tenths % 10));
    s
}

/// Abbreviate a counter for display: plain digits below one thousand, then
/// the k, M and G suffixes at one decimal place.
pub fn format_big_int(n: usize) -> (r: String)
    ensures
        r@ == spec_format_big_int(n as int),
{
    proof {
        reveal_strlit("k");
        reveal_strlit("M");
        reveal_strlit("G");
    }
    let n = n as u64;
    if n < 1000 {
        decimal_string(n)
    } else if n < 1000000 {
        let mut s = scaled_string(n, 100);
        s.append("k");
        s
    } else if n < 1000000000 {
        let mut s = scaled_string(n, 100000);
        s.append("M");
        s
    } else {
        let mut s = scaled_string(n, 100000000);
        s.append("G");
        s
    }
}

} // verus!
