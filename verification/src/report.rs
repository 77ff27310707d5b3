//! Numbers for the build report.

use vstd::prelude::*;
use crate::text::string_of;

verus! {

/// The character of a decimal digit.
pub open spec fn digit_char(d: nat) -> char
    recommends
        d < 10,
{
    ((48 + d) as u8) as char
}

/// The decimal digits of a number, without leading zeros.
pub open spec fn digits(n: nat) -> Seq<char>
    decreases n,
{
    if n < 10 {
        seq![digit_char(n)]
    } else {
        digits(n / 10).push(digit_char(n % 10))
    }
}

/// The three decimal digits of a number below a thousand, with leading zeros.
pub open spec fn three_digits(n: nat) -> Seq<char>
    recommends
        n < 1000,
{
    seq![digit_char(n / 100), digit_char((n / 10) % 10), digit_char(n % 10)]
}

/// The decimal digits of a number in groups of three from the right, with a
/// comma between groups.
pub open spec fn with_commas(n: nat) -> Seq<char>
    decreases n,
{
    if n < 1000 {
        digits(n)
    } else {
        with_commas(n / 1000) + seq![','] + three_digits(n % 1000)
    }
}

/// The character of the digit `d`.
fn digit(d: u8) -> (c: char)
    requires
        d < 10,
    ensures
        c == digit_char(d as nat),
{
    (48 + d) as char
}

/// The digits of `value` in groups of three.
fn grouped(value: u128) -> (out: Vec<char>)
    ensures
        out@ == with_commas(value as nat),
    decreases value,
{
    if value < 1000 {
        let mut out: Vec<char> = Vec::new();
        if value >= 100 {
            out.push(digit((value / 100) as u8));
        }
        if value >= 10 {
            out.push(digit(((value / 10) % 10) as u8));
        }
        out.push(digit((value % 10) as u8));
        proof {
            let n = value as nat;
            reveal_with_fuel(digits, 3);
            if n >= 100 {
                assert(n / 10 / 10 == n / 100);
                assert(out@ =~= digits(n));
            } else if n >= 10 {
                assert(out@ =~= digits(n));
            } else {
                assert(out@ =~= digits(n));
            }
        }
        out
    } else {
        let mut out = grouped(value / 1000);
        let rest: u128 = value % 1000;
        let ghost before = out@;
        out.push(',');
        out.push(digit((rest / 100) as u8));
        out.push(digit(((rest / 10) % 10) as u8));
        out.push(digit((rest % 10) as u8));
        assert(out@ =~= before + seq![','] + three_digits(rest as nat));
        out
    }
}

/// The number in decimal digits, in groups of three with commas between.
pub fn format_with_commas(value: u128) -> (r: String)
    ensures
        r@ == with_commas(value as nat),
{
    string_of(&grouped(value))
}

} // verus!
