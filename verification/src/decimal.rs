//! Decimal rendering of integers as character sequences, with executable
//! counterparts producing `String`s. Used by the transpiler for numeric
//! literals and by the diagnostics for line, column and span numbers.

use vstd::prelude::*;

verus! {

/// The decimal digit character for a value in `0..=9`.
pub open spec fn digit_char_of(d: int) -> char {
    (('0' as int) + d) as char
}

/// The decimal rendering of a non-negative integer, most significant
/// digit first, with no leading zeros (a single `0` for zero).
pub open spec fn dec_nat(n: nat) -> Seq<char>
    decreases n,
{
    if n < 10 {
        seq![digit_char_of(n as int)]
    } else {
        proof {
            assert(n / 10 < n) by (nonlinear_arith)
                requires n >= 10;
        }
        dec_nat(n / 10) + seq![digit_char_of((n % 10) as int)]
    }
}

/// The decimal rendering of an integer, with a leading `-` when negative.
pub open spec fn dec_int(v: int) -> Seq<char> {
    if v < 0 {
        seq!['-'] + dec_nat((-v) as nat)
    } else {
        dec_nat(v as nat)
    }
}

/// A sequence of `n` spaces.
pub open spec fn spaces(n: nat) -> Seq<char> {
    Seq::new(n, |i: int| ' ')
}

fn digit_str(d: u64) -> (r: &'static str)
    requires
        d < 10,
    ensures
        r@ == seq![digit_char_of(d as int)],
{
    let r = match d {
        0 => "0",
        1 => "1",
        2 => "2",
        3 => "3",
        4 => "4",
        5 => "5",
        6 => "6",
        7 => "7",
        8 => "8",
        _ => "9",
    };
    proof {
        reveal_strlit("0");
        reveal_strlit("1");
        reveal_strlit("2");
        reveal_strlit("3");
        reveal_strlit("4");
        reveal_strlit("5");
        reveal_strlit("6");
        reveal_strlit("7");
        reveal_strlit("8");
        reveal_strlit("9");
        assert(r@ =~= seq![digit_char_of(d as int)]);
    }
    r
}

/// Render an unsigned integer in decimal.
pub fn u64_to_string(n: u64) -> (r: String)
    ensures
        r@ == dec_nat(n as nat),
    decreases n,
{
    if n < 10 {
        digit_str(n).to_owned()
    } else {
        let mut s = u64_to_string(n / 10);
        s.append(digit_str(n % 10));
        proof {
            assert(s@ =~= dec_nat(n as nat));
        }
        s
    }
}

/// Render a `usize` in decimal.
pub fn usize_to_string(n: usize) -> (r: String)
    ensures
        r@ == dec_nat(n as nat),
{
    u64_to_string(n as u64)
}

/// Render a signed integer in decimal, with a leading `-` when negative.
pub fn i64_to_string(v: i64) -> (r: String)
    ensures
        r@ == dec_int(v as int),
{
    if v < 0 {
        let m: u64 = (-(v as i128)) as u64;
        proof {
            assert(m as int == -(v as int));
        }
        let mut s = "-".to_owned();
        let digits = u64_to_string(m);
        s.append(digits.as_str());
        proof {
            reveal_strlit("-");
            assert(s@ =~= dec_int(v as int));
        }
        s
    } else {
        u64_to_string(v as u64)
    }
}

/// A `String` of `n` spaces.
pub fn spaces_string(n: usize) -> (r: String)
    ensures
        r@ == spaces(n as nat),
    decreases n,
{
    if n == 0 {
        let s = String::new();
        proof {
            assert(s@ =~= spaces(0));
        }
        s
    } else {
        let mut s = spaces_string(n - 1);
        s.append(" ");
        proof {
            reveal_strlit(" ");
            assert(s@ =~= spaces(n as nat));
        }
        s
    }
}

} // verus!
