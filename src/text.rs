//! Rendering of numbers as decimal text.

use vstd::prelude::*;

verus! {

/// The character of one decimal digit.
pub open spec fn digit_char(d: nat) -> char {
    if d == 0 {
        '0'
    } else if d == 1 {
        '1'
    } else if d == 2 {
        '2'
    } else if d == 3 {
        '3'
    } else if d == 4 {
        '4'
    } else if d == 5 {
        '5'
    } else if d == 6 {
        '6'
    } else if d == 7 {
        '7'
    } else if d == 8 {
        '8'
    } else {
        '9'
    }
}

/// The decimal digits of `n`, most significant first, with no leading zeros.
pub open spec fn decimal_of(n: nat) -> Seq<char>
    decreases n,
{
    if n < 10 {
        seq![digit_char(n)]
    } else {
        decimal_of(n / 10) + seq![digit_char(n % 10)]
    }
}

pub(crate) fn digit_text(d: u64) -> (r: &'static str)
    requires
        d < 10,
    ensures
        r@ == seq![digit_char(d as nat)],
{
    proof {
        reveal_strlit("0");
        reveal_strlit("1");
        reveal_strlit("2");
        reveal_strlit("3");
        reveal_strlit("4");
        reveal_strlit("5");
        reveal_strlit("6");
        reveal_strlit("7");
        reveal_strlit("8");
        reveal_strlit("9");
    }
    if d == 0 {
        "0"
    } else if d == 1 {
        "1"
    } else if d == 2 {
        "2"
    } else if d == 3 {
        "3"
    } else if d == 4 {
        "4"
    } else if d == 5 {
        "5"
    } else if d == 6 {
        "6"
    } else if d == 7 {
        "7"
    } else if d == 8 {
        "8"
    } else {
        "9"
    }
}

/// Renders `n` in decimal.
pub fn decimal(n: u64) -> (r: String)
    ensures
        r@ == decimal_of(n as nat),
    decreases n,
{
    if n < 10 {
        String::from_str(digit_text(n))
    } else {
        let mut s = decimal(n / 10);
        s.append(digit_text(n % 10));
        s
    }
}

/// The digits of `f` as exactly `w` characters, padded with leading zeros.
pub open spec fn padded_of(f: nat, w: nat) -> Seq<char>
    decreases w,
{
    if w == 0 {
        Seq::empty()
    } else {
        padded_of(f / 10, (w - 1) as nat) + seq![digit_char(f % 10)]
    }
}

/// `(f, w)` with trailing zero digits dropped from the `w`-digit fraction `f`.
pub open spec fn stripped_of(f: nat, w: nat) -> (nat, nat)
    decreases w,
{
    if w > 0 && f % 10 == 0 {
        stripped_of(f / 10, (w - 1) as nat)
    } else {
        (f, w)
    }
}

/// Base units in one whole unit.
pub const UNITS_PER_WHOLE: u64 = 1_000_000_000;

/// `amount / UNITS_PER_WHOLE` as a decimal fraction: the whole part, then,
/// when the rest is not zero, a point and the fraction without trailing zeros.
pub open spec fn units_of(amount: u64) -> Seq<char> {
    let whole = amount as nat / UNITS_PER_WHOLE as nat;
    let rest = amount as nat % UNITS_PER_WHOLE as nat;
    if rest == 0 {
        decimal_of(whole)
    } else {
        decimal_of(whole) + "."@ + padded_of(stripped_of(rest, 9).0, stripped_of(rest, 9).1)
    }
}

fn padded(f: u64, w: u64) -> (r: String)
    ensures
        r@ == padded_of(f as nat, w as nat),
    decreases w,
{
    if w == 0 {
        String::new()
    } else {
        let mut s = padded(f / 10, w - 1);
        s.append(digit_text(f % 10));
        s
    }
}

/// Renders `amount / UNITS_PER_WHOLE` exactly, as [`units_of`] describes.
pub fn units_text(amount: u64) -> (r: String)
    ensures
        r@ == units_of(amount),
{
    let whole = amount / UNITS_PER_WHOLE;
    let rest = amount % UNITS_PER_WHOLE;
    let mut s = decimal(whole);
    if rest != 0 {
        let mut f: u64 = rest;
        let mut w: u64 = 9;
        while w > 0 && f % 10 == 0
            invariant
                w <= 9,
                f <= rest,
                stripped_of(f as nat, w as nat) == stripped_of(rest as nat, 9),
            decreases w,
        {
            f = f / 10;
            w = w - 1;
        }
        s.append(".");
        s.append(padded(f, w).as_str());
    }
    s
}

} // verus!
