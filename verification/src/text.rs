//! Decimal rendering of integers into strings.

use vstd::prelude::*;

verus! {

pub open spec fn digit_char(d: nat) -> char {
    if d == 0 {
        '0'
    } else if d == 1 {
        '1'
    } else if d == 2 {
        '2'
    } else if d == 3 {
        '3'
    } else if d == 4 {
        '4'
    } else if d == 5 {
        '5'
    } else if d == 6 {
        '6'
    } else if d == 7 {
        '7'
    } else if d == 8 {
        '8'
    } else {
        '9'
    }
}

/// The decimal digits of `x`, most significant first, without leading
/// zeros ("0" for zero).
pub open spec fn decimal(x: nat) -> Seq<char>
    decreases x,
{
    if x < 10 {
        seq![digit_char(x)]
    } else {
        decimal(x / 10).push(digit_char(x % 10))
    }
}

/// `decimal(x)` left-padded with zeros to at least `width` characters.
pub open spec fn decimal_padded(x: nat, width: nat) -> Seq<char> {
    let d = decimal(x);
    if d.len() >= width {
        d
    } else {
        Seq::new((width - d.len()) as nat, |i: int| '0') + d
    }
}

/// A signed integer in decimal, with a leading '-' when negative.
pub open spec fn signed_decimal(x: int) -> Seq<char> {
    if x < 0 {
        seq!['-'] + decimal((-x) as nat)
    } else {
        decimal(x as nat)
    }
}

/// The one-character string of a digit.
fn digit_str(d: u64) -> (s: &'static str)
    requires
        d < 10,
    ensures
        s@ == seq![digit_char(d as nat)],
{
    proof {
        reveal_strlit("0");
        reveal_strlit("1");
        reveal_strlit("2");
        reveal_strlit("3");
        reveal_strlit("4");
        reveal_strlit("5");
        reveal_strlit("6");
        reveal_strlit("7");
        reveal_strlit("8");
        reveal_strlit("9");
    }
    if d == 0 {
        "0"
    } else if d == 1 {
        "1"
    } else if d == 2 {
        "2"
    } else if d == 3 {
        "3"
    } else if d == 4 {
        "4"
    } else if d == 5 {
        "5"
    } else if d == 6 {
        "6"
    } else if d == 7 {
        "7"
    } else if d == 8 {
        "8"
    } else {
        "9"
    }
}

/// Append the decimal digits of `x`.
pub fn push_decimal(s: &mut String, x: u64)
    ensures
        final(s)@ == old(s)@ + decimal(x as nat),
    decreases x,
{
    if x < 10 {
        s.append(digit_str(x));
    } else {
        push_decimal(s, x / 10);
        s.append(digit_str(x % 10));
        assert(old(s)@ + decimal((x / 10) as nat) + seq![digit_char((x % 10) as nat)] =~= old(s)@
            + decimal(x as nat));
    }
}

/// Append the decimal digits of `x`, zero-padded to at least `width`.
pub fn push_decimal_padded(s: &mut String, x: u64, width: usize)
    ensures
        final(s)@ == old(s)@ + decimal_padded(x as nat, width as nat),
{
    let mut digits = String::new();
    push_decimal(&mut digits, x);
    assert(digits@ =~= decimal(x as nat));
    let n = digits.as_str().unicode_len();
    let mut k: usize = n;
    let ghost start = s@;
    while k < width
        invariant
            n == decimal(x as nat).len(),
            n <= k <= width || (k == n && n >= width),
            s@ == start + Seq::new((k - n) as nat, |i: int| '0'),
            start == old(s)@,
        decreases width - k,
    {
        s.append("0");
        proof {
            reveal_strlit("0");
        }
        k = k + 1;
        assert(s@ =~= start + Seq::new((k - n) as nat, |i: int| '0'));
    }
    s.append(digits.as_str());
    assert(s@ =~= old(s)@ + decimal_padded(x as nat, width as nat));
}

/// Append `x` in decimal, with '-' when negative.
pub fn push_signed(s: &mut String, x: i64)
    ensures
        final(s)@ == old(s)@ + signed_decimal(x as int),
{
    if x < 0 {
        s.append("-");
        proof {
            reveal_strlit("-");
        }
        let m: u64 = if x == i64::MIN {
            9_223_372_036_854_775_808u64
        } else {
            (-x) as u64
        };
        push_decimal(s, m);
        assert(s@ =~= old(s)@ + signed_decimal(x as int));
    } else {
        push_decimal(s, x as u64);
    }
}

} // verus!
