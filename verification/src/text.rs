//! Points and rectangles written out for messages.

use crate::gol::{Mask, Point};
use vstd::prelude::*;
use vstd::string::StringExecFns;

verus! {

/// The character for the digit `d`.
pub open spec fn digit_char(d: int) -> char {
    seq!['0', '1', '2', '3', '4', '5', '6', '7', '8', '9'][d]
}

/// `n` in decimal, without leading zeros.
pub open spec fn decimal_text(n: nat) -> Seq<char>
    decreases n,
{
    if n < 10 {
        seq![digit_char(n as int)]
    } else {
        decimal_text(n / 10).push(digit_char((n % 10) as int))
    }
}

/// `v` in decimal, with a minus sign where it is negative.
pub open spec fn signed_text(v: int) -> Seq<char> {
    if v < 0 {
        seq!['-'] + decimal_text((-v) as nat)
    } else {
        decimal_text(v as nat)
    }
}

/// A point as `(x, y)`.
pub open spec fn point_text(pt: Point) -> Seq<char> {
    seq!['('] + signed_text(pt.x as int) + seq![',', ' '] + signed_text(pt.y as int) + seq![')']
}

/// A rectangle as `(left -> right, top -> bottom)`.
pub open spec fn mask_text(m: Mask) -> Seq<char> {
    seq!['('] + decimal_text(m.x as nat) + seq![' ', '-', '>', ' '] + decimal_text(
        (m.x + m.w) as nat,
    ) + seq![',', ' '] + decimal_text(m.y as nat) + seq![' ', '-', '>', ' '] + decimal_text(
        (m.y + m.h) as nat,
    ) + seq![')']
}

/// The digit `d` as a string of one character.
fn digit_str(d: u64) -> (s: &'static str)
    requires
        d < 10,
    ensures
        s@ == seq![digit_char(d as int)],
{
    proof {
        reveal_strlit("0");
        reveal_strlit("1");
        reveal_strlit("2");
        reveal_strlit("3");
        reveal_strlit("4");
        reveal_strlit("5");
        reveal_strlit("6");
        reveal_strlit("7");
        reveal_strlit("8");
        reveal_strlit("9");
    }
    let s = if d == 0 {
        "0"
    } else if d == 1 {
        "1"
    } else if d == 2 {
        "2"
    } else if d == 3 {
        "3"
    } else if d == 4 {
        "4"
    } else if d == 5 {
        "5"
    } else if d == 6 {
        "6"
    } else if d == 7 {
        "7"
    } else if d == 8 {
        "8"
    } else {
        "9"
    };
    assert(s@ =~= seq![digit_char(d as int)]);
    s
}

/// Writes `n` in decimal at the end of `out`.
fn append_decimal(out: &mut String, n: u64)
    ensures
        final(out)@ == old(out)@ + decimal_text(n as nat),
    decreases n,
{
    if n >= 10 {
        append_decimal(out, n / 10);
    }
    out.append(digit_str(n % 10));
    assert(out@ =~= old(out)@ + decimal_text(n as nat));
}

/// Writes `v` in decimal, with its sign where negative, at the end of `out`.
fn append_signed(out: &mut String, v: i64)
    ensures
        final(out)@ == old(out)@ + signed_text(v as int),
{
    if v < 0 {
        proof {
            reveal_strlit("-");
        }
        out.append("-");
        append_decimal(out, (-(v as i128)) as u64);
        assert(out@ =~= old(out)@ + signed_text(v as int));
    } else {
        append_decimal(out, v as u64);
    }
}

impl Point {
    /// The point written as `(x, y)`.
    pub fn to_string(&self) -> (text: String)
        ensures
            text@ == point_text(*self),
    {
        proof {
            reveal_strlit("(");
            reveal_strlit(", ");
            reveal_strlit(")");
        }
        let mut text = String::from_str("(");
        append_signed(&mut text, self.x);
        text.append(", ");
        append_signed(&mut text, self.y);
        text.append(")");
        assert(text@ =~= point_text(*self));
        text
    }
}

impl Mask {
    /// The rectangle written as `(left -> right, top -> bottom)`.
    pub fn to_string(&self) -> (text: String)
        ensures
            text@ == mask_text(*self),
    {
        proof {
            reveal_strlit("(");
            reveal_strlit(" -> ");
            reveal_strlit(", ");
            reveal_strlit(")");
        }
        let mut text = String::from_str("(");
        append_decimal(&mut text, self.x as u64);
        text.append(" -> ");
        append_decimal(&mut text, self.x as u64 + self.w as u64);
        text.append(", ");
        append_decimal(&mut text, self.y as u64);
        text.append(" -> ");
        append_decimal(&mut text, self.y as u64 + self.h as u64);
        text.append(")");
        assert(text@ =~= mask_text(*self));
        text
    }
}

} // verus!
