//! Rendering integers as decimal strings, for identifier tags and dates.

use vstd::prelude::*;

verus! {

/// The decimal digit character for a value below ten.
pub open spec fn digit_char(d: int) -> char {
    if d == 0 {
        '0'
    } else if d == 1 {
        '1'
    } else if d == 2 {
        '2'
    } else if d == 3 {
        '3'
    } else if d == 4 {
        '4'
    } else if d == 5 {
        '5'
    } else if d == 6 {
        '6'
    } else if d == 7 {
        '7'
    } else if d == 8 {
        '8'
    } else {
        '9'
    }
}

/// The decimal digits of a non-negative value, most significant first.
pub open spec fn dec_str(n: int) -> Seq<char>
    decreases n,
{
    if n < 10 {
        seq![digit_char(n)]
    } else {
        dec_str(n / 10) + seq![digit_char(n % 10)]
    }
}

/// The decimal rendering of a possibly negative value.
pub open spec fn dec_str_signed(n: int) -> Seq<char> {
    if n < 0 {
        seq!['-'] + dec_str(-n)
    } else {
        dec_str(n)
    }
}

/// A one-character string holding the digit for `d`.
fn digit_string(d: u64) -> (r: String)
    requires
        d < 10,
    ensures
        r@ =~= seq![digit_char(d as int)],
{
    let mut s = String::new();
    if d == 0 {
        s.push('0');
    } else if d == 1 {
        s.push('1');
    } else if d == 2 {
        s.push('2');
    } else if d == 3 {
        s.push('3');
    } else if d == 4 {
        s.push('4');
    } else if d == 5 {
        s.push('5');
    } else if d == 6 {
        s.push('6');
    } else if d == 7 {
        s.push('7');
    } else if d == 8 {
        s.push('8');
    } else {
        s.push('9');
    }
    s
}

/// Render an unsigned value in decimal.
pub fn u64_string(n: u64) -> (r: String)
    ensures
        r@ == dec_str(n as int),
    decreases n,
{
    if n < 10 {
        digit_string(n)
    } else {
        let mut s = u64_string(n / 10);
        let d = digit_string(n % 10);
        s.append(d.as_str());
        proof {
            assert(s@ =~= dec_str(n as int / 10) + seq![digit_char(n as int % 10)]);
        }
        s
    }
}

/// Render a signed value in decimal, with a leading minus sign when negative.
pub fn i64_string(n: i64) -> (r: String)
    ensures
        r@ == dec_str_signed(n as int),
{
    if n >= 0 {
        u64_string(n as u64)
    } else {
        let wide: i128 = n as i128;
        let mag: u64 = (-wide) as u64;
        let mut s = String::new();
        s.push('-');
        let d = u64_string(mag);
        s.append(d.as_str());
        proof {
            assert(s@ =~= seq!['-'] + dec_str(-(n as int)));
        }
        s
    }
}

/// `s` padded at the left with one zero when it is a single character.
pub open spec fn pad2(s: Seq<char>) -> Seq<char> {
    if s.len() < 2 {
        seq!['0'] + s
    } else {
        s
    }
}

/// Render a value below one hundred as exactly two decimal digits.
pub fn two_digits(n: u64) -> (r: String)
    requires
        n < 100,
    ensures
        r@ == pad2(dec_str(n as int)),
{
    if n < 10 {
        let mut s = String::new();
        s.push('0');
        let d = digit_string(n);
        s.append(d.as_str());
        proof {
            assert(s@ =~= seq!['0'] + dec_str(n as int));
        }
        s
    } else {
        let s = u64_string(n);
        proof {
            assert(dec_str(n as int).len() >= 2) by {
                assert(dec_str(n as int) == dec_str(n as int / 10) + seq![
                    digit_char(n as int % 10),
                ]);
            }
        }
        s
    }
}

} // verus!
