//! Positioned error messages, shared by the scanner and the parser.

use vstd::prelude::*;

use crate::text::{push_char, push_text};

verus! {

/// The decimal digit character for `d < 10`.
pub open spec fn digit_char(d: nat) -> char {
    if d == 0 {
        '0'
    } else if d == 1 {
        '1'
    } else if d == 2 {
        '2'
    } else if d == 3 {
        '3'
    } else if d == 4 {
        '4'
    } else if d == 5 {
        '5'
    } else if d == 6 {
        '6'
    } else if d == 7 {
        '7'
    } else if d == 8 {
        '8'
    } else {
        '9'
    }
}

/// The decimal numeral of `n`, most significant digit first, without leading zeros.
pub open spec fn decimal(n: nat) -> Seq<char>
    decreases n,
{
    if n < 10 {
        seq![digit_char(n)]
    } else {
        decimal(n / 10).push(digit_char(n % 10))
    }
}

/// `[line: L] Error: M`
pub open spec fn line_message(line: nat, message: Seq<char>) -> Seq<char> {
    "[line: "@ + decimal(line) + "] Error: "@ + message
}

/// `[line: L column: C] Error: M`
pub open spec fn position_message(line: nat, col: nat, message: Seq<char>) -> Seq<char> {
    "[line: "@ + decimal(line) + " column: "@ + decimal(col) + "] Error: "@ + message
}

fn digit(d: usize) -> (c: char)
    requires
        d < 10,
    ensures
        c == digit_char(d as nat),
{
    if d == 0 {
        '0'
    } else if d == 1 {
        '1'
    } else if d == 2 {
        '2'
    } else if d == 3 {
        '3'
    } else if d == 4 {
        '4'
    } else if d == 5 {
        '5'
    } else if d == 6 {
        '6'
    } else if d == 7 {
        '7'
    } else if d == 8 {
        '8'
    } else {
        '9'
    }
}

/// Appends the decimal numeral of `n` to `s`.
pub fn push_decimal(s: &mut String, n: usize)
    ensures
        final(s)@ == old(s)@ + decimal(n as nat),
    decreases n,
{
    if n >= 10 {
        push_decimal(s, n / 10);
    }
    push_char(s, digit(n % 10));
    proof {
        if n >= 10 {
            assert(old(s)@ + decimal(n as nat) =~= old(s)@ + decimal((n / 10) as nat) + seq![
                digit_char((n % 10) as nat),
            ]);
        } else {
            assert(decimal(n as nat) == seq![digit_char(n as nat)]);
        }
    }
}

/// The message `[line: L] Error: M`.
pub fn err_msg(line: usize, message: &str) -> (r: String)
    ensures
        r@ == line_message(line as nat, message@),
{
    let mut r = String::new();
    push_text(&mut r, "[line: ");
    push_decimal(&mut r, line);
    push_text(&mut r, "] Error: ");
    push_text(&mut r, message);
    r
}

/// The message `[line: L column: C] Error: M`.
pub fn err_msg_at(line: usize, col: usize, message: &str) -> (r: String)
    ensures
        r@ == position_message(line as nat, col as nat, message@),
{
    let mut r = String::new();
    push_text(&mut r, "[line: ");
    push_decimal(&mut r, line);
    push_text(&mut r, " column: ");
    push_decimal(&mut r, col);
    push_text(&mut r, "] Error: ");
    push_text(&mut r, message);
    r
}

} // verus!
