//! Text: comparing and building strings, and decimal notation.
//!
//! Two operations of the standard library are taken on trust, with the
//! contracts stated here: the comparison of two string slices, and the
//! appending of a character to a string.

use vstd::prelude::*;

use crate::semantics::{decimal, digit};

verus! {

/// Whether two pieces of text are the same: `==` on `str`, which compares
/// the two slices byte by byte, and so character by character.
#[verifier::external_body]
pub(crate) fn same_text(a: &str, b: &str) -> (r: bool)
    ensures
        r == (a@ == b@),
{
    a == b
}

/// Appends one character to a string: `String::push`, which leaves the
/// characters that the string held in place and puts `c` after them.
#[verifier::external_body]
pub(crate) fn push_char(text: &mut String, c: char)
    ensures
        final(text)@ == old(text)@.push(c),
{
    text.push(c)
}

/// The character of a decimal digit.
pub fn digit_char(d: usize) -> (r: char)
    requires
        d < 10,
    ensures
        r == digit(d as nat),
{
    if d == 0 {
        '0'
    } else if d == 1 {
        '1'
    } else if d == 2 {
        '2'
    } else if d == 3 {
        '3'
    } else if d == 4 {
        '4'
    } else if d == 5 {
        '5'
    } else if d == 6 {
        '6'
    } else if d == 7 {
        '7'
    } else if d == 8 {
        '8'
    } else {
        '9'
    }
}

/// The decimal notation of `n`.
pub fn decimal_text(n: usize) -> (r: String)
    ensures
        r@ == decimal(n as nat),
    decreases n,
{
    if n < 10 {
        let mut text = String::new();
        push_char(&mut text, digit_char(n));
        proof {
            assert(text@ =~= seq![digit(n as nat)]);
        }
        text
    } else {
        let mut text = decimal_text(n / 10);
        push_char(&mut text, digit_char(n % 10));
        text
    }
}

} // verus!
