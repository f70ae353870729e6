//! Verified construction of strings: copying a span of source characters and
//! rendering a line number in decimal.

use vstd::prelude::*;

verus! {

/// Relies on `String::push`: appends exactly the given character.
#[verifier::external_body]
pub(crate) fn push_char(s: &mut String, c: char)
    ensures
        final(s)@ == old(s)@ + seq![c],
{
    s.push(c)
}

/// Copies the characters of `src` in positions `[a, b)` into a fresh string.
pub(crate) fn text_of_range(src: &Vec<char>, a: usize, b: usize) -> (s: String)
    requires
        a <= b <= src@.len(),
    ensures
        s@ == src@.subrange(a as int, b as int),
{
    let mut s = String::new();
    let mut k = a;
    while k < b
        invariant
            a <= k <= b <= src@.len(),
            s@ == src@.subrange(a as int, k as int),
        decreases b - k,
    {
        push_char(&mut s, src[k]);
        k = k + 1;
        proof {
            assert(s@ =~= src@.subrange(a as int, k as int));
        }
    }
    s
}

/// The character for one decimal digit.
pub open spec fn decimal_digit(d: int) -> char {
    if d == 0 {
        '0'
    } else if d == 1 {
        '1'
    } else if d == 2 {
        '2'
    } else if d == 3 {
        '3'
    } else if d == 4 {
        '4'
    } else if d == 5 {
        '5'
    } else if d == 6 {
        '6'
    } else if d == 7 {
        '7'
    } else if d == 8 {
        '8'
    } else {
        '9'
    }
}

/// The usual decimal rendering of a non-negative integer, most significant
/// digit first and without leading zeros.
pub open spec fn decimal_str(n: int) -> Seq<char>
    decreases n,
    when n >= 0
{
    if n < 10 {
        seq![decimal_digit(n)]
    } else {
        proof {
            assert(0 <= n / 10 < n) by (nonlinear_arith)
                requires
                    n >= 10,
            ;
        }
        decimal_str(n / 10).push(decimal_digit(n % 10))
    }
}

fn digit_char_of(d: usize) -> (c: char)
    requires
        d < 10,
    ensures
        c == decimal_digit(d as int),
{
    if d == 0 {
        '0'
    } else if d == 1 {
        '1'
    } else if d == 2 {
        '2'
    } else if d == 3 {
        '3'
    } else if d == 4 {
        '4'
    } else if d == 5 {
        '5'
    } else if d == 6 {
        '6'
    } else if d == 7 {
        '7'
    } else if d == 8 {
        '8'
    } else {
        '9'
    }
}

/// Appends the decimal rendering of `n` to `out`.
pub(crate) fn push_decimal(n: usize, out: &mut String)
    ensures
        final(out)@ == old(out)@ + decimal_str(n as int),
    decreases n,
{
    if n < 10 {
        push_char(out, digit_char_of(n));
    } else {
        push_decimal(n / 10, out);
        push_char(out, digit_char_of(n % 10));
        proof {
            assert(out@ =~= old(out)@ + decimal_str(n as int));
        }
    }
}

} // verus!
