//! Verified construction of the small strings the library emits: decimal
//! renderings of integers and fixed-point quantities.

use vstd::prelude::*;
use vstd::string::StringExecFns;

verus! {

/// Relies on `String::push`: appends one character at the end.
pub assume_specification[ String::push ](s: &mut String, ch: char)
    ensures
        final(s)@ == old(s)@.push(ch),
;

/// A string holding the given characters.
pub fn string_from_chars(cs: &Vec<char>) -> (r: String)
    ensures
        r@ == cs@,
{
    let mut s = String::new();
    let mut i: usize = 0;
    while i < cs.len()
        invariant
            i <= cs@.len(),
            s@ == cs@.take(i as int),
        decreases cs@.len() - i,
    {
        s.push(cs[i]);
        proof {
            assert(s@ =~= cs@.take(i + 1 as int));
        }
        i = i + 1;
    }
    proof {
        assert(cs@.take(cs@.len() as int) =~= cs@);
    }
    s
}

/// The character for one decimal digit.
pub open spec fn spec_digit_char(d: int) -> char {
    if d == 0 {
        '0'
    } else if d == 1 {
        '1'
    } else if d == 2 {
        '2'
    } else if d == 3 {
        '3'
    } else if d == 4 {
        '4'
    } else if d == 5 {
        '5'
    } else if d == 6 {
        '6'
    } else if d == 7 {
        '7'
    } else if d == 8 {
        '8'
    } else {
        '9'
    }
}

/// The decimal digits of a number, most significant first.
pub open spec fn spec_decimal(n: int) -> Seq<char>
    decreases n,
{
    if n < 10 {
        seq![spec_digit_char(n)]
    } else {
        spec_decimal(n / 10).push(spec_digit_char(n % 10))
    }
}

fn digit_char(d: u64) -> (c: char)
    requires
        d < 10,
    ensures
        c == spec_digit_char(d as int),
{
    match d {
        0 => '0',
        1 => '1',
        2 => '2',
        3 => '3',
        4 => '4',
        5 => '5',
        6 => '6',
        7 => '7',
        8 => '8',
        _ => '9',
    }
}

/// Renders a number in decimal.
pub fn u64_to_string(n: u64) -> (r: String)
    ensures
        r@ == spec_decimal(n as int),
    decreases n,
{
    if n < 10 {
        let mut s = String::new();
        s.push(digit_char(n));
        proof {
            assert(s@ =~= spec_decimal(n as int));
        }
        s
    } else {
        let mut s = u64_to_string(n / 10);
        s.push(digit_char(n % 10));
        s
    }
}

/// The rendering of a fixed-point thousandths quantity with two decimal
/// places: the whole part, a point, then hundredths.
pub open spec fn spec_milli_2dp(m: int) -> Seq<char> {
    spec_decimal(m / 1000) + seq!['.'] + spec_decimal(m % 1000 / 100) + seq![
        spec_digit_char(m % 100 / 10),
    ]
}

/// Renders a thousandths quantity with two decimal places, as in `1.50`.
pub fn milli_to_string_2dp(m: u64) -> (r: String)
    ensures
        r@ == spec_milli_2dp(m as int),
{
    let mut s = u64_to_string(m / 1000);
    s.push('.');
    let tenths_part: u64 = m % 1000 / 100;
    s.push(digit_char(tenths_part));
    let hundredths_part: u64 = m % 100 / 10;
    s.push(digit_char(hundredths_part));
    proof {
        assert(spec_decimal((m as int) % 1000 / 100) =~= seq![
            spec_digit_char((m as int) % 1000 / 100),
        ]);
        assert(s@ =~= spec_milli_2dp(m as int));
    }
    s
}

} // verus!
