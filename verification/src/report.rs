//! The text of a tally: one line for each aggression value, the value and
//! its wins in decimal with a comma between them.

use vstd::prelude::*;

verus! {

/// The character of one decimal digit.
pub open spec fn digit(d: int) -> u8 {
    (48 + d) as u8
}

/// A natural number in decimal, without leading zeros.
pub open spec fn decimal_digits(n: nat) -> Seq<u8>
    decreases n,
{
    if n < 10 {
        seq![digit(n as int)]
    } else {
        decimal_digits(n / 10).push(digit((n % 10) as int))
    }
}

/// An integer in decimal, with a minus sign in front where it is negative.
pub open spec fn decimal(n: int) -> Seq<u8> {
    if n < 0 {
        seq![45u8] + decimal_digits((-n) as nat)
    } else {
        decimal_digits(n as nat)
    }
}

/// One line: the aggression value, a comma, the wins, and a line feed.
pub open spec fn row(aggression: int, wins: int) -> Seq<u8> {
    decimal(aggression) + seq![44u8] + decimal(wins) + seq![10u8]
}

/// The lines of the aggression values `keys`, in that order, with the wins
/// that `tally` holds for each.
pub open spec fn rows(keys: Seq<i32>, tally: Map<i32, int>) -> Seq<u8>
    decreases keys.len(),
{
    if keys.len() == 0 {
        Seq::empty()
    } else {
        rows(keys.drop_last(), tally) + row(keys.last() as int, tally[keys.last()])
    }
}

/// Appends `n` in decimal.
pub fn push_digits(out: &mut Vec<u8>, n: u64)
    ensures
        final(out)@ == old(out)@ + decimal_digits(n as nat),
    decreases n,
{
    if n >= 10 {
        push_digits(out, n / 10);
    }
    let last: u8 = (n % 10) as u8;
    out.push(48 + last);
    assert(out@ =~= old(out)@ + decimal_digits(n as nat));
}

/// Appends `n` in decimal, with its sign where it is negative.
pub fn push_decimal(out: &mut Vec<u8>, n: i32)
    ensures
        final(out)@ == old(out)@ + decimal(n as int),
{
    let wide: i64 = n as i64;
    if wide < 0 {
        out.push(45);
        push_digits(out, (-wide) as u64);
    } else {
        push_digits(out, wide as u64);
    }
    assert(out@ =~= old(out)@ + decimal(n as int));
}

/// Appends the line of one aggression value and its wins.
pub fn push_row(out: &mut Vec<u8>, aggression: i32, wins: i32)
    ensures
        final(out)@ == old(out)@ + row(aggression as int, wins as int),
{
    push_decimal(out, aggression);
    out.push(44);
    push_decimal(out, wins);
    out.push(10);
    assert(out@ =~= old(out)@ + row(aggression as int, wins as int));
}

} // verus!
