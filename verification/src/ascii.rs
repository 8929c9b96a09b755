//! Integers written out in decimal, as ASCII bytes.

use vstd::prelude::*;
use vstd::arithmetic::div_mod::lemma_fundamental_div_mod;

verus! {

/// The decimal digits of `n`, most significant first, without leading zeros.
pub open spec fn decimal_digits(n: nat) -> Seq<u8>
    decreases n,
{
    if n < 10 {
        seq![(48 + n) as u8]
    } else {
        decimal_digits(n / 10).push((48 + n % 10) as u8)
    }
}

/// The `count` lowest decimal digits of `n`, most significant first, with
/// leading zeros where `n` has fewer.
pub open spec fn low_decimal_digits(n: nat, count: nat) -> Seq<u8>
    decreases count,
{
    if count == 0 {
        Seq::empty()
    } else {
        low_decimal_digits(n / 10, (count - 1) as nat).push((48 + n % 10) as u8)
    }
}

/// The text that the ASCII bytes spell.
pub open spec fn ascii_text(bytes: Seq<u8>) -> Seq<char> {
    Seq::new(bytes.len(), |i: int| bytes[i] as char)
}

/// `x` in decimal: a minus sign if it is negative, then its digits.
pub open spec fn decimal_ascii(x: int) -> Seq<u8> {
    if x < 0 {
        seq![45u8] + decimal_digits((-x) as nat)
    } else {
        decimal_digits(x as nat)
    }
}

/// The number that a run of decimal digits spells.
pub open spec fn digits_value(digits: Seq<u8>) -> int
    decreases digits.len(),
{
    if digits.len() == 0 {
        0
    } else {
        10 * digits_value(digits.drop_last()) + (digits.last() - 48)
    }
}

/// The digits of a number are digits, at least one, and spell that number.
pub proof fn lemma_decimal_digits(n: nat)
    ensures
        decimal_digits(n).len() >= 1,
        forall|i: int| 0 <= i < decimal_digits(n).len() ==> 48 <= #[trigger] decimal_digits(n)[i] <= 57,
        digits_value(decimal_digits(n)) == n,
    decreases n,
{
    let digits = decimal_digits(n);
    if n < 10 {
        assert(digits.drop_last() =~= Seq::<u8>::empty());
        assert(digits_value(digits.drop_last()) == 0);
        assert(digits.last() == (48 + n) as u8);
    } else {
        lemma_decimal_digits(n / 10);
        lemma_fundamental_div_mod(n as int, 10);
        assert(digits.drop_last() =~= decimal_digits(n / 10));
        assert(digits.last() == (48 + n % 10) as u8);
        assert(digits_value(digits) == 10 * digits_value(digits.drop_last()) + (digits.last() - 48));
    }
}

/// Different numbers are written differently.
pub proof fn lemma_decimal_ascii_injective(x: int, y: int)
    requires
        decimal_ascii(x) == decimal_ascii(y),
    ensures
        x == y,
{
    let mx = (if x < 0 { -x } else { x }) as nat;
    let my = (if y < 0 { -y } else { y }) as nat;
    lemma_decimal_digits(mx);
    lemma_decimal_digits(my);
    if x < 0 {
        assert(decimal_ascii(x)[0] == 45u8);
    } else {
        assert(decimal_ascii(x)[0] == decimal_digits(mx)[0]);
    }
    if y < 0 {
        assert(decimal_ascii(y)[0] == 45u8);
    } else {
        assert(decimal_ascii(y)[0] == decimal_digits(my)[0]);
    }
    if x < 0 {
        assert(decimal_ascii(x).drop_first() =~= decimal_digits(mx));
        assert(decimal_ascii(y).drop_first() =~= decimal_digits(my));
    }
}

/// Appends the decimal digits of `n` to `out`.
pub fn push_decimal_digits(out: &mut Vec<u8>, n: u32)
    ensures
        final(out)@ == old(out)@ + decimal_digits(n as nat),
    decreases n,
{
    if n >= 10 {
        push_decimal_digits(out, n / 10);
    }
    let digit: u8 = 48 + (n % 10) as u8;
    out.push(digit);
    proof {
        assert(final(out)@ =~= old(out)@ + decimal_digits(n as nat));
    }
}

/// `x` written in decimal, as ASCII bytes.
pub fn i32_decimal_ascii(x: i32) -> (text: Vec<u8>)
    ensures
        text@ == decimal_ascii(x as int),
{
    let mut text: Vec<u8> = Vec::new();
    if x < 0 {
        text.push(45u8);
        let magnitude: u32 = (-(x as i64)) as u32;
        push_decimal_digits(&mut text, magnitude);
    } else {
        push_decimal_digits(&mut text, x as u32);
    }
    proof {
        assert(text@ =~= decimal_ascii(x as int));
    }
    text
}

} // verus!
