//! Decimal numerals: the digits of a number as text, with and without sign or
//! padding, and the proof that different numbers are written differently.

use crate::text::push_all;
use vstd::prelude::*;

verus! {

/// The character that stands for the digit `d`, for `d` below ten.
pub open spec fn digit_char(d: nat) -> char {
    (('0' as u8) + d) as char
}

/// The decimal numeral of `n`: no sign and no leading zero, `"0"` for zero.
pub open spec fn decimal(n: nat) -> Seq<char>
    decreases n,
{
    if n < 10 {
        seq![digit_char(n)]
    } else {
        decimal(n / 10).push(digit_char(n % 10))
    }
}

/// The distance of `i` from zero.
pub open spec fn magnitude(i: int) -> nat {
    if i < 0 {
        (-i) as nat
    } else {
        i as nat
    }
}

/// The decimal numeral of an integer: a minus sign in front of a negative one.
pub open spec fn signed_decimal(i: int) -> Seq<char> {
    if i < 0 {
        seq!['-'] + decimal(magnitude(i))
    } else {
        decimal(magnitude(i))
    }
}

/// `count` zeros.
pub open spec fn zeros(count: nat) -> Seq<char> {
    Seq::new(count, |i: int| '0')
}

/// The decimal numeral of `n`, with zeros in front where it has fewer than
/// `width` digits.
pub open spec fn padded_decimal(n: nat, width: nat) -> Seq<char> {
    if decimal(n).len() < width {
        zeros((width - decimal(n).len()) as nat) + decimal(n)
    } else {
        decimal(n)
    }
}

/// A number below a hundred has two digits at most, one below ten thousand
/// four at most.
pub proof fn lemma_decimal_length(n: nat)
    ensures
        n < 100 ==> decimal(n).len() <= 2,
        n < 10_000 ==> decimal(n).len() <= 4,
{
    reveal_with_fuel(decimal, 4);
}

/// A padded numeral is as long as the width, or as the numeral where that
/// is longer. Two digits are the width of a number below a hundred, four of
/// one below ten thousand.
pub proof fn lemma_padded_decimal_length(n: nat, width: nat)
    ensures
        padded_decimal(n, width).len() == if decimal(n).len() < width {
            width
        } else {
            decimal(n).len()
        },
        n < 100 ==> padded_decimal(n, 2).len() == 2,
        n < 10_000 ==> padded_decimal(n, 4).len() == 4,
{
    lemma_decimal_length(n);
}

/// Every character of a decimal numeral is a digit, and there is at least one.
pub proof fn lemma_decimal_digits(n: nat)
    ensures
        decimal(n).len() >= 1,
        n >= 10 ==> decimal(n).len() >= 2,
        forall|i: int| 0 <= i < decimal(n).len() ==> '0' <= #[trigger] decimal(n)[i] <= '9',
    decreases n,
{
    if n >= 10 {
        lemma_decimal_digits(n / 10);
    }
}

/// Different numbers have different decimal numerals.
pub proof fn lemma_decimal_injective(a: nat, b: nat)
    requires
        decimal(a) == decimal(b),
    ensures
        a == b,
    decreases a,
{
    lemma_decimal_digits(a);
    lemma_decimal_digits(b);
    if a >= 10 && b >= 10 {
        let da = decimal(a / 10).push(digit_char(a % 10));
        let db = decimal(b / 10).push(digit_char(b % 10));
        assert(da == db);
        assert(da.drop_last() == decimal(a / 10));
        assert(db.drop_last() == decimal(b / 10));
        assert(da.last() == digit_char(a % 10));
        assert(db.last() == digit_char(b % 10));
        lemma_decimal_injective(a / 10, b / 10);
    } else if a < 10 && b < 10 {
        assert(decimal(a)[0] == digit_char(a));
        assert(decimal(b)[0] == digit_char(b));
    }
}

/// Different integers have different signed numerals.
pub proof fn lemma_signed_decimal_injective(a: int, b: int)
    requires
        signed_decimal(a) == signed_decimal(b),
    ensures
        a == b,
{
    lemma_decimal_digits(magnitude(a));
    lemma_decimal_digits(magnitude(b));
    if a < 0 && b < 0 {
        let sa = seq!['-'] + decimal((-a) as nat);
        let sb = seq!['-'] + decimal((-b) as nat);
        assert(sa.drop_first() == decimal((-a) as nat));
        assert(sb.drop_first() == decimal((-b) as nat));
        lemma_decimal_injective((-a) as nat, (-b) as nat);
    } else if a >= 0 && b >= 0 {
        lemma_decimal_injective(a as nat, b as nat);
    } else if a < 0 {
        assert(signed_decimal(a)[0] == '-');
        assert(signed_decimal(b)[0] == decimal(b as nat)[0]);
    } else {
        assert(signed_decimal(b)[0] == '-');
        assert(signed_decimal(a)[0] == decimal(a as nat)[0]);
    }
}

/// A signed numeral holds digits and at most a leading minus sign.
pub proof fn lemma_signed_decimal_chars(i: int)
    ensures
        signed_decimal(i).len() >= 1,
        forall|k: int|
            0 <= k < signed_decimal(i).len() ==> {
                let c = #[trigger] signed_decimal(i)[k];
                ('0' <= c <= '9') || c == '-'
            },
{
    lemma_decimal_digits(magnitude(i));
}

fn digit_of(d: u64) -> (c: char)
    requires
        d < 10,
    ensures
        c == digit_char(d as nat),
{
    let b: u8 = d as u8;
    (b + 48) as char
}

/// Appends the decimal numeral of `n` to `out`.
pub fn push_decimal(out: &mut Vec<char>, n: u64)
    ensures
        final(out)@ == old(out)@ + decimal(n as nat),
    decreases n,
{
    if n >= 10 {
        push_decimal(out, n / 10);
    }
    out.push(digit_of(n % 10));
    assert(out@ =~= old(out)@ + decimal(n as nat));
}

/// Appends the signed decimal numeral of `i` to `out`.
pub fn push_signed_decimal(out: &mut Vec<char>, i: i64)
    ensures
        final(out)@ == old(out)@ + signed_decimal(i as int),
{
    if i < 0 {
        out.push('-');
        let magnitude: u64 = (-(i + 1)) as u64 + 1;
        push_decimal(out, magnitude);
        assert(out@ =~= old(out)@ + signed_decimal(i as int));
    } else {
        push_decimal(out, i as u64);
    }
}

/// Appends the decimal numeral of `n` to `out`, with zeros in front where it
/// has fewer than `width` digits.
pub fn push_padded_decimal(out: &mut Vec<char>, n: u64, width: usize)
    ensures
        final(out)@ == old(out)@ + padded_decimal(n as nat, width as nat),
{
    let mut digits: Vec<char> = Vec::new();
    push_decimal(&mut digits, n);
    let mut missing: usize = if digits.len() < width {
        width - digits.len()
    } else {
        0
    };
    let ghost total: nat = missing as nat;
    while missing > 0
        invariant
            missing <= total,
            out@ == old(out)@ + zeros((total - missing) as nat),
        decreases missing,
    {
        out.push('0');
        missing -= 1;
        assert(out@ =~= old(out)@ + zeros((total - missing) as nat));
    }
    push_all(out, &digits);
    assert(out@ =~= old(out)@ + padded_decimal(n as nat, width as nat));
}

} // verus!
