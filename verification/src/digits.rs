//! Numbers written as text, in decimal and in base 36.

use vstd::arithmetic::div_mod::lemma_div_denominator;
use vstd::arithmetic::power::{lemma_pow_positive, pow};
use vstd::prelude::*;

verus! {

/// The character for the digit `d` in any base up to 36.
pub open spec fn digit_char(d: int) -> char {
    if d < 10 {
        ('0' as int + d) as char
    } else {
        ('a' as int + (d - 10)) as char
    }
}

/// `digit_char`, computed.
pub fn digit(d: u8) -> (c: char)
    requires
        d < 36,
    ensures
        c == digit_char(d as int),
{
    if d < 10 {
        (48u8 + d) as char
    } else {
        (87u8 + d) as char
    }
}

/// `n` in decimal, without leading zeros.
pub open spec fn decimal(n: nat) -> Seq<char>
    decreases n,
{
    if n < 10 {
        seq![digit_char(n as int)]
    } else {
        decimal(n / 10).push(digit_char((n % 10) as int))
    }
}

/// `n` in decimal, without leading zeros.
pub fn decimal_text(n: u128) -> (s: String)
    ensures
        s@ == decimal(n as nat),
    decreases n,
{
    if n < 10 {
        let mut s = String::new();
        s.push(digit(n as u8));
        assert(s@ =~= seq![digit_char(n as int)]);
        s
    } else {
        let mut s = decimal_text(n / 10);
        s.push(digit((n % 10) as u8));
        s
    }
}

/// A decimal numeral holds digits only.
pub proof fn lemma_decimal_digits(n: nat)
    ensures
        decimal(n).len() >= 1,
        forall|i: int| 0 <= i < decimal(n).len() ==> '0' <= #[trigger] decimal(n)[i] <= '9',
    decreases n,
{
    if n >= 10 {
        lemma_decimal_digits(n / 10);
    }
}

/// The number that a decimal numeral denotes.
pub open spec fn decimal_value(s: Seq<char>) -> int
    decreases s.len(),
{
    if s.len() == 0 {
        0
    } else {
        10 * decimal_value(s.drop_last()) + (s.last() as int - '0' as int)
    }
}

/// A decimal numeral denotes the number it was made from.
pub proof fn lemma_decimal_value(n: nat)
    ensures
        decimal_value(decimal(n)) == n,
    decreases n,
{
    reveal_with_fuel(decimal_value, 2);
    if n >= 10 {
        lemma_decimal_value(n / 10);
        assert(decimal(n).drop_last() =~= decimal(n / 10));
    } else {
        assert(decimal(n).drop_last() =~= Seq::<char>::empty());
    }
}

/// Different numbers have different decimal numerals.
pub proof fn lemma_decimal_injective(a: nat, b: nat)
    requires
        decimal(a) == decimal(b),
    ensures
        a == b,
{
    lemma_decimal_value(a);
    lemma_decimal_value(b);
}

/// The number whose big-endian base-256 digits are `bytes`.
pub open spec fn be_value(bytes: Seq<u8>) -> nat
    decreases bytes.len(),
{
    if bytes.len() == 0 {
        0
    } else {
        256 * be_value(bytes.drop_last()) + bytes.last() as nat
    }
}

/// The `length` lowest base-36 digits of the big-endian number `bytes`, highest first,
/// with zeros in front where the number is shorter.
pub open spec fn base36(bytes: Seq<u8>, length: nat) -> Seq<char> {
    Seq::new(
        length,
        |i: int| digit_char(be_value(bytes) as int / pow(36, (length - 1 - i) as nat) % 36),
    )
}

/// Divides a big-endian number by 36: quotient and remainder.
fn div36(num: &Vec<u8>) -> (r: (Vec<u8>, u8))
    ensures
        be_value(num@) == 36 * be_value(r.0@) + r.1,
        r.1 < 36,
{
    let mut next: Vec<u8> = Vec::new();
    let mut remainder: u32 = 0;
    let mut i: usize = 0;
    while i < num.len()
        invariant
            i <= num@.len(),
            remainder < 36,
            be_value(num@.take(i as int)) == 36 * be_value(next@) + remainder,
        decreases num@.len() - i,
    {
        let acc: u32 = remainder * 256 + num[i] as u32;
        let quotient: u32 = acc / 36;
        let ghost old_next = next@;
        if next.len() > 0 || quotient > 0 {
            next.push(quotient as u8);
            assert(next@.drop_last() =~= old_next);
        }
        assert(be_value(next@) == 256 * be_value(old_next) + quotient);
        remainder = acc % 36;
        i += 1;
        assert(num@.take(i as int).drop_last() =~= num@.take(i - 1));
    }
    assert(num@.take(num@.len() as int) =~= num@);
    (next, remainder as u8)
}

/// The `length` lowest base-36 digits of the big-endian number `bytes`, highest first.
pub fn encode_base36(bytes: &[u8], length: usize) -> (s: String)
    ensures
        s@ == base36(bytes@, length as nat),
{
    let ghost n: int = be_value(bytes@) as int;
    let mut num: Vec<u8> = Vec::new();
    let mut i: usize = 0;
    while i < bytes.len()
        invariant
            i <= bytes@.len(),
            num@ == bytes@.take(i as int),
        decreases bytes@.len() - i,
    {
        num.push(bytes[i]);
        i += 1;
        assert(bytes@.take(i as int) =~= bytes@.take(i - 1).push(bytes@[i - 1]));
    }
    assert(bytes@.take(bytes@.len() as int) =~= bytes@);
    assert(pow(36, 0) == 1) by {
        reveal(pow);
    }
    let mut digits: Vec<char> = Vec::new();
    while digits.len() < length
        invariant
            digits@.len() <= length,
            n >= 0,
            be_value(num@) == n / pow(36, digits@.len()),
            forall|j: int|
                0 <= j < digits@.len() ==> digits@[j] == digit_char(n / pow(36, j as nat) % 36),
        decreases length - digits@.len(),
    {
        let ghost k = digits@.len();
        let (next, remainder) = div36(&num);
        digits.push(digit(remainder));
        proof {
            assert(pow(36, k + 1) == 36 * pow(36, k)) by {
                reveal(pow);
            }
            lemma_pow_positive(36, k);
            lemma_div_denominator(n, pow(36, k), 36);
            assert(pow(36, k) * 36 == 36 * pow(36, k)) by (nonlinear_arith);
        }
        num = next;
    }
    let mut s = String::new();
    let mut left: usize = length;
    while left > 0
        invariant
            left <= length == digits@.len(),
            s@.len() == length - left,
            forall|j: int| 0 <= j < s@.len() ==> s@[j] == digits@[length - 1 - j],
        decreases left,
    {
        left -= 1;
        s.push(digits[left]);
    }
    assert(s@ =~= base36(bytes@, length as nat));
    s
}

/// Ten digits are followed by the small letters, in order.
pub proof fn law_digit_chars(d: int)
    ensures
        0 <= d < 10 ==> digit_char(d) as int == 48 + d,
        10 <= d < 36 ==> digit_char(d) as int == 97 + (d - 10),
{
}

/// A decimal numeral starts with no zero, but for that of zero itself.
pub proof fn law_decimal_start(n: nat)
    ensures
        n == 0 ==> decimal(n) == seq!['0'],
        n > 0 ==> decimal(n)[0] != '0',
        decimal_value(decimal(n)) == n,
    decreases n,
{
    lemma_decimal_value(n);
    lemma_decimal_digits(n);
    if n >= 10 {
        law_decimal_start(n / 10);
        lemma_decimal_digits(n / 10);
        assert(decimal(n)[0] == decimal(n / 10)[0]);
    }
}

/// The last digit in base 36 is what is left of the number by 36, and the digits before it are
/// those of the number of 36s.
pub proof fn law_base36(bytes: Seq<u8>, quotient: Seq<u8>, length: nat)
    requires
        be_value(quotient) == be_value(bytes) / 36,
    ensures
        base36(bytes, length).len() == length,
        base36(bytes, length + 1).last() == digit_char((be_value(bytes) % 36) as int),
        base36(bytes, length + 1).drop_last() == base36(quotient, length),
{
    let v = be_value(bytes) as int;
    let all = base36(bytes, length + 1);
    assert(pow(36, 0) == 1) by {
        reveal(pow);
    }
    assert forall|i: int| 0 <= i < length implies #[trigger] all.drop_last()[i] == base36(
        quotient,
        length,
    )[i] by {
        let k = (length - 1 - i) as nat;
        assert(pow(36, k + 1) == 36 * pow(36, k)) by {
            reveal(pow);
        }
        lemma_pow_positive(36, k);
        lemma_div_denominator(v, 36, pow(36, k));
    }
    assert(all.drop_last() =~= base36(quotient, length));
}

/// A number in bytes grows by one more byte behind the others to 256 times its value and that
/// byte, and does not change by a zero before the others.
pub proof fn law_be_value(bytes: Seq<u8>, b: u8)
    ensures
        be_value(Seq::empty()) == 0,
        be_value(bytes.push(b)) == 256 * be_value(bytes) + b,
        be_value(seq![0u8] + bytes) == be_value(bytes),
    decreases bytes.len(),
{
    assert(bytes.push(b).drop_last() =~= bytes);
    let led = seq![0u8] + bytes;
    if bytes.len() == 0 {
        assert(led.drop_last() =~= Seq::<u8>::empty());
        assert(led.last() == 0);
        assert(be_value(led.drop_last()) == 0);
    } else {
        law_be_value(bytes.drop_last(), b);
        assert(led.drop_last() =~= seq![0u8] + bytes.drop_last());
    }
}

} // verus!
