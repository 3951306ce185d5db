//! Universally unique identifiers.

use vstd::arithmetic::div_mod::lemma_div_denominator;
use vstd::arithmetic::power::{lemma_pow_positive, pow};
use vstd::prelude::*;

use crate::digits::digit_char;
use crate::text::{chars_of, text_of};

verus! {

/// A universally unique identifier: 128 bits.
#[derive(Debug, Clone, Copy, PartialEq, Eq, Hash, Structural)]
pub struct Uuid {
    pub bits: u128,
}

/// The lowercase hexadecimal text of `n` with `len` digits.
pub open spec fn hex_text(n: nat, len: nat) -> Seq<char>
    decreases len,
{
    if len == 0 {
        Seq::empty()
    } else {
        hex_text(n / 16, (len - 1) as nat).push(digit_char((n % 16) as int))
    }
}

/// Whether the bits are those of a random identifier: version 4, variant 1.
pub open spec fn is_random(bits: u128) -> bool {
    &&& (bits as int / 0x1000_0000_0000_0000_0000) % 16 == 4
    &&& (bits as int / 0x4000_0000_0000_0000) % 4 == 2
}

/// The bits of an identifier from `uuid::Uuid::new_v4`. All but the version and variant are
/// random.
#[verifier::external_body]
fn random_bits() -> (bits: u128)
    ensures
        is_random(bits),
{
    ::uuid::Uuid::new_v4().as_u128()
}

/// The text that `uuid::Uuid::simple` displays as: all 32 hexadecimal digits.
#[verifier::external_body]
fn simple_hex(bits: u128) -> (s: String)
    ensures
        s@ == hex_text(bits as nat, 32),
{
    ::uuid::Uuid::from_u128(bits).simple().to_string()
}

impl Uuid {
    /// A new random identifier.
    pub fn new_v4() -> (id: Uuid)
        ensures
            is_random(id.bits),
    {
        Uuid { bits: random_bits() }
    }

    /// The hexadecimal digits without separators.
    pub fn simple_text(&self) -> (s: String)
        ensures
            s@ == hex_text(self.bits as nat, 32),
    {
        simple_hex(self.bits)
    }

    /// The first eight hexadecimal digits.
    pub fn short_text(&self) -> (s: String)
        ensures
            s@ == hex_text(self.bits as nat, 32).take(8),
            s@.len() == 8,
    {
        proof {
            lemma_hex_len(self.bits as nat, 32);
        }
        let s = self.simple_text();
        let v = chars_of(s.as_str());
        let r = text_of(&v, 0, 8);
        assert(r@ =~= hex_text(self.bits as nat, 32).take(8));
        r
    }
}

/// The hexadecimal text has as many digits as asked for.
pub proof fn lemma_hex_len(n: nat, len: nat)
    ensures
        hex_text(n, len).len() == len,
    decreases len,
{
    if len > 0 {
        lemma_hex_len(n / 16, (len - 1) as nat);
    }
}

/// The first of the hexadecimal digits counts the highest power of 16, and the others are the
/// digits of what is left.
pub proof fn law_hex_text(n: nat, len: nat)
    ensures
        hex_text(n, len + 1).len() == len + 1,
        hex_text(n, len + 1)[0] == digit_char(n as int / pow(16, len) % 16),
        hex_text(n, len + 1).skip(1) == hex_text(n, len),
    decreases len,
{
    lemma_hex_len(n, len + 1);
    lemma_hex_len(n, len);
    if len == 0 {
        assert(pow(16, 0) == 1) by {
            reveal(pow);
        }
        assert(hex_text(n, 1).skip(1) =~= hex_text(n, 0));
    } else {
        let m = (len - 1) as nat;
        law_hex_text(n / 16, m);
        lemma_hex_len(n / 16, len);
        assert(pow(16, len) == 16 * pow(16, m)) by {
            reveal(pow);
        }
        lemma_pow_positive(16, m);
        lemma_div_denominator(n as int, 16, pow(16, m));
        assert(hex_text(n, len + 1).skip(1) =~= hex_text(n / 16, len).skip(1).push(
            digit_char((n % 16) as int),
        ));
    }
}

/// All digits are those of base 16, in small letters.
pub proof fn law_hex_digits(n: nat, len: nat, i: int)
    requires
        0 <= i < len,
    ensures
        hex_text(n, len).len() == len,
        '0' <= hex_text(n, len)[i] <= '9' || 'a' <= hex_text(n, len)[i] <= 'f',
    decreases len,
{
    lemma_hex_len(n, len);
    lemma_hex_len(n / 16, (len - 1) as nat);
    if i < len - 1 {
        law_hex_digits(n / 16, (len - 1) as nat, i);
    }
}

} // verus!
