//! Identities: 128-bit ids, their text form, and how text is read as an id.

use vstd::arithmetic::div_mod::{
    lemma_basic_div, lemma_div_denominator, lemma_fundamental_div_mod, lemma_mod_bound,
};
use vstd::arithmetic::power::{lemma_pow0, lemma_pow_adds, lemma_pow_multiplies, lemma_pow_positive, pow};
use vstd::arithmetic::power2::{lemma2_to64, lemma_pow2};
use vstd::prelude::*;

verus! {

/// The lower-case hexadecimal digit that stands for `value`, for a value
/// below 16.
pub open spec fn hex_digit(value: int) -> char {
    "0123456789abcdef"@[value]
}

/// The hexadecimal digit of `id` at place `digit`, counted from the most
/// significant one, which is digit 0; the least significant is digit 31.
pub open spec fn nibble(id: u128, digit: int) -> int {
    (id as int / pow(16, (31 - digit) as nat)) % 16
}

/// How many of the four hyphens of the text form stand before position `at`.
pub open spec fn hyphens_before(at: int) -> int {
    if at > 23 {
        4
    } else if at > 18 {
        3
    } else if at > 13 {
        2
    } else if at > 8 {
        1
    } else {
        0
    }
}

/// The text form of an identity: its 32 hexadecimal digits in lower case,
/// most significant first, in groups of 8, 4, 4, 4 and 12 with a hyphen
/// between two groups.
pub open spec fn hyphenated(id: u128) -> Seq<char> {
    Seq::new(
        36,
        |at: int|
            if at == 8 || at == 13 || at == 18 || at == 23 {
                '-'
            } else {
                hex_digit(nibble(id, at - hyphens_before(at)))
            },
    )
}

/// The number that the first `count` hexadecimal digits of `id` make.
pub open spec fn leading(id: u128, count: nat) -> int {
    id as int / pow(16, (32 - count) as nat)
}

/// An identity has no more than 32 hexadecimal digits.
proof fn lemma_thirty_two_digits(id: u128)
    ensures
        leading(id, 0) == 0,
        leading(id, 32) == id,
{
    lemma2_to64();
    lemma_pow2(4);
    lemma_pow2(64);
    lemma_pow_multiplies(2, 4, 32);
    lemma_pow_adds(2, 64, 64);
    assert(pow(16, 32) == 0x1_0000_0000_0000_0000int * 0x1_0000_0000_0000_0000int);
    lemma_basic_div(id as int, pow(16, 32));
    lemma_pow0(16);
}

/// One more digit makes sixteen times the number so far, and the digit.
proof fn lemma_leading_step(id: u128, count: nat)
    requires
        count < 32,
    ensures
        leading(id, count + 1) == 16 * leading(id, count) + nibble(id, count as int),
{
    let unit = pow(16, (31 - count) as nat);
    lemma_pow_positive(16, (31 - count) as nat);
    assert(pow(16, (32 - count) as nat) == 16 * unit) by {
        reveal(pow);
    }
    assert(unit * 16 == 16 * unit);
    lemma_div_denominator(id as int, unit, 16);
    lemma_fundamental_div_mod(id as int / unit, 16);
}

/// Identities with the same digits up to `count` make the same number
/// of them.
proof fn lemma_same_digits_same_leading(a: u128, b: u128, count: nat)
    requires
        count <= 32,
        forall|digit: int| 0 <= digit < 32 ==> nibble(a, digit) == nibble(b, digit),
    ensures
        leading(a, count) == leading(b, count),
    decreases count,
{
    if count == 0 {
        lemma_thirty_two_digits(a);
        lemma_thirty_two_digits(b);
    } else {
        let before = (count - 1) as nat;
        lemma_same_digits_same_leading(a, b, before);
        lemma_leading_step(a, before);
        lemma_leading_step(b, before);
    }
}

/// Two values below 16 with the same hexadecimal digit are the same.
proof fn lemma_hex_digit_injective(one: int, other: int)
    requires
        0 <= one < 16,
        0 <= other < 16,
        hex_digit(one) == hex_digit(other),
    ensures
        one == other,
{
    reveal_strlit("0123456789abcdef");
}

/// No two identities have the same text form.
pub proof fn lemma_hyphenated_injective(a: u128, b: u128)
    requires
        hyphenated(a) == hyphenated(b),
    ensures
        a == b,
{
    assert forall|digit: int| 0 <= digit < 32 implies nibble(a, digit) == nibble(b, digit) by {
        let at = if digit < 8 {
            digit
        } else if digit < 12 {
            digit + 1
        } else if digit < 16 {
            digit + 2
        } else if digit < 20 {
            digit + 3
        } else {
            digit + 4
        };
        assert(hyphenated(a)[at] == hex_digit(nibble(a, digit)));
        assert(hyphenated(b)[at] == hex_digit(nibble(b, digit)));
        lemma_mod_bound(a as int / pow(16, (31 - digit) as nat), 16);
        lemma_mod_bound(b as int / pow(16, (31 - digit) as nat), 16);
        lemma_hex_digit_injective(nibble(a, digit), nibble(b, digit));
    }
    lemma_same_digits_same_leading(a, b, 32);
    lemma_thirty_two_digits(a);
    lemma_thirty_two_digits(b);
}

/// The identity that a text is read as, or `None` for a text that is not
/// read as one.
pub uninterp spec fn parsed_uuid(text: Seq<char>) -> Option<u128>;

/// `Uuid::parse_str` of uuid, with the id taken by `Uuid::as_u128`: whether
/// and as which identity `text` is read depends on `text` alone.
#[verifier::external_body]
pub(crate) fn parse_uuid(text: &str) -> (id: Option<u128>)
    ensures
        id == parsed_uuid(text@),
{
    match uuid::Uuid::parse_str(text) {
        Ok(id) => Some(id.as_u128()),
        Err(_) => None,
    }
}

/// `to_string` on the `Uuid` that `Uuid::from_u128` makes of `id`: the
/// hyphenated lower-case form.
#[verifier::external_body]
pub(crate) fn uuid_text(id: u128) -> (text: String)
    ensures
        text@ == hyphenated(id),
{
    uuid::Uuid::from_u128(id).to_string()
}

} // verus!
