//! The boundary to `num_bigint` and `num_integer`.
//!
//! A `BigInt` is opaque to the verifier. Everything in this module is believed, not
//! proved: each function below makes one call into the outside crate, and its contract
//! says over [`int_of`] what that call computes. The rest of the crate is proved from
//! these contracts.

use num_bigint::BigInt;
use num_integer::Integer;
use vstd::arithmetic::power::pow;
use vstd::prelude::*;

verus! {

#[verifier::external_type_specification]
#[verifier::external_body]
pub struct ExBigInt(BigInt);

/// The mathematical integer that a `BigInt` holds.
pub uninterp spec fn int_of(b: BigInt) -> int;

/// The character of one decimal digit.
pub open spec fn digit_char(d: int) -> char {
    if d == 0 {
        '0'
    } else if d == 1 {
        '1'
    } else if d == 2 {
        '2'
    } else if d == 3 {
        '3'
    } else if d == 4 {
        '4'
    } else if d == 5 {
        '5'
    } else if d == 6 {
        '6'
    } else if d == 7 {
        '7'
    } else if d == 8 {
        '8'
    } else {
        '9'
    }
}

/// The decimal digits of a natural number, most significant first, without leading zeros.
pub open spec fn decimal_digits(n: nat) -> Seq<char>
    decreases n,
{
    if n < 10 {
        seq![digit_char(n as int)]
    } else {
        decimal_digits(n / 10).push(digit_char((n % 10) as int))
    }
}

/// The decimal text of an integer: a minus sign for a negative one, then its digits.
pub open spec fn decimal_text(v: int) -> Seq<char> {
    if v < 0 {
        seq!['-'] + decimal_digits((-v) as nat)
    } else {
        decimal_digits(v as nat)
    }
}

/// `BigInt::from(i64)`: the big integer of the same value.
#[verifier::external_body]
pub(crate) fn big_from_i64(v: i64) -> (r: BigInt)
    ensures
        int_of(r) == v,
{
    BigInt::from(v)
}

/// `BigInt::clone`: a big integer of the same value.
#[verifier::external_body]
pub(crate) fn big_clone(a: &BigInt) -> (r: BigInt)
    ensures
        int_of(r) == int_of(*a),
{
    a.clone()
}

/// `&BigInt + &BigInt`: the exact sum.
#[verifier::external_body]
pub(crate) fn big_add(a: &BigInt, b: &BigInt) -> (r: BigInt)
    ensures
        int_of(r) == int_of(*a) + int_of(*b),
{
    a + b
}

/// `&BigInt - &BigInt`: the exact difference.
#[verifier::external_body]
pub(crate) fn big_sub(a: &BigInt, b: &BigInt) -> (r: BigInt)
    ensures
        int_of(r) == int_of(*a) - int_of(*b),
{
    a - b
}

/// `&BigInt * &BigInt`: the exact product.
#[verifier::external_body]
pub(crate) fn big_mul(a: &BigInt, b: &BigInt) -> (r: BigInt)
    ensures
        int_of(r) == int_of(*a) * int_of(*b),
{
    a * b
}

/// `Integer::mod_floor` on `BigInt`. It panics on a zero modulus and follows the sign of
/// a negative one; for a positive modulus, the only case admitted here, the result is
/// the remainder in `[0, m)`.
#[verifier::external_body]
pub(crate) fn big_mod_floor(a: &BigInt, m: &BigInt) -> (r: BigInt)
    requires
        int_of(*m) > 0,
    ensures
        int_of(r) == int_of(*a) % int_of(*m),
{
    a.mod_floor(m)
}

/// `BigInt::modpow`. It panics on a negative exponent or a zero modulus and follows
/// the sign of a negative modulus; for a positive modulus, the only case admitted here,
/// the result is `base ^ exponent` reduced into `[0, m)`.
#[verifier::external_body]
pub(crate) fn big_modpow(base: &BigInt, exponent: &BigInt, m: &BigInt) -> (r: BigInt)
    requires
        int_of(*exponent) >= 0,
        int_of(*m) > 0,
    ensures
        int_of(r) == pow(int_of(*base), int_of(*exponent) as nat) % int_of(*m),
{
    base.modpow(exponent, m)
}

/// `BigInt < BigInt`: the order of the integers.
#[verifier::external_body]
pub(crate) fn big_lt(a: &BigInt, b: &BigInt) -> (r: bool)
    ensures
        r == (int_of(*a) < int_of(*b)),
{
    a < b
}

/// `BigInt == BigInt`: equality of the integers.
#[verifier::external_body]
pub(crate) fn big_eq(a: &BigInt, b: &BigInt) -> (r: bool)
    ensures
        r == (int_of(*a) == int_of(*b)),
{
    a == b
}

/// `BigInt::to_string`: the integer in decimal.
#[verifier::external_body]
pub(crate) fn big_to_string(a: &BigInt) -> (r: String)
    ensures
        r@ == decimal_text(int_of(*a)),
{
    a.to_string()
}

} // verus!
