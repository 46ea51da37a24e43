//! What holds of the arithmetic of field elements, stated over their values.

use crate::field_element::{effective_exponent, FieldValue};
use crate::modular::{is_prime, lemma_fermat_little, lemma_mul_congruent, lemma_power_inverse};
use vstd::arithmetic::div_mod::{
    lemma_add_mod_noop, lemma_fundamental_div_mod, lemma_mod_bound, lemma_mod_equivalence,
    lemma_mod_twice, lemma_mul_mod_noop_general, lemma_small_mod,
};
use vstd::arithmetic::power::{lemma1_pow, lemma_pow_adds, lemma_pow_mod_noop, lemma_pow_multiplies, pow};
use vstd::prelude::*;

verus! {

/// Sum, difference and product of two elements of one field are canonical elements of
/// that field.
pub proof fn lemma_results_canonical(a: FieldValue, b: FieldValue)
    requires
        a.wf(),
        b.wf(),
        a.prime == b.prime,
    ensures
        a.add(b).wf() && a.add(b).prime == a.prime,
        a.sub(b).wf() && a.sub(b).prime == a.prime,
        a.mul(b).wf() && a.mul(b).prime == a.prime,
{
    lemma_mod_bound(a.num + b.num, a.prime);
    lemma_mod_bound(a.num - b.num, a.prime);
    lemma_mod_bound(a.num * b.num, a.prime);
}

/// Addition is commutative.
pub proof fn lemma_add_commutative(a: FieldValue, b: FieldValue)
    requires
        a.wf(),
        b.wf(),
        a.prime == b.prime,
    ensures
        a.add(b) == b.add(a),
{
}

/// Addition is associative.
pub proof fn lemma_add_associative(a: FieldValue, b: FieldValue, c: FieldValue)
    requires
        a.wf(),
        b.wf(),
        c.wf(),
        a.prime == b.prime,
        b.prime == c.prime,
    ensures
        a.add(b).add(c) == a.add(b.add(c)),
{
    let p = a.prime;
    lemma_small_mod(a.num as nat, p as nat);
    lemma_small_mod(c.num as nat, p as nat);
    lemma_add_mod_noop(a.num + b.num, c.num, p);
    lemma_add_mod_noop(a.num, b.num + c.num, p);
}

/// Multiplication distributes over addition.
pub proof fn lemma_mul_distributes(a: FieldValue, b: FieldValue, c: FieldValue)
    requires
        a.wf(),
        b.wf(),
        c.wf(),
        a.prime == b.prime,
        b.prime == c.prime,
    ensures
        a.mul(b.add(c)) == a.mul(b).add(a.mul(c)),
{
    let p = a.prime;
    lemma_mul_mod_noop_general(a.num, b.num + c.num, p);
    lemma_add_mod_noop(a.num * b.num, a.num * c.num, p);
    assert(a.num * (b.num + c.num) == a.num * b.num + a.num * c.num) by (nonlinear_arith);
}

/// The exponent that stands for a negative one differs from it by a multiple of
/// `prime - 1`, and is the first such number that is not negative.
pub proof fn lemma_effective_exponent(e: int, p: int)
    requires
        e < 0,
        p >= 2,
    ensures
        (effective_exponent(e, p) - e) % (p - 1) == 0,
        0 <= effective_exponent(e, p) < p - 1,
{
    let n = p - 1;
    lemma_mod_bound(e, n);
    lemma_mod_twice(e, n);
    lemma_mod_equivalence(e % n, e, n);
}

/// The exponent that stands for `-1` is `prime - 2`.
pub proof fn lemma_exponent_of_inverse(p: int)
    requires
        p >= 2,
    ensures
        effective_exponent(-1, p) == p - 2,
{
    if p == 2 {
        assert((-1int) % 1 == 0);
    } else {
        lemma_fundamental_div_mod(-1, p - 1);
        lemma_mod_bound(-1, p - 1);
        let q = (-1int) / (p - 1);
        let r = (-1int) % (p - 1);
        assert(q == -1) by (nonlinear_arith)
            requires
                -1 == (p - 1) * q + r,
                0 <= r < p - 1,
                p > 2,
        ;
    }
}

/// In a field of prime order, the power `-1` of an element that is not zero is its
/// inverse: their product is 1.
pub proof fn lemma_inverse(a: FieldValue)
    requires
        a.wf(),
        is_prime(a.prime),
        a.num != 0,
    ensures
        a.mul(a.pow(-1)) == (FieldValue { num: 1, prime: a.prime }),
{
    let p = a.prime;
    lemma_exponent_of_inverse(p);
    lemma_small_mod(a.num as nat, p as nat);
    lemma_power_inverse(a.num, p);
}

/// In a field of prime order, the powers of an element that is not zero repeat with
/// period `prime - 1`: an exponent may be replaced by its remainder.
pub proof fn lemma_exponent_period(a: FieldValue, e: int)
    requires
        a.wf(),
        is_prime(a.prime),
        a.num != 0,
    ensures
        a.pow(e) == a.pow(e % (a.prime - 1)),
{
    let p = a.prime;
    let n = p - 1;
    lemma_mod_bound(e, n);
    if e >= 0 {
        let q = e / n;
        let r = e % n;
        lemma_fundamental_div_mod(e, n);
        assert(q >= 0) by (nonlinear_arith)
            requires
                e == n * q + r,
                0 <= r < n,
                e >= 0,
        ;
        lemma_small_mod(a.num as nat, p as nat);
        lemma_fermat_little(a.num, p);
        lemma_small_mod(1, p as nat);
        // a^e = (a^n)^q · a^r, and a^n is congruent to 1
        lemma_pow_multiplies(a.num, n as nat, q as nat);
        lemma_pow_adds(a.num, (n * q) as nat, r as nat);
        lemma_pow_mod_noop(pow(a.num, n as nat), q as nat, p);
        lemma1_pow(q as nat);
        lemma_mul_congruent(pow(a.num, (n * q) as nat), pow(a.num, r as nat), 1, pow(a.num, r as nat), p);
    }
}

/// Division by an integer is multiplication by the power `-1` of its element.
pub proof fn lemma_div_is_mul_by_inverse(a: FieldValue, divisor: int)
    requires
        a.wf(),
        a.prime >= 2,
        0 < divisor < a.prime,
    ensures
        a.div_by(divisor) == a.mul((FieldValue { num: divisor, prime: a.prime }).pow(-1)),
{
    lemma_exponent_of_inverse(a.prime);
}

/// In a field of prime order, a quotient times the divisor gives the dividend back.
pub proof fn lemma_div_then_mul(a: FieldValue, divisor: FieldValue)
    requires
        a.wf(),
        divisor.wf(),
        a.prime == divisor.prime,
        is_prime(a.prime),
        divisor.num != 0,
    ensures
        a.div(divisor).mul(divisor) == a,
{
    let p = a.prime;
    let d = divisor.num;
    let inv = pow(d, (p - 2) as nat) % p;
    lemma_small_mod(d as nat, p as nat);
    lemma_small_mod(a.num as nat, p as nat);
    lemma_small_mod(1, p as nat);
    lemma_power_inverse(d, p);
    lemma_mul_mod_noop_general(a.num * inv, d, p);
    assert((a.num * inv) * d == a.num * (d * inv)) by (nonlinear_arith);
    lemma_mul_congruent(a.num, d * inv, a.num, 1, p);
}

} // verus!
