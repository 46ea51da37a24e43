//! Elements of the field of integers modulo a prime.

use crate::bigint::{
    big_add, big_clone, big_eq, big_from_i64, big_lt, big_mod_floor, big_modpow, big_mul, big_sub,
    big_to_string, decimal_text, int_of,
};
use crate::error::{Error, ErrorKind};
use num_bigint::BigInt;
use vstd::arithmetic::div_mod::{lemma_mod_bound, lemma_small_mod};
use vstd::arithmetic::power::pow;
use vstd::prelude::*;
use vstd::std_specs::cmp::PartialEqSpecImpl;
use vstd::string::StringExecFns;

verus! {

/// What a field element is: a representative and the modulus of its field.
pub struct FieldValue {
    pub num: int,
    pub prime: int,
}

/// The exponent that stands for `e` in a field of modulus `p`: `e` itself where it is
/// not negative, else the first non-negative number reached from `e` in steps of `p - 1`.
pub open spec fn effective_exponent(e: int, p: int) -> nat {
    if e >= 0 {
        e as nat
    } else {
        (e % (p - 1)) as nat
    }
}

impl FieldValue {
    /// The representative is the canonical one, in `[0, prime)`.
    pub open spec fn wf(self) -> bool {
        0 <= self.num < self.prime
    }

    /// The sum in the field of `self`.
    pub open spec fn add(self, other: FieldValue) -> FieldValue {
        FieldValue { num: (self.num + other.num) % self.prime, prime: self.prime }
    }

    /// The difference in the field of `self`.
    pub open spec fn sub(self, other: FieldValue) -> FieldValue {
        FieldValue { num: (self.num - other.num) % self.prime, prime: self.prime }
    }

    /// The product in the field of `self`.
    pub open spec fn mul(self, other: FieldValue) -> FieldValue {
        FieldValue { num: (self.num * other.num) % self.prime, prime: self.prime }
    }

    /// The product with an integer that need not be reduced.
    pub open spec fn scale(self, k: int) -> FieldValue {
        FieldValue { num: (self.num * k) % self.prime, prime: self.prime }
    }

    /// The power with an exponent of either sign.
    pub open spec fn pow(self, e: int) -> FieldValue {
        FieldValue {
            num: pow(self.num, effective_exponent(e, self.prime)) % self.prime,
            prime: self.prime,
        }
    }

    /// The quotient by an integer that need not be reduced: the product with its
    /// power `prime - 2`.
    pub open spec fn div_by(self, divisor: int) -> FieldValue {
        FieldValue {
            num: (self.num * (pow(divisor, (self.prime - 2) as nat) % self.prime)) % self.prime,
            prime: self.prime,
        }
    }

    /// The quotient by an element: the product with its power `prime - 2`.
    pub open spec fn div(self, divisor: FieldValue) -> FieldValue {
        self.div_by(divisor.num)
    }
}

/// An element of the integers modulo `prime`, held by its representative in `[0, prime)`.
#[derive(Debug)]
pub struct FieldElement {
    num: BigInt,
    prime: BigInt,
}

impl View for FieldElement {
    type V = FieldValue;

    /// The integers that the two fields hold.
    closed spec fn view(&self) -> FieldValue {
        FieldValue { num: int_of(self.num), prime: int_of(self.prime) }
    }
}

impl Clone for FieldElement {
    /// A copy of the same value.
    fn clone(&self) -> (r: Self)
        ensures
            r@ == self@,
    {
        proof {
            use_type_invariant(self);
        }
        FieldElement { num: big_clone(&self.num), prime: big_clone(&self.prime) }
    }
}

impl PartialEq for FieldElement {
    /// Whether representative and modulus are both equal.
    fn eq(&self, other: &FieldElement) -> (r: bool) {
        big_eq(&self.num, &other.num) && big_eq(&self.prime, &other.prime)
    }
}

impl Eq for FieldElement {}

impl PartialEqSpecImpl for FieldElement {
    open spec fn obeys_eq_spec() -> bool {
        true
    }

    /// Two elements are equal when representative and modulus both are.
    open spec fn eq_spec(&self, other: &FieldElement) -> bool {
        self@ == other@
    }
}

impl FieldElement {
    /// Every element holds its canonical representative.
    #[verifier::type_invariant]
    pub open spec fn canonical(self) -> bool {
        self@.wf()
    }

    /// The element of representative `num` in the field of modulus `prime`. A
    /// representative that is not below the modulus is refused; that it is not negative
    /// is the caller's to see to. The modulus is not examined: whether it is a prime
    /// matters only where a contract asks for one.
    pub fn new(num: BigInt, prime: BigInt) -> (r: Result<FieldElement, Error>)
        requires
            int_of(num) >= 0,
        ensures
            int_of(num) >= int_of(prime) <==> r is Err,
            r matches Err(e) ==> e == Error::Regular(ErrorKind::OutOfRange),
            r matches Ok(fe) ==> fe@ == (FieldValue { num: int_of(num), prime: int_of(prime) })
                && fe@.wf(),
    {
        if !big_lt(&num, &prime) {
            Err(Error::Regular(ErrorKind::OutOfRange))
        } else {
            Ok(FieldElement { num, prime })
        }
    }

    /// The representative, in `[0, prime)`.
    pub fn num(&self) -> (r: &BigInt)
        ensures
            int_of(*r) == self@.num,
            self@.wf(),
    {
        proof {
            use_type_invariant(self);
        }
        &self.num
    }

    /// The modulus of the field.
    pub fn prime(&self) -> (r: &BigInt)
        ensures
            int_of(*r) == self@.prime,
            self@.wf(),
    {
        proof {
            use_type_invariant(self);
        }
        &self.prime
    }

    /// The sum of two elements of one field.
    pub fn add(&self, other: &FieldElement) -> (r: FieldElement)
        requires
            self@.prime == other@.prime,
        ensures
            r@ == self@.add(other@),
            r@.wf(),
    {
        proof {
            use_type_invariant(self);
            lemma_mod_bound(self@.num + other@.num, self@.prime);
        }
        let sum = big_add(&self.num, &other.num);
        FieldElement::new(big_mod_floor(&sum, &self.prime), big_clone(&self.prime)).unwrap()
    }

    /// The difference of two elements of one field.
    pub fn sub(&self, other: &FieldElement) -> (r: FieldElement)
        requires
            self@.prime == other@.prime,
        ensures
            r@ == self@.sub(other@),
            r@.wf(),
    {
        proof {
            use_type_invariant(self);
            lemma_mod_bound(self@.num - other@.num, self@.prime);
        }
        let difference = big_sub(&self.num, &other.num);
        FieldElement::new(big_mod_floor(&difference, &self.prime), big_clone(&self.prime)).unwrap()
    }

    /// The product of two elements of one field.
    pub fn mul(&self, other: &FieldElement) -> (r: FieldElement)
        requires
            self@.prime == other@.prime,
        ensures
            r@ == self@.mul(other@),
            r@.wf(),
    {
        proof {
            use_type_invariant(self);
            lemma_mod_bound(self@.num * other@.num, self@.prime);
        }
        let product = big_mul(&self.num, &other.num);
        FieldElement::new(big_mod_floor(&product, &self.prime), big_clone(&self.prime)).unwrap()
    }

    /// The product with an integer, which need not be reduced.
    pub fn scale(&self, factor: &BigInt) -> (r: FieldElement)
        ensures
            r@ == self@.scale(int_of(*factor)),
            r@.wf(),
    {
        proof {
            use_type_invariant(self);
            lemma_mod_bound(self@.num * int_of(*factor), self@.prime);
        }
        let product = big_mul(&self.num, factor);
        FieldElement::new(big_mod_floor(&product, &self.prime), big_clone(&self.prime)).unwrap()
    }

    /// The power of the element. A negative exponent is first raised by multiples of
    /// `prime - 1` to the first one that is not negative, which needs a modulus above 1.
    pub fn pow(&self, exp: BigInt) -> (r: FieldElement)
        requires
            int_of(exp) < 0 ==> self@.prime > 1,
        ensures
            r@ == self@.pow(int_of(exp)),
            r@.wf(),
    {
        proof {
            use_type_invariant(self);
        }
        let zero = big_from_i64(0);
        let e = if big_lt(&exp, &zero) {
            let one = big_from_i64(1);
            let order = big_sub(&self.prime, &one);
            proof {
                lemma_mod_bound(int_of(exp), int_of(order));
            }
            big_mod_floor(&exp, &order)
        } else {
            exp
        };
        proof {
            lemma_mod_bound(pow(self@.num, int_of(e) as nat), self@.prime);
        }
        FieldElement::new(big_modpow(&self.num, &e, &self.prime), big_clone(&self.prime)).unwrap()
    }

    /// The quotient by an integer that is not a multiple of the modulus: the product
    /// with its power `prime - 2`.
    pub fn div(&self, divisor: BigInt) -> (r: FieldElement)
        requires
            int_of(divisor) % self@.prime != 0,
        ensures
            r@ == self@.div_by(int_of(divisor)),
            r@.wf(),
    {
        proof {
            use_type_invariant(self);
        }
        let two = big_from_i64(2);
        let exponent = big_sub(&self.prime, &two);
        let inverse = big_modpow(&divisor, &exponent, &self.prime);
        let product = big_mul(&self.num, &inverse);
        proof {
            lemma_mod_bound(int_of(product), self@.prime);
        }
        FieldElement::new(big_mod_floor(&product, &self.prime), big_clone(&self.prime)).unwrap()
    }

    /// The quotient by an element of the same field that is not zero.
    pub fn div_field(&self, divisor: &FieldElement) -> (r: FieldElement)
        requires
            self@.prime == divisor@.prime,
            divisor@.num != 0,
        ensures
            r@ == self@.div(divisor@),
            r@.wf(),
    {
        proof {
            use_type_invariant(divisor);
            lemma_small_mod(divisor@.num as nat, divisor@.prime as nat);
        }
        self.div(big_clone(&divisor.num))
    }

    /// The element as text, for diagnostics: representative and modulus in decimal.
    pub fn to_string(&self) -> (s: String)
        ensures
            s@ == "FieldElement("@ + decimal_text(self@.num) + ","@ + decimal_text(self@.prime)
                + ")"@,
    {
        let num = big_to_string(&self.num);
        let prime = big_to_string(&self.prime);
        String::from_str("FieldElement(").concat(num.as_str()).concat(",").concat(
            prime.as_str(),
        ).concat(")")
    }
}

} // verus!
