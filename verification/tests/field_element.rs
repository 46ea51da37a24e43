use ecc_math::{Error, ErrorKind, FieldElement};
use num_bigint::BigInt;

fn element(num: i64, prime: i64) -> FieldElement {
    FieldElement::new(BigInt::from(num), BigInt::from(prime)).unwrap()
}

#[test]
fn add_fieldelement() {
    let fe1 = FieldElement::new(BigInt::from(3), BigInt::from(5)).unwrap();
    let fe2 = FieldElement::new(BigInt::from(3), BigInt::from(5)).unwrap();
    assert_eq!(fe1.add(&fe2), FieldElement::new(BigInt::from(1), BigInt::from(5)).unwrap());
}

#[test]
fn add_fieldelement_with_ref() {
    let fe1 = FieldElement::new(BigInt::from(3), BigInt::from(5)).unwrap();
    let fe2 = FieldElement::new(BigInt::from(3), BigInt::from(5)).unwrap();
    assert_eq!((&fe1).add(&fe2), FieldElement::new(BigInt::from(1), BigInt::from(5)).unwrap());
}

#[test]
fn add_fieldelement_moved_ref() {
    let fe1 = FieldElement::new(BigInt::from(3), BigInt::from(7)).unwrap();
    let fe2 = FieldElement::new(BigInt::from(3), BigInt::from(7)).unwrap();
    let fe3 = fe1.add(&fe2);
    println!("fe2: {}", fe2.to_string());
    println!("fe3: {}", fe3.to_string());
    assert_eq!(fe2.to_string(), "FieldElement(3,7)");
    assert_eq!(fe3.to_string(), "FieldElement(6,7)");
}

#[test]
fn sub_fieldelement() {
    let fe1 = FieldElement::new(BigInt::from(3), BigInt::from(5)).unwrap();
    let fe2 = FieldElement::new(BigInt::from(3), BigInt::from(5)).unwrap();
    assert_eq!(fe1.sub(&fe2), FieldElement::new(BigInt::from(0), BigInt::from(5)).unwrap());

    assert_eq!(
        FieldElement::new(BigInt::from(1), BigInt::from(7))
            .unwrap()
            .sub(&FieldElement::new(BigInt::from(5), BigInt::from(7)).unwrap()),
        FieldElement::new(BigInt::from(3), BigInt::from(7)).unwrap()
    );
}

#[test]
fn sub_fieldelement_with_ref() {
    let fe1 = FieldElement::new(BigInt::from(4), BigInt::from(5)).unwrap();
    let fe2 = FieldElement::new(BigInt::from(2), BigInt::from(5)).unwrap();
    assert_eq!((&fe1).sub(&fe2), FieldElement::new(BigInt::from(2), BigInt::from(5)).unwrap());
}

#[test]
fn sub_fieldelement_moved_ref() {
    let fe1 = FieldElement::new(BigInt::from(6), BigInt::from(7)).unwrap();
    let fe2 = FieldElement::new(BigInt::from(1), BigInt::from(7)).unwrap();
    let fe3 = fe1.sub(&fe2);
    assert_eq!(fe3, FieldElement::new(BigInt::from(5), BigInt::from(7)).unwrap())
}

#[test]
fn field_element_pow() {
    let a = FieldElement::new(BigInt::from(3), BigInt::from(7)).unwrap();
    let b = a.pow(BigInt::from(2));
    assert_eq!(b, FieldElement::new(BigInt::from(2), BigInt::from(7)).unwrap());

    let c = a.pow(BigInt::from(-3));
    assert_eq!(c, FieldElement::new(BigInt::from(6), BigInt::from(7)).unwrap());
    println!("pow c: {:?}", c);
}

#[test]
fn field_element_div() {
    let a = FieldElement::new(BigInt::from(1), BigInt::from(7)).unwrap();
    let b = a.div(BigInt::from(3));
    assert_eq!(b, FieldElement::new(BigInt::from(5), BigInt::from(7)).unwrap());
}

#[test]
fn new_accepts_exactly_the_canonical_range() {
    assert!(FieldElement::new(BigInt::from(0), BigInt::from(7)).is_ok());
    assert!(FieldElement::new(BigInt::from(6), BigInt::from(7)).is_ok());
    assert_eq!(
        FieldElement::new(BigInt::from(7), BigInt::from(7)),
        Err(Error::Regular(ErrorKind::OutOfRange))
    );
    assert_eq!(
        FieldElement::new(BigInt::from(8), BigInt::from(7)),
        Err(Error::Regular(ErrorKind::OutOfRange))
    );
    assert_eq!(
        FieldElement::new(BigInt::from(0), BigInt::from(0)),
        Err(Error::Regular(ErrorKind::OutOfRange))
    );
    assert!(FieldElement::new(BigInt::from(0), BigInt::from(1)).is_ok());
}

#[test]
fn new_keeps_representative_and_modulus() {
    let a = element(2, 11);
    assert_eq!(*a.num(), BigInt::from(2));
    assert_eq!(*a.prime(), BigInt::from(11));
    let b = a.clone();
    assert_eq!(*b.num(), BigInt::from(2));
    assert_eq!(*b.prime(), BigInt::from(11));
}

#[test]
fn elements_of_different_fields_are_never_equal() {
    assert_ne!(element(3, 5), element(3, 7));
    assert_ne!(element(3, 7), element(4, 7));
    assert_eq!(element(3, 7), element(3, 7));
}

#[test]
fn scenario_modulo_seven() {
    assert_eq!(element(3, 7).add(&element(3, 7)), element(6, 7));
    assert_eq!(element(1, 7).sub(&element(5, 7)), element(3, 7));
    assert_eq!(element(3, 7).sub(&element(5, 7)), element(5, 7));
    assert_eq!(element(3, 7).mul(&element(5, 7)), element(1, 7));
    assert_eq!(element(1, 7).div(BigInt::from(3)), element(5, 7));
    assert_eq!(element(1, 7).div_field(&element(3, 7)), element(5, 7));
}

#[test]
fn results_are_canonical() {
    let zero = BigInt::from(0);
    for p in [2i64, 3, 5, 7, 11] {
        let prime = BigInt::from(p);
        for a in 0..p {
            for b in 0..p {
                for r in [
                    element(a, p).add(&element(b, p)),
                    element(a, p).sub(&element(b, p)),
                    element(a, p).mul(&element(b, p)),
                ] {
                    assert!(zero <= *r.num() && *r.num() < prime);
                    assert_eq!(*r.prime(), prime);
                }
                assert_eq!(*element(a, p).add(&element(b, p)).num(), BigInt::from((a + b) % p));
                assert_eq!(
                    *element(a, p).sub(&element(b, p)).num(),
                    BigInt::from((a - b).rem_euclid(p))
                );
                assert_eq!(*element(a, p).mul(&element(b, p)).num(), BigInt::from((a * b) % p));
            }
        }
    }
}

#[test]
fn addition_commutes_and_associates_and_multiplication_distributes() {
    let p = 7;
    for a in 0..p {
        for b in 0..p {
            assert_eq!(element(a, p).add(&element(b, p)), element(b, p).add(&element(a, p)));
            for c in 0..p {
                let (x, y, z) = (element(a, p), element(b, p), element(c, p));
                assert_eq!(x.add(&y).add(&z), x.add(&y.add(&z)));
                assert_eq!(x.mul(&y.add(&z)), x.mul(&y).add(&x.mul(&z)));
            }
        }
    }
}

#[test]
fn power_minus_one_is_the_inverse() {
    for p in [2i64, 3, 5, 7, 11, 223] {
        for a in 1..p {
            let x = element(a, p);
            assert_eq!(x.mul(&x.pow(BigInt::from(-1))), element(1, p));
        }
    }
}

#[test]
fn exponents_repeat_with_period_prime_minus_one() {
    for p in [2i64, 3, 7, 11] {
        for a in 1..p {
            for e in -25i64..25 {
                let x = element(a, p);
                assert_eq!(x.pow(BigInt::from(e)), x.pow(BigInt::from(e.rem_euclid(p - 1))));
            }
        }
    }
}

#[test]
fn division_is_multiplication_by_the_inverse() {
    for p in [2i64, 3, 7, 11] {
        for a in 0..p {
            for b in 1..p {
                let x = element(a, p);
                assert_eq!(x.div(BigInt::from(b)), x.mul(&element(b, p).pow(BigInt::from(-1))));
                assert_eq!(x.div_field(&element(b, p)), x.div(BigInt::from(b)));
                assert_eq!(x.div_field(&element(b, p)).mul(&element(b, p)), x);
            }
        }
    }
}

#[test]
fn pow_edge_cases() {
    assert_eq!(element(3, 7).pow(BigInt::from(0)), element(1, 7));
    assert_eq!(element(0, 7).pow(BigInt::from(0)), element(1, 7));
    assert_eq!(element(0, 7).pow(BigInt::from(5)), element(0, 7));
    assert_eq!(element(3, 7).pow(BigInt::from(6)), element(1, 7));
    assert_eq!(element(3, 7).pow(BigInt::from(-100)), element(2, 7));
    assert_eq!(element(0, 1).pow(BigInt::from(4)), element(0, 1));
    assert_eq!(element(5, 223).pow(BigInt::from(3)), element(125, 223));
}

#[test]
fn div_takes_any_integer_that_is_not_a_multiple_of_the_modulus() {
    assert_eq!(element(1, 7).div(BigInt::from(10)), element(5, 7));
    assert_eq!(element(1, 7).div(BigInt::from(-4)), element(5, 7));
    assert_eq!(element(4, 7).div(BigInt::from(2)), element(2, 7));
    assert_eq!(element(1, 2).div(BigInt::from(1)), element(1, 2));
}

#[test]
fn scale_reduces_the_product() {
    assert_eq!(element(5, 7).scale(&BigInt::from(3)), element(1, 7));
    assert_eq!(element(5, 7).scale(&BigInt::from(-1)), element(2, 7));
    assert_eq!(element(2, 3).scale(&BigInt::from(3)), element(0, 3));
}

#[test]
fn text_shows_representative_and_modulus() {
    assert_eq!(element(3, 7).to_string(), "FieldElement(3,7)");
    assert_eq!(element(0, 1).to_string(), "FieldElement(0,1)");
    assert_eq!(element(105, 223).to_string(), "FieldElement(105,223)");
}

#[test]
fn arithmetic_beyond_machine_words() {
    let p = BigInt::parse_bytes(
        b"fffffffffffffffffffffffffffffffffffffffffffffffffffffffefffffc2f",
        16,
    )
    .unwrap();
    let x = FieldElement::new(&p - BigInt::from(1), p.clone()).unwrap();
    let one = FieldElement::new(BigInt::from(1), p.clone()).unwrap();
    let two = FieldElement::new(BigInt::from(2), p.clone()).unwrap();
    assert_eq!(*x.add(&two).num(), BigInt::from(1));
    assert_eq!(x.mul(&x), one);
    assert_eq!(x.pow(BigInt::from(-1)), x);
    assert_eq!(two.mul(&two.pow(BigInt::from(-1))), one);
    assert_eq!(one.div_field(&two).mul(&two), one);
    assert_eq!(
        x.to_string(),
        format!("FieldElement({},{})", &p - BigInt::from(1), p)
    );
}
