use ecc_math::{CurvePoint, Error, ErrorKind, FieldElement};
use num_bigint::BigInt;

fn residue(num: i64, prime: i64) -> FieldElement {
    FieldElement::new(BigInt::from(num), BigInt::from(prime)).unwrap()
}

/// A point of `y² = x³ + 7` modulo 223.
fn point(x: i64, y: i64) -> CurvePoint {
    CurvePoint::new(&residue(x, 223), &residue(y, 223), &residue(0, 223), &residue(7, 223)).unwrap()
}

fn infinity() -> CurvePoint {
    CurvePoint::new_infinity(&residue(0, 223), &residue(7, 223))
}

#[test]
fn point_new() {
    let x = FieldElement::new(BigInt::from(1), BigInt::from(7)).unwrap();
    let y = FieldElement::new(BigInt::from(2), BigInt::from(7)).unwrap();
    let a = FieldElement::new(BigInt::from(3), BigInt::from(7)).unwrap();
    let b = FieldElement::new(BigInt::from(4), BigInt::from(7)).unwrap();
    let point = CurvePoint::new(&x, &y, &a, &b);
    println!("{:?}", point);
    assert!(point.is_err());

    let x = FieldElement::new(BigInt::from(192), BigInt::from(223)).unwrap();
    let y = FieldElement::new(BigInt::from(105), BigInt::from(223)).unwrap();
    let a = FieldElement::new(BigInt::from(0), BigInt::from(223)).unwrap();
    let b = FieldElement::new(BigInt::from(7), BigInt::from(223)).unwrap();
    let point = CurvePoint::new(&x, &y, &a, &b);
    println!("{:?}", point);
    assert!(point.is_ok());
}

#[test]
fn point_add_point_to_inf() {
    let x = FieldElement::new(BigInt::from(192), BigInt::from(223)).unwrap();
    let y = FieldElement::new(BigInt::from(105), BigInt::from(223)).unwrap();
    let a = FieldElement::new(BigInt::from(0), BigInt::from(223)).unwrap();
    let b = FieldElement::new(BigInt::from(7), BigInt::from(223)).unwrap();
    let point = CurvePoint::new(&x, &y, &a, &b).unwrap();

    let point2 = CurvePoint::new_infinity(&a, &b);

    let point3 = point.clone().add(&point2);
    assert_eq!(point, point3);
}

#[test]
fn new_succeeds_exactly_on_the_curve() {
    let (a, b) = (residue(0, 223), residue(7, 223));
    for (x, y) in [(192, 105), (17, 56), (1, 193), (47, 71), (6, 0)] {
        assert!(CurvePoint::new(&residue(x, 223), &residue(y, 223), &a, &b).is_ok());
    }
    for (x, y) in [(200, 119), (42, 99), (0, 0), (192, 106)] {
        assert_eq!(
            CurvePoint::new(&residue(x, 223), &residue(y, 223), &a, &b),
            Err(Error::Regular(ErrorKind::NotOnCurve))
        );
    }
    for x in 0..223i64 {
        for y in 0..223i64 {
            let on_curve = (y * y - (x * x * x + 7)).rem_euclid(223) == 0;
            assert_eq!(
                CurvePoint::new(&residue(x, 223), &residue(y, 223), &a, &b).is_ok(),
                on_curve
            );
        }
    }
}

#[test]
fn new_keeps_coordinates_and_parameters() {
    let p = point(192, 105);
    assert!(!p.is_infinity());
    let (x, y) = p.coordinates().unwrap();
    assert_eq!(*x, residue(192, 223));
    assert_eq!(*y, residue(105, 223));
    assert_eq!(*p.a(), residue(0, 223));
    assert_eq!(*p.b(), residue(7, 223));
    let o = infinity();
    assert!(o.is_infinity());
    assert!(o.coordinates().is_none());
    assert_eq!(*o.a(), residue(0, 223));
    assert_eq!(*o.b(), residue(7, 223));
}

#[test]
fn infinity_is_the_identity() {
    let p = point(192, 105);
    assert_eq!(p.add(&infinity()), p);
    assert_eq!(infinity().add(&p), p);
    assert_eq!(infinity().add(&infinity()), infinity());
    for (x, y) in [(17, 56), (1, 193), (47, 71), (6, 0)] {
        assert_eq!(point(x, y).add(&infinity()), point(x, y));
        assert_eq!(infinity().add(&point(x, y)), point(x, y));
    }
}

#[test]
fn chord_rule() {
    assert_eq!(point(170, 142).add(&point(60, 139)), point(220, 181));
    assert_eq!(point(47, 71).add(&point(17, 56)), point(215, 68));
    assert_eq!(point(143, 98).add(&point(76, 66)), point(47, 71));
    assert_eq!(point(192, 105).add(&point(17, 56)), point(170, 142));
}

#[test]
fn tangent_rule() {
    assert_eq!(point(47, 71).add(&point(47, 71)), point(36, 111));
    assert_eq!(point(192, 105).add(&point(192, 105)), point(49, 71));
}

#[test]
fn equal_abscissas_take_the_tangent_at_the_first_point() {
    assert_eq!(point(47, 71).add(&point(47, 152)), point(36, 111));
}

#[test]
fn zero_ordinate_doubles_to_infinity() {
    assert_eq!(point(6, 0).add(&point(6, 0)), infinity());
    assert!(point(11, 0).add(&point(11, 0)).is_infinity());
    let (a, b) = (residue(6, 7), residue(0, 7));
    let p = CurvePoint::new(&residue(1, 7), &residue(0, 7), &a, &b).unwrap();
    let sum = p.add(&p);
    assert!(sum.is_infinity());
    assert_eq!(*sum.a(), a);
    assert_eq!(*sum.b(), b);
    let q = CurvePoint::new(&residue(0, 7), &residue(0, 7), &a, &b).unwrap();
    assert_eq!(q.add(&p), CurvePoint::new(&residue(6, 7), &residue(0, 7), &a, &b).unwrap());
}

#[test]
fn addition_commutes_and_stays_on_the_curve() {
    let (a, b) = (residue(0, 223), residue(7, 223));
    let points = [(192, 105), (17, 56), (1, 193), (47, 71), (170, 142), (60, 139), (6, 0)];
    for (x1, y1) in points {
        for (x2, y2) in points {
            let sum = point(x1, y1).add(&point(x2, y2));
            if x1 != x2 {
                assert_eq!(sum, point(x2, y2).add(&point(x1, y1)));
            }
            if let Some((x3, y3)) = sum.coordinates() {
                assert_eq!(CurvePoint::new(x3, y3, &a, &b), Ok(sum.clone()));
            }
        }
    }
}

#[test]
fn points_compare_by_kind_coordinates_and_curve() {
    assert_eq!(point(192, 105), point(192, 105));
    assert_ne!(point(192, 105), point(17, 56));
    assert_ne!(point(192, 105), infinity());
    assert_ne!(infinity(), point(192, 105));
    assert_eq!(infinity(), CurvePoint::new_infinity(&residue(6, 7), &residue(0, 7)));
    let on_another_curve =
        CurvePoint::new(&residue(0, 7), &residue(0, 7), &residue(0, 7), &residue(0, 7)).unwrap();
    let origin =
        CurvePoint::new(&residue(0, 7), &residue(0, 7), &residue(6, 7), &residue(0, 7)).unwrap();
    assert_ne!(on_another_curve, origin);
}

#[test]
fn group_law_beyond_machine_words() {
    let hex = |digits: &str| BigInt::parse_bytes(digits.as_bytes(), 16).unwrap();
    let p = hex("fffffffffffffffffffffffffffffffffffffffffffffffffffffffefffffc2f");
    let in_field = |n: BigInt| FieldElement::new(n, p.clone()).unwrap();
    let (a, b) = (in_field(BigInt::from(0)), in_field(BigInt::from(7)));
    let on_curve = |x: &str, y: &str| CurvePoint::new(&in_field(hex(x)), &in_field(hex(y)), &a, &b);
    let g = on_curve(
        "79be667ef9dcbbac55a06295ce870b07029bfcdb2dce28d959f2815b16f81798",
        "483ada7726a3c4655da4fbfc0e1108a8fd17b448a68554199c47d08ffb10d4b8",
    )
    .unwrap();
    let g2 = on_curve(
        "c6047f9441ed7d6d3045406e95c07cd85c778e4b8cef3ca7abac09b95c709ee5",
        "1ae168fea63dc339a3c58419466ceaeef7f632653266d0e1236431a950cfe52a",
    )
    .unwrap();
    let g3 = on_curve(
        "f9308a019258c31049344f85f89d5229b531c845836f99b08601f113bce036f9",
        "388f7b0f632de8140fe337e62a37f3566500a99934c2231b6cb9fd7584b8e672",
    )
    .unwrap();
    assert_eq!(g.add(&g), g2);
    assert_eq!(g2.add(&g), g3);
    assert_eq!(g.add(&g2), g3);
    assert!(on_curve(
        "79be667ef9dcbbac55a06295ce870b07029bfcdb2dce28d959f2815b16f81798",
        "483ada7726a3c4655da4fbfc0e1108a8fd17b448a68554199c47d08ffb10d4b9",
    )
    .is_err());
}
