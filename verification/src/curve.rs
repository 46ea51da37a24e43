//! Points of a short Weierstrass curve `y² = x³ + a·x + b` over a prime field, and
//! their addition.

use crate::bigint::{big_eq, big_from_i64};
use crate::curve_laws::{lemma_difference_not_zero, lemma_double_not_zero, lemma_sum_on_curve};
use crate::error::{Error, ErrorKind};
use crate::field_element::{FieldElement, FieldValue};
use crate::modular::is_prime;
use vstd::prelude::*;
use vstd::std_specs::cmp::PartialEqSpecImpl;

verus! {

/// What a point is: the identity of the group of a curve, or a pair of coordinates on
/// a curve. Either way it carries the two parameters of its curve.
pub enum PointValue {
    Infinity { a: FieldValue, b: FieldValue },
    Finite { x: FieldValue, y: FieldValue, a: FieldValue, b: FieldValue },
}

/// The curve equation `y² = x³ + a·x + b`, computed in the field.
pub open spec fn on_curve(x: FieldValue, y: FieldValue, a: FieldValue, b: FieldValue) -> bool {
    y.pow(2) == x.pow(3).add(a.mul(x)).add(b)
}

/// The slope of the line through two points of different `x`.
pub open spec fn chord_slope(x1: FieldValue, y1: FieldValue, x2: FieldValue, y2: FieldValue)
    -> FieldValue {
    y2.sub(y1).div(x2.sub(x1))
}

/// The slope of the tangent at a point: `(3·x² + a) / (2·y)`.
pub open spec fn tangent_slope(x: FieldValue, y: FieldValue, a: FieldValue) -> FieldValue {
    x.pow(2).scale(3).add(a).div(y.scale(2))
}

/// The sum of two points of different `x`, by the chord through them:
/// `x3 = s² - x1 - x2`, `y3 = s·(x1 - x3) - y1`.
pub open spec fn chord_sum(
    x1: FieldValue,
    y1: FieldValue,
    x2: FieldValue,
    y2: FieldValue,
    a: FieldValue,
    b: FieldValue,
) -> PointValue {
    let s = chord_slope(x1, y1, x2, y2);
    let x3 = s.pow(2).sub(x1).sub(x2);
    let y3 = s.mul(x1.sub(x3)).sub(y1);
    PointValue::Finite { x: x3, y: y3, a, b }
}

/// The double of a point, by the tangent at it:
/// `x3 = s² - 2·x`, `y3 = s·(x - x3) - y`.
pub open spec fn tangent_sum(x: FieldValue, y: FieldValue, a: FieldValue, b: FieldValue)
    -> PointValue {
    let s = tangent_slope(x, y, a);
    let x3 = s.pow(2).sub(x.scale(2));
    let y3 = s.mul(x.sub(x3)).sub(y);
    PointValue::Finite { x: x3, y: y3, a, b }
}

impl PointValue {
    /// The first parameter of the point's curve.
    pub open spec fn a(self) -> FieldValue {
        match self {
            PointValue::Infinity { a, .. } => a,
            PointValue::Finite { a, .. } => a,
        }
    }

    /// The second parameter of the point's curve.
    pub open spec fn b(self) -> FieldValue {
        match self {
            PointValue::Infinity { b, .. } => b,
            PointValue::Finite { b, .. } => b,
        }
    }

    /// The parameters are canonical; a finite point has its coordinates and the
    /// parameters in one field, and lies on the curve.
    pub open spec fn wf(self) -> bool {
        match self {
            PointValue::Infinity { a, b } => a.wf() && b.wf(),
            PointValue::Finite { x, y, a, b } => {
                &&& x.wf() && y.wf() && a.wf() && b.wf()
                &&& x.prime == a.prime && y.prime == a.prime && b.prime == a.prime
                &&& on_curve(x, y, a, b)
            },
        }
    }

    /// Both points belong to one curve.
    pub open spec fn same_curve(self, other: PointValue) -> bool {
        self.a() == other.a() && self.b() == other.b()
    }

    /// Both points are finite and have different `x`: their sum lies on the chord.
    pub open spec fn meets_by_chord(self, other: PointValue) -> bool {
        self matches PointValue::Finite { x: x1, .. } && other matches PointValue::Finite {
            x: x2,
            ..
        } && x1 != x2
    }

    /// Both points are finite and have one `x`, and the `y` of the first is not zero:
    /// their sum lies on the tangent at the first.
    pub open spec fn meets_by_tangent(self, other: PointValue) -> bool {
        self matches PointValue::Finite { x: x1, y: y1, .. } && other matches PointValue::Finite {
            x: x2,
            ..
        } && x1 == x2 && y1.num != 0
    }

    /// The sum of two points of one curve.
    pub open spec fn add(self, other: PointValue) -> PointValue {
        match (self, other) {
            (PointValue::Infinity { .. }, _) => other,
            (_, PointValue::Infinity { .. }) => self,
            (PointValue::Finite { x: x1, y: y1, a, b }, PointValue::Finite { x: x2, y: y2, .. }) => {
                if x1 != x2 {
                    chord_sum(x1, y1, x2, y2, a, b)
                } else if y1.num == 0 {
                    PointValue::Infinity { a, b }
                } else {
                    tangent_sum(x1, y1, a, b)
                }
            },
        }
    }

    /// Two points are equal when both are the point at infinity, or both are finite
    /// with equal coordinates on one curve.
    pub open spec fn equals(self, other: PointValue) -> bool {
        match (self, other) {
            (PointValue::Infinity { .. }, PointValue::Infinity { .. }) => true,
            (PointValue::Finite { .. }, PointValue::Finite { .. }) => self == other,
            _ => false,
        }
    }
}

/// A point of a curve: the point at infinity, or a pair of coordinates that satisfies
/// the curve equation.
#[derive(Debug)]
pub struct CurvePoint {
    x: FieldElement,
    y: FieldElement,
    a: FieldElement,
    b: FieldElement,
    inf: bool,
}

impl View for CurvePoint {
    type V = PointValue;

    /// The point without the placeholder coordinates that the point at infinity carries.
    closed spec fn view(&self) -> PointValue {
        if self.inf {
            PointValue::Infinity { a: self.a@, b: self.b@ }
        } else {
            PointValue::Finite { x: self.x@, y: self.y@, a: self.a@, b: self.b@ }
        }
    }
}

impl Clone for CurvePoint {
    /// A copy of the same value.
    fn clone(&self) -> (r: Self)
        ensures
            r@ == self@,
    {
        proof {
            use_type_invariant(self);
        }
        CurvePoint {
            x: self.x.clone(),
            y: self.y.clone(),
            a: self.a.clone(),
            b: self.b.clone(),
            inf: self.inf,
        }
    }
}

impl PartialEq for CurvePoint {
    /// Whether both are the point at infinity, or both are finite with equal
    /// coordinates and parameters.
    fn eq(&self, other: &CurvePoint) -> (r: bool) {
        if self.inf || other.inf {
            self.inf && other.inf
        } else {
            self.x == other.x && self.y == other.y && self.a == other.a && self.b == other.b
        }
    }
}

impl Eq for CurvePoint {}

impl PartialEqSpecImpl for CurvePoint {
    open spec fn obeys_eq_spec() -> bool {
        true
    }

    open spec fn eq_spec(&self, other: &CurvePoint) -> bool {
        self@.equals(other@)
    }
}

impl CurvePoint {
    /// Every point is well formed: a finite one lies on its curve.
    #[verifier::type_invariant]
    pub open spec fn valid(self) -> bool {
        self@.wf()
    }

    /// The point `(x, y)` of the curve of parameters `a` and `b`, all four in one
    /// field. Coordinates that do not satisfy the curve equation are refused.
    pub fn new(x: &FieldElement, y: &FieldElement, a: &FieldElement, b: &FieldElement) -> (r:
        Result<CurvePoint, Error>)
        requires
            x@.prime == a@.prime,
            y@.prime == a@.prime,
            b@.prime == a@.prime,
        ensures
            on_curve(x@, y@, a@, b@) <==> r is Ok,
            r matches Ok(point) ==> point@ == (PointValue::Finite { x: x@, y: y@, a: a@, b: b@ })
                && point@.wf(),
            r matches Err(e) ==> e == Error::Regular(ErrorKind::NotOnCurve),
    {
        let left = y.pow(big_from_i64(2));
        let right = x.pow(big_from_i64(3)).add(&a.mul(x)).add(b);
        if left != right {
            Err(Error::Regular(ErrorKind::NotOnCurve))
        } else {
            proof {
                use_type_invariant(x);
                use_type_invariant(y);
                use_type_invariant(a);
                use_type_invariant(b);
            }
            Ok(CurvePoint { x: x.clone(), y: y.clone(), a: a.clone(), b: b.clone(), inf: false })
        }
    }

    /// The point at infinity of the curve of parameters `a` and `b`: the identity of
    /// its group.
    pub fn new_infinity(a: &FieldElement, b: &FieldElement) -> (r: CurvePoint)
        ensures
            r@ == (PointValue::Infinity { a: a@, b: b@ }),
            r@.wf(),
    {
        proof {
            use_type_invariant(a);
            use_type_invariant(b);
        }
        CurvePoint {
            x: FieldElement::new(big_from_i64(0), big_from_i64(1)).unwrap(),
            y: FieldElement::new(big_from_i64(0), big_from_i64(1)).unwrap(),
            a: a.clone(),
            b: b.clone(),
            inf: true,
        }
    }

    /// The first parameter of the point's curve.
    pub fn a(&self) -> (r: &FieldElement)
        ensures
            r@ == self@.a(),
    {
        &self.a
    }

    /// The second parameter of the point's curve.
    pub fn b(&self) -> (r: &FieldElement)
        ensures
            r@ == self@.b(),
    {
        &self.b
    }

    /// The coordinates of a finite point; the point at infinity has none.
    pub fn coordinates(&self) -> (r: Option<(&FieldElement, &FieldElement)>)
        ensures
            match self@ {
                PointValue::Infinity { .. } => r is None,
                PointValue::Finite { x, y, .. } => r matches Some((rx, ry)) && rx@ == x && ry@ == y,
            },
    {
        if self.inf {
            None
        } else {
            Some((&self.x, &self.y))
        }
    }

    /// Whether this is the point at infinity.
    pub fn is_infinity(&self) -> (r: bool)
        ensures
            r == (self@ is Infinity),
            self@.wf(),
    {
        proof {
            use_type_invariant(self);
        }
        self.inf
    }

    /// The sum of two points of one curve over a field of prime order. Where the sum
    /// lies on a tangent, the field must not have characteristic 2.
    pub fn add(&self, other: &CurvePoint) -> (r: CurvePoint)
        requires
            self@.same_curve(other@),
            self@ is Finite && other@ is Finite ==> is_prime(self@.a().prime),
            self@.meets_by_tangent(other@) ==> self@.a().prime != 2,
        ensures
            r@ == self@.add(other@),
            r@.wf(),
            r@.same_curve(self@),
    {
        proof {
            use_type_invariant(self);
            use_type_invariant(other);
            lemma_sum_on_curve(self@, other@);
        }
        if self.inf {
            return other.clone();
        }
        if other.inf {
            return self.clone();
        }
        if self.x != other.x {
            proof {
                lemma_difference_not_zero(self.x@, other.x@);
            }
            let slope = other.y.sub(&self.y).div_field(&other.x.sub(&self.x));
            let x3 = slope.pow(big_from_i64(2)).sub(&self.x).sub(&other.x);
            let y3 = slope.mul(&self.x.sub(&x3)).sub(&self.y);
            CurvePoint::new(&x3, &y3, &self.a, &self.b).unwrap()
        } else if big_eq(self.y.num(), &big_from_i64(0)) {
            CurvePoint::new_infinity(&self.a, &self.b)
        } else {
            proof {
                lemma_double_not_zero(self.y@);
            }
            let slope = self.x.pow(big_from_i64(2)).scale(&big_from_i64(3)).add(&self.a).div_field(
                &self.y.scale(&big_from_i64(2)),
            );
            let x3 = slope.pow(big_from_i64(2)).sub(&self.x.scale(&big_from_i64(2)));
            let y3 = slope.mul(&self.x.sub(&x3)).sub(&self.y);
            CurvePoint::new(&x3, &y3, &self.a, &self.b).unwrap()
        }
    }
}

} // verus!
