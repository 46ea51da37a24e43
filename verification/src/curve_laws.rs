//! What holds of the addition of points, stated over their values.

use crate::curve::{chord_slope, chord_sum, on_curve, tangent_slope, tangent_sum, PointValue};
use crate::field_element::FieldValue;
use crate::field_laws::lemma_div_then_mul;
use crate::modular::{
    is_prime, lemma_add_congruent, lemma_mod_cancel, lemma_mul_congruent,
    lemma_prime_divides_product, lemma_sub_congruent,
};
use vstd::arithmetic::div_mod::{
    lemma_mod_bound, lemma_mod_equivalence, lemma_mod_twice, lemma_mul_mod_noop_general,
    lemma_small_mod,
};
use vstd::arithmetic::power::{lemma_square_is_pow2, pow};
use vstd::prelude::*;

verus! {

/// The right side of the curve equation, over the integers.
pub open spec fn cubic(x: int, a: int, b: int) -> int {
    x * x * x + a * x + b
}

/// The curve equation, computed in the field, is the congruence `y² ≡ x³ + a·x + b`.
pub proof fn lemma_on_curve_congruence(x: FieldValue, y: FieldValue, a: FieldValue, b: FieldValue)
    requires
        x.wf(),
        y.wf(),
        a.wf(),
        b.wf(),
        x.prime == a.prime,
        y.prime == a.prime,
        b.prime == a.prime,
    ensures
        on_curve(x, y, a, b) <==> (y.num * y.num) % a.prime == cubic(x.num, a.num, b.num) % a.prime,
{
    let p = a.prime;
    lemma_square_is_pow2(y.num);
    assert(pow(x.num, 3) == x.num * x.num * x.num) by {
        reveal_with_fuel(pow, 4);
        assert(x.num * (x.num * (x.num * 1)) == x.num * x.num * x.num) by (nonlinear_arith);
    }
    let u = x.num * x.num * x.num;
    let v = a.num * x.num;
    lemma_mod_bound(u, p);
    lemma_mod_bound(v, p);
    lemma_small_mod((u % p) as nat, p as nat);
    lemma_small_mod((v % p) as nat, p as nat);
    lemma_small_mod(b.num as nat, p as nat);
    lemma_add_congruent(u % p, v % p, u, v, p);
    lemma_mod_bound(u % p + v % p, p);
    lemma_small_mod(((u % p + v % p) % p) as nat, p as nat);
    lemma_add_congruent((u % p + v % p) % p, b.num, u + v, b.num, p);
}

/// `x³ - y³ = (x - y)·(x² + x·y + y²)`
proof fn lemma_difference_of_cubes(x: int, y: int)
    by (nonlinear_arith)
    ensures
        x * x * x - y * y * y == (x - y) * (x * x + x * y + y * y),
{
}

/// `(s·t + y)² - y² = t·(s²·t + 2·s·y)`
proof fn lemma_square_of_line(s: int, t: int, y: int)
    by (nonlinear_arith)
    ensures
        (s * t + y) * (s * t + y) - y * y == t * (s * s * t + 2 * s * y),
{
}

/// What is left of `cubic(x) - (s·(x - x1) + y1)²` after the factor `x - x1` is taken
/// out, for a point `(x1, y1)` of the curve: it vanishes at the other points where the
/// line of slope `s` through `(x1, y1)` meets the curve.
pub open spec fn line_quotient(x1: int, y1: int, x: int, s: int, a: int) -> int {
    x * x + x * x1 + x1 * x1 + a - s * s * (x - x1) - 2 * s * y1
}

/// A line through a point `(x1, y1)` of the curve that meets the curve again at the
/// abscissa `x2` meets it a third time at `x3 = s² - x1 - x2`, and the reflection
/// `(x3, y3)` of that third point lies on the curve.
proof fn lemma_line_meets_curve(
    x1: int,
    y1: int,
    x2: int,
    s: int,
    x3: int,
    y3: int,
    a: int,
    b: int,
    p: int,
)
    requires
        p > 0,
        (y1 * y1) % p == cubic(x1, a, b) % p,
        line_quotient(x1, y1, x2, s, a) % p == 0,
        x3 % p == (s * s - x1 - x2) % p,
        y3 % p == (s * (x1 - x3) - y1) % p,
    ensures
        (y3 * y3) % p == cubic(x3, a, b) % p,
{
    let l = s * (x3 - x1) + y1;
    let e1 = cubic(x1, a, b) - y1 * y1;
    let g2 = line_quotient(x1, y1, x2, s, a);
    let g3 = line_quotient(x1, y1, x3, s, a);
    let h = x3 + x2 + x1 - s * s;
    assert(g3 == g2 + (x3 - x2) * h) by (nonlinear_arith)
        requires
            g2 == x2 * x2 + x2 * x1 + x1 * x1 + a - s * s * (x2 - x1) - 2 * s * y1,
            g3 == x3 * x3 + x3 * x1 + x1 * x1 + a - s * s * (x3 - x1) - 2 * s * y1,
            h == x3 + x2 + x1 - s * s,
    ;
    assert(cubic(x3, a, b) - l * l == e1 + (x3 - x1) * g3) by {
        let t = x3 - x1;
        let squares = x3 * x3 + x3 * x1 + x1 * x1;
        let bend = s * s * t + 2 * s * y1;
        lemma_difference_of_cubes(x3, x1);
        lemma_square_of_line(s, t, y1);
        assert(a * x3 - a * x1 == t * a) by (nonlinear_arith)
            requires
                t == x3 - x1,
        ;
        assert(t * (squares + a - bend) == t * squares + t * a - t * bend) by (nonlinear_arith);
        assert(g3 == squares + a - bend);
    }
    lemma_small_mod(0, p as nat);
    // each summand vanishes modulo p
    lemma_mod_equivalence(cubic(x1, a, b), y1 * y1, p);
    lemma_mod_equivalence(x3, s * s - x1 - x2, p);
    assert(x3 - (s * s - x1 - x2) == h);
    lemma_mul_congruent(x3 - x2, h, x3 - x2, 0, p);
    assert((x3 - x2) * 0 == 0);
    lemma_add_congruent(g2, (x3 - x2) * h, 0, 0, p);
    lemma_mul_congruent(x3 - x1, g3, x3 - x1, 0, p);
    assert((x3 - x1) * 0 == 0);
    lemma_add_congruent(e1, (x3 - x1) * g3, 0, 0, p);
    lemma_mod_equivalence(cubic(x3, a, b), l * l, p);
    // y3 is congruent to -l
    assert(s * (x1 - x3) - y1 == -l) by (nonlinear_arith)
        requires
            l == s * (x3 - x1) + y1,
    ;
    lemma_mul_congruent(y3, y3, -l, -l, p);
    assert((-l) * (-l) == l * l) by (nonlinear_arith);
}

/// For two points of the curve with different `x`, the quotient of the line through
/// them vanishes at the second.
proof fn lemma_chord_meets_second(
    x1: int,
    y1: int,
    x2: int,
    y2: int,
    s: int,
    a: int,
    b: int,
    p: int,
)
    requires
        is_prime(p),
        (y1 * y1) % p == cubic(x1, a, b) % p,
        (y2 * y2) % p == cubic(x2, a, b) % p,
        (x2 - x1) % p != 0,
        (s * (x2 - x1)) % p == (y2 - y1) % p,
    ensures
        line_quotient(x1, y1, x2, s, a) % p == 0,
{
    let d = x2 - x1;
    let g2 = line_quotient(x1, y1, x2, s, a);
    let w = s * d;
    let v = y2 - y1;
    let e1 = cubic(x1, a, b) - y1 * y1;
    let e2 = cubic(x2, a, b) - y2 * y2;
    assert(d * g2 == e2 - e1 + (v * v - w * w) + (2 * y1) * (v - w)) by {
        let squares = x2 * x2 + x2 * x1 + x1 * x1;
        let bend = s * s * d + 2 * s * y1;
        lemma_difference_of_cubes(x2, x1);
        assert(a * x2 - a * x1 == d * a) by (nonlinear_arith)
            requires
                d == x2 - x1,
        ;
        assert(d * bend == w * w + (2 * y1) * w) by (nonlinear_arith)
            requires
                bend == s * s * d + 2 * s * y1,
                w == s * d,
        ;
        assert(v * v + (2 * y1) * v == y2 * y2 - y1 * y1) by (nonlinear_arith)
            requires
                v == y2 - y1,
        ;
        assert((2 * y1) * (v - w) == (2 * y1) * v - (2 * y1) * w) by (nonlinear_arith);
        assert(d * (squares + a - bend) == d * squares + d * a - d * bend) by (nonlinear_arith);
        assert(g2 == squares + a - bend);
    }
    lemma_small_mod(0, p as nat);
    lemma_mod_equivalence(cubic(x1, a, b), y1 * y1, p);
    lemma_mod_equivalence(cubic(x2, a, b), y2 * y2, p);
    lemma_sub_congruent(e2, e1, 0, 0, p);
    lemma_mul_congruent(v, v, w, w, p);
    lemma_mod_equivalence(v * v, w * w, p);
    lemma_mod_equivalence(v, w, p);
    lemma_mul_congruent(2 * y1, v - w, 2 * y1, 0, p);
    assert((2 * y1) * 0 == 0);
    lemma_add_congruent(e2 - e1, v * v - w * w, 0, 0, p);
    lemma_add_congruent(e2 - e1 + (v * v - w * w), (2 * y1) * (v - w), 0, 0, p);
    assert(d * 0 == 0);
    lemma_mod_cancel(d, g2, 0, p);
}

/// Two different elements of one field have a difference that is not zero.
pub proof fn lemma_difference_not_zero(x1: FieldValue, x2: FieldValue)
    requires
        x1.wf(),
        x2.wf(),
        x1.prime == x2.prime,
        x1 != x2,
    ensures
        x2.sub(x1).wf(),
        x2.sub(x1).num != 0,
{
    let p = x1.prime;
    lemma_mod_bound(x2.num - x1.num, p);
    lemma_mod_equivalence(x2.num, x1.num, p);
    lemma_small_mod(x1.num as nat, p as nat);
    lemma_small_mod(x2.num as nat, p as nat);
}

/// In a field of odd prime order, the double of an element that is not zero is not zero.
pub proof fn lemma_double_not_zero(y: FieldValue)
    requires
        y.wf(),
        is_prime(y.prime),
        y.prime != 2,
        y.num != 0,
    ensures
        y.scale(2).wf(),
        y.scale(2).num != 0,
{
    let p = y.prime;
    lemma_mod_bound(y.num * 2, p);
    lemma_small_mod(y.num as nat, p as nat);
    if y.scale(2).num == 0 {
        lemma_small_mod(2, p as nat);
        lemma_prime_divides_product(y.num, 2, p);
    }
}

/// The reflected third point of a line through `(x1, y1)`: with `x3` congruent to
/// `s² - x1 - x2`, where the line meets the curve again at `x2`, the point
/// `(x3, s·(x1 - x3) - y1)` lies on the curve.
proof fn lemma_reflection_on_curve(
    s: FieldValue,
    x1: FieldValue,
    y1: FieldValue,
    x2: int,
    x3: FieldValue,
    a: FieldValue,
    b: FieldValue,
)
    requires
        s.wf() && x1.wf() && y1.wf() && x3.wf() && a.wf() && b.wf(),
        s.prime == a.prime && x1.prime == a.prime && y1.prime == a.prime && x3.prime == a.prime
            && b.prime == a.prime,
        on_curve(x1, y1, a, b),
        line_quotient(x1.num, y1.num, x2, s.num, a.num) % a.prime == 0,
        x3.num % a.prime == (s.num * s.num - x1.num - x2) % a.prime,
    ensures
        s.mul(x1.sub(x3)).sub(y1).wf(),
        on_curve(x3, s.mul(x1.sub(x3)).sub(y1), a, b),
{
    let p = a.prime;
    let y3 = s.mul(x1.sub(x3)).sub(y1);
    let run = x1.num - x3.num;
    lemma_mod_bound((s.num * (run % p)) % p - y1.num, p);
    lemma_small_mod(y3.num as nat, p as nat);
    lemma_small_mod(y1.num as nat, p as nat);
    lemma_mul_mod_noop_general(s.num, run, p);
    lemma_mod_twice(s.num * (run % p), p);
    lemma_sub_congruent((s.num * (run % p)) % p, y1.num, s.num * run, y1.num, p);
    lemma_on_curve_congruence(x1, y1, a, b);
    lemma_line_meets_curve(x1.num, y1.num, x2, s.num, x3.num, y3.num, a.num, b.num, p);
    lemma_on_curve_congruence(x3, y3, a, b);
}

/// The slope of the chord through two points of different `x`, times the run, is
/// congruent to the rise.
proof fn lemma_chord_slope_times_run(x1: FieldValue, y1: FieldValue, x2: FieldValue, y2: FieldValue)
    requires
        x1.wf() && y1.wf() && x2.wf() && y2.wf(),
        y1.prime == x1.prime && x2.prime == x1.prime && y2.prime == x1.prime,
        is_prime(x1.prime),
        x1 != x2,
    ensures
        chord_slope(x1, y1, x2, y2).wf(),
        chord_slope(x1, y1, x2, y2).prime == x1.prime,
        (chord_slope(x1, y1, x2, y2).num * (x2.num - x1.num)) % x1.prime == (y2.num - y1.num)
            % x1.prime,
{
    let p = x1.prime;
    let dy = y2.sub(y1);
    let dx = x2.sub(x1);
    let s = chord_slope(x1, y1, x2, y2);
    lemma_difference_not_zero(x1, x2);
    lemma_mod_bound(y2.num - y1.num, p);
    lemma_mod_bound(dy.num * (pow(dx.num, (p - 2) as nat) % p), p);
    lemma_div_then_mul(dy, dx);
    lemma_mul_mod_noop_general(s.num, x2.num - x1.num, p);
}

/// The sum of two points of the curve with different `x`, over a field of prime
/// order, is a point of the curve.
pub proof fn lemma_chord_on_curve(
    x1: FieldValue,
    y1: FieldValue,
    x2: FieldValue,
    y2: FieldValue,
    a: FieldValue,
    b: FieldValue,
)
    requires
        (PointValue::Finite { x: x1, y: y1, a, b }).wf(),
        (PointValue::Finite { x: x2, y: y2, a, b }).wf(),
        is_prime(a.prime),
        x1 != x2,
    ensures
        chord_sum(x1, y1, x2, y2, a, b).wf(),
{
    let p = a.prime;
    let s = chord_slope(x1, y1, x2, y2);
    let x3 = s.pow(2).sub(x1).sub(x2);
    lemma_difference_not_zero(x1, x2);
    lemma_chord_slope_times_run(x1, y1, x2, y2);
    lemma_on_curve_congruence(x1, y1, a, b);
    lemma_on_curve_congruence(x2, y2, a, b);
    lemma_chord_meets_second(x1.num, y1.num, x2.num, y2.num, s.num, a.num, b.num, p);
    // x3 is congruent to s² - x1 - x2
    lemma_square_is_pow2(s.num);
    let square = s.num * s.num;
    lemma_mod_twice(square, p);
    lemma_small_mod(x1.num as nat, p as nat);
    lemma_small_mod(x2.num as nat, p as nat);
    lemma_sub_congruent(square % p, x1.num, square, x1.num, p);
    lemma_mod_twice(square % p - x1.num, p);
    lemma_sub_congruent((square % p - x1.num) % p, x2.num, square - x1.num, x2.num, p);
    lemma_mod_bound((square % p - x1.num) % p - x2.num, p);
    lemma_small_mod(x3.num as nat, p as nat);
    lemma_reflection_on_curve(s, x1, y1, x2.num, x3, a, b);
}

/// The double of a point of the curve whose `y` is not zero, over a field of odd prime
/// order, is a point of the curve.
pub proof fn lemma_tangent_on_curve(x: FieldValue, y: FieldValue, a: FieldValue, b: FieldValue)
    requires
        (PointValue::Finite { x, y, a, b }).wf(),
        is_prime(a.prime),
        a.prime != 2,
        y.num != 0,
    ensures
        tangent_sum(x, y, a, b).wf(),
{
    let p = a.prime;
    let rise = x.pow(2).scale(3).add(a);
    let run = y.scale(2);
    let s = tangent_slope(x, y, a);
    let x3 = s.pow(2).sub(x.scale(2));
    lemma_small_mod(x.num as nat, p as nat);
    lemma_small_mod(y.num as nat, p as nat);
    lemma_small_mod(a.num as nat, p as nat);
    lemma_double_not_zero(y);
    let xx = x.num * x.num;
    lemma_square_is_pow2(x.num);
    lemma_mod_bound((xx % p) * 3 % p + a.num, p);
    lemma_mod_bound(rise.num * (pow(run.num, (p - 2) as nat) % p), p);
    // the slope times the run is the rise, which is congruent to 3·x² + a
    lemma_div_then_mul(rise, run);
    lemma_mul_mod_noop_general(s.num, y.num * 2, p);
    lemma_mul_mod_noop_general(xx, 3, p);
    lemma_mod_twice((xx % p) * 3, p);
    lemma_add_congruent((xx % p) * 3 % p, a.num, xx * 3, a.num, p);
    lemma_small_mod(rise.num as nat, p as nat);
    lemma_mod_equivalence(xx * 3 + a.num, s.num * (y.num * 2), p);
    assert(line_quotient(x.num, y.num, x.num, s.num, a.num) == xx * 3 + a.num - s.num * (y.num
        * 2)) by (nonlinear_arith)
        requires
            xx == x.num * x.num,
            line_quotient(x.num, y.num, x.num, s.num, a.num) == x.num * x.num + x.num * x.num
                + x.num * x.num + a.num - s.num * s.num * (x.num - x.num) - 2 * s.num * y.num,
    ;
    // x3 is congruent to s² - 2·x
    lemma_square_is_pow2(s.num);
    let square = s.num * s.num;
    lemma_mod_twice(square, p);
    lemma_mod_twice(x.num * 2, p);
    lemma_sub_congruent(square % p, (x.num * 2) % p, square, x.num * 2, p);
    lemma_mod_bound(square % p - (x.num * 2) % p, p);
    lemma_small_mod(x3.num as nat, p as nat);
    lemma_reflection_on_curve(s, x, y, x.num, x3, a, b);
}

/// The sum of two points of one curve is a point of that curve: addition never leaves
/// the curve, by the chord or by the tangent.
pub proof fn lemma_sum_on_curve(p: PointValue, q: PointValue)
    requires
        p.wf(),
        q.wf(),
        p.same_curve(q),
        p is Finite && q is Finite ==> is_prime(p.a().prime),
        p.meets_by_tangent(q) ==> p.a().prime != 2,
    ensures
        p.add(q).wf(),
        p.add(q).same_curve(p),
{
    match (p, q) {
        (PointValue::Finite { x: x1, y: y1, a, b }, PointValue::Finite { x: x2, y: y2, .. }) => {
            if x1 != x2 {
                lemma_chord_on_curve(x1, y1, x2, y2, a, b);
            } else if y1.num != 0 {
                lemma_tangent_on_curve(x1, y1, a, b);
            }
        },
        _ => {},
    }
}

/// The point at infinity is the identity: added on either side to a finite point of
/// its curve, it gives that point.
pub proof fn lemma_infinity_is_identity(p: PointValue, infinity: PointValue)
    requires
        p is Finite,
        infinity is Infinity,
        p.same_curve(infinity),
    ensures
        p.add(infinity) == p,
        infinity.add(p) == p,
{
}

/// A point whose `y` is zero is its own inverse: added to itself it gives the point
/// at infinity.
pub proof fn lemma_double_of_zero_ordinate(p: PointValue)
    requires
        p matches PointValue::Finite { y, .. } && y.num == 0,
    ensures
        p.add(p) == (PointValue::Infinity { a: p.a(), b: p.b() }),
{
}

/// The sum of two finite points of one curve with different `x`, over a field of prime
/// order, does not depend on their order.
pub proof fn lemma_add_commutative(p: PointValue, q: PointValue)
    requires
        p.wf(),
        q.wf(),
        p.same_curve(q),
        p.meets_by_chord(q),
        is_prime(p.a().prime),
    ensures
        p.add(q) == q.add(p),
{
    let m = p.a().prime;
    match (p, q) {
        (PointValue::Finite { x: x1, y: y1, a, b }, PointValue::Finite { x: x2, y: y2, .. }) => {
            let s = chord_slope(x1, y1, x2, y2);
            let t = chord_slope(x2, y2, x1, y1);
            let run = x2.num - x1.num;
            let rise = y2.num - y1.num;
            lemma_chord_slope_times_run(x1, y1, x2, y2);
            lemma_chord_slope_times_run(x2, y2, x1, y1);
            lemma_difference_not_zero(x1, x2);
            lemma_mod_equivalence(x2.num, x1.num, m);
            lemma_small_mod(x1.num as nat, m as nat);
            lemma_small_mod(x2.num as nat, m as nat);
            lemma_small_mod(0, m as nat);
            // both slopes are one: their difference times the run vanishes
            assert(s == t) by {
                lemma_add_congruent(s.num * run, t.num * (-run), rise, -rise, m);
                assert(s.num * run + t.num * (-run) == run * (s.num - t.num)) by (nonlinear_arith);
                assert(run * 0 == 0);
                lemma_mod_cancel(run, s.num - t.num, 0, m);
                lemma_mod_equivalence(s.num, t.num, m);
                lemma_small_mod(s.num as nat, m as nat);
                lemma_small_mod(t.num as nat, m as nat);
            }
            // both abscissas are s² - x1 - x2
            let square = s.pow(2);
            let x3 = square.sub(x1).sub(x2);
            let x4 = square.sub(x2).sub(x1);
            assert(x3 == x4) by {
                lemma_mod_twice(square.num - x1.num, m);
                lemma_mod_twice(square.num - x2.num, m);
                lemma_sub_congruent((square.num - x1.num) % m, x2.num, square.num - x1.num, x2.num, m);
                lemma_sub_congruent((square.num - x2.num) % m, x1.num, square.num - x2.num, x1.num, m);
            }
            // the ordinates differ by s·run - rise, which vanishes
            let y3 = s.mul(x1.sub(x3)).sub(y1);
            let y4 = s.mul(x2.sub(x3)).sub(y2);
            assert(y3 == y4) by {
                let u = x1.num - x3.num;
                let v = x2.num - x3.num;
                lemma_mul_mod_noop_general(s.num, u, m);
                lemma_mul_mod_noop_general(s.num, v, m);
                lemma_mod_twice(s.num * (u % m), m);
                lemma_mod_twice(s.num * (v % m), m);
                lemma_small_mod(y1.num as nat, m as nat);
                lemma_small_mod(y2.num as nat, m as nat);
                lemma_sub_congruent((s.num * (u % m)) % m, y1.num, s.num * u, y1.num, m);
                lemma_sub_congruent((s.num * (v % m)) % m, y2.num, s.num * v, y2.num, m);
                lemma_mod_equivalence(s.num * run, rise, m);
                assert((s.num * v - y2.num) - (s.num * u - y1.num) == s.num * run - rise)
                    by (nonlinear_arith)
                    requires
                        u == x1.num - x3.num,
                        v == x2.num - x3.num,
                        run == x2.num - x1.num,
                        rise == y2.num - y1.num,
                ;
                lemma_mod_equivalence(s.num * v - y2.num, s.num * u - y1.num, m);
            }
        },
        _ => {},
    }
}

} // verus!
