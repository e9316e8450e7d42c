//! The curve equation `y^2 = x^3 + a*x` modulo `p`, and the proof that
//! adding and multiplying points keeps them on the curve.

use crate::bignat::{big_add, big_mul, big_rem};
use crate::crypto::curve::{
    add_spec, chord_point, div_mod, infinity_point, mul_from, mul_spec, same_curve, slope,
    sub_mod, EllipticCurvePoint, PointModel,
};
use crate::crypto::{inverse_mod, is_inverse};
use vstd::arithmetic::div_mod::{
    lemma_add_mod_noop, lemma_mod_equivalence, lemma_mod_multiples_vanish, lemma_mod_twice,
    lemma_mul_mod_noop, lemma_small_mod, lemma_sub_mod_noop,
};
use vstd::prelude::*;

verus! {

/// Whether `u` and `v` leave the same remainder modulo `p`.
pub open spec fn congruent(u: int, v: int, p: int) -> bool {
    u % p == v % p
}

/// Whether a point satisfies the curve equation. The point at infinity
/// does; a finite point needs a field that is not empty.
pub open spec fn on_curve(pt: PointModel) -> bool {
    pt.infinity || (pt.p > 0 && congruent(
        (pt.y * pt.y) as int,
        (pt.x * pt.x * pt.x + pt.a * pt.x) as int,
        pt.p as int,
    ))
}

proof fn lemma_cong_mod(u: int, p: int)
    requires
        p > 0,
    ensures
        congruent(u % p, u, p),
{
    lemma_mod_twice(u, p);
}

proof fn lemma_cong_add(u1: int, v1: int, u2: int, v2: int, p: int)
    requires
        p > 0,
        congruent(u1, v1, p),
        congruent(u2, v2, p),
    ensures
        congruent(u1 + u2, v1 + v2, p),
{
    lemma_add_mod_noop(u1, u2, p);
    lemma_add_mod_noop(v1, v2, p);
}

proof fn lemma_cong_sub(u1: int, v1: int, u2: int, v2: int, p: int)
    requires
        p > 0,
        congruent(u1, v1, p),
        congruent(u2, v2, p),
    ensures
        congruent(u1 - u2, v1 - v2, p),
{
    lemma_sub_mod_noop(u1, u2, p);
    lemma_sub_mod_noop(v1, v2, p);
}

proof fn lemma_cong_mul(u1: int, v1: int, u2: int, v2: int, p: int)
    requires
        p > 0,
        congruent(u1, v1, p),
        congruent(u2, v2, p),
    ensures
        congruent(u1 * u2, v1 * v2, p),
{
    lemma_mul_mod_noop(u1, u2, p);
    lemma_mul_mod_noop(v1, v2, p);
}

/// A difference modulo `p` is congruent to the difference.
proof fn lemma_sub_mod_cong(u: nat, v: nat, p: nat)
    requires
        p > 0,
        sub_mod(u, v, p) is Some,
    ensures
        congruent(sub_mod(u, v, p)->0 as int, u - v, p as int),
{
    let pi = p as int;
    if u >= v {
        lemma_cong_mod(u - v, pi);
    } else {
        lemma_cong_mod(p + u - v, pi);
        lemma_mod_multiples_vanish(1, u - v, pi);
        assert(pi * 1 + (u - v) == p + u - v);
    }
}

/// A quotient modulo `p` times its divisor is congruent to the dividend,
/// and the divisor can be cancelled from a product that is congruent to 0.
proof fn lemma_div_mod_cong(num: nat, den: nat, p: nat, other: int)
    requires
        p > 0,
        div_mod(num, den, p) is Some,
    ensures
        congruent((div_mod(num, den, p)->0) as int * (den as int), num as int, p as int),
        congruent(other * (den as int), 0, p as int) ==> congruent(other, 0, p as int),
{
    let pi = p as int;
    let n = num as int;
    let d = den as int;
    let inv = (inverse_mod(den, p)->0) as int;
    assert(is_inverse(den, inverse_mod(den, p)->0, p));
    let s = (div_mod(num, den, p)->0) as int;
    assert(s == (n * inv) % pi);
    assert(congruent(d * inv, 1, pi));
    lemma_cong_mod(n * inv, pi);
    lemma_cong_mul(s, n * inv, d, d, pi);
    assert((n * inv) * d == n * (d * inv)) by (nonlinear_arith);
    lemma_cong_mul(n, n, d * inv, 1, pi);
    assert(congruent(s * d, n, pi));
    if congruent(other * d, 0, pi) {
        lemma_cong_mul(other * d, 0, inv, inv, pi);
        assert((other * d) * inv == other * (d * inv)) by (nonlinear_arith);
        lemma_cong_mul(other, other, d * inv, 1, pi);
        assert(0 * inv == 0);
        assert(other * 1 == other);
    }
}

/// How far the point of the line with slope `s` through `(x1, y1)` at `x`
/// is from the curve: `x^3 + a*x` less the square of the line's height.
pub open spec fn residual(x: int, a: int, s: int, x1: int, y1: int) -> int {
    x * x * x + a * x - (s * (x - x1) + y1) * (s * (x - x1) + y1)
}

/// The residual at `x1 + t`, written over the residual at `x1`.
proof fn lemma_residual_shift(a: int, s: int, x1: int, y1: int, t: int)
    ensures
        residual(x1 + t, a, s, x1, y1) == residual(x1, a, s, x1, y1) + t * ((3 * x1 * x1 + a - 2
            * s * y1) + (3 * x1 - s * s) * t + t * t),
{
    let x = x1 + t;
    let u = s * t;
    let height = s * (x - x1) + y1;
    assert(height == u + y1) by (nonlinear_arith)
        requires
            x == x1 + t,
            u == s * t,
            height == s * (x - x1) + y1,
    ;
    assert(height * height == u * u + 2 * (u * y1) + y1 * y1) by (nonlinear_arith)
        requires
            height == u + y1,
    ;
    assert(x * x * x == x1 * x1 * x1 + 3 * (x1 * x1 * t) + 3 * (x1 * t * t) + t * t * t)
        by (nonlinear_arith)
        requires
            x == x1 + t,
    ;
    assert(a * x == a * x1 + a * t) by (nonlinear_arith)
        requires
            x == x1 + t,
    ;
    let base = s * (x1 - x1) + y1;
    assert(base == y1) by (nonlinear_arith)
        requires
            base == s * (x1 - x1) + y1,
    ;
    let slope_term = 3 * x1 * x1 + a - 2 * s * y1;
    let square_term = (3 * x1 - s * s) * t;
    let rest = slope_term + square_term + t * t;
    assert(t * slope_term == 3 * (x1 * x1 * t) + a * t - 2 * (u * y1)) by (nonlinear_arith)
        requires
            slope_term == 3 * x1 * x1 + a - 2 * s * y1,
            u == s * t,
    ;
    assert(t * square_term == 3 * (x1 * t * t) - u * u) by (nonlinear_arith)
        requires
            square_term == (3 * x1 - s * s) * t,
            u == s * t,
    ;
    assert(t * rest == t * slope_term + t * square_term + t * (t * t)) by (nonlinear_arith)
        requires
            rest == slope_term + square_term + t * t,
    ;
    assert(t * (t * t) == t * t * t) by (nonlinear_arith);
}

/// The slope of the curve at `(x1, y1)` less that of a line with slope `s`,
/// both times `2 * y1`.
pub open spec fn tangent_gap(a: int, s: int, x1: int, y1: int) -> int {
    3 * x1 * x1 + a - 2 * s * y1
}

/// The residual at the third point of a tangent, written over the residual
/// at the point of contact.
proof fn lemma_tangent_residual(a: int, s: int, x1: int, y1: int)
    ensures
        residual(s * s - 2 * x1, a, s, x1, y1) == residual(x1, a, s, x1, y1) + (s * s - 3 * x1)
            * tangent_gap(a, s, x1, y1),
{
    let t = s * s - 3 * x1;
    lemma_residual_shift(a, s, x1, y1, t);
    assert(x1 + t == s * s - 2 * x1);
    assert((3 * x1 - s * s) * t + t * t == 0) by (nonlinear_arith)
        requires
            t == s * s - 3 * x1,
    ;
}

/// The residuals at the second and at the third point of a line through
/// `(x1, y1)`, written over the residual at the first: both differ from it
/// by a multiple of one and the same number.
proof fn lemma_chord_residual(a: int, s: int, x1: int, y1: int, x2: int) -> (rest: int)
    ensures
        residual(s * s - x1 - x2, a, s, x1, y1) == residual(x1, a, s, x1, y1) + (s * s - 2 * x1
            - x2) * rest,
        residual(x2, a, s, x1, y1) == residual(x1, a, s, x1, y1) + (x2 - x1) * rest,
{
    let t2 = x2 - x1;
    let t3 = s * s - 2 * x1 - x2;
    let gap = tangent_gap(a, s, x1, y1);
    let rest = gap - t2 * t3;
    lemma_residual_shift(a, s, x1, y1, t3);
    assert(x1 + t3 == s * s - x1 - x2);
    assert((3 * x1 - s * s) * t3 + t3 * t3 == -(t2 * t3)) by (nonlinear_arith)
        requires
            t2 == x2 - x1,
            t3 == s * s - 2 * x1 - x2,
    ;
    lemma_residual_shift(a, s, x1, y1, t2);
    assert(x1 + t2 == x2);
    assert((3 * x1 - s * s) * t2 + t2 * t2 == -(t2 * t3)) by (nonlinear_arith)
        requires
            t2 == x2 - x1,
            t3 == s * s - 2 * x1 - x2,
    ;
    rest
}

/// A point whose coordinates are congruent to those of the third point of
/// a line lies on the curve, where the residual there is congruent to 0.
proof fn lemma_point_from_residual(
    p: int,
    a: int,
    s: int,
    x1: int,
    y1: int,
    xe: int,
    x3: int,
    y3: int,
)
    requires
        p > 0,
        congruent(x3, xe, p),
        congruent(y3, s * (x1 - x3) - y1, p),
        congruent(residual(xe, a, s, x1, y1), 0, p),
    ensures
        congruent(y3 * y3, x3 * x3 * x3 + a * x3, p),
{
    let height = s * (xe - x1) + y1;
    // y3 is congruent to the height, negated
    lemma_cong_sub(x1, x1, x3, xe, p);
    lemma_cong_mul(s, s, x1 - x3, x1 - xe, p);
    lemma_cong_sub(s * (x1 - x3), s * (x1 - xe), y1, y1, p);
    assert(s * (x1 - xe) - y1 == -height) by (nonlinear_arith)
        requires
            height == s * (xe - x1) + y1,
    ;
    assert(congruent(y3, -height, p));
    lemma_cong_mul(y3, -height, y3, -height, p);
    assert((-height) * (-height) == height * height) by (nonlinear_arith);
    assert(congruent(y3 * y3, height * height, p));
    // the right side of the equation at x3 and at xe
    lemma_cong_mul(x3, xe, x3, xe, p);
    lemma_cong_mul(x3 * x3, xe * xe, x3, xe, p);
    lemma_cong_mul(a, a, x3, xe, p);
    lemma_cong_add(x3 * x3 * x3, xe * xe * xe, a * x3, a * xe, p);
    // the residual at xe says that both sides agree there
    lemma_mod_equivalence(xe * xe * xe + a * xe, height * height, p);
    lemma_small_mod(0, p as nat);
}

/// The residual of any line at a point of the curve, taken at that point.
proof fn lemma_residual_at_start(pt: PointModel, s: int)
    requires
        on_curve(pt),
        !pt.infinity,
    ensures
        congruent(residual(pt.x as int, pt.a as int, s, pt.x as int, pt.y as int), 0, pt.p as int),
{
    let x1 = pt.x as int;
    let y1 = pt.y as int;
    let a = pt.a as int;
    let p = pt.p as int;
    let base = s * (x1 - x1) + y1;
    assert(base == y1) by (nonlinear_arith)
        requires
            base == s * (x1 - x1) + y1,
    ;
    lemma_mod_equivalence(x1 * x1 * x1 + a * x1, y1 * y1, p);
    lemma_small_mod(0, p as nat);
}

/// The residual at the third point of the tangent at a point of the curve
/// is congruent to 0.
proof fn lemma_tangent_case(pt: PointModel, s: nat)
    requires
        on_curve(pt),
        !pt.infinity,
        div_mod((3 * pt.x * pt.x + pt.a) % pt.p, (2 * pt.y) % pt.p, pt.p) == Some(s),
    ensures
        congruent(
            residual(s * s - pt.x - pt.x, pt.a as int, s as int, pt.x as int, pt.y as int),
            0,
            pt.p as int,
        ),
{
    let x1 = pt.x as int;
    let y1 = pt.y as int;
    let a = pt.a as int;
    let p = pt.p as int;
    let si = s as int;
    let num = (3 * pt.x * pt.x + pt.a) % pt.p;
    let den = (2 * pt.y) % pt.p;
    lemma_div_mod_cong(num, den, pt.p, 0);
    lemma_cong_mod(2 * y1, p);
    lemma_cong_mod(3 * x1 * x1 + a, p);
    lemma_cong_mul(si, si, den as int, 2 * y1, p);
    assert(congruent(si * (2 * y1), 3 * x1 * x1 + a, p));
    assert(si * (2 * y1) == 2 * si * y1) by (nonlinear_arith);
    let gap = tangent_gap(a, si, x1, y1);
    lemma_mod_equivalence(3 * x1 * x1 + a, 2 * si * y1, p);
    lemma_small_mod(0, p as nat);
    assert(congruent(gap, 0, p));
    lemma_residual_at_start(pt, si);
    lemma_tangent_residual(a, si, x1, y1);
    let t = si * si - 3 * x1;
    lemma_cong_mul(t, t, gap, 0, p);
    assert(t * 0 == 0);
    lemma_cong_add(residual(x1, a, si, x1, y1), 0, t * gap, 0, p);
    assert(si * si - x1 - x1 == si * si - 2 * x1);
}

/// The residual at the third point of the line through two points of the
/// curve with different `x` is congruent to 0.
proof fn lemma_chord_case(lhs: PointModel, rhs: PointModel, s: nat)
    requires
        on_curve(lhs),
        on_curve(rhs),
        !lhs.infinity,
        !rhs.infinity,
        lhs.a == rhs.a,
        lhs.p == rhs.p,
        sub_mod(rhs.y, lhs.y, lhs.p) is Some,
        sub_mod(rhs.x, lhs.x, lhs.p) is Some,
        div_mod(sub_mod(rhs.y, lhs.y, lhs.p)->0, sub_mod(rhs.x, lhs.x, lhs.p)->0, lhs.p) == Some(
            s,
        ),
    ensures
        congruent(
            residual(s * s - lhs.x - rhs.x, lhs.a as int, s as int, lhs.x as int, lhs.y as int),
            0,
            lhs.p as int,
        ),
{
    let x1 = lhs.x as int;
    let y1 = lhs.y as int;
    let x2 = rhs.x as int;
    let y2 = rhs.y as int;
    let a = lhs.a as int;
    let p = lhs.p as int;
    let si = s as int;
    let num = sub_mod(rhs.y, lhs.y, lhs.p)->0;
    let den = sub_mod(rhs.x, lhs.x, lhs.p)->0;
    lemma_sub_mod_cong(rhs.y, lhs.y, lhs.p);
    lemma_sub_mod_cong(rhs.x, lhs.x, lhs.p);
    let rest = lemma_chord_residual(a, si, x1, y1, x2);
    lemma_div_mod_cong(num, den, lhs.p, rest);
    // the line meets the second point
    let height = si * (x2 - x1) + y1;
    lemma_cong_mul(si, si, den as int, x2 - x1, p);
    assert(congruent(si * (x2 - x1), y2 - y1, p));
    lemma_cong_add(si * (x2 - x1), y2 - y1, y1, y1, p);
    assert(congruent(height, y2, p));
    lemma_cong_mul(height, y2, height, y2, p);
    assert(congruent(height * height, x2 * x2 * x2 + a * x2, p));
    lemma_mod_equivalence(x2 * x2 * x2 + a * x2, height * height, p);
    lemma_small_mod(0, p as nat);
    assert(congruent(residual(x2, a, si, x1, y1), 0, p));
    // so the rest is congruent to 0
    lemma_residual_at_start(lhs, si);
    let start = residual(x1, a, si, x1, y1);
    lemma_cong_sub(residual(x2, a, si, x1, y1), 0, start, 0, p);
    assert(congruent((x2 - x1) * rest, 0, p));
    lemma_cong_mul(rest, rest, den as int, x2 - x1, p);
    assert(rest * (x2 - x1) == (x2 - x1) * rest) by (nonlinear_arith);
    assert(congruent(rest, 0, p));
    // and with it the residual at the third point
    let t3 = si * si - 2 * x1 - x2;
    lemma_cong_mul(t3, t3, rest, 0, p);
    assert(t3 * 0 == 0);
    lemma_cong_add(start, 0, t3 * rest, 0, p);
}

/// A sum belongs to the curve of its operands.
pub proof fn lemma_add_same_curve(lhs: PointModel, rhs: PointModel)
    requires
        add_spec(lhs, rhs) is Some,
    ensures
        same_curve(lhs, rhs),
        same_curve(lhs, add_spec(lhs, rhs)->0),
{
}

/// The sum of two points of a curve lies on that curve: the curve equation
/// holds of it wherever the sum has a value.
pub proof fn lemma_add_on_curve(lhs: PointModel, rhs: PointModel)
    requires
        on_curve(lhs),
        on_curve(rhs),
        add_spec(lhs, rhs) is Some,
    ensures
        on_curve(add_spec(lhs, rhs)->0),
{
    if lhs.infinity || rhs.infinity || (lhs.x == rhs.x && lhs.y != rhs.y) {
    } else {
        let p = lhs.p;
        let pi = p as int;
        let s = slope(lhs, rhs)->0;
        let si = s as int;
        let x1 = lhs.x as int;
        let y1 = lhs.y as int;
        let x2 = rhs.x as int;
        let a = lhs.a as int;
        let xe = si * si - x1 - x2;
        if lhs.x == rhs.x {
            lemma_tangent_case(lhs, s);
        } else {
            lemma_chord_case(lhs, rhs, s);
        }
        assert(congruent(residual(xe, a, si, x1, y1), 0, pi));
        let r = chord_point(lhs, rhs, s)->0;
        let x3 = sub_mod((s * s) % p, (lhs.x + rhs.x) % p, p)->0;
        let xd = sub_mod(lhs.x, x3, p)->0;
        let y3 = sub_mod((s * xd) % p, lhs.y, p)->0;
        assert(r.x == x3 && r.y == y3);
        // x3 is congruent to s^2 - x1 - x2
        lemma_sub_mod_cong((s * s) % p, (lhs.x + rhs.x) % p, p);
        lemma_cong_mod(si * si, pi);
        lemma_cong_mod(x1 + x2, pi);
        lemma_cong_sub(((s * s) % p) as int, si * si, ((lhs.x + rhs.x) % p) as int, x1 + x2, pi);
        assert(congruent(x3 as int, xe, pi));
        // y3 is congruent to s * (x1 - x3) - y1
        lemma_sub_mod_cong(lhs.x, x3, p);
        lemma_sub_mod_cong((s * xd) % p, lhs.y, p);
        lemma_cong_mod(si * (xd as int), pi);
        lemma_cong_mul(si, si, xd as int, x1 - x3, pi);
        lemma_cong_sub(((s * xd) % p) as int, si * (x1 - x3), y1, y1, pi);
        assert(congruent(y3 as int, si * (x1 - x3) - y1, pi));
        lemma_point_from_residual(pi, a, si, x1, y1, xe, x3 as int, y3 as int);
    }
}

/// A multiple belongs to the curve of its point.
pub proof fn lemma_mul_same_curve(pt: PointModel, k: nat)
    requires
        mul_spec(pt, k) is Some,
    ensures
        same_curve(pt, mul_spec(pt, k)->0),
{
    lemma_mul_from_same_curve(infinity_point(pt.a, pt.p), pt, k);
}

proof fn lemma_mul_from_same_curve(acc: PointModel, addend: PointModel, k: nat)
    requires
        same_curve(acc, addend),
        mul_from(acc, addend, k) is Some,
    ensures
        same_curve(acc, mul_from(acc, addend, k)->0),
    decreases k,
{
    if k > 0 {
        let next = if k % 2 == 1 {
            add_spec(acc, addend)
        } else {
            Some(acc)
        };
        lemma_mul_from_same_curve(next->0, add_spec(addend, addend)->0, k / 2);
    }
}

/// Every multiple of a point of the curve lies on the curve.
pub proof fn lemma_mul_on_curve(pt: PointModel, k: nat)
    requires
        on_curve(pt),
        mul_spec(pt, k) is Some,
    ensures
        on_curve(mul_spec(pt, k)->0),
{
    lemma_mul_from_on_curve(infinity_point(pt.a, pt.p), pt, k);
}

/// Double-and-add keeps its accumulator on the curve.
proof fn lemma_mul_from_on_curve(acc: PointModel, addend: PointModel, k: nat)
    requires
        on_curve(acc),
        on_curve(addend),
        mul_from(acc, addend, k) is Some,
    ensures
        on_curve(mul_from(acc, addend, k)->0),
    decreases k,
{
    if k > 0 {
        let next = if k % 2 == 1 {
            add_spec(acc, addend)
        } else {
            Some(acc)
        };
        let doubled = add_spec(addend, addend);
        if k % 2 == 1 {
            lemma_add_on_curve(acc, addend);
        }
        lemma_add_on_curve(addend, addend);
        lemma_mul_from_on_curve(next->0, doubled->0, k / 2);
    }
}

impl EllipticCurvePoint {
    /// Whether this point satisfies the curve equation.
    pub fn is_on_curve(&self) -> (r: bool)
        ensures
            r == on_curve(self@),
    {
        if self.infinity {
            return true;
        }
        if self.p.is_zero() {
            return false;
        }
        let left = big_rem(&big_mul(&self.y, &self.y), &self.p);
        let cube = big_mul(&big_mul(&self.x, &self.x), &self.x);
        let right = big_rem(&big_add(&cube, &big_mul(&self.a, &self.x)), &self.p);
        left.equals(&right)
    }
}

} // verus!
