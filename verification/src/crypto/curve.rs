//! Points of a curve `y^2 = x^3 + a*x` over a prime field, with the addition
//! law and scalar multiplication by double-and-add.

use crate::bignat::{big_add, big_lt, big_mul, big_rem, big_sub, big_div, BigNat};
use crate::crypto::equation::{
    lemma_add_on_curve, lemma_add_same_curve, lemma_mul_on_curve, lemma_mul_same_curve, on_curve,
};
use crate::crypto::{inverse_mod, mod_inverse, opt_value};
use vstd::prelude::*;

verus! {

/// A point as plain numbers: what an `EllipticCurvePoint` denotes.
pub struct PointModel {
    pub x: nat,
    pub y: nat,
    pub a: nat,
    pub p: nat,
    pub infinity: bool,
}

/// A point of the curve with coefficient `a` over the field of `p` elements.
/// The point at infinity is the identity; its coordinates mean nothing.
#[derive(Debug)]
pub struct EllipticCurvePoint {
    pub x: BigNat,
    pub y: BigNat,
    pub a: BigNat,
    pub p: BigNat,
    pub infinity: bool,
}

impl View for EllipticCurvePoint {
    type V = PointModel;

    open spec fn view(&self) -> PointModel {
        PointModel { x: self.x@, y: self.y@, a: self.a@, p: self.p@, infinity: self.infinity }
    }
}

impl Clone for EllipticCurvePoint {
    fn clone(&self) -> (r: Self)
        ensures
            r@ == self@,
    {
        EllipticCurvePoint {
            x: self.x.clone(),
            y: self.y.clone(),
            a: self.a.clone(),
            p: self.p.clone(),
            infinity: self.infinity,
        }
    }
}

/// The identity of the curve `(a, p)`, with both coordinates zero.
pub open spec fn infinity_point(a: nat, p: nat) -> PointModel {
    PointModel { x: 0, y: 0, a, p, infinity: true }
}

/// `u - v` modulo `p`, computed without negative numbers: `p` is added first
/// where `u` is the smaller. Nothing where even `p + u` is below `v`.
pub open spec fn sub_mod(u: nat, v: nat, p: nat) -> Option<nat> {
    if u >= v {
        Some(((u - v) as nat) % p)
    } else if p + u >= v {
        Some(((p + u - v) as nat) % p)
    } else {
        None
    }
}

/// `num / den` modulo `p`: nothing where `den` has no inverse.
pub open spec fn div_mod(num: nat, den: nat, p: nat) -> Option<nat> {
    match inverse_mod(den, p) {
        Some(inv) => Some((num * inv) % p),
        None => None,
    }
}

/// The slope of the line through two finite points, or of the tangent where
/// they share their `x`. Nothing where the division cannot be done.
pub open spec fn slope(lhs: PointModel, rhs: PointModel) -> Option<nat> {
    let p = lhs.p;
    if lhs.x == rhs.x {
        div_mod((3 * lhs.x * lhs.x + lhs.a) % p, (2 * lhs.y) % p, p)
    } else {
        match (sub_mod(rhs.y, lhs.y, p), sub_mod(rhs.x, lhs.x, p)) {
            (Some(num), Some(den)) => div_mod(num, den, p),
            _ => None,
        }
    }
}

/// The third point of the line with slope `s` through `lhs` and `rhs`,
/// mirrored: `x3 = s^2 - x1 - x2`, `y3 = s * (x1 - x3) - y1`, modulo `p`.
pub open spec fn chord_point(lhs: PointModel, rhs: PointModel, s: nat) -> Option<PointModel> {
    let p = lhs.p;
    match sub_mod((s * s) % p, (lhs.x + rhs.x) % p, p) {
        Some(x3) => match sub_mod(lhs.x, x3, p) {
            Some(xd) => match sub_mod((s * xd) % p, lhs.y, p) {
                Some(y3) => Some(PointModel { x: x3, y: y3, a: lhs.a, p: lhs.p, infinity: false }),
                None => None,
            },
            None => None,
        },
        None => None,
    }
}

/// Whether two points belong to one curve: the same coefficient and field.
pub open spec fn same_curve(lhs: PointModel, rhs: PointModel) -> bool {
    lhs.a == rhs.a && lhs.p == rhs.p
}

/// The sum of two points of one curve. Nothing where the points belong to
/// different curves, the field is empty, a division has no result or a
/// coordinate is so far above `p` that a difference cannot be formed.
pub open spec fn add_spec(lhs: PointModel, rhs: PointModel) -> Option<PointModel> {
    if !same_curve(lhs, rhs) {
        None
    } else if lhs.infinity {
        Some(rhs)
    } else if rhs.infinity {
        Some(lhs)
    } else if lhs.x == rhs.x && lhs.y != rhs.y {
        Some(infinity_point(lhs.a, lhs.p))
    } else if lhs.p == 0 {
        None
    } else {
        match slope(lhs, rhs) {
            Some(s) => chord_point(lhs, rhs, s),
            None => None,
        }
    }
}

/// Double-and-add from the lowest bit of `k`: `acc` gains `addend` for each
/// set bit, and `addend` is doubled after every bit, the last one included.
pub open spec fn mul_from(acc: PointModel, addend: PointModel, k: nat) -> Option<PointModel>
    decreases k,
{
    if k == 0 {
        Some(acc)
    } else {
        let next = if k % 2 == 1 {
            add_spec(acc, addend)
        } else {
            Some(acc)
        };
        match (next, add_spec(addend, addend)) {
            (Some(n), Some(d)) => mul_from(n, d, k / 2),
            _ => None,
        }
    }
}

/// `k` times the point `pt`.
pub open spec fn mul_spec(pt: PointModel, k: nat) -> Option<PointModel> {
    mul_from(infinity_point(pt.a, pt.p), pt, k)
}

/// What an optional point denotes.
pub open spec fn opt_point(r: Option<EllipticCurvePoint>) -> Option<PointModel> {
    match r {
        Some(pt) => Some(pt@),
        None => None,
    }
}

/// `u - v` modulo `p`, as `sub_mod` states it.
fn checked_sub_mod(u: &BigNat, v: &BigNat, p: &BigNat) -> (r: Option<BigNat>)
    requires
        p@ > 0,
    ensures
        opt_value(r) == sub_mod(u@, v@, p@),
{
    if !big_lt(u, v) {
        Some(big_rem(&big_sub(u, v), p))
    } else {
        let lifted = big_add(p, u);
        if !big_lt(&lifted, v) {
            Some(big_rem(&big_sub(&lifted, v), p))
        } else {
            None
        }
    }
}

/// `num / den` modulo `p`, as `div_mod` states it.
fn checked_div_mod(num: &BigNat, den: &BigNat, p: &BigNat) -> (r: Option<BigNat>)
    requires
        p@ > 0,
    ensures
        opt_value(r) == div_mod(num@, den@, p@),
{
    match mod_inverse(den, p) {
        Some(inv) => Some(big_rem(&big_mul(num, &inv), p)),
        None => None,
    }
}

impl EllipticCurvePoint {
    /// The finite point `(x, y)` of the curve `(a, p)`.
    pub fn new(x: BigNat, y: BigNat, a: BigNat, p: BigNat) -> (r: Self)
        ensures
            r@ == (PointModel { x: x@, y: y@, a: a@, p: p@, infinity: false }),
    {
        EllipticCurvePoint { x, y, a, p, infinity: false }
    }

    /// The point at infinity of the curve `(a, p)`.
    pub fn infinity(a: BigNat, p: BigNat) -> (r: Self)
        ensures
            r@ == infinity_point(a@, p@),
    {
        EllipticCurvePoint { x: BigNat::zero(), y: BigNat::zero(), a, p, infinity: true }
    }

    /// The slope for two finite points over a field that is not empty.
    fn checked_slope(&self, other: &EllipticCurvePoint) -> (r: Option<BigNat>)
        requires
            self.p@ > 0,
        ensures
            opt_value(r) == slope(self@, other@),
    {
        let p = &self.p;
        if self.x.equals(&other.x) {
            let three = BigNat::from_u64(3);
            let two = BigNat::from_u64(2);
            let xx = big_mul(&big_mul(&three, &self.x), &self.x);
            let num = big_rem(&big_add(&xx, &self.a), p);
            let den = big_rem(&big_mul(&two, &self.y), p);
            checked_div_mod(&num, &den, p)
        } else {
            let num = checked_sub_mod(&other.y, &self.y, p);
            let den = checked_sub_mod(&other.x, &self.x, p);
            match (num, den) {
                (Some(n), Some(d)) => checked_div_mod(&n, &d, p),
                _ => None,
            }
        }
    }

    /// The point that `chord_point` states, from a slope already found.
    fn checked_chord(&self, other: &EllipticCurvePoint, s: &BigNat) -> (r: Option<
        EllipticCurvePoint,
    >)
        requires
            self.p@ > 0,
        ensures
            opt_point(r) == chord_point(self@, other@, s@),
    {
        let p = &self.p;
        let s_squared = big_rem(&big_mul(s, s), p);
        let x_sum = big_rem(&big_add(&self.x, &other.x), p);
        match checked_sub_mod(&s_squared, &x_sum, p) {
            Some(x3) => match checked_sub_mod(&self.x, &x3, p) {
                Some(x_diff) => {
                    let s_times_diff = big_rem(&big_mul(s, &x_diff), p);
                    match checked_sub_mod(&s_times_diff, &self.y, p) {
                        Some(y3) => Some(
                            EllipticCurvePoint::new(x3, y3, self.a.clone(), self.p.clone()),
                        ),
                        None => None,
                    }
                },
                None => None,
            },
            None => None,
        }
    }

    /// The sum of two points, or nothing where `add_spec` has no result.
    pub fn checked_add(&self, other: &EllipticCurvePoint) -> (r: Option<EllipticCurvePoint>)
        ensures
            opt_point(r) == add_spec(self@, other@),
            r is Some ==> same_curve(self@, r->0@),
            r is Some && on_curve(self@) && on_curve(other@) ==> on_curve(r->0@),
    {
        proof {
            if add_spec(self@, other@) is Some {
                lemma_add_same_curve(self@, other@);
                if on_curve(self@) && on_curve(other@) {
                    lemma_add_on_curve(self@, other@);
                }
            }
        }
        if !self.a.equals(&other.a) || !self.p.equals(&other.p) {
            return None;
        }
        if self.infinity {
            return Some(other.clone());
        }
        if other.infinity {
            return Some(self.clone());
        }
        if self.x.equals(&other.x) && !self.y.equals(&other.y) {
            return Some(EllipticCurvePoint::infinity(self.a.clone(), self.p.clone()));
        }
        if self.p.is_zero() {
            return None;
        }
        match self.checked_slope(other) {
            Some(s) => self.checked_chord(other, &s),
            None => None,
        }
    }

    /// The sum of two points of one curve.
    pub fn add(&self, other: &EllipticCurvePoint) -> (r: EllipticCurvePoint)
        requires
            add_spec(self@, other@).is_some(),
        ensures
            Some(r@) == add_spec(self@, other@),
            same_curve(self@, r@),
            on_curve(self@) && on_curve(other@) ==> on_curve(r@),
    {
        self.checked_add(other).unwrap()
    }

    /// `scalar` times this point, or nothing where `mul_spec` has no result.
    pub fn checked_mul(&self, scalar: &BigNat) -> (r: Option<EllipticCurvePoint>)
        ensures
            opt_point(r) == mul_spec(self@, scalar@),
            r is Some ==> same_curve(self@, r->0@),
            r is Some && on_curve(self@) ==> on_curve(r->0@),
    {
        proof {
            if mul_spec(self@, scalar@) is Some {
                lemma_mul_same_curve(self@, scalar@);
                if on_curve(self@) {
                    lemma_mul_on_curve(self@, scalar@);
                }
            }
        }
        let two = BigNat::from_u64(2);
        let mut result = EllipticCurvePoint::infinity(self.a.clone(), self.p.clone());
        let mut addend = self.clone();
        let mut k = scalar.clone();
        while !k.is_zero()
            invariant
                two@ == 2,
                mul_from(result@, addend@, k@) == mul_spec(self@, scalar@),
            decreases k@,
        {
            if big_rem(&k, &two).is_zero() {
            } else {
                match result.checked_add(&addend) {
                    Some(sum) => {
                        result = sum;
                    },
                    None => {
                        return None;
                    },
                }
            }
            match addend.checked_add(&addend) {
                Some(doubled) => {
                    addend = doubled;
                },
                None => {
                    return None;
                },
            }
            k = big_div(&k, &two);
        }
        Some(result)
    }

    /// `scalar` times this point.
    pub fn mul(&self, scalar: &BigNat) -> (r: EllipticCurvePoint)
        requires
            mul_spec(self@, scalar@).is_some(),
        ensures
            Some(r@) == mul_spec(self@, scalar@),
            same_curve(self@, r@),
            on_curve(self@) ==> on_curve(r@),
    {
        self.checked_mul(scalar).unwrap()
    }
}

} // verus!
