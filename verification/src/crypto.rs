//! The cryptographic engine: byte conversions, modular inverse, curve points,
//! the stream cipher and the product-key codec.

pub mod curve;
pub mod encoding;
pub mod equation;
pub mod rc4;

pub use crate::crypto::curve::EllipticCurvePoint;
pub use crate::crypto::encoding::{decode_pkey, encode_pkey};
pub use crate::crypto::rc4::rc4_crypt;

use crate::bignat::{
    big_add, big_div, big_lt, big_mul, big_rem, big_sub, le_bytes, le_value,
    lemma_le_bytes_of_value, resized, BigNat,
};
use vstd::arithmetic::div_mod::{
    lemma_fundamental_div_mod, lemma_mod_multiples_basic, lemma_mod_multiples_vanish,
    lemma_mul_mod_noop_general, lemma_small_mod, lemma_sub_mod_noop,
};
use vstd::prelude::*;

verus! {

/// The `length` low-order bytes of `n`, least significant first. A number
/// that needs more bytes loses its high part; a shorter one is zero-filled.
pub fn bigint_to_bytes_le(n: &BigNat, length: usize) -> (r: Vec<u8>)
    ensures
        r@ == le_bytes(n@, length as nat),
{
    let mut out: Vec<u8> = Vec::new();
    let mut i: usize = 0;
    while i < length
        invariant
            i <= length,
            out@ == resized(n.bytes@, i as nat),
        decreases length - i,
    {
        let b: u8 = if i < n.bytes.len() {
            n.bytes[i]
        } else {
            0
        };
        out.push(b);
        i = i + 1;
        assert(out@ =~= resized(n.bytes@, i as nat));
    }
    proof {
        lemma_le_bytes_of_value(n.bytes@, length as nat);
    }
    out
}

/// The number that `data` denotes, read as little-endian bytes.
pub fn bytes_to_bigint_le(data: &[u8]) -> (r: BigNat)
    ensures
        r@ == le_value(data@),
{
    let mut bytes: Vec<u8> = Vec::new();
    let mut i: usize = 0;
    while i < data.len()
        invariant
            i <= data.len(),
            bytes@ == data@.subrange(0, i as int),
        decreases data.len() - i,
    {
        bytes.push(data[i]);
        i = i + 1;
        assert(bytes@ =~= data@.subrange(0, i as int));
    }
    assert(bytes@ =~= data@);
    BigNat { bytes }
}

/// Greatest common divisor, by Euclid's recursion.
pub open spec fn gcd(a: nat, b: nat) -> nat
    decreases b,
{
    if b == 0 {
        a
    } else {
        gcd(b, a % b)
    }
}

/// Whether `x` is the inverse of `a` modulo `m`: it lies in `[0, m)` and
/// `a * x` leaves the remainder of 1.
pub open spec fn is_inverse(a: nat, x: nat, m: nat) -> bool {
    &&& x < m
    &&& (a * x) % m == 1nat % m
}

/// The inverse of `a` modulo `m`, where there is one.
pub open spec fn inverse_mod(a: nat, m: nat) -> Option<nat> {
    if exists|x: nat| is_inverse(a, x, m) {
        Some(choose|x: nat| is_inverse(a, x, m))
    } else {
        None
    }
}

/// The value of an optional number.
pub open spec fn opt_value(r: Option<BigNat>) -> Option<nat> {
    match r {
        Some(x) => Some(x@),
        None => None,
    }
}

/// The greatest common divisor divides both of its arguments.
pub proof fn lemma_gcd_divides(a: nat, b: nat)
    requires
        a > 0 || b > 0,
    ensures
        gcd(a, b) > 0,
        a % gcd(a, b) == 0,
        b % gcd(a, b) == 0,
    decreases b,
{
    if b == 0 {
        vstd::arithmetic::div_mod::lemma_mod_self_0(a as int);
        assert(0nat % a == 0);
    } else {
        let r = a % b;
        lemma_gcd_divides(b, r);
        let g = gcd(b, r);
        // a == b * (a / b) + r, and g divides b and r
        lemma_fundamental_div_mod(a as int, b as int);
        lemma_divides_combination(g, b, a / b, r);
    }
}

/// A divisor of `b` and of `r` divides `b * k + r`.
proof fn lemma_divides_combination(g: nat, b: nat, k: nat, r: nat)
    requires
        g > 0,
        b % g == 0,
        r % g == 0,
    ensures
        (b * k + r) % g == 0,
{
    lemma_fundamental_div_mod(b as int, g as int);
    lemma_fundamental_div_mod(r as int, g as int);
    let bq = b as int / g as int;
    let rq = r as int / g as int;
    assert(b as int == g * bq);
    assert(r as int == g * rq);
    assert(b * k + r == (bq * k + rq) * g) by (nonlinear_arith)
        requires
            b as int == g * bq,
            r as int == g * rq,
    ;
    lemma_mod_multiples_basic(bq * k + rq, g as int);
}

/// No number has two inverses modulo `m`.
pub proof fn lemma_inverse_unique(a: nat, x: nat, y: nat, m: nat)
    requires
        m > 0,
        is_inverse(a, x, m),
        is_inverse(a, y, m),
    ensures
        x == y,
{
    let mi = m as int;
    let xi = x as int;
    let yi = y as int;
    let ai = a as int;
    // x == x * (a * y) == (x * a) * y == y, all modulo m
    lemma_mul_mod_noop_general(xi, ai * yi, mi);
    lemma_mul_mod_noop_general(ai * xi, yi, mi);
    assert(xi * (ai * yi) == (ai * xi) * yi) by (nonlinear_arith);
    lemma_mul_mod_noop_general(xi, 1, mi);
    lemma_mul_mod_noop_general(1, yi, mi);
    assert((ai * yi) % mi == 1int % mi);
    assert((ai * xi) % mi == 1int % mi);
    assert((xi * (ai * yi)) % mi == (xi * 1) % mi);
    assert(((ai * xi) * yi) % mi == (1 * yi) % mi);
    assert(xi % mi == yi % mi);
    lemma_small_mod(x, m);
    lemma_small_mod(y, m);
}

/// Where `a` and `m` share a divisor above 1, `a` has no inverse modulo `m`.
pub proof fn lemma_no_inverse(a: nat, m: nat, y: nat)
    requires
        m > 0,
        gcd(a, m) != 1,
    ensures
        !is_inverse(a, y, m),
{
    lemma_gcd_divides(a, m);
    let g = gcd(a, m);
    if is_inverse(a, y, m) {
        assert(g >= 2);
        assert(m >= 2) by {
            if m < g {
                lemma_small_mod(m, g);
            }
        }
        lemma_small_mod(1, m);
        let p = a * y;
        lemma_fundamental_div_mod(p as int, m as int);
        let k = p / m;
        assert(p == m * k + 1);
        // g divides a * y and m * k, so it would divide 1
        lemma_divides_combination(g, a, y, 0);
        lemma_divides_combination(g, m, k, 0);
        lemma_fundamental_div_mod(p as int, g as int);
        lemma_fundamental_div_mod((m * k) as int, g as int);
        let u = p as int / g as int;
        let v = (m * k) as int / g as int;
        assert(g * u - g * v == 1);
        assert(g * u - g * v == g * (u - v)) by (nonlinear_arith);
        assert(false) by (nonlinear_arith)
            requires
                g * (u - v) == 1,
                g >= 2,
        ;
    }
}

/// One step of the extended Euclidean algorithm keeps each coefficient
/// congruent to its remainder.
proof fn lemma_euclid_step(a: nat, m: nat, r0: nat, r1: nat, t0: nat, t1: nat, q: nat)
    requires
        m > 0,
        (a * t0) % m == r0 % m,
        (a * t1) % m == r1 % m,
        q * r1 <= r0,
        t0 < m,
    ensures
        (q * t1) % m < m,
        (a * (((t0 + m - (q * t1) % m) as nat) % m)) % m == ((r0 - q * r1) as nat) % m,
{
    let mi = m as int;
    let u = (q * t1) % m;
    let w = (t0 + m - u) as nat;
    lemma_mul_mod_noop_general(a as int, w as int, mi);
    // a * u is congruent to q * r1
    lemma_mul_mod_noop_general(a as int, (q * t1) as int, mi);
    assert(a * (q * t1) == q * (a * t1)) by (nonlinear_arith);
    lemma_mul_mod_noop_general(q as int, (a * t1) as int, mi);
    lemma_mul_mod_noop_general(q as int, r1 as int, mi);
    assert((a * u) % m == (q * r1) % m);
    // a * w == m * a + (a * t0 - a * u)
    assert(a * w == m * a + (a * t0 - a * u)) by (nonlinear_arith)
        requires
            w == t0 + m - u,
    ;
    lemma_mod_multiples_vanish(a as int, a * t0 - a * u, mi);
    lemma_sub_mod_noop((a * t0) as int, (a * u) as int, mi);
    lemma_sub_mod_noop(r0 as int, (q * r1) as int, mi);
}

/// The modular inverse of `a` modulo `m`: the one `x` in `[0, m)` with
/// `a * x` congruent to 1, or nothing where `a` and `m` are not coprime.
pub fn mod_inverse(a: &BigNat, m: &BigNat) -> (r: Option<BigNat>)
    requires
        m@ > 0,
    ensures
        opt_value(r) == inverse_mod(a@, m@),
        r.is_some() <==> gcd(a@, m@) == 1,
        match r {
            Some(x) => is_inverse(a@, x@, m@),
            None => forall|y: nat| !is_inverse(a@, y, m@),
        },
{
    let one = BigNat::from_u64(1);
    let mut r0 = m.clone();
    let mut r1 = big_rem(a, m);
    let mut t0 = BigNat::zero();
    let mut t1 = big_rem(&one, m);
    proof {
        lemma_mul_mod_noop_general(a@ as int, 1, m@ as int);
        vstd::arithmetic::div_mod::lemma_mod_twice(a@ as int, m@ as int);
        vstd::arithmetic::div_mod::lemma_mod_self_0(m@ as int);
        assert(a@ * 0 == 0);
        assert(0nat % m@ == 0);
        assert((a@ * t0@) % m@ == r0@ % m@);
        assert(((a@ as int) * (1int % (m@ as int))) % (m@ as int) == ((a@ as int) * 1) % (m@ as int));
        assert((a@ * t1@) % m@ == r1@ % m@);
    }
    while !r1.is_zero()
        invariant
            m@ > 0,
            gcd(r0@, r1@) == gcd(a@, m@),
            (a@ * t0@) % m@ == r0@ % m@,
            (a@ * t1@) % m@ == r1@ % m@,
            t0@ < m@,
            t1@ < m@,
            r0@ > 0 || r1@ > 0,
        decreases r1@,
    {
        let q = big_div(&r0, &r1);
        proof {
            lemma_fundamental_div_mod(r0@ as int, r1@ as int);
            assert(r1@ * q@ == q@ * r1@) by (nonlinear_arith);
            lemma_euclid_step(a@, m@, r0@, r1@, t0@, t1@, q@);
        }
        let r2 = big_sub(&r0, &big_mul(&q, &r1));
        let qt = big_rem(&big_mul(&q, &t1), m);
        let t2 = if big_lt(&t0, &qt) {
            proof {
                lemma_small_mod((t0@ + m@ - qt@) as nat, m@);
            }
            big_sub(&big_add(&t0, m), &qt)
        } else {
            proof {
                lemma_mod_multiples_vanish(1, t0@ - qt@, m@ as int);
                lemma_small_mod((t0@ - qt@) as nat, m@);
            }
            big_sub(&t0, &qt)
        };
        r0 = r1;
        r1 = r2;
        t0 = t1;
        t1 = t2;
    }
    let found = r0.equals(&one);
    proof {
        assert(gcd(r0@, 0) == r0@);
        assert(gcd(a@, m@) == gcd(m@, a@ % m@));
        if found {
            assert(is_inverse(a@, t0@, m@));
            let c = choose|x: nat| is_inverse(a@, x, m@);
            lemma_inverse_unique(a@, t0@, c, m@);
        } else {
            assert forall|y: nat| !is_inverse(a@, y, m@) by {
                lemma_no_inverse(a@, m@, y);
            }
        }
    }
    if found {
        Some(t0)
    } else {
        None
    }
}

} // verus!
