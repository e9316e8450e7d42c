//! Arbitrary-precision unsigned integers, held as little-endian bytes.
//!
//! The arithmetic itself is done by `num_bigint`; every operation of this
//! module states its result over the natural number that the bytes denote.

use vstd::prelude::*;

verus! {

/// The natural number that a little-endian byte sequence denotes.
pub open spec fn le_value(s: Seq<u8>) -> nat
    decreases s.len(),
{
    if s.len() == 0 {
        0
    } else {
        s[0] as nat + 256 * le_value(s.drop_first())
    }
}

/// The `len` low-order bytes of `n`, least significant first.
pub open spec fn le_bytes(n: nat, len: nat) -> Seq<u8>
    decreases len,
{
    if len == 0 {
        Seq::empty()
    } else {
        seq![(n % 256) as u8] + le_bytes(n / 256, (len - 1) as nat)
    }
}

/// `s` cut or zero-filled to exactly `len` bytes.
pub open spec fn resized(s: Seq<u8>, len: nat) -> Seq<u8> {
    Seq::new(len, |i: int| if i < s.len() { s[i] } else { 0u8 })
}

/// An unsigned integer of any size. Its bytes are little-endian and need not
/// be in shortest form: trailing zero bytes do not change the value.
#[derive(Debug)]
pub struct BigNat {
    pub bytes: Vec<u8>,
}

impl View for BigNat {
    type V = nat;

    open spec fn view(&self) -> nat {
        le_value(self.bytes@)
    }
}

impl Clone for BigNat {
    fn clone(&self) -> (r: Self)
        ensures
            r@ == self@,
            r.bytes@ == self.bytes@,
    {
        BigNat { bytes: self.bytes.clone() }
    }
}

/// Sum of two numbers, computed by `num_bigint`'s `+` on `BigUint`.
/// Claims that the bytes handed back denote the sum of the two values.
#[verifier::external_body]
pub(crate) fn big_add(a: &BigNat, b: &BigNat) -> (r: BigNat)
    ensures
        r@ == a@ + b@,
{
    let x = num_bigint::BigUint::from_bytes_le(&a.bytes);
    let y = num_bigint::BigUint::from_bytes_le(&b.bytes);
    BigNat { bytes: (x + y).to_bytes_le() }
}

/// Difference of two numbers, computed by `num_bigint`'s `-` on `BigUint`,
/// which panics when the result would be negative: that case is left out.
/// Claims that the bytes handed back denote the difference.
#[verifier::external_body]
pub(crate) fn big_sub(a: &BigNat, b: &BigNat) -> (r: BigNat)
    requires
        a@ >= b@,
    ensures
        r@ == a@ - b@,
{
    let x = num_bigint::BigUint::from_bytes_le(&a.bytes);
    let y = num_bigint::BigUint::from_bytes_le(&b.bytes);
    BigNat { bytes: (x - y).to_bytes_le() }
}

/// Product of two numbers, computed by `num_bigint`'s `*` on `BigUint`.
/// Claims that the bytes handed back denote the product.
#[verifier::external_body]
pub(crate) fn big_mul(a: &BigNat, b: &BigNat) -> (r: BigNat)
    ensures
        r@ == a@ * b@,
{
    let x = num_bigint::BigUint::from_bytes_le(&a.bytes);
    let y = num_bigint::BigUint::from_bytes_le(&b.bytes);
    BigNat { bytes: (x * y).to_bytes_le() }
}

/// Quotient of two numbers, computed by `num_bigint`'s `/` on `BigUint`,
/// which panics on a zero divisor: that case is left out.
/// Claims that the bytes handed back denote the quotient rounded down.
#[verifier::external_body]
pub(crate) fn big_div(a: &BigNat, b: &BigNat) -> (r: BigNat)
    requires
        b@ > 0,
    ensures
        r@ == a@ / b@,
{
    let x = num_bigint::BigUint::from_bytes_le(&a.bytes);
    let y = num_bigint::BigUint::from_bytes_le(&b.bytes);
    BigNat { bytes: (x / y).to_bytes_le() }
}

/// Remainder of a division, computed by `num_bigint`'s `%` on `BigUint`,
/// which panics on a zero divisor: that case is left out.
/// Claims that the bytes handed back denote the remainder.
#[verifier::external_body]
pub(crate) fn big_rem(a: &BigNat, b: &BigNat) -> (r: BigNat)
    requires
        b@ > 0,
    ensures
        r@ == a@ % b@,
{
    let x = num_bigint::BigUint::from_bytes_le(&a.bytes);
    let y = num_bigint::BigUint::from_bytes_le(&b.bytes);
    BigNat { bytes: (x % y).to_bytes_le() }
}

/// Whether the first number is smaller, decided by `num_bigint`'s `<` on
/// `BigUint`. Claims that it orders the values as natural numbers.
#[verifier::external_body]
pub(crate) fn big_lt(a: &BigNat, b: &BigNat) -> (r: bool)
    ensures
        r == (a@ < b@),
{
    let x = num_bigint::BigUint::from_bytes_le(&a.bytes);
    let y = num_bigint::BigUint::from_bytes_le(&b.bytes);
    x < y
}

/// Quotient and remainder of `c + 256 * b` by 256, for a `c` below 256.
proof fn lemma_div_rem_256(a: nat, b: nat, c: nat)
    requires
        a == c + 256 * b,
        c < 256,
    ensures
        a / 256 == b,
        a % 256 == c,
{
    assert(a / 256 == b && a % 256 == c) by (nonlinear_arith)
        requires
            a == c + 256 * b,
            c < 256,
    ;
}

/// The low `len` bytes are `len` bytes.
pub proof fn lemma_le_bytes_len(n: nat, len: nat)
    ensures
        le_bytes(n, len).len() == len,
    decreases len,
{
    if len > 0 {
        lemma_le_bytes_len(n / 256, (len - 1) as nat);
    }
}

/// Reading the low `len` bytes of the value of `s` gives `s` itself, cut or
/// zero-filled to that length.
pub proof fn lemma_le_bytes_of_value(s: Seq<u8>, len: nat)
    ensures
        le_bytes(le_value(s), len) == resized(s, len),
    decreases len,
{
    if len == 0 {
        assert(le_bytes(le_value(s), len) =~= resized(s, len));
    } else if s.len() == 0 {
        lemma_le_bytes_of_value(s, (len - 1) as nat);
        assert(le_value(s) == 0);
        assert(0nat / 256 == 0 && 0nat % 256 == 0);
        assert(le_bytes(le_value(s), len) =~= resized(s, len));
    } else {
        let rest = s.drop_first();
        lemma_div_rem_256(le_value(s), le_value(rest), s[0] as nat);
        lemma_le_bytes_of_value(rest, (len - 1) as nat);
        assert(le_bytes(le_value(s), len) =~= resized(s, len));
    }
}

/// Bytes denote zero where all of them are zero, and only there.
proof fn lemma_zero_value(s: Seq<u8>)
    ensures
        le_value(s) == 0 <==> forall|j: int| 0 <= j < s.len() ==> s[j] == 0,
    decreases s.len(),
{
    if s.len() > 0 {
        let rest = s.drop_first();
        lemma_zero_value(rest);
        if le_value(s) == 0 {
            assert forall|j: int| 0 <= j < s.len() implies s[j] == 0 by {
                if j > 0 {
                    assert(rest[j - 1] == s[j]);
                }
            }
        }
        if forall|j: int| 0 <= j < s.len() ==> s[j] == 0 {
            assert forall|j: int| 0 <= j < rest.len() implies rest[j] == 0 by {
                assert(rest[j] == s[j + 1]);
            }
        }
    }
}

impl BigNat {
    /// The number zero.
    pub fn zero() -> (r: Self)
        ensures
            r@ == 0,
    {
        BigNat { bytes: Vec::new() }
    }

    /// The number `v`.
    pub fn from_u64(v: u64) -> (r: Self)
        ensures
            r@ == v,
    {
        let mut bytes: Vec<u8> = Vec::new();
        let mut rest: u64 = v;
        let mut i: usize = 0;
        proof {
            assert(pow256(0) == 1);
            assert(bytes@ =~= le_bytes(v as nat, 0));
        }
        while i < 8
            invariant
                i <= 8,
                bytes@ == le_bytes(v as nat, i as nat),
                rest as nat == v as nat / pow256(i as nat),
            decreases 8 - i,
        {
            proof {
                lemma_le_bytes_push(v as nat, i as nat);
                lemma_pow256_step(v as nat, i as nat);
            }
            bytes.push((rest % 256) as u8);
            rest = rest / 256;
            i = i + 1;
        }
        proof {
            lemma_pow256_8();
            assert(v as nat / pow256(8) == 0) by (nonlinear_arith)
                requires
                    pow256(8) == 0x1_0000_0000_0000_0000,
                    (v as nat) < 0x1_0000_0000_0000_0000,
            ;
            lemma_le_value_of_bytes(v as nat, 8);
            assert((v as nat) % pow256(8) == v as nat) by (nonlinear_arith)
                requires
                    pow256(8) == 0x1_0000_0000_0000_0000,
                    (v as nat) < 0x1_0000_0000_0000_0000,
            ;
        }
        BigNat { bytes }
    }

    /// This number moved up by 64 bits, with `limb` as the new low bits.
    pub fn shifted_in(&self, limb: u64) -> (r: BigNat)
        ensures
            r@ == self@ * 0x1_0000_0000_0000_0000 + limb,
    {
        let half = BigNat::from_u64(0x1_0000_0000);
        let high = big_mul(&big_mul(self, &half), &half);
        assert(self@ * 0x1_0000_0000 * 0x1_0000_0000 == self@ * 0x1_0000_0000_0000_0000)
            by (nonlinear_arith);
        big_add(&high, &BigNat::from_u64(limb))
    }

    /// Whether the number is zero.
    pub fn is_zero(&self) -> (r: bool)
        ensures
            r == (self@ == 0),
    {
        let mut i: usize = 0;
        while i < self.bytes.len()
            invariant
                i <= self.bytes.len(),
                forall|j: int| 0 <= j < i ==> self.bytes@[j] == 0,
            decreases self.bytes.len() - i,
        {
            if self.bytes[i] != 0 {
                proof {
                    lemma_zero_value(self.bytes@);
                }
                return false;
            }
            i = i + 1;
        }
        proof {
            lemma_zero_value(self.bytes@);
        }
        true
    }

    /// Whether two numbers are equal as natural numbers.
    pub fn equals(&self, other: &BigNat) -> (r: bool)
        ensures
            r == (self@ == other@),
    {
        !big_lt(self, other) && !big_lt(other, self)
    }

    /// The lowest byte: the value modulo 256.
    pub fn low_byte(&self) -> (r: u8)
        ensures
            r as nat == self@ % 256,
    {
        if self.bytes.len() == 0 {
            0
        } else {
            proof {
                lemma_div_rem_256(
                    self@,
                    le_value(self.bytes@.drop_first()),
                    self.bytes@[0] as nat,
                );
            }
            self.bytes[0]
        }
    }
}

/// 256 to the power `i`.
pub open spec fn pow256(i: nat) -> nat
    decreases i,
{
    if i == 0 {
        1
    } else {
        256 * pow256((i - 1) as nat)
    }
}

proof fn lemma_pow256_pos(i: nat)
    ensures
        pow256(i) > 0,
    decreases i,
{
    if i > 0 {
        lemma_pow256_pos((i - 1) as nat);
    }
}

proof fn lemma_pow256_8()
    ensures
        pow256(8) == 0x1_0000_0000_0000_0000,
{
    reveal_with_fuel(pow256, 10);
}

/// Dividing by 256 once more moves one power further.
proof fn lemma_pow256_step(n: nat, i: nat)
    ensures
        n / pow256(i + 1) == (n / pow256(i)) / 256,
{
    lemma_pow256_pos(i);
    let d = pow256(i);
    assert(pow256(i + 1) == 256 * d);
    vstd::arithmetic::div_mod::lemma_div_denominator(n as int, d as int, 256);
    assert(d * 256 == 256 * d) by (nonlinear_arith);
}

/// The first `i + 1` low bytes are the first `i` followed by byte `i`.
proof fn lemma_le_bytes_push(n: nat, i: nat)
    ensures
        le_bytes(n, i + 1) == le_bytes(n, i).push(((n / pow256(i)) % 256) as u8),
    decreases i,
{
    if i == 0 {
        let d = pow256(0);
        assert(d == 1);
        assert(n / d == n) by (nonlinear_arith)
            requires
                d == 1,
        ;
        assert(le_bytes(n / 256, 0) =~= Seq::<u8>::empty());
        assert(le_bytes(n, 1) =~= le_bytes(n, 0).push((n % 256) as u8));
    } else {
        lemma_le_bytes_push(n / 256, (i - 1) as nat);
        lemma_pow256_step(n, (i - 1) as nat);
        lemma_pow256_pos((i - 1) as nat);
        let d = pow256((i - 1) as nat);
        // (n / 256) / d == (n / d) / 256
        vstd::arithmetic::div_mod::lemma_div_denominator(n as int, 256, d as int);
        assert(256 * d == d * 256) by (nonlinear_arith);
        assert((n / 256) / d == n / pow256(i));
        assert(le_bytes(n, i + 1) =~= le_bytes(n, i).push(((n / pow256(i)) % 256) as u8));
    }
}

/// The low `len` bytes of `n` denote `n` modulo 256 to the power `len`.
pub proof fn lemma_le_value_of_bytes(n: nat, len: nat)
    ensures
        le_value(le_bytes(n, len)) == n % pow256(len),
    decreases len,
{
    if len == 0 {
        assert(n % 1 == 0);
    } else {
        let s = le_bytes(n, len);
        let m = (len - 1) as nat;
        lemma_le_value_of_bytes(n / 256, m);
        assert(s.drop_first() =~= le_bytes(n / 256, m));
        lemma_pow256_pos(m);
        let d = pow256(m);
        // n % (256 * d) == 256 * ((n / 256) % d) + n % 256
        vstd::arithmetic::div_mod::lemma_mod_breakdown(n as int, 256, d as int);
    }
}

} // verus!
