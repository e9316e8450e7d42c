//! Checking a key string against a product identifier.

use crate::bignat::{big_div, big_mul, big_rem, le_bytes, le_value, BigNat};
use crate::crypto::curve::{add_spec, mul_spec, EllipticCurvePoint, PointModel};
use crate::crypto::encoding::{decode_pkey, decode_spec};
use crate::crypto::rc4::{rc4_crypt, rc4_spec};
use crate::crypto::{bigint_to_bytes_le, bytes_to_bigint_le};
use crate::error::KeyError;
use crate::keygen::{derive_rc4_key, get_spkid, hash_point, point_hash, rc4_key, spkid_spec};
use crate::types::{lkp_curve, spk_curve, CurveModel, LKPCurve, SPKCurve};
use vstd::prelude::*;
use vstd::slice::slice_subrange;

verus! {

/// Two to the power 35: the hash part of a signature lies below it.
pub open spec fn hash_bound() -> nat {
    0x8_0000_0000
}

/// Two to the power 69: the scalar part of a signature lies below it.
pub open spec fn scalar_bound() -> nat {
    0x20_0000_0000_0000_0000
}

/// Two to the power 41: a server identifier inside a payload lies below it.
pub open spec fn spkid_bound() -> nat {
    0x200_0000_0000
}

/// The finite point `(x, y)` of the curve `(a, p)`.
pub open spec fn finite_point(x: nat, y: nat, a: nat, p: nat) -> PointModel {
    PointModel { x, y, a, p, infinity: false }
}

/// The point `h * K + s * G` that a signature `(s, h)` stands for. Nothing
/// where the curve arithmetic has no result.
pub open spec fn signature_point(h: nat, s: nat, g: PointModel, k: PointModel) -> Option<
    PointModel,
> {
    match (mul_spec(k, h), mul_spec(g, s)) {
        (Some(hk), Some(sg)) => add_spec(hk, sg),
        _ => None,
    }
}

/// The 21 bytes of a decoded key after decryption under the key of `pid`.
pub open spec fn decrypted_key(pid: Seq<char>, n: nat) -> Seq<u8> {
    rc4_spec(rc4_key(pid), le_bytes(n, 21))
}

/// Whether the decrypted bytes `dc` carry a payload and a signature that fit
/// each other and, for a server key, the identifier of `pid`.
#[verifier::opaque]
pub open spec fn check_signed(
    pid: Seq<char>,
    dc: Seq<u8>,
    g: PointModel,
    k: PointModel,
    is_spk: bool,
) -> Result<bool, KeyError> {
    let payload = dc.subrange(0, 7);
    let sig = le_value(dc.subrange(7, 21));
    let h = sig % hash_bound();
    let s = (sig / hash_bound()) % scalar_bound();
    match signature_point(h, s, g, k) {
        None => Err(KeyError::CurveFault),
        Some(r) => {
            if r.infinity {
                Ok(false)
            } else if point_hash(payload, r) != h {
                Ok(false)
            } else if is_spk {
                match spkid_spec(pid) {
                    Ok(id) => Ok(le_value(payload) % spkid_bound() == id),
                    Err(e) => Err(e),
                }
            } else {
                Ok(true)
            }
        },
    }
}

/// Whether `key` is a valid key for `pid` under the base point `(gx, gy)`
/// and the public point `(kx, ky)` of the curve `(a, p)`: a malformed key
/// string is an error, a well-formed one that does not fit is `Ok(false)`.
#[verifier::opaque]
pub open spec fn validate_spec(
    pid: Seq<char>,
    key: Seq<char>,
    gx: nat,
    gy: nat,
    kx: nat,
    ky: nat,
    a: nat,
    p: nat,
    is_spk: bool,
) -> Result<bool, KeyError> {
    match decode_spec(key) {
        Err(e) => Err(e),
        Ok(n) => check_signed(
            pid,
            decrypted_key(pid, n),
            finite_point(gx, gy, a, p),
            finite_point(kx, ky, a, p),
            is_spk,
        ),
    }
}

/// The domain parameters that go with a kind of key.
pub open spec fn curve_for(is_spk: bool) -> CurveModel {
    if is_spk {
        spk_curve()
    } else {
        lkp_curve()
    }
}

/// Whether `key` is a valid server key (`is_spk`) or license key pack for
/// `pid`, under the domain parameters of its kind.
pub open spec fn key_valid_spec(pid: Seq<char>, key: Seq<char>, is_spk: bool) -> Result<
    bool,
    KeyError,
> {
    let c = curve_for(is_spk);
    validate_spec(pid, key, c.gx, c.gy, c.kx, c.ky, c.a, c.p, is_spk)
}

/// Splits a signature into its hash part, the low 35 bits, and its scalar
/// part, the 69 bits above them.
pub fn split_signature(sigdata: &BigNat) -> (r: (BigNat, BigNat))
    ensures
        r.0@ == sigdata@ % hash_bound(),
        r.1@ == (sigdata@ / hash_bound()) % scalar_bound(),
{
    let hash_limit = BigNat::from_u64(0x8_0000_0000);
    let scalar_limit = big_mul(&hash_limit, &BigNat::from_u64(0x4_0000_0000));
    let h = big_rem(sigdata, &hash_limit);
    let s = big_rem(&big_div(sigdata, &hash_limit), &scalar_limit);
    (h, s)
}

/// Computes `h * K + s * G`, or nothing where the arithmetic has no result.
fn recover_point(h: &BigNat, s: &BigNat, g: &EllipticCurvePoint, k: &EllipticCurvePoint) -> (r:
    Option<EllipticCurvePoint>)
    ensures
        crate::crypto::curve::opt_point(r) == signature_point(h@, s@, g@, k@),
{
    let hk = match k.checked_mul(h) {
        Some(pt) => pt,
        None => {
            return None;
        },
    };
    let sg = match g.checked_mul(s) {
        Some(pt) => pt,
        None => {
            return None;
        },
    };
    hk.checked_add(&sg)
}

/// Checks decrypted key bytes: the signature must reproduce its own hash
/// over the payload and, for a server key, the payload must carry the
/// identifier of `pid`.
pub fn check_decrypted(
    pid: &str,
    dc_kdata: &Vec<u8>,
    g: &EllipticCurvePoint,
    k: &EllipticCurvePoint,
    is_spk: bool,
) -> (r: Result<bool, KeyError>)
    requires
        dc_kdata@.len() == 21,
    ensures
        r == check_signed(pid@, dc_kdata@, g@, k@, is_spk),
{
    reveal(check_signed);
    let keydata_inner = slice_subrange(dc_kdata.as_slice(), 0, 7);
    let sigdata = bytes_to_bigint_le(slice_subrange(dc_kdata.as_slice(), 7, 21));
    let (h, s) = split_signature(&sigdata);
    let r = match recover_point(&h, &s, g, k) {
        Some(pt) => pt,
        None => {
            return Err(KeyError::CurveFault);
        },
    };
    if r.infinity {
        return Ok(false);
    }
    let ht = hash_point(keydata_inner, &r);
    if !h.equals(&ht) {
        return Ok(false);
    }
    if is_spk {
        let spkid_from_key = big_rem(
            &bytes_to_bigint_le(keydata_inner),
            &BigNat::from_u64(0x200_0000_0000),
        );
        return match get_spkid(pid) {
            Ok(id) => Ok(spkid_from_key.equals(&BigNat::from_u64(id))),
            Err(e) => Err(e),
        };
    }
    Ok(true)
}

/// Validates a key string against a product identifier under the given
/// base point, public point and curve. With `is_spk` the payload must also
/// carry the server identifier of the product identifier.
pub fn validate_tskey(
    pid: &str,
    tskey: &str,
    gx: BigNat,
    gy: BigNat,
    kx: BigNat,
    ky: BigNat,
    a: BigNat,
    p: BigNat,
    is_spk: bool,
) -> (r: Result<bool, KeyError>)
    ensures
        r == validate_spec(pid@, tskey@, gx@, gy@, kx@, ky@, a@, p@, is_spk),
{
    reveal(validate_spec);
    let keydata_int = match decode_pkey(tskey) {
        Ok(n) => n,
        Err(e) => {
            return Err(e);
        },
    };
    let keydata_bytes = bigint_to_bytes_le(&keydata_int, 21);
    let rk = derive_rc4_key(pid);
    let dc_kdata = rc4_crypt(rk.as_slice(), keydata_bytes.as_slice());
    proof {
        crate::bignat::lemma_le_bytes_len(keydata_int@, 21);
    }
    if dc_kdata.len() < 21 {
        return Ok(false);
    }
    let g = EllipticCurvePoint::new(gx, gy, a.clone(), p.clone());
    let k = EllipticCurvePoint::new(kx, ky, a, p);
    check_decrypted(pid, &dc_kdata, &g, &k, is_spk)
}

/// Validates a key string against a product identifier, with the domain
/// parameters of its kind: those for server keys where `is_spk` is set,
/// those for license key packs otherwise.
pub fn validate_key(pid: &str, key: &str, is_spk: bool) -> (r: Result<bool, KeyError>)
    ensures
        r == key_valid_spec(pid@, key@, is_spk),
{
    proof {
        crate::types::lemma_curves();
    }
    if is_spk {
        validate_tskey(
            pid,
            key,
            SPKCurve::gx(),
            SPKCurve::gy(),
            SPKCurve::kx(),
            SPKCurve::ky(),
            BigNat::from_u64(SPKCurve::A as u64),
            SPKCurve::p(),
            true,
        )
    } else {
        validate_tskey(
            pid,
            key,
            LKPCurve::gx(),
            LKPCurve::gy(),
            LKPCurve::kx(),
            LKPCurve::ky(),
            BigNat::from_u64(LKPCurve::A as u64),
            LKPCurve::p(),
            false,
        )
    }
}

/// A server key is bound to the server identifier: where one key string is
/// valid for two product identifiers that share their cipher key, both
/// hold the same server identifier.
pub proof fn lemma_server_key_binds_identifier(pid_a: Seq<char>, pid_b: Seq<char>, key: Seq<char>)
    requires
        key_valid_spec(pid_a, key, true) == Ok::<bool, KeyError>(true),
        key_valid_spec(pid_b, key, true) == Ok::<bool, KeyError>(true),
        rc4_key(pid_a) == rc4_key(pid_b),
    ensures
        spkid_spec(pid_a) is Ok,
        spkid_spec(pid_a) == spkid_spec(pid_b),
{
    reveal(validate_spec);
    reveal(check_signed);
}

} // verus!
