//! The terminal-services key protocol: the symmetric key of a product
//! identifier, the hash that binds a payload to a curve point, and signing
//! with self-check.

pub mod lkp;
pub mod spk;
pub mod validation;

pub use crate::keygen::lkp::generate_lkp;
pub use crate::keygen::spk::generate_spk;
pub use crate::keygen::validation::{validate_key, validate_tskey};

use crate::bignat::{
    big_add, big_div, big_lt, big_mul, big_rem, big_sub, le_bytes, le_value, BigNat,
};
use crate::crypto::curve::{mul_spec, EllipticCurvePoint, PointModel};
use crate::crypto::encoding::{encode_pkey, encode_spec};
use crate::crypto::rc4::{rc4_crypt, rc4_spec};
use crate::crypto::{bigint_to_bytes_le, bytes_to_bigint_le};
use crate::keygen::validation::{
    curve_for, finite_point, hash_bound, key_valid_spec, scalar_bound, validate_spec,
};
use crate::types::{spk_curve, LKPCurve, SPKCurve};
use crate::error::KeyError;
use crate::text::{chars_of, parse_decimal, parse_number};
use rand::Rng;
use sha1::Digest;
use vstd::prelude::*;
use vstd::slice::slice_subrange;

verus! {

/// The MD5 digest of a byte sequence.
pub uninterp spec fn md5_digest(data: Seq<u8>) -> Seq<u8>;

/// The SHA-1 digest of a byte sequence.
pub uninterp spec fn sha1_digest(data: Seq<u8>) -> Seq<u8>;

/// The MD5 digest of `data`, computed by `md5::compute`.
/// Claims that the result depends on the bytes alone and has 16 bytes.
#[verifier::external_body]
fn md5_of(data: &Vec<u8>) -> (r: Vec<u8>)
    ensures
        r@ == md5_digest(data@),
        r@.len() == 16,
{
    md5::compute(data).0.to_vec()
}

/// The SHA-1 digest of `data`, computed by `sha1::Sha1::digest`.
/// Claims that the result depends on the bytes alone and has 20 bytes.
#[verifier::external_body]
fn sha1_of(data: &Vec<u8>) -> (r: Vec<u8>)
    ensures
        r@ == sha1_digest(data@),
        r@.len() == 20,
{
    sha1::Sha1::digest(data).to_vec()
}

/// Sixty-four random bits from `rand`'s thread-local generator, by
/// `Rng::gen`. Nothing is claimed of the value.
#[verifier::external_body]
fn random_u64() -> (r: u64) {
    rand::thread_rng().gen::<u64>()
}

/// The UTF-16 code units of one character as little-endian bytes: one unit
/// below 0x10000, a surrogate pair from there on.
pub open spec fn utf16_units(c: char) -> Seq<u8> {
    let u = c as u32 as int;
    if u < 0x10000 {
        seq![(u % 256) as u8, (u / 256) as u8]
    } else {
        let v = u - 0x10000;
        let hi = 0xD800 + v / 0x400;
        let lo = 0xDC00 + v % 0x400;
        seq![(hi % 256) as u8, (hi / 256) as u8, (lo % 256) as u8, (lo / 256) as u8]
    }
}

/// A string in UTF-16, little-endian.
pub open spec fn utf16_le(s: Seq<char>) -> Seq<u8>
    decreases s.len(),
{
    if s.len() == 0 {
        Seq::empty()
    } else {
        utf16_le(s.drop_last()) + utf16_units(s.last())
    }
}

/// The stream-cipher key made of a digest: its first 5 bytes, followed by
/// 11 zero bytes.
pub open spec fn padded_key(md: Seq<u8>) -> Seq<u8> {
    md.take(5) + Seq::new(11, |i: int| 0u8)
}

/// The stream-cipher key of a product identifier, made of the MD5 digest of
/// its UTF-16 form.
pub open spec fn rc4_key(pid: Seq<char>) -> Seq<u8> {
    padded_key(md5_digest(utf16_le(pid)))
}

/// A digest folded to 35 bits: its first 4 bytes as the low 32 bits, and the
/// top 3 bits of its next 4 bytes above them. Both groups are little-endian.
pub open spec fn fold_hash(md: Seq<u8>) -> nat {
    (le_value(md.subrange(4, 8)) / 0x2000_0000) * 0x1_0000_0000 + le_value(md.subrange(0, 4))
}

/// The hash that binds `payload` to the point `r`: the folded SHA-1 digest
/// of the payload followed by both coordinates in 48 little-endian bytes.
pub open spec fn point_hash(payload: Seq<u8>, r: PointModel) -> nat {
    fold_hash(sha1_digest(payload + le_bytes(r.x, 48) + le_bytes(r.y, 48)))
}

/// `s` without its first dash.
pub open spec fn without_first_dash(s: Seq<u8>) -> Seq<u8>
    decreases s.len(),
{
    if s.len() == 0 {
        s
    } else if s.last() == 0x2D && !s.drop_last().contains(0x2D) {
        s.drop_last()
    } else {
        without_first_dash(s.drop_last()).push(s.last())
    }
}

/// Where there is no dash, nothing is taken out.
proof fn lemma_without_dash(s: Seq<u8>)
    requires
        !s.contains(0x2D),
    ensures
        without_first_dash(s) == s,
    decreases s.len(),
{
    if s.len() > 0 {
        assert(s.last() == s[s.len() - 1]);
        assert(!s.drop_last().contains(0x2D)) by {
            if s.drop_last().contains(0x2D) {
                let k = choose|k: int| 0 <= k < s.drop_last().len() && s.drop_last()[k] == 0x2D;
                assert(s[k] == 0x2D);
            }
        }
        lemma_without_dash(s.drop_last());
        assert(s.drop_last().push(s.last()) =~= s);
    }
}

/// The server identifier inside a product identifier: the bytes at offsets
/// 10 to 15 and 18 to 22 of its UTF-8 form, joined, with the first dash
/// taken out, read as a decimal number that fits 64 bits.
pub open spec fn spkid_spec(pid: Seq<char>) -> Result<nat, KeyError> {
    let b = vstd::utf8::encode_utf8(pid);
    if b.len() < 23 {
        Err(KeyError::InvalidPidLength)
    } else {
        let text = without_first_dash(b.subrange(10, 16) + b.subrange(18, 23));
        match parse_number(text, 0xFFFF_FFFF_FFFF_FFFF) {
            Some(v) => Ok(v),
            None => Err(KeyError::InvalidSpkId),
        }
    }
}

/// Extracts the server identifier from a product identifier.
pub fn get_spkid(pid: &str) -> (r: Result<u64, KeyError>)
    ensures
        match r {
            Ok(v) => spkid_spec(pid@) == Ok::<nat, KeyError>(v as nat),
            Err(e) => spkid_spec(pid@) == Err::<nat, KeyError>(e),
        },
{
    let b = pid.as_bytes();
    if b.len() < 23 {
        return Err(KeyError::InvalidPidLength);
    }
    let ghost joined = b@.subrange(10, 16) + b@.subrange(18, 23);
    let mut text: Vec<u8> = Vec::new();
    let mut seen: Vec<u8> = Vec::new();
    let mut removed = false;
    let mut i: usize = 10;
    while i < 23
        invariant
            10 <= i <= 23,
            b@.len() >= 23,
            joined == b@.subrange(10, 16) + b@.subrange(18, 23),
            seen@ == joined.take(seen@.len() as int),
            seen@.len() == (if i <= 16 { i - 10 } else if i <= 18 { 6 } else { i - 12 }),
            text@ == without_first_dash(seen@),
            removed == seen@.contains(0x2D),
        decreases 23 - i,
    {
        if i < 16 || i >= 18 {
            let c = b[i];
            let ghost before = seen@;
            seen.push(c);
            proof {
                assert(joined[before.len() as int] == c);
                assert(seen@ =~= joined.take(seen@.len() as int));
                assert(seen@.drop_last() =~= before);
                if !before.contains(0x2D) {
                    lemma_without_dash(before);
                }
                if before.contains(0x2D) {
                    let k = choose|k: int| 0 <= k < before.len() && before[k] == 0x2D;
                    assert(seen@[k] == 0x2D);
                } else if c != 0x2D {
                    assert forall|k: int| 0 <= k < seen@.len() implies seen@[k] != 0x2D by {
                        if k < before.len() {
                            assert(before[k] == seen@[k]);
                            assert(!before.contains(seen@[k]) || seen@[k] != 0x2D);
                        }
                    }
                } else {
                    assert(seen@[before.len() as int] == 0x2D);
                }
            }
            if c == 0x2D && !removed {
                removed = true;
            } else {
                text.push(c);
            }
        }
        i = i + 1;
    }
    assert(seen@ =~= joined);
    match parse_decimal(&text, 0xFFFF_FFFF_FFFF_FFFF) {
        Some(v) => Ok(v),
        None => Err(KeyError::InvalidSpkId),
    }
}

/// Encodes a string as UTF-16, little-endian.
pub fn encode_utf16_le(s: &str) -> (r: Vec<u8>)
    ensures
        r@ == utf16_le(s@),
{
    let chars = chars_of(s);
    let mut bytes: Vec<u8> = Vec::new();
    let mut i: usize = 0;
    while i < chars.len()
        invariant
            i <= chars.len(),
            chars@ == s@,
            bytes@ == utf16_le(chars@.take(i as int)),
        decreases chars.len() - i,
    {
        let c = chars[i];
        let u: u32 = c as u32;
        let ghost before = bytes@;
        if u < 0x10000 {
            bytes.push((u % 256) as u8);
            bytes.push((u / 256) as u8);
        } else {
            let v: u32 = u - 0x10000;
            let hi: u32 = 0xD800 + v / 0x400;
            let lo: u32 = 0xDC00 + v % 0x400;
            bytes.push((hi % 256) as u8);
            bytes.push((hi / 256) as u8);
            bytes.push((lo % 256) as u8);
            bytes.push((lo / 256) as u8);
        }
        proof {
            assert(chars@.take(i + 1).drop_last() =~= chars@.take(i as int));
            assert(bytes@ =~= before + utf16_units(c));
        }
        i = i + 1;
    }
    assert(chars@.take(i as int) =~= chars@);
    bytes
}

/// Makes the stream-cipher key of a digest of 5 bytes or more.
pub fn key_from_digest(md: &Vec<u8>) -> (r: Vec<u8>)
    requires
        md@.len() >= 5,
    ensures
        r@ == padded_key(md@),
        r@.len() == 16,
{
    let mut rk: Vec<u8> = Vec::new();
    let mut i: usize = 0;
    while i < 16
        invariant
            i <= 16,
            md@.len() >= 5,
            rk@ == padded_key(md@).take(i as int),
        decreases 16 - i,
    {
        let b: u8 = if i < 5 {
            md[i]
        } else {
            0
        };
        rk.push(b);
        i = i + 1;
        assert(rk@ =~= padded_key(md@).take(i as int));
    }
    assert(rk@ =~= padded_key(md@));
    rk
}

/// Derives the stream-cipher key of a product identifier.
pub fn derive_rc4_key(pid: &str) -> (r: Vec<u8>)
    ensures
        r@ == rc4_key(pid@),
        r@.len() == 16,
{
    let pid_utf16le = encode_utf16_le(pid);
    let md = md5_of(&pid_utf16le);
    key_from_digest(&md)
}

/// Folds a digest of 8 bytes or more to 35 bits.
pub fn fold_digest(md: &Vec<u8>) -> (r: BigNat)
    requires
        md@.len() >= 8,
    ensures
        r@ == fold_hash(md@),
{
    let part1 = bytes_to_bigint_le(slice_subrange(md.as_slice(), 0, 4));
    let part2_whole = bytes_to_bigint_le(slice_subrange(md.as_slice(), 4, 8));
    let part2 = big_div(&part2_whole, &BigNat::from_u64(0x2000_0000));
    big_add(&big_mul(&part2, &BigNat::from_u64(0x1_0000_0000)), &part1)
}

/// Computes the hash that binds `payload` to the point `r`.
pub fn hash_point(payload: &[u8], r: &EllipticCurvePoint) -> (h: BigNat)
    ensures
        h@ == point_hash(payload@, r@),
{
    let rx_bytes = bigint_to_bytes_le(&r.x, 48);
    let ry_bytes = bigint_to_bytes_le(&r.y, 48);
    let mut sha1_input: Vec<u8> = Vec::new();
    let mut i: usize = 0;
    while i < payload.len()
        invariant
            i <= payload.len(),
            sha1_input@ == payload@.take(i as int),
        decreases payload.len() - i,
    {
        sha1_input.push(payload[i]);
        i = i + 1;
        assert(sha1_input@ =~= payload@.take(i as int));
    }
    assert(sha1_input@ =~= payload@);
    let mut rx = rx_bytes;
    let mut ry = ry_bytes;
    let ghost rxs = rx@;
    let ghost rys = ry@;
    sha1_input.append(&mut rx);
    sha1_input.append(&mut ry);
    assert(sha1_input@ =~= payload@ + rxs + rys);
    let md = sha1_of(&sha1_input);
    fold_digest(&md)
}

/// The scalar part of a signature: `nonce - d * h` modulo `n`.
pub open spec fn signature_scalar(nonce: nat, d: nat, h: nat, n: nat) -> nat {
    let dh = (d * h) % n;
    if nonce >= dh {
        ((nonce - dh) as nat) % n
    } else {
        ((n + nonce - dh) as nat) % n
    }
}

/// A signature as one number: the scalar part above the 35 bits of the hash
/// part.
pub open spec fn signature_value(s: nat, h: nat) -> nat {
    s * hash_bound() + h % hash_bound()
}

/// The key string that signing `payload` with `nonce` gives. Nothing where
/// the scalar does not fit below the all-ones value of 69 bits or the
/// payload does not have 7 bytes; a fault where the curve arithmetic has
/// no result.
#[verifier::opaque]
pub open spec fn candidate_key(
    pid: Seq<char>,
    payload: Seq<u8>,
    g: PointModel,
    n: nat,
    d: nat,
    nonce: nat,
) -> Result<Option<Seq<char>>, KeyError> {
    match mul_spec(g, nonce) {
        None => Err(KeyError::CurveFault),
        Some(r) => {
            let h = point_hash(payload, r);
            let s = signature_scalar(nonce, d, h, n);
            let plain = payload + le_bytes(signature_value(s, h), 14);
            if s >= scalar_bound() - 1 || plain.len() != 21 {
                Ok(None)
            } else {
                Ok(Some(encode_spec(le_value(rc4_spec(rc4_key(pid), plain).take(20)))))
            }
        },
    }
}

/// Whether the parameters are those for server keys: decided by the order.
pub open spec fn is_spk_order(n: nat) -> bool {
    n == spk_curve().n
}

/// The result of checking a generated key against the public point that
/// goes with the order `n`.
pub open spec fn self_check(
    pid: Seq<char>,
    key: Seq<char>,
    gx: nat,
    gy: nat,
    a: nat,
    p: nat,
    n: nat,
) -> Result<bool, KeyError> {
    let c = curve_for(is_spk_order(n));
    validate_spec(pid, key, gx, gy, c.kx, c.ky, a, p, is_spk_order(n))
}

/// One attempt at a key: the candidate for `nonce`, kept only where it
/// passes its own validation.
pub open spec fn attempt_spec(
    pid: Seq<char>,
    payload: Seq<u8>,
    gx: nat,
    gy: nat,
    a: nat,
    p: nat,
    n: nat,
    d: nat,
    nonce: nat,
) -> Result<Option<Seq<char>>, KeyError> {
    match candidate_key(pid, payload, finite_point(gx, gy, a, p), n, d, nonce) {
        Err(e) => Err(e),
        Ok(None) => Ok(None),
        Ok(Some(key)) => match self_check(pid, key, gx, gy, a, p, n) {
            Ok(true) => Ok(Some(key)),
            Err(KeyError::CurveFault) => Err(KeyError::CurveFault),
            _ => Ok(None),
        },
    }
}

/// A key that an attempt accepts under the domain parameters of its kind is
/// valid for the same product identifier as a key of that kind.
pub proof fn lemma_accepted_key_verifies(
    pid: Seq<char>,
    payload: Seq<u8>,
    is_spk: bool,
    nonce: nat,
    key: Seq<char>,
)
    requires
        attempt_spec(
            pid,
            payload,
            curve_for(is_spk).gx,
            curve_for(is_spk).gy,
            curve_for(is_spk).a,
            curve_for(is_spk).p,
            curve_for(is_spk).n,
            curve_for(is_spk).d,
            nonce,
        ) == Ok::<Option<Seq<char>>, KeyError>(Some(key)),
    ensures
        key_valid_spec(pid, key, is_spk) == Ok::<bool, KeyError>(true),
{
    crate::types::lemma_curves();
    assert(is_spk_order(curve_for(is_spk).n) == is_spk);
}

/// What an optional string denotes.
pub open spec fn opt_text(r: Option<String>) -> Option<Seq<char>> {
    match r {
        Some(s) => Some(s@),
        None => None,
    }
}

/// What the result of one attempt denotes.
pub open spec fn attempt_view(r: Result<Option<String>, KeyError>) -> Result<
    Option<Seq<char>>,
    KeyError,
> {
    match r {
        Ok(k) => Ok(opt_text(k)),
        Err(e) => Err(e),
    }
}

/// Computes the scalar part of a signature.
pub fn sign_scalar(nonce: &BigNat, priv_key: &BigNat, h: &BigNat, n: &BigNat) -> (s: BigNat)
    requires
        n@ > 0,
    ensures
        s@ == signature_scalar(nonce@, priv_key@, h@, n@),
{
    let dh = big_rem(&big_mul(priv_key, h), n);
    if !big_lt(nonce, &dh) {
        big_rem(&big_sub(nonce, &dh), n)
    } else {
        big_rem(&big_sub(&big_add(n, nonce), &dh), n)
    }
}

/// Packs the two parts of a signature into one number.
pub fn pack_signature(s: &BigNat, h: &BigNat) -> (r: BigNat)
    ensures
        r@ == signature_value(s@, h@),
{
    let hash_limit = BigNat::from_u64(0x8_0000_0000);
    big_add(&big_mul(s, &hash_limit), &big_rem(h, &hash_limit))
}

/// Whether a scalar fits the 69 bits of a signature: the all-ones value is
/// left out too.
pub fn scalar_fits(s: &BigNat) -> (r: bool)
    ensures
        r == (s@ < scalar_bound() - 1),
{
    let scalar_limit = big_mul(&BigNat::from_u64(0x8_0000_0000), &BigNat::from_u64(0x4_0000_0000));
    let s_mask = big_sub(&scalar_limit, &BigNat::from_u64(1));
    big_lt(s, &s_mask)
}

/// Builds the candidate key for one nonce, as `candidate_key` states.
fn make_candidate(
    pid: &str,
    keydata_inner: &[u8],
    g: &EllipticCurvePoint,
    n: &BigNat,
    priv_key: &BigNat,
    nonce: &BigNat,
) -> (r: Result<Option<String>, KeyError>)
    requires
        n@ > 0,
    ensures
        attempt_view(r) == candidate_key(pid@, keydata_inner@, g@, n@, priv_key@, nonce@),
        r is Err ==> r->Err_0 == KeyError::CurveFault,
{
    reveal(candidate_key);
    let r = match g.checked_mul(nonce) {
        Some(pt) => pt,
        None => {
            return Err(KeyError::CurveFault);
        },
    };
    let h = hash_point(keydata_inner, &r);
    let s = sign_scalar(nonce, priv_key, &h, n);

    if !scalar_fits(&s) {
        return Ok(None);
    }
    let sigdata = pack_signature(&s, &h);
    let mut sigdata_bytes = bigint_to_bytes_le(&sigdata, 14);
    proof {
        crate::bignat::lemma_le_bytes_len(sigdata@, 14);
    }
    let mut pkdata: Vec<u8> = Vec::new();
    let mut i: usize = 0;
    while i < keydata_inner.len()
        invariant
            i <= keydata_inner.len(),
            pkdata@ == keydata_inner@.take(i as int),
        decreases keydata_inner.len() - i,
    {
        pkdata.push(keydata_inner[i]);
        i = i + 1;
        assert(pkdata@ =~= keydata_inner@.take(i as int));
    }
    assert(pkdata@ =~= keydata_inner@);
    pkdata.append(&mut sigdata_bytes);
    assert(pkdata@ =~= keydata_inner@ + le_bytes(sigdata@, 14));
    if pkdata.len() != 21 {
        return Ok(None);
    }
    let rk = derive_rc4_key(pid);
    let pke = rc4_crypt(rk.as_slice(), pkdata.as_slice());
    let pk = bytes_to_bigint_le(slice_subrange(pke.as_slice(), 0, 20));
    assert(pke@.subrange(0, 20) =~= pke@.take(20));
    Ok(Some(encode_pkey(&pk)))
}

/// Signs `keydata_inner` for `pid` with the given nonce and checks the key
/// against the public point that goes with the order `n`. Gives the key
/// where it passes, nothing where this nonce yields no valid key, and a
/// fault where the curve arithmetic has no result.
pub fn sign_with_nonce(
    pid: &str,
    keydata_inner: &[u8],
    gx: &BigNat,
    gy: &BigNat,
    a: &BigNat,
    p: &BigNat,
    n: &BigNat,
    priv_key: &BigNat,
    nonce: &BigNat,
) -> (r: Result<Option<String>, KeyError>)
    requires
        n@ > 0,
    ensures
        attempt_view(r) == attempt_spec(
            pid@,
            keydata_inner@,
            gx@,
            gy@,
            a@,
            p@,
            n@,
            priv_key@,
            nonce@,
        ),
        r is Err ==> r->Err_0 == KeyError::CurveFault,
{
    let g = EllipticCurvePoint::new(gx.clone(), gy.clone(), a.clone(), p.clone());
    let pkstr = match make_candidate(pid, keydata_inner, &g, n, priv_key, nonce) {
        Err(e) => {
            return Err(e);
        },
        Ok(None) => {
            return Ok(None);
        },
        Ok(Some(key)) => key,
    };
    let is_spk = n.equals(&SPKCurve::n());
    let kx = if is_spk {
        SPKCurve::kx()
    } else {
        LKPCurve::kx()
    };
    let ky = if is_spk {
        SPKCurve::ky()
    } else {
        LKPCurve::ky()
    };
    match validate_tskey(
        pid,
        pkstr.as_str(),
        gx.clone(),
        gy.clone(),
        kx,
        ky,
        a.clone(),
        p.clone(),
        is_spk,
    ) {
        Ok(true) => Ok(Some(pkstr)),
        Err(KeyError::CurveFault) => Err(KeyError::CurveFault),
        _ => Ok(None),
    }
}

/// The nonce that raw random bits stand for: one more than their value
/// modulo `n - 1`, which lies in `[1, n)`.
pub open spec fn nonce_spec(raw: nat, n: nat) -> nat {
    1 + raw % ((n - 1) as nat)
}

/// Maps raw random bits to a nonce in `[1, n)`.
pub fn nonce_from(raw: &BigNat, n: &BigNat) -> (r: BigNat)
    requires
        n@ >= 2,
    ensures
        r@ == nonce_spec(raw@, n@),
        1 <= r@ < n@,
{
    let one = BigNat::from_u64(1);
    let span = big_sub(n, &one);
    big_add(&one, &big_rem(raw, &span))
}

/// Draws a nonce in `[1, n)` from 64 random bits more than `n` has bytes.
fn draw_nonce(n: &BigNat) -> (r: BigNat)
    requires
        n@ >= 2,
    ensures
        1 <= r@ < n@,
{
    let limbs: usize = n.bytes.len() / 8 + 2;
    let mut raw = BigNat::zero();
    let mut i: usize = 0;
    while i < limbs
        invariant
            i <= limbs,
        decreases limbs - i,
    {
        raw = raw.shifted_in(random_u64());
        i = i + 1;
    }
    nonce_from(&raw, n)
}

/// What holds of the outcome of key generation, whatever nonces were
/// drawn. A key that comes back was made by one attempt with a nonce in
/// `[1, n)` and passes its own validation. A failure is either the end of
/// the attempts or a fault of the curve arithmetic met in one attempt.
pub open spec fn generation_outcome(
    r: Result<String, KeyError>,
    pid: Seq<char>,
    payload: Seq<u8>,
    gx: nat,
    gy: nat,
    a: nat,
    p: nat,
    n: nat,
    d: nat,
    max_attempts: usize,
) -> bool {
    match r {
        Ok(key) => {
            &&& self_check(pid, key@, gx, gy, a, p, n) == Ok::<bool, KeyError>(true)
            &&& exists|nonce: nat|
                1 <= nonce < n && #[trigger] attempt_spec(pid, payload, gx, gy, a, p, n, d, nonce)
                    == Ok::<Option<Seq<char>>, KeyError>(Some(key@))
        },
        Err(e) => {
            ||| e == KeyError::Exhausted(max_attempts)
            ||| e == KeyError::CurveFault && exists|nonce: nat|
                1 <= nonce < n && #[trigger] attempt_spec(pid, payload, gx, gy, a, p, n, d, nonce)
                    == Err::<Option<Seq<char>>, KeyError>(KeyError::CurveFault)
        },
    }
}

/// Generates a key string for `keydata_inner` bound to `pid`: up to
/// `max_attempts` times a random nonce in `[1, n)` is drawn, the payload is
/// signed with it, and the first key that passes its own validation is
/// returned. An order below 2 leaves no nonce to draw: every attempt fails.
pub fn generate_tskey(
    pid: &str,
    keydata_inner: &[u8],
    gx: BigNat,
    gy: BigNat,
    a: BigNat,
    p: BigNat,
    n: BigNat,
    priv_key: BigNat,
    max_attempts: usize,
) -> (r: Result<String, KeyError>)
    ensures
        generation_outcome(
            r,
            pid@,
            keydata_inner@,
            gx@,
            gy@,
            a@,
            p@,
            n@,
            priv_key@,
            max_attempts,
        ),
        max_attempts == 0 || n@ < 2 ==> r == Err::<String, KeyError>(
            KeyError::Exhausted(max_attempts),
        ),
{
    if big_lt(&n, &BigNat::from_u64(2)) {
        return Err(KeyError::Exhausted(max_attempts));
    }
    let mut attempt: usize = 0;
    while attempt < max_attempts
        invariant
            attempt <= max_attempts,
            n@ >= 2,
        decreases max_attempts - attempt,
    {
        let c_nonce = draw_nonce(&n);
        match sign_with_nonce(pid, keydata_inner, &gx, &gy, &a, &p, &n, &priv_key, &c_nonce) {
            Ok(Some(key)) => {
                return Ok(key);
            },
            Ok(None) => {},
            Err(e) => {
                return Err(e);
            },
        }
        attempt = attempt + 1;
    }
    Err(KeyError::Exhausted(max_attempts))
}

} // verus!
