//! License key packs: a signed grant of a number of licenses of one type.

use crate::bignat::{le_bytes, BigNat};
use crate::crypto::bigint_to_bytes_le;
use crate::error::KeyError;
use crate::keygen::spk::MAX_ATTEMPTS;
use crate::keygen::validation::key_valid_spec;
use crate::keygen::{generate_tskey, generation_outcome};
use crate::types::{lkp_curve, LKPCurve};
use vstd::prelude::*;

verus! {

/// The version field of a license key pack: `major` above the three bits of
/// `minor` from version 5.1 on, and 1 for anything older.
pub open spec fn lkp_version(major_ver: u32, minor_ver: u32) -> u32 {
    if (major_ver == 5 && minor_ver > 0) || major_ver > 5 {
        (major_ver << 3) | minor_ver
    } else {
        1
    }
}

/// The fields of a license key pack packed into 64 bits: the license type
/// from bit 46, the count from bit 32, the constants 2 from bit 18 and 144
/// from bit 10, and the version from bit 3.
pub open spec fn lkp_info(chid: u32, count: u32, major_ver: u32, minor_ver: u32) -> u64 {
    ((chid as u64) << 46) | ((count as u64) << 32) | (2u64 << 18) | (144u64 << 10) | ((lkp_version(
        major_ver,
        minor_ver,
    ) as u64) << 3)
}

/// The payload of a license key pack: the low 7 bytes of the packed fields.
pub open spec fn lkp_payload(chid: u32, count: u32, major_ver: u32, minor_ver: u32) -> Seq<u8> {
    le_bytes(lkp_info(chid, count, major_ver, minor_ver) as nat, 7)
}

/// Computes the version field.
pub fn encode_version(major_ver: u32, minor_ver: u32) -> (r: u32)
    ensures
        r == lkp_version(major_ver, minor_ver),
{
    if (major_ver == 5 && minor_ver > 0) || major_ver > 5 {
        (major_ver << 3) | minor_ver
    } else {
        1
    }
}

/// Packs the fields of a license key pack into its 7 bytes of payload.
pub fn encode_lkp_info(chid: u32, count: u32, major_ver: u32, minor_ver: u32) -> (r: Vec<u8>)
    ensures
        r@ == lkp_payload(chid, count, major_ver, minor_ver),
{
    let version = encode_version(major_ver, minor_ver);
    let lkpinfo: u64 = ((chid as u64) << 46) | ((count as u64) << 32) | (2u64 << 18) | (144u64
        << 10) | ((version as u64) << 3);
    bigint_to_bytes_le(&BigNat::from_u64(lkpinfo), 7)
}

/// Generates a license key pack of `count` licenses of the type `chid` in
/// the version `major_ver.minor_ver`, bound to `pid`. A count outside 1 to
/// 9999 is rejected; a key that comes back is valid for `pid` as a license
/// key pack.
pub fn generate_lkp(pid: &str, count: u32, chid: u32, major_ver: u32, minor_ver: u32) -> (r:
    Result<String, KeyError>)
    ensures
        !(1 <= count <= 9999) ==> r == Err::<String, KeyError>(KeyError::CountOutOfRange),
        1 <= count <= 9999 ==> generation_outcome(
            r,
            pid@,
            lkp_payload(chid, count, major_ver, minor_ver),
            lkp_curve().gx,
            lkp_curve().gy,
            lkp_curve().a,
            lkp_curve().p,
            lkp_curve().n,
            lkp_curve().d,
            MAX_ATTEMPTS,
        ),
        r is Ok ==> key_valid_spec(pid@, r->Ok_0@, false) == Ok::<bool, KeyError>(true),
{
    if count < 1 || count > 9999 {
        return Err(KeyError::CountOutOfRange);
    }
    let lkpdata = encode_lkp_info(chid, count, major_ver, minor_ver);
    let r = generate_tskey(
        pid,
        lkpdata.as_slice(),
        LKPCurve::gx(),
        LKPCurve::gy(),
        BigNat::from_u64(LKPCurve::A as u64),
        LKPCurve::p(),
        LKPCurve::n(),
        LKPCurve::priv_key(),
        MAX_ATTEMPTS,
    );
    proof {
        crate::types::lemma_curves();
    }
    r
}

} // verus!
