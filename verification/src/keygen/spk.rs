//! Server keys: the signed identifier of a license server.

use crate::bignat::{le_bytes, BigNat};
use crate::crypto::bigint_to_bytes_le;
use crate::error::KeyError;
use crate::keygen::validation::key_valid_spec;
use crate::keygen::{generate_tskey, generation_outcome, get_spkid, spkid_spec};
use crate::types::{spk_curve, SPKCurve};
use vstd::prelude::*;

verus! {

/// The number of attempts that key generation makes.
pub const MAX_ATTEMPTS: usize = 1000;

/// The payload of a server key: the low 7 bytes of the server identifier.
pub open spec fn spk_payload(id: nat) -> Seq<u8> {
    le_bytes(id, 7)
}

/// Generates the server key of a product identifier. A product identifier
/// without a server identifier is rejected; a key that comes back is valid
/// for `pid` as a server key.
pub fn generate_spk(pid: &str) -> (r: Result<String, KeyError>)
    ensures
        match spkid_spec(pid@) {
            Err(e) => r == Err::<String, KeyError>(e),
            Ok(id) => {
                &&& generation_outcome(
                    r,
                    pid@,
                    spk_payload(id),
                    spk_curve().gx,
                    spk_curve().gy,
                    spk_curve().a,
                    spk_curve().p,
                    spk_curve().n,
                    spk_curve().d,
                    MAX_ATTEMPTS,
                )
                &&& r is Ok ==> key_valid_spec(pid@, r->Ok_0@, true) == Ok::<bool, KeyError>(true)
            },
        },
{
    let spkid_num = match get_spkid(pid) {
        Ok(id) => id,
        Err(e) => {
            return Err(e);
        },
    };
    let spkdata = bigint_to_bytes_le(&BigNat::from_u64(spkid_num), 7);
    let r = generate_tskey(
        pid,
        spkdata.as_slice(),
        SPKCurve::gx(),
        SPKCurve::gy(),
        BigNat::from_u64(SPKCurve::A as u64),
        SPKCurve::p(),
        SPKCurve::n(),
        SPKCurve::priv_key(),
        MAX_ATTEMPTS,
    );
    proof {
        crate::types::lemma_curves();
    }
    r
}

} // verus!
