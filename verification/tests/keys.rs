use rdsgen::bignat::BigNat;
use rdsgen::crypto::curve::EllipticCurvePoint;
use rdsgen::error::{ErrorKind, KeyError};
use rdsgen::keygen::lkp::generate_lkp;
use rdsgen::keygen::spk::generate_spk;
use rdsgen::keygen::validation::{validate_key, validate_tskey};
use rdsgen::keygen::{
    derive_rc4_key, encode_utf16_le, fold_digest, generate_tskey, get_spkid, hash_point,
    nonce_from, sign_with_nonce,
};
use rdsgen::types::{LKPCurve, LicenseInfo, SPKCurve};

const PID: &str = "00486-001-1234567-84123";
const OTHER_PID: &str = "00486-001-7654321-84123";

#[test]
fn spkid_of_product_identifier() {
    assert_eq!(get_spkid(PID), Ok(12345684123));
    assert_eq!(get_spkid(OTHER_PID), Ok(76543284123));
    // what stands beyond offset 23 is not read
    assert_eq!(get_spkid("00486-001-1234567-84123-tail"), Ok(12345684123));
}

#[test]
fn spkid_without_its_dash() {
    assert_eq!(get_spkid("0000000000-12345xx67890"), Ok(1234567890));
    assert_eq!(get_spkid("000000000012-345xx67890"), Ok(1234567890));
    // only the first dash is taken out
    assert_eq!(get_spkid("00000000001-2-45xx67890"), Err(KeyError::InvalidSpkId));
}

#[test]
fn spkid_rejects_malformed_identifiers() {
    let e = get_spkid("00486-001-1234567-8412").unwrap_err();
    assert_eq!(e, KeyError::InvalidPidLength);
    assert_eq!(e.kind(), ErrorKind::InputFormat);
    assert_eq!(get_spkid(""), Err(KeyError::InvalidPidLength));
    let e = get_spkid("00490-92005-99454-AT527").unwrap_err();
    assert_eq!(e, KeyError::InvalidSpkId);
    assert_eq!(e.kind(), ErrorKind::InputFormat);
    assert_eq!(get_spkid("0000000000------xx-----"), Err(KeyError::InvalidSpkId));
}

#[test]
fn utf16_little_endian() {
    assert_eq!(encode_utf16_le(""), Vec::<u8>::new());
    assert_eq!(encode_utf16_le("A1"), vec![0x41, 0x00, 0x31, 0x00]);
    assert_eq!(encode_utf16_le("\u{20AC}"), vec![0xAC, 0x20]);
    // beyond the basic plane: a surrogate pair
    assert_eq!(encode_utf16_le("\u{1F600}"), vec![0x3D, 0xD8, 0x00, 0xDE]);
    let expected: Vec<u8> = PID.encode_utf16().flat_map(|w| w.to_le_bytes()).collect();
    assert_eq!(encode_utf16_le(PID), expected);
}

#[test]
fn symmetric_key_of_product_identifier() {
    // the MD5 digest of no bytes starts with d4 1d 8c d9 8f
    assert_eq!(
        derive_rc4_key(""),
        vec![0xD4, 0x1D, 0x8C, 0xD9, 0x8F, 0, 0, 0, 0, 0, 0, 0, 0, 0, 0, 0]
    );
    let digest = md5::compute(encode_utf16_le(PID));
    let mut expected = digest.0[..5].to_vec();
    expected.extend_from_slice(&[0u8; 11]);
    assert_eq!(derive_rc4_key(PID), expected);
}

#[test]
fn digest_folding() {
    let md = vec![0x78, 0x56, 0x34, 0x12, 0, 0, 0, 0xE0, 9, 9, 9, 9, 9, 9, 9, 9, 9, 9, 9, 9];
    // the top three bits of the second word are 7
    assert!(fold_digest(&md).equals(&BigNat::from_u64(0x7_1234_5678)));
    let md = vec![1, 0, 0, 0, 0xFF, 0xFF, 0xFF, 0x1F];
    assert!(fold_digest(&md).equals(&BigNat::from_u64(1)));
}

#[test]
fn point_hash_is_folded_sha1() {
    // the SHA-1 digest of "abc" followed by 96 zero bytes, for the point (0, 0)
    let zero = EllipticCurvePoint::new(
        BigNat::zero(),
        BigNat::zero(),
        BigNat::from_u64(1),
        BigNat::from_u64(23),
    );
    let mut input = b"abc".to_vec();
    input.extend_from_slice(&[0u8; 96]);
    let md = <sha1::Sha1 as sha1::Digest>::digest(&input);
    let low = u32::from_le_bytes([md[0], md[1], md[2], md[3]]) as u64;
    let high = (u32::from_le_bytes([md[4], md[5], md[6], md[7]]) >> 29) as u64;
    let h = hash_point(b"abc", &zero);
    assert!(h.equals(&BigNat::from_u64((high << 32) | low)));
    // the coordinates enter the hash
    let other = EllipticCurvePoint::new(
        BigNat::from_u64(1),
        BigNat::zero(),
        BigNat::from_u64(1),
        BigNat::from_u64(23),
    );
    assert!(!hash_point(b"abc", &other).equals(&h));
}

#[test]
fn nonce_lies_in_range() {
    assert!(nonce_from(&BigNat::zero(), &BigNat::from_u64(2)).equals(&BigNat::from_u64(1)));
    assert!(nonce_from(&BigNat::from_u64(99), &BigNat::from_u64(2)).equals(&BigNat::from_u64(1)));
    assert!(nonce_from(&BigNat::from_u64(10), &BigNat::from_u64(7)).equals(&BigNat::from_u64(5)));
    assert!(nonce_from(&BigNat::from_u64(5), &BigNat::from_u64(7)).equals(&BigNat::from_u64(6)));
}

#[test]
fn server_key_verifies() {
    let key = generate_spk(PID).unwrap();
    assert_eq!(key.len(), 41);
    assert_eq!(validate_key(PID, &key, true), Ok(true));
    assert_eq!(
        validate_tskey(
            PID,
            &key,
            SPKCurve::gx(),
            SPKCurve::gy(),
            SPKCurve::kx(),
            SPKCurve::ky(),
            BigNat::from_u64(1),
            SPKCurve::p(),
            true,
        ),
        Ok(true)
    );
}

#[test]
fn license_pack_verifies() {
    let info = LicenseInfo::parse("029_10_2").unwrap();
    let key = generate_lkp(PID, 25, info.chid, info.major_ver, info.minor_ver).unwrap();
    assert_eq!(key.len(), 41);
    assert_eq!(validate_key(PID, &key, false), Ok(true));
}

#[test]
fn count_outside_its_bounds() {
    let e = generate_lkp(PID, 0, 29, 10, 2).unwrap_err();
    assert_eq!(e, KeyError::CountOutOfRange);
    assert_eq!(e.kind(), ErrorKind::Range);
    assert_eq!(generate_lkp(PID, 10000, 29, 10, 2), Err(KeyError::CountOutOfRange));
    assert_eq!(generate_lkp(PID, u32::MAX, 29, 10, 2), Err(KeyError::CountOutOfRange));
}

#[test]
fn count_at_its_lower_bound() {
    let key = generate_lkp(PID, 1, 29, 10, 2).unwrap();
    assert_eq!(validate_key(PID, &key, false), Ok(true));
}

#[test]
fn count_at_its_upper_bound() {
    let key = generate_lkp(PID, 9999, 29, 10, 2).unwrap();
    assert_eq!(validate_key(PID, &key, false), Ok(true));
}

#[test]
fn server_key_of_another_identifier_is_rejected() {
    let key = generate_spk(PID).unwrap();
    assert_eq!(validate_key(OTHER_PID, &key, true), Ok(false));
}

#[test]
fn key_of_the_other_kind_is_rejected() {
    let key = generate_spk(PID).unwrap();
    assert_eq!(validate_key(PID, &key, false), Ok(false));
}

#[test]
fn malformed_key_is_an_error() {
    assert_eq!(validate_key(PID, "BBBB", true), Err(KeyError::BadKeyLength));
    assert_eq!(validate_key(PID, "BBBBA", false), Err(KeyError::InvalidCharacter('A')));
    // a well-formed key that fits nothing is no error
    assert_eq!(
        validate_key(PID, "BBBBB-BBBBB-BBBBB-BBBBB-BBBBB-BBBBB-BBBBC", false),
        Ok(false)
    );
}

#[test]
fn server_key_needs_an_identifier_in_the_product_identifier() {
    assert_eq!(generate_spk("short"), Err(KeyError::InvalidPidLength));
    assert_eq!(generate_spk("00490-92005-99454-AT527"), Err(KeyError::InvalidSpkId));
}

// Replaces the character at each of the given places by another digit and
// counts the changed keys that no longer verify.
fn rejected_after_change(key: &str, places: &[usize], is_spk: bool) -> usize {
    let chars: Vec<char> = key.chars().collect();
    let mut rejected = 0;
    for &pos in places {
        assert!(chars[pos] != '-');
        let mut changed = chars.clone();
        changed[pos] = if chars[pos] == 'B' { 'C' } else { 'B' };
        let text: String = changed.into_iter().collect();
        if validate_key(PID, &text, is_spk) == Ok(false) {
            rejected += 1;
        }
    }
    rejected
}

#[test]
fn tampered_server_keys_fail_at_the_front() {
    let key = generate_spk(PID).unwrap();
    assert!(rejected_after_change(&key, &[0, 7, 13, 16], true) >= 3);
}

#[test]
fn tampered_server_keys_fail_at_the_back() {
    let key = generate_spk(PID).unwrap();
    assert!(rejected_after_change(&key, &[20, 26, 33, 40], true) >= 3);
}

#[test]
fn tampered_license_packs_fail() {
    let key = generate_lkp(PID, 7, 29, 10, 2).unwrap();
    assert!(rejected_after_change(&key, &[2, 15, 28, 39], false) >= 3);
}

#[test]
fn signing_with_a_given_nonce_is_repeatable() {
    let one = BigNat::from_u64(1);
    let id: u64 = 12345684123;
    let payload = id.to_le_bytes()[..7].to_vec();
    let sign = |nonce: u64| {
        sign_with_nonce(
            PID,
            &payload,
            &SPKCurve::gx(),
            &SPKCurve::gy(),
            &one,
            &SPKCurve::p(),
            &SPKCurve::n(),
            &SPKCurve::priv_key(),
            &BigNat::from_u64(nonce),
        )
    };
    let mut found = 0;
    for nonce in 1..=3u64 {
        let first = sign(nonce).unwrap();
        if nonce == 1 {
            assert_eq!(first, sign(nonce).unwrap());
        }
        if let Some(key) = first {
            found += 1;
            assert_eq!(key.len(), 41);
        }
    }
    assert!(found >= 1);
}

#[test]
fn generation_gives_up_after_its_attempts() {
    let run = |payload: &[u8], order: BigNat, attempts: usize| {
        generate_tskey(
            PID,
            payload,
            LKPCurve::gx(),
            LKPCurve::gy(),
            BigNat::from_u64(1),
            LKPCurve::p(),
            order,
            LKPCurve::priv_key(),
            attempts,
        )
    };
    assert_eq!(run(&[1, 2, 3, 4, 5, 6, 7], LKPCurve::n(), 0), Err(KeyError::Exhausted(0)));
    // an order that leaves no nonce
    assert_eq!(run(&[1, 2, 3, 4, 5, 6, 7], BigNat::from_u64(1), 9), Err(KeyError::Exhausted(9)));
    // a payload that is not 7 bytes long never fits the key
    let e = run(&[1, 2, 3], LKPCurve::n(), 2).unwrap_err();
    assert_eq!(e, KeyError::Exhausted(2));
    assert_eq!(e.kind(), ErrorKind::CryptographicExhaustion);
}
