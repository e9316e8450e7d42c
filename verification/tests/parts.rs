use rdsgen::bignat::BigNat;
use rdsgen::error::KeyError;
use rdsgen::keygen::lkp::{encode_lkp_info, encode_version};
use rdsgen::keygen::validation::split_signature;
use rdsgen::keygen::{key_from_digest, pack_signature, scalar_fits, sign_scalar};
use rdsgen::text::{chars_of, decimal_text, parse_decimal, string_of};

fn n(v: u64) -> BigNat {
    BigNat::from_u64(v)
}

#[test]
fn version_field() {
    assert_eq!(encode_version(10, 2), 82);
    assert_eq!(encode_version(6, 0), 48);
    assert_eq!(encode_version(5, 2), 42);
    // version 5.0 and anything older have the fixed value
    assert_eq!(encode_version(5, 0), 1);
    assert_eq!(encode_version(4, 7), 1);
    assert_eq!(encode_version(0, 0), 1);
}

#[test]
fn license_pack_payload() {
    // 29 << 46 | 25 << 32 | 2 << 18 | 144 << 10 | 82 << 3
    assert_eq!(encode_lkp_info(29, 25, 10, 2), vec![0x90, 0x42, 0x0A, 0x00, 0x19, 0x40, 0x07]);
    assert_eq!(encode_lkp_info(1, 1, 5, 0), vec![0x08, 0x40, 0x0A, 0x00, 0x01, 0x40, 0x00]);
    assert_eq!(encode_lkp_info(3, 9999, 5, 2), vec![0x50, 0x41, 0x0A, 0x00, 0x0F, 0xE7, 0x00]);
    // what does not fit 64 bits, or the 7 bytes, is lost
    assert_eq!(
        encode_lkp_info(0xFFFF_FFFF, 1, 6, 0),
        vec![0x80, 0x41, 0x0A, 0x00, 0x01, 0xC0, 0xFF]
    );
}

#[test]
fn signature_scalar_formula() {
    // 3 * 4 = 12 = 5 modulo 7
    assert!(sign_scalar(&n(5), &n(3), &n(4), &n(7)).is_zero());
    assert!(sign_scalar(&n(6), &n(3), &n(4), &n(7)).equals(&n(1)));
    // the nonce is the smaller: the order is added first
    assert!(sign_scalar(&n(2), &n(3), &n(4), &n(7)).equals(&n(4)));
    // a nonce above the order is reduced
    assert!(sign_scalar(&n(20), &n(3), &n(4), &n(7)).equals(&n(1)));
}

#[test]
fn signature_packing() {
    let packed = pack_signature(&n(3), &n(5));
    assert!(packed.equals(&n((3 << 35) | 5)));
    let (h, s) = split_signature(&packed);
    assert!(h.equals(&n(5)));
    assert!(s.equals(&n(3)));
    // only the low 35 bits of the hash part are kept
    assert!(pack_signature(&n(1), &n((1 << 35) | 9)).equals(&n((1 << 35) | 9)));
    // the scalar part is cut to 69 bits when it is read back
    let wide = n(1).shifted_in(7);
    let (h, s) = split_signature(&wide);
    assert!(h.equals(&n(7)));
    assert!(s.equals(&n(1 << 29)));
    let wider = n(1).shifted_in(0).shifted_in(7);
    let (_, s) = split_signature(&wider);
    assert!(s.is_zero());
}

#[test]
fn scalar_width() {
    assert!(scalar_fits(&BigNat::zero()));
    assert!(scalar_fits(&n(u64::MAX)));
    // 2^69 - 2 fits, 2^69 - 1 and 2^69 do not
    let limit = n(0x20).shifted_in(0);
    let bytes = |v: &[u8]| rdsgen::crypto::bytes_to_bigint_le(v);
    assert!(scalar_fits(&bytes(&[0xFE, 0xFF, 0xFF, 0xFF, 0xFF, 0xFF, 0xFF, 0xFF, 0x1F])));
    assert!(!scalar_fits(&bytes(&[0xFF, 0xFF, 0xFF, 0xFF, 0xFF, 0xFF, 0xFF, 0xFF, 0x1F])));
    assert!(!scalar_fits(&limit));
}

#[test]
fn key_of_a_digest() {
    let md: Vec<u8> = (1..=16).collect();
    assert_eq!(key_from_digest(&md), vec![1, 2, 3, 4, 5, 0, 0, 0, 0, 0, 0, 0, 0, 0, 0, 0]);
    assert_eq!(key_from_digest(&vec![9; 5]).len(), 16);
}

#[test]
fn decimal_parsing() {
    let parse = |s: &str, max: u64| parse_decimal(&s.as_bytes().to_vec(), max);
    assert_eq!(parse("0", 9), Some(0));
    assert_eq!(parse("007", 9), Some(7));
    assert_eq!(parse("+12", 99), Some(12));
    assert_eq!(parse("4294967295", 0xFFFF_FFFF), Some(4294967295));
    assert_eq!(parse("4294967296", 0xFFFF_FFFF), None);
    assert_eq!(parse("18446744073709551615", u64::MAX), Some(u64::MAX));
    assert_eq!(parse("18446744073709551616", u64::MAX), None);
    assert_eq!(parse("99999999999999999999999", u64::MAX), None);
    assert_eq!(parse("5", 3), None);
    assert_eq!(parse("", 9), None);
    assert_eq!(parse("+", 9), None);
    assert_eq!(parse("-1", 9), None);
    assert_eq!(parse("++1", 9), None);
    assert_eq!(parse("1 ", 9), None);
    assert_eq!(parse("1a", 99), None);
}

#[test]
fn decimal_writing() {
    let text = |v: usize| -> String { decimal_text(v).into_iter().collect() };
    assert_eq!(text(0), "0");
    assert_eq!(text(7), "7");
    assert_eq!(text(10), "10");
    assert_eq!(text(1000), "1000");
    assert_eq!(text(usize::MAX), usize::MAX.to_string());
}

#[test]
fn text_conversions() {
    assert_eq!(chars_of("a-\u{e9}"), vec!['a', '-', '\u{e9}']);
    assert_eq!(string_of(&vec!['x', '\u{1F600}', 'y']), "x\u{1F600}y");
    assert_eq!(string_of(&Vec::new()), "");
}

#[test]
fn error_messages() {
    assert_eq!(KeyError::InvalidPidLength.message(), "Invalid PID length");
    assert_eq!(KeyError::InvalidSpkId.message(), "Failed to parse SPKID");
    assert_eq!(KeyError::BadKeyLength.message(), "Bad key length");
    assert_eq!(KeyError::InvalidCharacter('Z').message(), "Invalid character: Z");
    assert_eq!(
        KeyError::LicenseFormat.message(),
        "License format must be CHID_MAJOR_MINOR (e.g., 029_10_2)"
    );
    assert_eq!(KeyError::UnknownLicenseType.message(), "Unknown license type");
    assert_eq!(
        KeyError::CountOutOfRange.message(),
        "License count must be between 1 and 9999"
    );
    assert_eq!(
        KeyError::Exhausted(1000).message(),
        "Failed to generate valid key after 1000 attempts"
    );
    assert_eq!(KeyError::CurveFault.message(), "Failed to compute modular inverse");
}
