use rdsgen::bignat::BigNat;
use rdsgen::crypto::encoding::{decode_pkey, encode_pkey};
use rdsgen::crypto::rc4::rc4_crypt;
use rdsgen::crypto::{bigint_to_bytes_le, bytes_to_bigint_le, mod_inverse};
use rdsgen::error::{ErrorKind, KeyError};

#[test]
fn test_encode_decode() {
    let num = BigNat::from_u64(12345678901234567890u64);
    let encoded = encode_pkey(&num);
    let decoded = decode_pkey(&encoded).unwrap();
    assert!(num.equals(&decoded));
}

#[test]
fn test_rc4_symmetric() {
    let key = b"test_key";
    let plaintext = b"Hello, World!";

    let encrypted = rc4_crypt(key, plaintext);
    let decrypted = rc4_crypt(key, &encrypted);

    assert_eq!(plaintext, &decrypted[..]);
}

#[test]
fn rc4_known_vector() {
    // The widely published vector for the key "Key" and the text "Plaintext".
    let out = rc4_crypt(b"Key", b"Plaintext");
    assert_eq!(out, vec![0xBB, 0xF3, 0x16, 0xE8, 0xD9, 0x40, 0xAF, 0x0A, 0xD3]);
}

#[test]
fn encode_shape() {
    let s = encode_pkey(&BigNat::from_u64(1));
    assert_eq!(s, "BBBBB-BBBBB-BBBBB-BBBBB-BBBBB-BBBBB-BBBBC");
    let s = encode_pkey(&BigNat::from_u64(24));
    assert_eq!(s, "BBBBB-BBBBB-BBBBB-BBBBB-BBBBB-BBBBB-BBBCB");
    let s = encode_pkey(&BigNat::from_u64(23));
    assert_eq!(s, "BBBBB-BBBBB-BBBBB-BBBBB-BBBBB-BBBBB-BBBB9");
    assert_eq!(s.len(), 41);
}

#[test]
fn encode_zero_is_empty() {
    assert_eq!(encode_pkey(&BigNat::zero()), "");
    assert!(decode_pkey("").unwrap().is_zero());
}

#[test]
fn decode_exact_value() {
    let n = decode_pkey("BBBBB-BBBBB-BBBBB-BBBBB-BBBBB-BBBBB-BBBCD").unwrap();
    assert!(n.equals(&BigNat::from_u64(26)));
    // dashes are ignored wherever they stand
    let n = decode_pkey("B-BBBC").unwrap();
    assert!(n.equals(&BigNat::from_u64(1)));
}

#[test]
fn decode_rejects_bad_length() {
    let e = decode_pkey("BBBB").unwrap_err();
    assert_eq!(e, KeyError::BadKeyLength);
    assert_eq!(e.kind(), ErrorKind::InputFormat);
    // the length is tested before the characters
    assert_eq!(decode_pkey("AAAA").unwrap_err(), KeyError::BadKeyLength);
}

#[test]
fn decode_rejects_foreign_character() {
    let e = decode_pkey("BBBBA-BBBBZ").unwrap_err();
    assert_eq!(e, KeyError::InvalidCharacter('A'));
    assert_eq!(e.kind(), ErrorKind::InputFormat);
    // lower case is outside the alphabet
    assert_eq!(decode_pkey("bbbbb").unwrap_err(), KeyError::InvalidCharacter('b'));
}

#[test]
fn decode_counts_bytes() {
    // two bytes and three: five bytes in all, so the character is what fails
    assert_eq!(decode_pkey("\u{e9}BBB").unwrap_err(), KeyError::InvalidCharacter('\u{e9}'));
    // five characters, six bytes
    assert_eq!(decode_pkey("\u{e9}BBBB").unwrap_err(), KeyError::BadKeyLength);
}

#[test]
fn round_trip_of_largest_value() {
    // 24^35 - 1 has 35 digits of the highest value
    let mut n = BigNat::zero();
    let mut digits = String::new();
    for i in 0..35 {
        if i > 0 && i % 5 == 0 {
            digits.push('-');
        }
        digits.push('9');
    }
    n = decode_pkey(&digits).unwrap_or(n);
    assert_eq!(encode_pkey(&n), digits);
    assert!(decode_pkey(&encode_pkey(&n)).unwrap().equals(&n));
}

#[test]
fn bytes_round_trip() {
    let n = BigNat::from_u64(0x0102_0304_0506_0708);
    assert_eq!(bigint_to_bytes_le(&n, 8), vec![8, 7, 6, 5, 4, 3, 2, 1]);
    assert_eq!(bigint_to_bytes_le(&n, 10), vec![8, 7, 6, 5, 4, 3, 2, 1, 0, 0]);
    assert_eq!(bigint_to_bytes_le(&n, 3), vec![8, 7, 6]);
    assert!(bytes_to_bigint_le(&[8, 7, 6, 5, 4, 3, 2, 1, 0, 0]).equals(&n));
    assert!(bytes_to_bigint_le(&[]).is_zero());
}

#[test]
fn bignat_basics() {
    assert!(BigNat::zero().is_zero());
    assert!(!BigNat::from_u64(1).is_zero());
    assert!(BigNat::from_u64(7).equals(&bytes_to_bigint_le(&[7, 0, 0])));
    assert_eq!(BigNat::from_u64(0x1234).low_byte(), 0x34);
    let big = BigNat::from_u64(1).shifted_in(5);
    assert_eq!(bigint_to_bytes_le(&big, 9), vec![5, 0, 0, 0, 0, 0, 0, 0, 1]);
}

#[test]
fn mod_inverse_values() {
    let inv = mod_inverse(&BigNat::from_u64(3), &BigNat::from_u64(7)).unwrap();
    assert!(inv.equals(&BigNat::from_u64(5)));
    let inv = mod_inverse(&BigNat::from_u64(10), &BigNat::from_u64(7)).unwrap();
    assert!(inv.equals(&BigNat::from_u64(5)));
    let inv = mod_inverse(&BigNat::from_u64(17), &BigNat::from_u64(3120)).unwrap();
    assert!(inv.equals(&BigNat::from_u64(2753)));
    assert!(mod_inverse(&BigNat::from_u64(4), &BigNat::from_u64(8)).is_none());
    assert!(mod_inverse(&BigNat::zero(), &BigNat::from_u64(7)).is_none());
    // modulo 1 everything is congruent, and the one residue is 0
    assert!(mod_inverse(&BigNat::from_u64(5), &BigNat::from_u64(1)).unwrap().is_zero());
}
