//! The errors that key generation and validation report.

use crate::text::{decimal_digits, decimal_text, push_char};
use vstd::prelude::*;
use vstd::string::StringExecFns;

verus! {

/// The broad kind of an error.
#[derive(Debug, Clone, Copy, PartialEq, Eq, Structural)]
pub enum ErrorKind {
    /// A product identifier, key string or license code is malformed.
    InputFormat,
    /// A license count lies outside 1 to 9999.
    Range,
    /// A license code is well-formed but not in the catalog.
    UnknownReference,
    /// Key generation used up its attempts.
    CryptographicExhaustion,
    /// The curve arithmetic met a division that has no result: the domain
    /// parameters are inconsistent.
    ArithmeticFault,
}

/// What went wrong.
#[derive(Debug, Clone, Copy, PartialEq, Eq, Structural)]
pub enum KeyError {
    /// The product identifier has fewer than 23 bytes.
    InvalidPidLength,
    /// The identifier windows of the product identifier hold no decimal number.
    InvalidSpkId,
    /// The key string, dashes removed, has a length that is no multiple of 5.
    BadKeyLength,
    /// The key string holds a character outside the alphabet.
    InvalidCharacter(char),
    /// The license code does not have three parts separated by `_`.
    LicenseFormat,
    /// A part of the license code is not a number.
    LicenseNumber,
    /// The license code is not in the catalog.
    UnknownLicenseType,
    /// The license count lies outside 1 to 9999.
    CountOutOfRange,
    /// No attempt out of this many gave a key that verifies.
    Exhausted(usize),
    /// A division on the curve had no result.
    CurveFault,
}

impl KeyError {
    /// The message of this error, as a specification.
    pub open spec fn message_text(self) -> Seq<char> {
        match self {
            KeyError::InvalidPidLength => "Invalid PID length"@,
            KeyError::InvalidSpkId => "Failed to parse SPKID"@,
            KeyError::BadKeyLength => "Bad key length"@,
            KeyError::InvalidCharacter(c) => "Invalid character: "@.push(c),
            KeyError::LicenseFormat => "License format must be CHID_MAJOR_MINOR (e.g., 029_10_2)"@,
            KeyError::LicenseNumber => "License format holds a part that is not a number"@,
            KeyError::UnknownLicenseType => "Unknown license type"@,
            KeyError::CountOutOfRange => "License count must be between 1 and 9999"@,
            KeyError::Exhausted(n) => "Failed to generate valid key after "@ + decimal_digits(
                n as nat,
            ) + " attempts"@,
            KeyError::CurveFault => "Failed to compute modular inverse"@,
        }
    }

    /// A message for the user.
    pub fn message(&self) -> (r: String)
        ensures
            r@ == self.message_text(),
    {
        match self {
            KeyError::InvalidPidLength => String::from_str("Invalid PID length"),
            KeyError::InvalidSpkId => String::from_str("Failed to parse SPKID"),
            KeyError::BadKeyLength => String::from_str("Bad key length"),
            KeyError::InvalidCharacter(c) => {
                let mut text = String::from_str("Invalid character: ");
                push_char(&mut text, *c);
                text
            },
            KeyError::LicenseFormat => String::from_str(
                "License format must be CHID_MAJOR_MINOR (e.g., 029_10_2)",
            ),
            KeyError::LicenseNumber => String::from_str(
                "License format holds a part that is not a number",
            ),
            KeyError::UnknownLicenseType => String::from_str("Unknown license type"),
            KeyError::CountOutOfRange => String::from_str(
                "License count must be between 1 and 9999",
            ),
            KeyError::Exhausted(n) => {
                let mut text = String::from_str("Failed to generate valid key after ");
                let digits = decimal_text(*n);
                let mut i: usize = 0;
                while i < digits.len()
                    invariant
                        i <= digits.len(),
                        text@ == "Failed to generate valid key after "@ + digits@.take(i as int),
                    decreases digits.len() - i,
                {
                    push_char(&mut text, digits[i]);
                    i = i + 1;
                    assert(text@ =~= "Failed to generate valid key after "@ + digits@.take(
                        i as int,
                    ));
                }
                assert(digits@.take(i as int) =~= digits@);
                text.append(" attempts");
                text
            },
            KeyError::CurveFault => String::from_str("Failed to compute modular inverse"),
        }
    }

    /// The kind of this error, as a specification.
    pub open spec fn spec_kind(self) -> ErrorKind {
        match self {
            KeyError::InvalidPidLength => ErrorKind::InputFormat,
            KeyError::InvalidSpkId => ErrorKind::InputFormat,
            KeyError::BadKeyLength => ErrorKind::InputFormat,
            KeyError::InvalidCharacter(_) => ErrorKind::InputFormat,
            KeyError::LicenseFormat => ErrorKind::InputFormat,
            KeyError::LicenseNumber => ErrorKind::InputFormat,
            KeyError::UnknownLicenseType => ErrorKind::UnknownReference,
            KeyError::CountOutOfRange => ErrorKind::Range,
            KeyError::Exhausted(_) => ErrorKind::CryptographicExhaustion,
            KeyError::CurveFault => ErrorKind::ArithmeticFault,
        }
    }

    /// The kind of this error.
    #[verifier::when_used_as_spec(spec_kind)]
    pub fn kind(self) -> (r: ErrorKind)
        ensures
            r == self.spec_kind(),
    {
        match self {
            KeyError::InvalidPidLength => ErrorKind::InputFormat,
            KeyError::InvalidSpkId => ErrorKind::InputFormat,
            KeyError::BadKeyLength => ErrorKind::InputFormat,
            KeyError::InvalidCharacter(_) => ErrorKind::InputFormat,
            KeyError::LicenseFormat => ErrorKind::InputFormat,
            KeyError::LicenseNumber => ErrorKind::InputFormat,
            KeyError::UnknownLicenseType => ErrorKind::UnknownReference,
            KeyError::CountOutOfRange => ErrorKind::Range,
            KeyError::Exhausted(_) => ErrorKind::CryptographicExhaustion,
            KeyError::CurveFault => ErrorKind::ArithmeticFault,
        }
    }
}

} // verus!
