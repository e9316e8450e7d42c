//! Issues and verifies signed terminal-services license keys: server keys
//! bound to a product identifier and license key packs bound to a server.
//!
//! - `bignat`: unsigned integers of any size, over `num_bigint`.
//! - `crypto`: modular inverse, curve points, the stream cipher and the
//!   product-key codec.
//! - `keygen`: the key protocol: signing with self-check, and validation.
//! - `types`: the two sets of domain parameters and the license catalog.
//! - `error`: what can go wrong, by kind.
//! - `text`: strings as sequences of characters, and decimal numbers.

pub mod bignat;
pub mod crypto;
pub mod error;
pub mod keygen;
pub mod text;
pub mod types;
