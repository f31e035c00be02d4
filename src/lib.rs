//! Blind-signature electronic cash: RSA blind signing over big-endian byte
//! integers, the token model with its canonical signed bytes, the wallet and
//! issuer protocol engines, and the redemption state machine that guards
//! against double spending.

pub mod bignum;
pub mod client;
pub mod clock;
pub mod config;
pub mod crypto;
pub mod digest;
pub mod entropy;
pub mod error;
pub mod keys;
pub mod protocol;
pub mod server;
pub mod token;
