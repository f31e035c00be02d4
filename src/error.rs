//! Errors of the protocol core.

use vstd::prelude::*;

verus! {

/// What can go wrong in the blind-signature protocol.
#[derive(Debug, Clone, Copy, PartialEq, Eq, Structural)]
pub enum EcashError {
    CryptoError,
    InvalidSignature,
    TokenExpired,
    InvalidDenomination,
    SerializationError,
    InvalidKey,
    BlindingFailed,
    ProtocolMismatch,
}

/// The human-readable text of an error.
pub open spec fn error_text(e: EcashError) -> Seq<char> {
    match e {
        EcashError::CryptoError => "Cryptographic operation failed"@,
        EcashError::InvalidSignature => "Invalid signature"@,
        EcashError::TokenExpired => "Token expired"@,
        EcashError::InvalidDenomination => "Invalid denomination"@,
        EcashError::SerializationError => "Serialization error"@,
        EcashError::InvalidKey => "Invalid key"@,
        EcashError::BlindingFailed => "Blinding failed"@,
        EcashError::ProtocolMismatch => "Signatures and metadata do not pair up"@,
    }
}

impl EcashError {
    /// The human-readable text of the error.
    pub fn message(&self) -> (r: &'static str)
        ensures
            r@ == error_text(*self),
    {
        match self {
            EcashError::CryptoError => "Cryptographic operation failed",
            EcashError::InvalidSignature => "Invalid signature",
            EcashError::TokenExpired => "Token expired",
            EcashError::InvalidDenomination => "Invalid denomination",
            EcashError::SerializationError => "Serialization error",
            EcashError::InvalidKey => "Invalid key",
            EcashError::BlindingFailed => "Blinding failed",
            EcashError::ProtocolMismatch => "Signatures and metadata do not pair up",
        }
    }
}

} // verus!
