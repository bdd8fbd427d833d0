use vstd::prelude::*;

verus! {

/// The error taxonomy of the protocol.
///
/// `DecodeError` and `ParseError` on the outer envelope are unrecoverable;
/// `AuthenticationError` on the password layer is recoverable by asking for
/// the password again; `CryptoMisuseError` marks key or nonce material of
/// the wrong length and is unreachable when keys and nonces come from the
/// generators of this crate.
#[derive(Clone, Copy, Debug, PartialEq, Eq, Structural)]
pub enum SecretError {
    /// Malformed base64 or JSON in transit.
    DecodeError,
    /// Malformed share URL: wrong fragment shape, or a non-hierarchical URL.
    ParseError,
    /// AEAD tag mismatch: wrong key, wrong password, or tampered ciphertext.
    AuthenticationError,
    /// Wrong key or nonce length handed to the cipher.
    CryptoMisuseError,
}

} // verus!
