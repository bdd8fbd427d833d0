//! Client-side encryption for a share-once secret bin.
//!
//! Plaintext is encrypted locally with a fresh AES-256-GCM key and nonce;
//! only the ciphertext is stored remotely, while the key material travels
//! inside the fragment of the share URL. An optional password layer wraps
//! the plaintext a second time with a PBKDF2-derived key before the outer
//! encryption.

pub mod aead;
pub mod bins;
pub mod codec;
pub mod envelope;
pub mod errors;
pub mod json;
pub mod kdf;
pub mod rng;
pub mod share_link;
pub mod text;
