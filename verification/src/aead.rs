use vstd::prelude::*;

use aes_gcm::aead::Aead;
use aes_gcm::KeyInit;

use crate::errors::SecretError;

verus! {

/// Length in bytes of the GCM authentication tag appended to a ciphertext.
pub const TAG_LEN: usize = 16;

/// AES-256-GCM encryption of a plaintext under a 32-byte key and a 12-byte
/// nonce: the ciphertext with the 16-byte tag appended. Deterministic in
/// its arguments; computed by the aes-gcm crate.
pub uninterp spec fn aes_gcm_seal(key: Seq<u8>, nonce: Seq<u8>, plaintext: Seq<u8>) -> Seq<u8>;

/// Plaintext sizes the cipher accepts: the GCM limit of 2^36 bytes.
pub open spec fn fits_aead(len: nat) -> bool {
    len <= 0x1000000000
}

/// Relies on `aes_gcm::Aes256Gcm` encryption: deterministic in key, nonce
/// and plaintext, appends the 16-byte tag, and fails only beyond the GCM
/// size limit.
#[verifier::external_body]
fn aes256gcm_seal(key: &[u8], nonce: &[u8], plaintext: &[u8]) -> (r: Option<Vec<u8>>)
    requires
        key@.len() == 32,
        nonce@.len() == 12,
    ensures
        r matches Some(c) ==> c@ == aes_gcm_seal(key@, nonce@, plaintext@),
        r matches Some(c) ==> c@.len() == plaintext@.len() + TAG_LEN,
        r is None ==> !fits_aead(plaintext@.len()),
{
    let cipher = match aes_gcm::Aes256Gcm::new_from_slice(key) {
        Ok(c) => c,
        Err(_) => return None,
    };
    cipher.encrypt(aes_gcm::Nonce::from_slice(nonce), plaintext).ok()
}

/// Relies on `aes_gcm::Aes256Gcm` decryption: it splits the trailing
/// 16-byte tag and returns a plaintext exactly when the input is the
/// encryption of that plaintext under this key and nonce.
#[verifier::external_body]
fn aes256gcm_open(key: &[u8], nonce: &[u8], ciphertext: &[u8]) -> (r: Option<Vec<u8>>)
    requires
        key@.len() == 32,
        nonce@.len() == 12,
    ensures
        r matches Some(p) ==> ciphertext@ == aes_gcm_seal(key@, nonce@, p@),
        r matches Some(p) ==> p@.len() + TAG_LEN == ciphertext@.len(),
        r is None ==> forall|p: Seq<u8>|
            p.len() + TAG_LEN == ciphertext@.len() && fits_aead(p.len()) ==> ciphertext@
                != aes_gcm_seal(key@, nonce@, p),
        r matches Some(q) ==> forall|p: Seq<u8>|
            ciphertext@ == aes_gcm_seal(key@, nonce@, p) && p.len() + TAG_LEN == ciphertext@.len()
                ==> q@ == p,
{
    let cipher = match aes_gcm::Aes256Gcm::new_from_slice(key) {
        Ok(c) => c,
        Err(_) => return None,
    };
    cipher.decrypt(aes_gcm::Nonce::from_slice(nonce), ciphertext).ok()
}

/// Authenticated encryption: the ciphertext with its tag, or
/// `CryptoMisuseError` on key or nonce material of the wrong length --
/// unreachable when both come from this crate's generators.
pub fn encrypt(key: &[u8], nonce: &[u8], plaintext: &[u8]) -> (r: Result<Vec<u8>, SecretError>)
    ensures
        r matches Ok(c) ==> key@.len() == 32 && nonce@.len() == 12 && c@ == aes_gcm_seal(
            key@,
            nonce@,
            plaintext@,
        ) && c@.len() == plaintext@.len() + TAG_LEN,
        key@.len() == 32 && nonce@.len() == 12 && fits_aead(plaintext@.len()) ==> r is Ok,
        r matches Err(e) ==> e == SecretError::CryptoMisuseError && (key@.len() != 32
            || nonce@.len() != 12 || !fits_aead(plaintext@.len())),
{
    if key.len() != 32 || nonce.len() != 12 {
        return Err(SecretError::CryptoMisuseError);
    }
    match aes256gcm_seal(key, nonce, plaintext) {
        Some(c) => Ok(c),
        None => Err(SecretError::CryptoMisuseError),
    }
}

/// Authenticated decryption. Returns the plaintext exactly when the input
/// is an encryption under this key and nonce; a tag mismatch -- a tampered
/// ciphertext, a wrong key, or a wrong password-derived key -- is
/// `AuthenticationError`, and wrong key or nonce lengths are
/// `CryptoMisuseError`.
pub fn decrypt(key: &[u8], nonce: &[u8], ciphertext: &[u8]) -> (r: Result<Vec<u8>, SecretError>)
    ensures
        r matches Ok(p) ==> key@.len() == 32 && nonce@.len() == 12 && ciphertext@ == aes_gcm_seal(
            key@,
            nonce@,
            p@,
        ) && p@.len() + TAG_LEN == ciphertext@.len(),
        forall|p: Seq<u8>|
            key@.len() == 32 && nonce@.len() == 12 && p.len() + TAG_LEN == ciphertext@.len()
                && fits_aead(p.len()) && ciphertext@ == aes_gcm_seal(key@, nonce@, p) ==> (
            r matches Ok(q) && q@ == p),
        r matches Err(e) ==> if key@.len() != 32 || nonce@.len() != 12 {
            e == SecretError::CryptoMisuseError
        } else {
            e == SecretError::AuthenticationError
        },
{
    if key.len() != 32 || nonce.len() != 12 {
        return Err(SecretError::CryptoMisuseError);
    }
    match aes256gcm_open(key, nonce, ciphertext) {
        Some(p) => Ok(p),
        None => Err(SecretError::AuthenticationError),
    }
}

} // verus!
