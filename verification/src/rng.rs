use vstd::prelude::*;

use rand_core::RngCore;

verus! {

/// Length in bytes of an AES-256 key.
pub const KEY_LEN: usize = 32;

/// Length in bytes of an AES-GCM nonce.
pub const NONCE_LEN: usize = 12;

/// Length in bytes of a key-derivation salt.
pub const SALT_LEN: usize = 16;

/// Relies on `rand_core::OsRng::fill_bytes`: fills the buffer from the
/// operating system's secure random source. Nothing can be promised of the
/// values, only of the count.
#[verifier::external_body]
fn os_random_bytes(n: usize) -> (r: Vec<u8>)
    ensures
        r@.len() == n,
{
    let mut buf = vec![0u8; n];
    rand_core::OsRng.fill_bytes(&mut buf);
    buf
}

/// A fresh random AES-256 key, generated anew for every encryption.
pub fn generate_key() -> (r: Vec<u8>)
    ensures
        r@.len() == KEY_LEN,
{
    os_random_bytes(KEY_LEN)
}

/// A fresh random AES-GCM nonce, generated anew for every encryption.
pub fn generate_nonce() -> (r: Vec<u8>)
    ensures
        r@.len() == NONCE_LEN,
{
    os_random_bytes(NONCE_LEN)
}

/// A fresh random salt for the password key derivation.
pub fn generate_salt() -> (r: Vec<u8>)
    ensures
        r@.len() == SALT_LEN,
{
    os_random_bytes(SALT_LEN)
}

} // verus!
