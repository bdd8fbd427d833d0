use vstd::prelude::*;

verus! {

/// The fixed PBKDF2 iteration count of the protocol. It is not stored in
/// the password envelope, so both sides must use this very constant;
/// changing it would break every previously stored secret.
pub const PBKDF2_ROUNDS: u32 = 100000;

/// The 32-byte key that PBKDF2-HMAC-SHA256 derives from a password and a
/// salt at the given iteration count; deterministic in its arguments.
pub uninterp spec fn pbkdf2_key_of(password: Seq<u8>, salt: Seq<u8>, rounds: u32) -> Seq<u8>;

/// Relies on `pbkdf2::pbkdf2_hmac_array` with SHA-256 and a 32-byte output:
/// deterministic in password, salt and rounds, and total, since HMAC
/// accepts keys of any length.
#[verifier::external_body]
fn pbkdf2_sha256(password: &[u8], salt: &[u8], rounds: u32) -> (r: Vec<u8>)
    ensures
        r@ == pbkdf2_key_of(password@, salt@, rounds),
        r@.len() == 32,
{
    pbkdf2::pbkdf2_hmac_array::<sha2::Sha256, 32>(password, salt, rounds).to_vec()
}

/// Derives the symmetric key of the password layer from a password and a
/// salt, at the fixed protocol iteration count.
pub fn derive(password: &[u8], salt: &[u8]) -> (r: Vec<u8>)
    ensures
        r@ == pbkdf2_key_of(password@, salt@, PBKDF2_ROUNDS),
        r@.len() == 32,
{
    pbkdf2_sha256(password, salt, PBKDF2_ROUNDS)
}

} // verus!
