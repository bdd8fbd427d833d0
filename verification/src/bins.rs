use vstd::prelude::*;

verus! {

/// A stored bin, as the bin store answers a store request.
#[derive(Debug)]
pub struct Bin {
    /// The identifier under which the secret is stored.
    pub id: String,
    /// The URL the store serves the bin under.
    pub url: String,
}

/// A fetched bin: the stored payload -- base64 text of the outer
/// ciphertext -- and whether a password layer sits inside it.
#[derive(Debug)]
pub struct CryptBin {
    /// Base64 text of the outer ciphertext with its tag.
    pub payload: String,
    /// Whether the plaintext of the outer layer is a password envelope.
    pub has_password: bool,
}

} // verus!
