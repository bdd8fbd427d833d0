use vstd::prelude::*;
use vstd::string::StrSliceExecFns;

use crate::aead;
use crate::aead::{aes_gcm_seal, fits_aead, TAG_LEN};
use crate::bins::CryptBin;
use crate::codec;
use crate::codec::{b64_chars_of, b64_decode, b64_encode, b64_of, b64_text};
use crate::errors::SecretError;
use crate::json::{
    build_envelope_json, envelope_json, is_envelope, parse_envelope_json, plain_json_value,
};
use crate::kdf;
use crate::kdf::{pbkdf2_key_of, PBKDF2_ROUNDS};
use crate::rng;
use crate::share_link::ParsedUrl;
use crate::text::{all_ascii, ascii_to_string};

verus! {

/// The result of one outer encryption: key, nonce and ciphertext with its
/// tag, each as standard base64 text. Key and nonce are single-use; they
/// leave the client only inside the share URL's fragment.
#[derive(Debug)]
pub struct Encrypted {
    /// Base64 text of the fresh 32-byte key.
    pub key: String,
    /// Base64 text of the fresh 12-byte nonce.
    pub nonce: String,
    /// Base64 text of the ciphertext with its tag.
    pub cipher: String,
}

/// The symmetric key of the password layer: PBKDF2-HMAC-SHA256 over the
/// password's UTF-8 bytes and the salt, at the fixed protocol iteration
/// count.
pub open spec fn derived_key_of(password: Seq<char>, salt: Seq<u8>) -> Seq<u8> {
    pbkdf2_key_of(vstd::utf8::encode_utf8(password), salt, PBKDF2_ROUNDS)
}

/// Base64 text never holds a quote, a backslash, or a byte beyond ASCII.
proof fn lemma_b64_text_plain(t: Seq<u8>)
    requires
        b64_text(t),
    ensures
        plain_json_value(t),
        forall|i: int| 0 <= i < t.len() ==> t[i] < 128,
{
    assert forall|i: int| 0 <= i < t.len() implies t[i] != crate::json::QUOTE && t[i]
        != crate::json::BACKSLASH && t[i] < 128 by {
        assert(codec::is_b64_byte(t[i]));
    }
}

/// Encrypts a plaintext under a caller-supplied key and nonce and encodes
/// the three parts as base64 text. Deterministic in its inputs; the key
/// must be 32 bytes and the nonce 12, else `CryptoMisuseError`.
pub fn encrypt_with_key_nonce(plaintext: &[u8], key: &[u8], nonce: &[u8]) -> (r: Result<
    Encrypted,
    SecretError,
>)
    ensures
        r matches Ok(e) ==> (key@.len() == 32 && nonce@.len() == 12 && e.key@ == b64_chars_of(key@)
            && e.nonce@ == b64_chars_of(nonce@) && e.cipher@ == b64_chars_of(
            aes_gcm_seal(key@, nonce@, plaintext@),
        ) && aes_gcm_seal(key@, nonce@, plaintext@).len() == plaintext@.len() + TAG_LEN),
        key@.len() == 32 && nonce@.len() == 12 && fits_aead(plaintext@.len()) ==> r is Ok,
        r matches Err(e) ==> (e == SecretError::CryptoMisuseError && (key@.len() != 32
            || nonce@.len() != 12 || !fits_aead(plaintext@.len()))),
{
    let cipher_buf = match aead::encrypt(key, nonce, plaintext) {
        Ok(c) => c,
        Err(e) => {
            return Err(e);
        },
    };
    Ok(
        Encrypted {
            key: b64_encode(key),
            nonce: b64_encode(nonce),
            cipher: b64_encode(cipher_buf.as_slice()),
        },
    )
}

/// Encrypts a plaintext under a fresh random key and nonce, generated here
/// and never reused. Everything that can be said of the result without
/// knowing the random draw: some 32-byte key and 12-byte nonce exist whose
/// encodings and encryption the fields carry.
pub fn encrypt(plaintext: &[u8]) -> (r: Result<Encrypted, SecretError>)
    ensures
        r matches Ok(e) ==> (exists|k: Seq<u8>, n: Seq<u8>|
            #![auto]
            k.len() == 32 && n.len() == 12 && e.key@ == b64_chars_of(k) && e.nonce@
                == b64_chars_of(n) && e.cipher@ == b64_chars_of(aes_gcm_seal(k, n, plaintext@))),
        fits_aead(plaintext@.len()) ==> r is Ok,
        r matches Err(e) ==> e == SecretError::CryptoMisuseError && !fits_aead(plaintext@.len()),
{
    let key = rng::generate_key();
    let nonce = rng::generate_nonce();
    match encrypt_with_key_nonce(plaintext, key.as_slice(), nonce.as_slice()) {
        Ok(e) => {
            proof {
                assert(key@.len() == 32 && nonce@.len() == 12 && e.key@ == b64_chars_of(key@)
                    && e.nonce@ == b64_chars_of(nonce@) && e.cipher@ == b64_chars_of(
                    aes_gcm_seal(key@, nonce@, plaintext@),
                ));
            }
            Ok(e)
        },
        Err(er) => Err(er),
    }
}

/// Wraps a plaintext in the password layer with a caller-supplied salt and
/// inner nonce: derives the key from the password and salt, encrypts, and
/// serializes the `{salt, iv, cipher}` envelope. Deterministic in its
/// inputs.
pub fn wrap_with_password(plaintext: &[u8], password: &str, salt: &[u8], inner_nonce: &[u8]) -> (r:
    Result<Vec<u8>, SecretError>)
    ensures
        r matches Ok(v) ==> (inner_nonce@.len() == 12 && v@ == envelope_json(
            b64_of(salt@),
            b64_of(inner_nonce@),
            b64_of(aes_gcm_seal(derived_key_of(password@, salt@), inner_nonce@, plaintext@)),
        ) && b64_text(b64_of(salt@)) && b64_text(b64_of(inner_nonce@)) && b64_text(
            b64_of(aes_gcm_seal(derived_key_of(password@, salt@), inner_nonce@, plaintext@)),
        ) && aes_gcm_seal(derived_key_of(password@, salt@), inner_nonce@, plaintext@).len()
            == plaintext@.len() + TAG_LEN),
        inner_nonce@.len() == 12 && fits_aead(plaintext@.len()) ==> r is Ok,
        r matches Err(e) ==> (e == SecretError::CryptoMisuseError && (inner_nonce@.len() != 12
            || !fits_aead(plaintext@.len()))),
{
    let dk = kdf::derive(password.as_bytes(), salt);
    let inner_cipher = match aead::encrypt(dk.as_slice(), inner_nonce, plaintext) {
        Ok(c) => c,
        Err(e) => {
            return Err(e);
        },
    };
    let salt_b64 = b64_encode(salt);
    let iv_b64 = b64_encode(inner_nonce);
    let cipher_b64 = b64_encode(inner_cipher.as_slice());
    proof {
        codec::lemma_b64_text_bytes(salt@);
        codec::lemma_b64_text_bytes(inner_nonce@);
        codec::lemma_b64_text_bytes(inner_cipher@);
    }
    let salt_text = salt_b64.as_str().as_bytes_vec();
    let iv_text = iv_b64.as_str().as_bytes_vec();
    let cipher_text = cipher_b64.as_str().as_bytes_vec();
    Ok(build_envelope_json(salt_text.as_slice(), iv_text.as_slice(), cipher_text.as_slice()))
}

/// Wraps a plaintext in the password layer with a fresh random 16-byte salt
/// and a fresh random inner nonce.
pub fn encrypt_with_pass(plaintext: &[u8], password: &str) -> (r: Result<Vec<u8>, SecretError>)
    ensures
        r matches Ok(v) ==> (exists|salt: Seq<u8>, n: Seq<u8>|
            #![auto]
            salt.len() == 16 && n.len() == 12 && v@ == envelope_json(
                b64_of(salt),
                b64_of(n),
                b64_of(aes_gcm_seal(derived_key_of(password@, salt), n, plaintext@)),
            )),
        fits_aead(plaintext@.len()) ==> r is Ok,
        r matches Err(e) ==> e == SecretError::CryptoMisuseError && !fits_aead(plaintext@.len()),
{
    let salt = rng::generate_salt();
    let nonce = rng::generate_nonce();
    match wrap_with_password(plaintext, password, salt.as_slice(), nonce.as_slice()) {
        Ok(v) => {
            proof {
                assert(salt@.len() == 16 && nonce@.len() == 12 && v@ == envelope_json(
                    b64_of(salt@),
                    b64_of(nonce@),
                    b64_of(aes_gcm_seal(derived_key_of(password@, salt@), nonce@, plaintext@)),
                ));
            }
            Ok(v)
        },
        Err(e) => Err(e),
    }
}

/// Decrypts the outer layer: base64-decodes the key and nonce taken from
/// the share URL and the fetched payload, and opens the AEAD. Malformed
/// base64 is `DecodeError`; wrong key or nonce lengths are
/// `CryptoMisuseError`; a tag mismatch is `AuthenticationError`. All are
/// fatal here: the key material came from the URL itself.
pub fn decrypt(parsed: &ParsedUrl, payload: &str) -> (r: Result<Vec<u8>, SecretError>)
    ensures
        r matches Ok(p) ==> (exists|k: Seq<u8>, n: Seq<u8>|
            #![auto]
            k.len() == 32 && n.len() == 12 && parsed.key@ == b64_chars_of(k) && parsed.nonce@
                == b64_chars_of(n) && payload@ == b64_chars_of(aes_gcm_seal(k, n, p@))),
        forall|k: Seq<u8>, n: Seq<u8>, p: Seq<u8>|
            (k.len() == 32 && n.len() == 12 && parsed.key@ == b64_chars_of(k) && parsed.nonce@
                == b64_chars_of(n) && payload@ == b64_chars_of(aes_gcm_seal(k, n, p))
                && aes_gcm_seal(k, n, p).len() == p.len() + TAG_LEN && fits_aead(p.len())) ==> (
            r matches Ok(q) && q@ == p),
        r matches Err(e) ==> (if !((exists|k: Seq<u8>| parsed.key@ == b64_chars_of(k)) && (exists|
            n: Seq<u8>,
        | parsed.nonce@ == b64_chars_of(n)) && (exists|c: Seq<u8>| payload@ == b64_chars_of(c))) {
            e == SecretError::DecodeError
        } else if ((exists|k: Seq<u8>| parsed.key@ == b64_chars_of(k) && k.len() != 32) || (exists|
            n: Seq<u8>,
        | parsed.nonce@ == b64_chars_of(n) && n.len() != 12)) {
            e == SecretError::CryptoMisuseError
        } else {
            e == SecretError::AuthenticationError
        }),
{
    let key = match b64_decode(parsed.key.as_str()) {
        Some(k) => k,
        None => {
            return Err(SecretError::DecodeError);
        },
    };
    let nonce = match b64_decode(parsed.nonce.as_str()) {
        Some(n) => n,
        None => {
            return Err(SecretError::DecodeError);
        },
    };
    let cipher = match b64_decode(payload) {
        Some(c) => c,
        None => {
            return Err(SecretError::DecodeError);
        },
    };
    aead::decrypt(key.as_slice(), nonce.as_slice(), cipher.as_slice())
}

/// One coherent password-layer reading of a payload: it is the envelope of
/// a salt, a 12-byte inner nonce, and the encryption of a plaintext under
/// the key the password derives with that salt, all fields base64 text.
pub open spec fn pw_envelope_case(
    payload: Seq<u8>,
    password: Seq<char>,
    sa: Seq<u8>,
    n: Seq<u8>,
    p: Seq<u8>,
) -> bool {
    &&& n.len() == 12
    &&& fits_aead(p.len())
    &&& b64_text(b64_of(sa))
    &&& b64_text(b64_of(n))
    &&& b64_text(b64_of(aes_gcm_seal(derived_key_of(password, sa), n, p)))
    &&& aes_gcm_seal(derived_key_of(password, sa), n, p).len() == p.len() + TAG_LEN
    &&& is_envelope(
        payload,
        b64_of(sa),
        b64_of(n),
        b64_of(aes_gcm_seal(derived_key_of(password, sa), n, p)),
    )
}

/// Opens the inner password layer: parses the envelope JSON, decodes its
/// fields, derives the key from the password and the recovered salt, and
/// opens the AEAD. A malformed envelope or field is `DecodeError`; an inner
/// nonce of the wrong length is `CryptoMisuseError`; a tag mismatch -- the
/// usual sign of a wrong password -- is `AuthenticationError`, and the
/// caller may ask for the password again and retry.
#[verifier::rlimit(100)]
#[verifier::spinoff_prover]
pub fn decrypt_with_pw(payload: &[u8], password: &str) -> (r: Result<Vec<u8>, SecretError>)
    ensures
        forall|sa: Seq<u8>, n: Seq<u8>, p: Seq<u8>|
            pw_envelope_case(payload@, password@, sa, n, p) ==> (r matches Ok(q) && q@ == p),
        r matches Ok(q) ==> (exists|sa: Seq<u8>, n: Seq<u8>, c: Seq<u8>|
            #![auto]
            is_envelope(payload@, b64_of(sa), b64_of(n), b64_of(c)) && n.len() == 12 && c
                == aes_gcm_seal(derived_key_of(password@, sa), n, q@)),
        r matches Err(e) ==> (e == SecretError::DecodeError || e == SecretError::CryptoMisuseError
            || e == SecretError::AuthenticationError),
        r matches Err(e) ==> (e == SecretError::AuthenticationError ==> exists|
            sa: Seq<u8>,
            n: Seq<u8>,
            c: Seq<u8>,
        |
            #![auto]
            (is_envelope(payload@, b64_of(sa), b64_of(n), b64_of(c)) && n.len() == 12 && forall|
                p: Seq<u8>,
            | !(p.len() + TAG_LEN == c.len() && fits_aead(p.len()) && c == aes_gcm_seal(
                derived_key_of(password@, sa),
                n,
                p,
            )))),
{
    let fields = match parse_envelope_json(payload) {
        Ok(f) => f,
        Err(e) => {
            proof {
                assert forall|sa: Seq<u8>, n: Seq<u8>, p: Seq<u8>|
                    !pw_envelope_case(payload@, password@, sa, n, p) by {
                    if pw_envelope_case(payload@, password@, sa, n, p) {
                        lemma_b64_text_plain(b64_of(sa));
                        lemma_b64_text_plain(b64_of(n));
                        lemma_b64_text_plain(
                            b64_of(aes_gcm_seal(derived_key_of(password@, sa), n, p)),
                        );
                    }
                }
            }
            return Err(e);
        },
    };
    if !all_ascii(fields.salt.as_slice()) || !all_ascii(fields.iv.as_slice()) || !all_ascii(
        fields.cipher.as_slice(),
    ) {
        proof {
            assert forall|sa: Seq<u8>, n: Seq<u8>, p: Seq<u8>|
                !pw_envelope_case(payload@, password@, sa, n, p) by {
                if pw_envelope_case(payload@, password@, sa, n, p) {
                    lemma_b64_text_plain(b64_of(sa));
                    lemma_b64_text_plain(b64_of(n));
                    lemma_b64_text_plain(b64_of(aes_gcm_seal(derived_key_of(password@, sa), n, p)));
                }
            }
        }
        return Err(SecretError::DecodeError);
    }
    let salt_s = ascii_to_string(fields.salt.as_slice());
    let iv_s = ascii_to_string(fields.iv.as_slice());
    let cipher_s = ascii_to_string(fields.cipher.as_slice());
    let dec_salt = b64_decode(salt_s.as_str());
    let dec_iv = b64_decode(iv_s.as_str());
    let dec_cipher = b64_decode(cipher_s.as_str());
    proof {
        assert forall|sa: Seq<u8>, n: Seq<u8>, p: Seq<u8>|
            pw_envelope_case(payload@, password@, sa, n, p) implies (dec_salt matches Some(v)
            && v@ == sa) && (dec_iv matches Some(w) && w@ == n) && (dec_cipher matches Some(u) && u@
            == aes_gcm_seal(derived_key_of(password@, sa), n, p)) by {
            lemma_b64_text_plain(b64_of(sa));
            lemma_b64_text_plain(b64_of(n));
            lemma_b64_text_plain(b64_of(aes_gcm_seal(derived_key_of(password@, sa), n, p)));
            assert(fields.salt@ == b64_of(sa));
            assert(fields.iv@ == b64_of(n));
            assert(fields.cipher@ == b64_of(aes_gcm_seal(derived_key_of(password@, sa), n, p)));
            assert(salt_s@ =~= b64_chars_of(sa));
            assert(iv_s@ =~= b64_chars_of(n));
            assert(cipher_s@ =~= b64_chars_of(aes_gcm_seal(derived_key_of(password@, sa), n, p)));
        }
    }
    let salt = match dec_salt {
        Some(v) => v,
        None => {
            return Err(SecretError::DecodeError);
        },
    };
    let iv = match dec_iv {
        Some(v) => v,
        None => {
            return Err(SecretError::DecodeError);
        },
    };
    let cipher = match dec_cipher {
        Some(v) => v,
        None => {
            return Err(SecretError::DecodeError);
        },
    };
    proof {
        codec::lemma_bytes_of_b64_chars(fields.salt@, salt@);
        codec::lemma_bytes_of_b64_chars(fields.iv@, iv@);
        codec::lemma_bytes_of_b64_chars(fields.cipher@, cipher@);
    }
    if iv.len() != 12 {
        return Err(SecretError::CryptoMisuseError);
    }
    let dk = kdf::derive(password.as_bytes(), salt.as_slice());
    let out = aead::decrypt(dk.as_slice(), iv.as_slice(), cipher.as_slice());
    proof {
        assert(dk@ == derived_key_of(password@, salt@));
        assert forall|sa: Seq<u8>, n: Seq<u8>, p: Seq<u8>|
            pw_envelope_case(payload@, password@, sa, n, p) implies (out matches Ok(q) && q@
            == p) by {
            assert(salt@ == sa && iv@ == n && cipher@ == aes_gcm_seal(
                derived_key_of(password@, sa),
                n,
                p,
            ));
        }
        match &out {
            Ok(q) => {
                assert(cipher@ == aes_gcm_seal(derived_key_of(password@, salt@), iv@, q@));
                assert(is_envelope(payload@, b64_of(salt@), b64_of(iv@), b64_of(cipher@)));
            },
            Err(e) => {
                if *e == SecretError::AuthenticationError {
                    assert(is_envelope(payload@, b64_of(salt@), b64_of(iv@), b64_of(cipher@)));
                    assert(forall|p: Seq<u8>|
                        !(p.len() + TAG_LEN == cipher@.len() && fits_aead(p.len()) && cipher@
                            == aes_gcm_seal(derived_key_of(password@, salt@), iv@, p)));
                }
            },
        }
    }
    out
}

/// What one fetched bin yields after the outer decryption.
#[derive(Debug)]
pub enum RevealOutcome {
    /// The secret itself, where no password layer is present.
    Plain(Vec<u8>),
    /// The password envelope bytes; the caller asks for a password and
    /// calls `decrypt_with_pw`, and asks again on `AuthenticationError`.
    NeedsPassword(Vec<u8>),
}

/// The bytes the outer decryption yielded, whichever side they are on.
pub open spec fn outcome_bytes(o: RevealOutcome) -> Seq<u8> {
    match o {
        RevealOutcome::Plain(v) => v@,
        RevealOutcome::NeedsPassword(v) => v@,
    }
}

/// Decides what a fetched bin holds: decrypts the outer layer with the key
/// and nonce of the share URL, and says whether the result is the secret
/// itself or a password envelope still to be opened. The caller performs
/// the fetching and prompting around it.
pub fn open_bin(parsed: &ParsedUrl, bin: &CryptBin) -> (r: Result<RevealOutcome, SecretError>)
    ensures
        r matches Ok(o) ==> (o is NeedsPassword <==> bin.has_password),
        r matches Ok(o) ==> (exists|k: Seq<u8>, n: Seq<u8>|
            #![auto]
            k.len() == 32 && n.len() == 12 && parsed.key@ == b64_chars_of(k) && parsed.nonce@
                == b64_chars_of(n) && bin.payload@ == b64_chars_of(
                aes_gcm_seal(k, n, outcome_bytes(o)),
            )),
        forall|k: Seq<u8>, n: Seq<u8>, p: Seq<u8>|
            (k.len() == 32 && n.len() == 12 && parsed.key@ == b64_chars_of(k) && parsed.nonce@
                == b64_chars_of(n) && bin.payload@ == b64_chars_of(aes_gcm_seal(k, n, p))
                && aes_gcm_seal(k, n, p).len() == p.len() + TAG_LEN && fits_aead(p.len())) ==> (
            r matches Ok(o) && outcome_bytes(o) == p),
        r matches Err(e) ==> (e == SecretError::DecodeError || e == SecretError::CryptoMisuseError
            || e == SecretError::AuthenticationError),
{
    let inner = match decrypt(parsed, bin.payload.as_str()) {
        Ok(p) => p,
        Err(e) => {
            return Err(e);
        },
    };
    let outcome = if bin.has_password {
        RevealOutcome::NeedsPassword(inner)
    } else {
        RevealOutcome::Plain(inner)
    };
    proof {
        let (k, n) = choose|k: Seq<u8>, n: Seq<u8>|
            #![auto]
            k.len() == 32 && n.len() == 12 && parsed.key@ == b64_chars_of(k) && parsed.nonce@
                == b64_chars_of(n) && bin.payload@ == b64_chars_of(
                aes_gcm_seal(k, n, outcome_bytes(outcome)),
            );
        assert(k.len() == 32 && n.len() == 12 && parsed.key@ == b64_chars_of(k) && parsed.nonce@
            == b64_chars_of(n) && bin.payload@ == b64_chars_of(
            aes_gcm_seal(k, n, outcome_bytes(outcome)),
        ));
    }
    Ok(outcome)
}

} // verus!
