use ahasecret::bins::CryptBin;
use ahasecret::envelope::{
    decrypt, decrypt_with_pw, encrypt, encrypt_with_key_nonce, encrypt_with_pass, open_bin,
    wrap_with_password, RevealOutcome,
};
use ahasecret::errors::SecretError;
use ahasecret::json::parse_envelope_json;
use ahasecret::rng::{generate_key, generate_nonce, generate_salt};
use ahasecret::share_link::ParsedUrl;

use base64::engine::general_purpose::STANDARD;
use base64::Engine;

fn parsed_for(enc: &ahasecret::envelope::Encrypted) -> ParsedUrl {
    ParsedUrl {
        key: enc.key.clone(),
        nonce: enc.nonce.clone(),
        path: String::from("/bins/test"),
        bin_url: String::from("https://example.com/bins/test"),
    }
}

#[test]
fn round_trip_fixed_key_nonce() {
    let key = b"0123456789abcdef0123456789abcdef".to_vec();
    let nonce = b"abcdefghijkl".to_vec();
    let plaintexts: Vec<Vec<u8>> = vec![
        Vec::new(),
        b"hello world".to_vec(),
        vec![0u8; 1000],
        (0u32..256).map(|x| x as u8).collect(),
    ];
    for pt in plaintexts {
        let enc = encrypt_with_key_nonce(&pt, &key, &nonce).unwrap();
        assert_eq!(enc.key, "MDEyMzQ1Njc4OWFiY2RlZjAxMjM0NTY3ODlhYmNkZWY=");
        assert_eq!(enc.nonce, "YWJjZGVmZ2hpamts");
        let out = decrypt(&parsed_for(&enc), &enc.cipher).unwrap();
        assert_eq!(out, pt);
    }
}

#[test]
fn round_trip_random_key_nonce() {
    let pt = b"a secret worth keeping".to_vec();
    let enc = encrypt(&pt).unwrap();
    let out = decrypt(&parsed_for(&enc), &enc.cipher).unwrap();
    assert_eq!(out, pt);
}

#[test]
fn known_gcm_vector_empty_plaintext_zero_key() {
    // AES-256-GCM with an all-zero key and nonce over the empty plaintext
    // yields only the tag 530f8afbc74536b9a963b4f1c4cb738b.
    let enc = encrypt_with_key_nonce(&[], &[0u8; 32], &[0u8; 12]).unwrap();
    assert_eq!(enc.cipher, "Uw+K+8dFNrmpY7TxxMtziw==");
}

#[test]
fn tamper_any_single_bit_fails_authentication() {
    let key = b"0123456789abcdef0123456789abcdef".to_vec();
    let nonce = b"abcdefghijkl".to_vec();
    let pt = b"hello world".to_vec();
    let enc = encrypt_with_key_nonce(&pt, &key, &nonce).unwrap();
    let cipher_bytes = STANDARD.decode(&enc.cipher).unwrap();
    assert_eq!(cipher_bytes.len(), pt.len() + 16);
    for byte_idx in 0..cipher_bytes.len() {
        for bit in 0..8 {
            let mut tampered = cipher_bytes.clone();
            tampered[byte_idx] ^= 1u8 << bit;
            let tampered_b64 = STANDARD.encode(&tampered);
            let r = decrypt(&parsed_for(&enc), &tampered_b64);
            assert_eq!(r.unwrap_err(), SecretError::AuthenticationError);
        }
    }
}

#[test]
fn key_and_nonce_are_fresh_per_call() {
    let pt = b"same plaintext".to_vec();
    let a = encrypt(&pt).unwrap();
    let b = encrypt(&pt).unwrap();
    assert_ne!(a.key, b.key);
    assert_ne!(a.nonce, b.nonce);
    assert_ne!(a.cipher, b.cipher);
    let k1 = generate_key();
    let k2 = generate_key();
    assert_eq!(k1.len(), 32);
    assert_eq!(k2.len(), 32);
    assert_ne!(k1, k2);
    assert_eq!(generate_nonce().len(), 12);
    assert_eq!(generate_salt().len(), 16);
}

#[test]
fn wrong_key_fails_authentication() {
    let enc = encrypt_with_key_nonce(b"payload", b"0123456789abcdef0123456789abcdef", b"abcdefghijkl")
        .unwrap();
    let other = encrypt_with_key_nonce(b"x", b"fedcba9876543210fedcba9876543210", b"abcdefghijkl")
        .unwrap();
    let mut parsed = parsed_for(&enc);
    parsed.key = other.key;
    assert_eq!(
        decrypt(&parsed, &enc.cipher).unwrap_err(),
        SecretError::AuthenticationError
    );
}

#[test]
fn wrong_key_length_is_crypto_misuse() {
    let enc = encrypt_with_key_nonce(b"payload", b"0123456789abcdef0123456789abcdef", b"abcdefghijkl")
        .unwrap();
    let mut parsed = parsed_for(&enc);
    parsed.key = STANDARD.encode(b"short");
    assert_eq!(
        decrypt(&parsed, &enc.cipher).unwrap_err(),
        SecretError::CryptoMisuseError
    );
    assert_eq!(
        encrypt_with_key_nonce(b"x", b"short", b"abcdefghijkl").unwrap_err(),
        SecretError::CryptoMisuseError
    );
    assert_eq!(
        encrypt_with_key_nonce(b"x", b"0123456789abcdef0123456789abcdef", b"short").unwrap_err(),
        SecretError::CryptoMisuseError
    );
}

#[test]
fn malformed_base64_is_decode_error() {
    let enc = encrypt_with_key_nonce(b"payload", b"0123456789abcdef0123456789abcdef", b"abcdefghijkl")
        .unwrap();
    let mut parsed = parsed_for(&enc);
    parsed.key = String::from("!!!not base64!!!");
    assert_eq!(
        decrypt(&parsed, &enc.cipher).unwrap_err(),
        SecretError::DecodeError
    );
    let parsed2 = parsed_for(&enc);
    assert_eq!(
        decrypt(&parsed2, "@@@").unwrap_err(),
        SecretError::DecodeError
    );
}

#[test]
fn pbkdf2_known_vector() {
    // PBKDF2-HMAC-SHA256("password", "salt", 100000 iterations), 32 bytes.
    let dk = ahasecret::kdf::derive(b"password", b"salt");
    let expected: Vec<u8> = vec![
        0x03, 0x94, 0xa2, 0xed, 0xe3, 0x32, 0xc9, 0xa1, 0x3e, 0xb8, 0x2e, 0x9b, 0x24, 0x63,
        0x16, 0x04, 0xc3, 0x1d, 0xf9, 0x78, 0xb4, 0xe2, 0xf0, 0xfb, 0xd2, 0xc5, 0x49, 0x94,
        0x4f, 0x9d, 0x79, 0xa5,
    ];
    assert_eq!(dk, expected);
}

#[test]
fn password_layer_round_trip() {
    let pt = b"hello world".to_vec();
    let envelope = wrap_with_password(&pt, "s3cr3t", &[5u8; 16], &[6u8; 12]).unwrap();
    assert_eq!(decrypt_with_pw(&envelope, "s3cr3t").unwrap(), pt);
    assert_eq!(
        decrypt_with_pw(&envelope, "wrong").unwrap_err(),
        SecretError::AuthenticationError
    );
}

#[test]
fn password_layer_round_trip_random_salt() {
    let pt = b"another secret".to_vec();
    let envelope = encrypt_with_pass(&pt, "hunter2").unwrap();
    assert_eq!(decrypt_with_pw(&envelope, "hunter2").unwrap(), pt);
    assert_eq!(
        decrypt_with_pw(&envelope, "hunter3").unwrap_err(),
        SecretError::AuthenticationError
    );
}

#[test]
fn password_envelope_is_valid_json_with_the_three_fields() {
    let pt = b"hello world".to_vec();
    let envelope = encrypt_with_pass(&pt, "s3cr3t").unwrap();
    let fields = parse_envelope_json(&envelope).unwrap();
    let salt = STANDARD.decode(&fields.salt).unwrap();
    let iv = STANDARD.decode(&fields.iv).unwrap();
    let cipher = STANDARD.decode(&fields.cipher).unwrap();
    assert_eq!(salt.len(), 16);
    assert_eq!(iv.len(), 12);
    assert_eq!(cipher.len(), pt.len() + 16);
}

#[test]
fn full_scenario_without_password() {
    let pt = b"hello world".to_vec();
    let enc = encrypt(&pt).unwrap();
    let bin = CryptBin {
        payload: enc.cipher.clone(),
        has_password: false,
    };
    match open_bin(&parsed_for(&enc), &bin).unwrap() {
        RevealOutcome::Plain(v) => assert_eq!(v, pt),
        RevealOutcome::NeedsPassword(_) => panic!("no password layer was requested"),
    }
}

#[test]
fn full_scenario_with_password() {
    let pt = b"hello world".to_vec();
    let envelope = encrypt_with_pass(&pt, "s3cr3t").unwrap();
    let enc = encrypt(&envelope).unwrap();
    let bin = CryptBin {
        payload: enc.cipher.clone(),
        has_password: true,
    };
    match open_bin(&parsed_for(&enc), &bin).unwrap() {
        RevealOutcome::NeedsPassword(inner) => {
            assert_eq!(inner, envelope);
            assert_eq!(
                decrypt_with_pw(&inner, "wrong").unwrap_err(),
                SecretError::AuthenticationError
            );
            assert_eq!(decrypt_with_pw(&inner, "s3cr3t").unwrap(), pt);
        },
        RevealOutcome::Plain(_) => panic!("the password layer was lost"),
    }
}

#[test]
fn password_layer_wrong_iv_length_is_crypto_misuse() {
    let salt_b64 = STANDARD.encode([5u8; 16]);
    let short_iv_b64 = STANDARD.encode([6u8; 8]);
    let cipher_b64 = STANDARD.encode([7u8; 27]);
    let envelope = ahasecret::json::build_envelope_json(
        salt_b64.as_bytes(),
        short_iv_b64.as_bytes(),
        cipher_b64.as_bytes(),
    );
    assert_eq!(
        decrypt_with_pw(&envelope, "pw").unwrap_err(),
        SecretError::CryptoMisuseError
    );
}

#[test]
fn password_layer_junk_payload_is_decode_error() {
    assert_eq!(
        decrypt_with_pw(b"junk", "pw").unwrap_err(),
        SecretError::DecodeError
    );
    let bad_b64 = ahasecret::json::build_envelope_json(b"!!!", b"???", b"###");
    assert_eq!(
        decrypt_with_pw(&bad_b64, "pw").unwrap_err(),
        SecretError::DecodeError
    );
}
