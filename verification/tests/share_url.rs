use ahasecret::codec::{b64_url_dec, b64_url_enc};
use ahasecret::envelope::{decrypt, encrypt_with_key_nonce};
use ahasecret::errors::SecretError;
use ahasecret::share_link::{build_share_url, parse_decrypt_url};

#[test]
fn url_safe_encoding_replaces_plus_and_slash() {
    assert_eq!(b64_url_enc("a+b/c="), "a-b_c=");
    assert_eq!(b64_url_enc("MDEy"), "MDEy");
    assert_eq!(b64_url_enc(""), "");
    assert_eq!(
        b64_url_enc("+/v7+/v7+/v7+/v7+/v7+/v7+/v7+/v7+/v7+/v7+/s="),
        "-_v7-_v7-_v7-_v7-_v7-_v7-_v7-_v7-_v7-_v7-_s="
    );
}

#[test]
fn url_safe_decoding_restores_and_strips_backslashes() {
    assert_eq!(b64_url_dec("a-b_c="), "a+b/c=");
    assert_eq!(b64_url_dec("a-b_c\\="), "a+b/c=");
    assert_eq!(b64_url_dec("\\\\"), "");
    assert_eq!(b64_url_dec(b64_url_enc("a+b/c=").as_str()), "a+b/c=");
}

#[test]
fn share_url_round_trip() {
    let key_b64 = "+/v7+/v7+/v7+/v7+/v7+/v7+/v7+/v7+/v7+/v7+/s=";
    let nonce_b64 = "YWJjZGVmZ2hpamts";
    let url = build_share_url("https://example.com", "abc123", key_b64, nonce_b64);
    assert_eq!(
        url,
        "https://example.com/bins/abc123#-_v7-_v7-_v7-_v7-_v7-_v7-_v7-_v7-_v7-_v7-_s=&YWJjZGVmZ2hpamts"
    );
    let parsed = parse_decrypt_url(&url).unwrap();
    assert_eq!(parsed.key, key_b64);
    assert_eq!(parsed.nonce, nonce_b64);
    assert_eq!(parsed.path, "/bins/abc123");
    assert_eq!(parsed.bin_url, "https://example.com/bins/abc123");
}

#[test]
fn parse_drops_query_and_trailing_slash() {
    let parsed = parse_decrypt_url("https://example.com/bins/xyz/?kept=no#QUJD&REVG").unwrap();
    assert_eq!(parsed.key, "QUJD");
    assert_eq!(parsed.nonce, "REVG");
    assert_eq!(parsed.bin_url, "https://example.com/bins/xyz");
    assert_eq!(parsed.path, "/bins/xyz/");
}

#[test]
fn parse_keeps_port_and_decodes_urlsafe_parts() {
    let parsed = parse_decrypt_url("http://host:8080/bins/id#-_8=&AA==").unwrap();
    assert_eq!(parsed.key, "+/8=");
    assert_eq!(parsed.nonce, "AA==");
    assert_eq!(parsed.bin_url, "http://host:8080/bins/id");
}

#[test]
fn malformed_fragment_with_one_part_is_parse_error() {
    assert_eq!(
        parse_decrypt_url("https://example.com/bins/x#onlyonepart").unwrap_err(),
        SecretError::ParseError
    );
}

#[test]
fn malformed_fragments_and_urls_are_parse_errors() {
    assert_eq!(
        parse_decrypt_url("https://example.com/bins/x#a&b&c").unwrap_err(),
        SecretError::ParseError
    );
    assert_eq!(
        parse_decrypt_url("https://example.com/bins/x").unwrap_err(),
        SecretError::ParseError
    );
    assert_eq!(
        parse_decrypt_url("not a url at all").unwrap_err(),
        SecretError::ParseError
    );
    assert_eq!(
        parse_decrypt_url("mailto:user@example.com#a&b").unwrap_err(),
        SecretError::ParseError
    );
}

#[test]
fn share_url_carries_working_key_material() {
    let key = b"0123456789abcdef0123456789abcdef".to_vec();
    let nonce = b"abcdefghijkl".to_vec();
    let pt = b"carried through the fragment".to_vec();
    let enc = encrypt_with_key_nonce(&pt, &key, &nonce).unwrap();
    let url = build_share_url("https://example.com", "bin42", &enc.key, &enc.nonce);
    let parsed = parse_decrypt_url(&url).unwrap();
    assert_eq!(decrypt(&parsed, &enc.cipher).unwrap(), pt);
}
