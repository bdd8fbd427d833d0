use ahasecret::errors::SecretError;
use ahasecret::json::{build_envelope_json, parse_envelope_json};

#[test]
fn builder_emits_the_canonical_shape() {
    let out = build_envelope_json(b"U0FMVA==", b"Tk9OQ0U=", b"Q0lQSEVS");
    assert_eq!(
        out,
        br#"{"cipher":"Q0lQSEVS","iv":"Tk9OQ0U=","salt":"U0FMVA=="}"#.to_vec()
    );
}

#[test]
fn parser_reads_builder_output() {
    let out = build_envelope_json(b"U0FMVA==", b"Tk9OQ0U=", b"Q0lQSEVS");
    let fields = parse_envelope_json(&out).unwrap();
    assert_eq!(fields.salt, b"U0FMVA==".to_vec());
    assert_eq!(fields.iv, b"Tk9OQ0U=".to_vec());
    assert_eq!(fields.cipher, b"Q0lQSEVS".to_vec());
}

#[test]
fn parser_accepts_any_member_order() {
    let a = parse_envelope_json(br#"{"salt":"UwA=","iv":"SXY=","cipher":"Q2M="}"#).unwrap();
    assert_eq!(a.salt, b"UwA=".to_vec());
    assert_eq!(a.iv, b"SXY=".to_vec());
    assert_eq!(a.cipher, b"Q2M=".to_vec());
    let b = parse_envelope_json(br#"{"iv":"SXY=","salt":"UwA=","cipher":"Q2M="}"#).unwrap();
    assert_eq!(b.salt, b"UwA=".to_vec());
    assert_eq!(b.iv, b"SXY=".to_vec());
    assert_eq!(b.cipher, b"Q2M=".to_vec());
}

#[test]
fn parser_rejects_malformed_envelopes() {
    let cases: Vec<&[u8]> = vec![
        b"",
        b"{}",
        b"not json",
        br#"{"salt":"a","iv":"b"}"#,
        br#"{"salt":"a","iv":"b","cipher":"c","extra":"d"}"#,
        br#"{"salt":"a","iv":"b","salt":"c"}"#,
        br#"{"salt":"a","iv":"b","cipher":"c"una}"#,
        br#"{"salt":"a","iv":"b","cipher":"c\"}"#,
        br#"{"salt": "a","iv": "b","cipher": "c"}"#,
        br#"["salt","iv","cipher"]"#,
    ];
    for case in cases {
        assert_eq!(
            parse_envelope_json(case).unwrap_err(),
            SecretError::DecodeError
        );
    }
}
