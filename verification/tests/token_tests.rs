use base64::Engine;
use referral_list::token::{BearerToken, TokenError};

const HEADER: &str = "eyJhbGciOiJub25lIn0";
const CLAIMS_PADDED: &str = "eyJtaXNzaW9uSWQiOjQyfQ==";
const CLAIMS_UNPADDED: &str = "eyJtaXNzaW9uSWQiOjQyfQ";

#[test]
fn token_decodes_fixed_literal() {
    let tok = format!("{HEADER}.{CLAIMS_UNPADDED}.c2ln");
    let bt = BearerToken::from_base64(tok.clone()).unwrap();
    assert_eq!(bt.claims.mission_id, 42);
    assert_eq!(bt.token, tok);
}

#[test]
fn token_padding_variants_agree() {
    // A token whose middle segment misses its padding decodes to the same
    // claims as the fully padded form.
    let padded = format!("{HEADER}.{CLAIMS_PADDED}.c2ln");
    let unpadded = format!("{HEADER}.{CLAIMS_UNPADDED}.c2ln");
    let a = BearerToken::from_base64(padded).unwrap();
    let b = BearerToken::from_base64(unpadded).unwrap();
    assert_eq!(a.claims.mission_id, b.claims.mission_id);
}

#[test]
fn token_padding_variants_constructed() {
    for mission in [1usize, 7, 999999] {
        let claims = format!("{{\"missionId\":{mission}}}");
        let full = base64::engine::general_purpose::URL_SAFE.encode(claims.as_bytes());
        let bare = base64::engine::general_purpose::URL_SAFE_NO_PAD.encode(claims.as_bytes());
        let a = BearerToken::from_base64(format!("{HEADER}.{full}.c2ln")).unwrap();
        let b = BearerToken::from_base64(format!("{HEADER}.{bare}.c2ln")).unwrap();
        assert_eq!(a.claims.mission_id, mission);
        assert_eq!(b.claims.mission_id, mission);
    }
}

#[test]
fn token_wrong_segment_counts_are_malformed() {
    for bad in [
        "",
        "one",
        "one.two",
        "one.two.three.four",
        "eyJhbGciOiJub25lIn0.eyJtaXNzaW9uSWQiOjQyfQ.c2ln.extra",
    ] {
        let r = BearerToken::from_base64(bad.to_string());
        assert!(matches!(r, Err(TokenError::MalformedToken)), "{bad}");
    }
}

#[test]
fn token_invalid_base64_is_decode_error() {
    let r = BearerToken::from_base64(format!("{HEADER}.!!!.c2ln"));
    assert!(matches!(r, Err(TokenError::DecodeError)));
}

#[test]
fn token_bad_claims_are_claims_parse_error() {
    // Valid base64url, but not a claims object with a missionId.
    let mid = base64::engine::general_purpose::URL_SAFE_NO_PAD.encode(b"not json");
    let r = BearerToken::from_base64(format!("{HEADER}.{mid}.c2ln"));
    assert!(matches!(r, Err(TokenError::ClaimsParseError)));

    let mid = base64::engine::general_purpose::URL_SAFE_NO_PAD.encode(b"{\"other\":1}");
    let r = BearerToken::from_base64(format!("{HEADER}.{mid}.c2ln"));
    assert!(matches!(r, Err(TokenError::ClaimsParseError)));

    let mid = base64::engine::general_purpose::URL_SAFE_NO_PAD.encode(b"{\"missionId\":\"x\"}");
    let r = BearerToken::from_base64(format!("{HEADER}.{mid}.c2ln"));
    assert!(matches!(r, Err(TokenError::ClaimsParseError)));
}
