//! Header codec behavior: canonical JSON, base64url, and exact error cases.

use base64ct::Base64UrlUnpadded;
use base64ct::Encoding;
use jws::Curve;
use jws::Error;
use jws::Key;
use jws::KeyType;
use jws::Protected;
use jws::PublicKeyJwk;
use jws::Type;
use jws::Algorithm;

fn kid_header(alg: Algorithm, typ: Type, kid: &str) -> Protected {
    Protected {
        alg,
        typ,
        key: Key::KeyId(kid.to_string()),
        x5c: None,
        trust_chain: None,
    }
}

#[test]
fn header_encode_canonical_json() {
    let h = kid_header(Algorithm::EdDsa, Type::Jwt, "abc");
    let encoded = h.encode().unwrap();
    let expected = Base64UrlUnpadded::encode_string(br#"{"alg":"EdDSA","typ":"jwt","kid":"abc"}"#);
    assert_eq!(encoded, expected);
}

#[test]
fn header_encode_known_vector() {
    // Pinned expected value, so the test fails if either the JSON layout or
    // the base64url encoding drifts.
    let h = kid_header(Algorithm::EdDsa, Type::Jwt, "k");
    let encoded = h.encode().unwrap();
    assert_eq!(
        encoded,
        "eyJhbGciOiJFZERTQSIsInR5cCI6Imp3dCIsImtpZCI6ImsifQ"
    );
}

#[test]
fn header_roundtrip_kid() {
    let h = kid_header(Algorithm::Es256K, Type::OauthAuthzReqJwt, "did:example:123#key-1");
    let encoded = h.encode().unwrap();
    let back = Protected::decode(&encoded).unwrap();
    assert_eq!(back, h);
}

#[test]
fn header_roundtrip_optional_fields() {
    let mut h = kid_header(Algorithm::EdDsa, Type::Openid4VciProofJwt, "kid-9");
    h.x5c = Some("MIIBcert".to_string());
    h.trust_chain = Some("chain-entry".to_string());
    let encoded = h.encode().unwrap();
    let json = Base64UrlUnpadded::decode_vec(&encoded).unwrap();
    assert_eq!(
        String::from_utf8(json).unwrap(),
        r#"{"alg":"EdDSA","typ":"openid4vci-proof+jwt","kid":"kid-9","x5c":"MIIBcert","trust_chain":"chain-entry"}"#
    );
    let back = Protected::decode(&encoded).unwrap();
    assert_eq!(back, h);
}

#[test]
fn header_roundtrip_embedded_jwk() {
    let jwk = PublicKeyJwk {
        kty: KeyType::Ec,
        crv: Curve::Es256K,
        x: "xxxx".to_string(),
        y: Some("yyyy".to_string()),
    };
    let h = Protected {
        alg: Algorithm::Es256K,
        typ: Type::Jwt,
        key: Key::Jwk(jwk),
        x5c: None,
        trust_chain: None,
    };
    let encoded = h.encode().unwrap();
    let json = Base64UrlUnpadded::decode_vec(&encoded).unwrap();
    assert_eq!(
        String::from_utf8(json).unwrap(),
        r#"{"alg":"ES256K","typ":"jwt","jwk":{"kty":"EC","crv":"ES256K","x":"xxxx","y":"yyyy"}}"#
    );
    let back = Protected::decode(&encoded).unwrap();
    assert_eq!(back, h);
}

#[test]
fn header_roundtrip_jwk_without_y() {
    let jwk = PublicKeyJwk {
        kty: KeyType::Okp,
        crv: Curve::Ed25519,
        x: "coord".to_string(),
        y: None,
    };
    let h = Protected {
        alg: Algorithm::EdDsa,
        typ: Type::Jwt,
        key: Key::Jwk(jwk),
        x5c: None,
        trust_chain: None,
    };
    let encoded = h.encode().unwrap();
    let back = Protected::decode(&encoded).unwrap();
    assert_eq!(back, h);
}

#[test]
fn header_encode_rejects_quote_in_kid() {
    let h = kid_header(Algorithm::EdDsa, Type::Jwt, "bad\"kid");
    assert_eq!(h.encode(), Err(Error::Format));
}

#[test]
fn header_encode_rejects_backslash_and_control() {
    let h = kid_header(Algorithm::EdDsa, Type::Jwt, "bad\\kid");
    assert_eq!(h.encode(), Err(Error::Format));
    let h = kid_header(Algorithm::EdDsa, Type::Jwt, "bad\nkid");
    assert_eq!(h.encode(), Err(Error::Format));
}

#[test]
fn header_decode_rejects_bad_base64() {
    assert_eq!(Protected::decode("!!!not-base64!!!"), Err(Error::Format));
}

#[test]
fn header_decode_rejects_non_canonical_json() {
    // Same object, but with whitespace: not the canonical encoding.
    let with_space = Base64UrlUnpadded::encode_string(
        br#"{ "alg":"EdDSA","typ":"jwt","kid":"abc" }"#,
    );
    assert_eq!(Protected::decode(&with_space), Err(Error::Format));
    let unknown_alg = Base64UrlUnpadded::encode_string(br#"{"alg":"RS256","typ":"jwt","kid":"abc"}"#);
    assert_eq!(Protected::decode(&unknown_alg), Err(Error::Format));
}

#[test]
fn header_accessors() {
    let h = kid_header(Algorithm::EdDsa, Type::Jwt, "kid-1");
    assert_eq!(h.kid(), Some("kid-1"));
    assert!(h.jwk().is_none());
    let jwk = PublicKeyJwk {
        kty: KeyType::Okp,
        crv: Curve::Ed25519,
        x: "x".to_string(),
        y: None,
    };
    let h2 = Protected {
        alg: Algorithm::EdDsa,
        typ: Type::Jwt,
        key: Key::Jwk(jwk.clone()),
        x5c: None,
        trust_chain: None,
    };
    assert!(h2.kid().is_none());
    assert_eq!(h2.jwk(), Some(&jwk));
}

#[test]
fn key_default_is_empty_identifier() {
    let k = Key::default();
    assert_eq!(k, Key::KeyId(String::new()));
}
