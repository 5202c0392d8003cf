//! Sign and verify pipelines with real curve implementations, and the
//! resolver-interaction properties.

use base64ct::Base64UrlUnpadded;
use base64ct::Encoding;
use jws::decode;
use jws::encode;
use jws::Algorithm;
use jws::Curve;
use jws::Error;
use jws::Jws;
use jws::JwsBuilder;
use jws::Key;
use jws::KeyResolver;
use jws::KeyType;
use jws::Protected;
use jws::PublicKeyJwk;
use jws::Signature;
use jws::Signer;
use jws::Type;

// ---------------------------------------------------------------------------
// Test signers and resolver
// ---------------------------------------------------------------------------

struct EdSigner {
    key: ed25519_dalek::SigningKey,
    method: String,
}

impl EdSigner {
    fn new(seed: u8, method: &str) -> Self {
        let key = ed25519_dalek::SigningKey::from_bytes(&[seed; 32]);
        EdSigner { key, method: method.to_string() }
    }

    fn jwk(&self) -> PublicKeyJwk {
        let vk = self.key.verifying_key();
        PublicKeyJwk {
            kty: KeyType::Okp,
            crv: Curve::Ed25519,
            x: Base64UrlUnpadded::encode_string(vk.as_bytes()),
            y: None,
        }
    }
}

impl Signer for EdSigner {
    fn algorithm(&self) -> Algorithm {
        Algorithm::EdDsa
    }

    fn verification_method(&self) -> Result<String, Error> {
        Ok(self.method.clone())
    }

    fn try_sign(&self, msg: &[u8]) -> Result<Vec<u8>, Error> {
        let sig = ed25519_dalek::Signer::sign(&self.key, msg);
        Ok(sig.to_bytes().to_vec())
    }

    fn public_key(&self) -> Result<Vec<u8>, Error> {
        Ok(self.key.verifying_key().as_bytes().to_vec())
    }
}

struct EsSigner {
    key: k256::ecdsa::SigningKey,
    method: String,
}

impl EsSigner {
    fn new(seed: u8, method: &str) -> Self {
        let key = k256::ecdsa::SigningKey::from_slice(&[seed; 32]).unwrap();
        EsSigner { key, method: method.to_string() }
    }

    fn jwk(&self) -> PublicKeyJwk {
        let point = self.key.verifying_key().to_encoded_point(false);
        let bytes = point.as_bytes();
        PublicKeyJwk {
            kty: KeyType::Ec,
            crv: Curve::Es256K,
            x: Base64UrlUnpadded::encode_string(&bytes[1..33]),
            y: Some(Base64UrlUnpadded::encode_string(&bytes[33..65])),
        }
    }
}

impl Signer for EsSigner {
    fn algorithm(&self) -> Algorithm {
        Algorithm::Es256K
    }

    fn verification_method(&self) -> Result<String, Error> {
        Ok(self.method.clone())
    }

    fn try_sign(&self, msg: &[u8]) -> Result<Vec<u8>, Error> {
        let sig: k256::ecdsa::Signature = ecdsa::signature::Signer::sign(&self.key, msg);
        Ok(sig.to_bytes().to_vec())
    }

    fn public_key(&self) -> Result<Vec<u8>, Error> {
        Ok(self.key.verifying_key().to_encoded_point(false).as_bytes().to_vec())
    }
}

/// A signer whose signing capability always fails.
struct FailingSigner;

impl Signer for FailingSigner {
    fn algorithm(&self) -> Algorithm {
        Algorithm::EdDsa
    }

    fn verification_method(&self) -> Result<String, Error> {
        Ok("did:example:broken#key-1".to_string())
    }

    fn try_sign(&self, _msg: &[u8]) -> Result<Vec<u8>, Error> {
        Err(Error::Signing)
    }

    fn public_key(&self) -> Result<Vec<u8>, Error> {
        Err(Error::Signing)
    }
}

/// A resolver over a fixed table, counting how often it is consulted.
struct MapResolver {
    keys: Vec<(String, PublicKeyJwk)>,
    calls: usize,
}

impl MapResolver {
    fn new(keys: Vec<(String, PublicKeyJwk)>) -> Self {
        MapResolver { keys, calls: 0 }
    }
}

impl KeyResolver for MapResolver {
    fn resolve(&mut self, kid: &str) -> Result<PublicKeyJwk, Error> {
        self.calls += 1;
        for (k, v) in &self.keys {
            if k == kid {
                return Ok(v.clone());
            }
        }
        Err(Error::KeyResolution)
    }
}

const PAYLOAD: &[u8] = br#"{"sub":"alice"}"#;

// ---------------------------------------------------------------------------
// Round trips
// ---------------------------------------------------------------------------

#[test]
fn round_trip_eddsa() {
    let signer = EdSigner::new(7, "did:example:123#key-1");
    let token = encode(Type::Jwt, PAYLOAD, &signer).unwrap();
    assert_eq!(token.chars().filter(|c| *c == '.').count(), 2);
    let mut resolver = MapResolver::new(vec![("did:example:123#key-1".to_string(), signer.jwk())]);
    let jwt = decode(&token, &mut resolver).unwrap();
    assert_eq!(jwt.claims, PAYLOAD.to_vec());
    assert_eq!(jwt.header.alg, Algorithm::EdDsa);
    assert_eq!(jwt.header.kid(), Some("did:example:123#key-1"));
    assert_eq!(resolver.calls, 1);
}

#[test]
fn round_trip_es256k() {
    let signer = EsSigner::new(11, "did:example:es#key-2");
    for typ in [Type::Jwt, Type::Openid4VciProofJwt, Type::OauthAuthzReqJwt] {
        let token = encode(typ, PAYLOAD, &signer).unwrap();
        let mut resolver =
            MapResolver::new(vec![("did:example:es#key-2".to_string(), signer.jwk())]);
        let jwt = decode(&token, &mut resolver).unwrap();
        assert_eq!(jwt.claims, PAYLOAD.to_vec());
        assert_eq!(jwt.header.typ, typ);
    }
}

#[test]
fn builder_matches_pipeline() {
    let signer = EdSigner::new(7, "did:example:123#key-1");
    let built = JwsBuilder::new()
        .jwt_type(Type::Openid4VciProofJwt)
        .payload(PAYLOAD.to_vec())
        .build(&signer)
        .unwrap();
    let direct = Jws::new(Type::Openid4VciProofJwt, PAYLOAD, &signer).unwrap();
    assert_eq!(built.payload, direct.payload);
    assert_eq!(built.signatures.len(), 1);
    assert_eq!(built.signatures[0].protected_b64, direct.signatures[0].protected_b64);
    assert_eq!(built.signatures[0].signature, direct.signatures[0].signature);
    let mut resolver = MapResolver::new(vec![("did:example:123#key-1".to_string(), signer.jwk())]);
    assert_eq!(built.verify(&mut resolver), Ok(()));
}

#[test]
fn signing_failure_propagates() {
    assert_eq!(encode(Type::Jwt, PAYLOAD, &FailingSigner), Err(Error::Signing));
    assert!(Jws::new(Type::Jwt, PAYLOAD, &FailingSigner).is_err());
}

// ---------------------------------------------------------------------------
// Segment count
// ---------------------------------------------------------------------------

#[test]
fn segment_count_rejected_before_crypto() {
    let mut resolver = MapResolver::new(vec![]);
    for bad in ["", "a", "a.b", "a.b.c.d", "a.b.c.d.e", "..." ] {
        assert_eq!(decode(bad, &mut resolver), Err(Error::Format));
    }
    // No segment-count failure ever reaches the resolver.
    assert_eq!(resolver.calls, 0);
    assert!(Jws::parse("a.b").is_err());
    assert!(Jws::parse("a.b.c.d").is_err());
}

#[test]
fn non_base64_header_segment_is_format_error() {
    let mut resolver = MapResolver::new(vec![]);
    assert_eq!(decode("\u{00e4}.b.c", &mut resolver), Err(Error::Format));
    assert_eq!(resolver.calls, 0);
}

#[test]
fn empty_envelope_is_not_valid() {
    let jws = Jws { payload: Base64UrlUnpadded::encode_string(PAYLOAD), signatures: vec![] };
    let mut resolver = MapResolver::new(vec![]);
    assert_eq!(jws.verify(&mut resolver), Err(Error::Format));
    assert_eq!(resolver.calls, 0);
}

// ---------------------------------------------------------------------------
// Tamper sensitivity
// ---------------------------------------------------------------------------

#[test]
fn tampered_payload_bits_fail_verification() {
    let signer = EdSigner::new(3, "did:example:123#key-1");
    let token = encode(Type::Jwt, PAYLOAD, &signer).unwrap();
    let dots: Vec<usize> =
        token.char_indices().filter(|(_, c)| *c == '.').map(|(i, _)| i).collect();
    let (d1, d2) = (dots[0], dots[1]);
    let bytes = token.as_bytes();
    for pos in (d1 + 1)..d2 {
        for bit in 0..8 {
            let mut tampered = bytes.to_vec();
            tampered[pos] ^= 1 << bit;
            // A flip may leave the byte outside UTF-8; such inputs cannot
            // even form a token string.
            let Ok(t) = String::from_utf8(tampered) else {
                continue;
            };
            let mut resolver =
                MapResolver::new(vec![("did:example:123#key-1".to_string(), signer.jwk())]);
            assert_eq!(decode(&t, &mut resolver), Err(Error::SignatureInvalid));
        }
    }
}

// ---------------------------------------------------------------------------
// Missing key identifier
// ---------------------------------------------------------------------------

fn entry_with_header(h: &Protected, sig_b64: &str) -> Signature {
    Signature {
        protected_b64: h.encode().unwrap(),
        protected: h.clone(),
        signature: sig_b64.to_string(),
    }
}

#[test]
fn missing_kid_short_circuits_resolver() {
    let signer = EdSigner::new(3, "did:example:123#key-1");
    let embedded = Protected {
        alg: Algorithm::EdDsa,
        typ: Type::Jwt,
        key: Key::Jwk(signer.jwk()),
        x5c: None,
        trust_chain: None,
    };
    let jws = Jws {
        payload: Base64UrlUnpadded::encode_string(PAYLOAD),
        signatures: vec![entry_with_header(&embedded, "c2ln")],
    };
    let mut resolver = MapResolver::new(vec![("did:example:123#key-1".to_string(), signer.jwk())]);
    assert_eq!(jws.verify(&mut resolver), Err(Error::MissingKeyIdentifier));
    assert_eq!(resolver.calls, 0);
}

#[test]
fn empty_kid_short_circuits_resolver() {
    let empty = Protected {
        alg: Algorithm::EdDsa,
        typ: Type::Jwt,
        key: Key::KeyId(String::new()),
        x5c: None,
        trust_chain: None,
    };
    let jws = Jws {
        payload: Base64UrlUnpadded::encode_string(PAYLOAD),
        signatures: vec![entry_with_header(&empty, "c2ln")],
    };
    let mut resolver = MapResolver::new(vec![]);
    assert_eq!(jws.verify(&mut resolver), Err(Error::MissingKeyIdentifier));
    assert_eq!(resolver.calls, 0);
}

// ---------------------------------------------------------------------------
// Multi-signature general form
// ---------------------------------------------------------------------------

#[test]
fn multisig_second_invalid_stops_after_two_resolutions() {
    let s1 = EdSigner::new(1, "did:example:multi#k1");
    let s2 = EdSigner::new(2, "did:example:multi#k2");
    let s3 = EdSigner::new(3, "did:example:multi#k3");
    let payload_b64 = Base64UrlUnpadded::encode_string(PAYLOAD);

    let entry_for = |s: &EdSigner| {
        let h = Protected {
            alg: Algorithm::EdDsa,
            typ: Type::Jwt,
            key: Key::KeyId(s.method.clone()),
            x5c: None,
            trust_chain: None,
        };
        let h64 = h.encode().unwrap();
        let input = format!("{h64}.{payload_b64}");
        let sig = s.try_sign(input.as_bytes()).unwrap();
        Signature {
            protected: h,
            protected_b64: h64,
            signature: Base64UrlUnpadded::encode_string(&sig),
        }
    };

    let mut e2 = entry_for(&s2);
    // Corrupt the second signature: still 64 valid bytes, but wrong.
    let mut sig2 = Base64UrlUnpadded::decode_vec(&e2.signature).unwrap();
    sig2[10] ^= 0xff;
    e2.signature = Base64UrlUnpadded::encode_string(&sig2);

    let jws = Jws {
        payload: payload_b64.clone(),
        signatures: vec![entry_for(&s1), e2, entry_for(&s3)],
    };
    let mut resolver = MapResolver::new(vec![
        ("did:example:multi#k1".to_string(), s1.jwk()),
        ("did:example:multi#k2".to_string(), s2.jwk()),
        ("did:example:multi#k3".to_string(), s3.jwk()),
    ]);
    assert_eq!(jws.verify(&mut resolver), Err(Error::SignatureInvalid));
    assert_eq!(resolver.calls, 2);

    // With the corruption undone, all three verify and all three resolve.
    let jws_ok = Jws {
        payload: payload_b64.clone(),
        signatures: vec![entry_for(&s1), entry_for(&s2), entry_for(&s3)],
    };
    let mut resolver_ok = MapResolver::new(vec![
        ("did:example:multi#k1".to_string(), s1.jwk()),
        ("did:example:multi#k2".to_string(), s2.jwk()),
        ("did:example:multi#k3".to_string(), s3.jwk()),
    ]);
    assert_eq!(jws_ok.verify(&mut resolver_ok), Ok(()));
    assert_eq!(resolver_ok.calls, 3);
}

// ---------------------------------------------------------------------------
// Error kinds
// ---------------------------------------------------------------------------

#[test]
fn unknown_kid_is_resolution_error() {
    let signer = EdSigner::new(9, "did:example:unknown#k");
    let token = encode(Type::Jwt, PAYLOAD, &signer).unwrap();
    let mut resolver = MapResolver::new(vec![]);
    assert_eq!(decode(&token, &mut resolver), Err(Error::KeyResolution));
    assert_eq!(resolver.calls, 1);
}

#[test]
fn mismatched_curve_is_unsupported_algorithm() {
    let signer = EdSigner::new(9, "did:example:mix#k");
    let wrong_curve = EsSigner::new(9, "did:example:mix#k");
    let token = encode(Type::Jwt, PAYLOAD, &signer).unwrap();
    let mut resolver =
        MapResolver::new(vec![("did:example:mix#k".to_string(), wrong_curve.jwk())]);
    assert_eq!(decode(&token, &mut resolver), Err(Error::UnsupportedAlgorithm));
}

#[test]
fn garbage_signature_segment_is_format_error() {
    let signer = EdSigner::new(9, "did:example:123#key-1");
    let token = encode(Type::Jwt, PAYLOAD, &signer).unwrap();
    let dots: Vec<usize> =
        token.char_indices().filter(|(_, c)| *c == '.').map(|(i, _)| i).collect();
    let tampered = format!("{}.!!!", &token[..dots[1]]);
    let mut resolver = MapResolver::new(vec![("did:example:123#key-1".to_string(), signer.jwk())]);
    assert_eq!(decode(&tampered, &mut resolver), Err(Error::Format));
    // The signature segment fails before the resolver is consulted.
    assert_eq!(resolver.calls, 0);
}

// ---------------------------------------------------------------------------
// EdDSA length enforcement
// ---------------------------------------------------------------------------

#[test]
fn eddsa_key_length_enforced() {
    let short = PublicKeyJwk {
        kty: KeyType::Okp,
        crv: Curve::Ed25519,
        x: Base64UrlUnpadded::encode_string(&[5u8; 31]),
        y: None,
    };
    assert_eq!(short.verify("msg", &[0u8; 64]), Err(Error::KeyMaterialInvalid));
    let long = PublicKeyJwk {
        kty: KeyType::Okp,
        crv: Curve::Ed25519,
        x: Base64UrlUnpadded::encode_string(&[5u8; 33]),
        y: None,
    };
    assert_eq!(long.verify("msg", &[0u8; 64]), Err(Error::KeyMaterialInvalid));
}

#[test]
fn eddsa_signature_length_enforced() {
    let signer = EdSigner::new(4, "did:example:len#k");
    let jwk = signer.jwk();
    assert_eq!(jwk.verify("msg", &[0u8; 63]), Err(Error::Format));
    assert_eq!(jwk.verify("msg", &[0u8; 65]), Err(Error::Format));
}

#[test]
fn es256k_missing_y_is_key_material_error() {
    let signer = EsSigner::new(4, "did:example:es#k");
    let mut jwk = signer.jwk();
    jwk.y = None;
    assert_eq!(jwk.verify("msg", &[0u8; 64]), Err(Error::KeyMaterialInvalid));
}

// ---------------------------------------------------------------------------
// ECDSA malleability tolerance
// ---------------------------------------------------------------------------

/// The order of the secp256k1 group, big endian.
const SECP256K1_N: [u8; 32] = [
    0xff, 0xff, 0xff, 0xff, 0xff, 0xff, 0xff, 0xff, 0xff, 0xff, 0xff, 0xff, 0xff, 0xff, 0xff,
    0xfe, 0xba, 0xae, 0xdc, 0xe6, 0xaf, 0x48, 0xa0, 0x3b, 0xbf, 0xd2, 0x5e, 0x8c, 0xd0, 0x36,
    0x41, 0x41,
];

/// Big-endian subtraction `n - s` over 32 bytes.
fn n_minus_s(s: &[u8]) -> [u8; 32] {
    let mut out = [0u8; 32];
    let mut borrow: i16 = 0;
    for i in (0..32).rev() {
        let d = SECP256K1_N[i] as i16 - s[i] as i16 - borrow;
        if d < 0 {
            out[i] = (d + 256) as u8;
            borrow = 1;
        } else {
            out[i] = d as u8;
            borrow = 0;
        }
    }
    out
}

#[test]
fn es256k_high_s_signature_also_verifies() {
    let signer = EsSigner::new(21, "did:example:mall#k");
    let jwk = signer.jwk();
    let msg = "header.payload";
    let sig = signer.try_sign(msg.as_bytes()).unwrap();
    assert_eq!(jwk.verify(msg, &sig), Ok(()));

    // The algebraically equivalent representation with the alternate s.
    let mut alt = sig.clone();
    let flipped = n_minus_s(&sig[32..64]);
    alt[32..64].copy_from_slice(&flipped);
    assert_ne!(alt, sig);
    assert_eq!(jwk.verify(msg, &alt), Ok(()));
}
