//! JSON Web Signature (JWS) envelopes: canonical protected-header encoding,
//! compact serialization, signing and verification pipelines, and per-curve
//! signature verification dispatch.

mod b64;
mod caps;
mod crypto;
mod header;
mod jwk;
mod jws;
mod laws;
mod types;

pub use types::Algorithm;
pub use types::Curve;
pub use types::Error;
pub use types::KeyType;
pub use jwk::PublicKeyJwk;
pub use jwk::PublicKeyJwkV;
pub use header::Key;
pub use header::KeyV;
pub use header::Protected;
pub use header::ProtectedV;
pub use header::Type;
pub use crypto::spec_jwk_verify;
pub use caps::KeyResolver;
pub use caps::Signer;
pub use jws::Jws;
pub use jws::JwsV;
pub use jws::Jwt;
pub use jws::JwtV;
pub use jws::Signature;
pub use jws::SignatureV;
pub use jws::JwsBuilder;
pub use jws::decode;
pub use jws::encode;
pub use laws::lemma_round_trip;
pub use laws::lemma_missing_kid_short_circuit;
pub use laws::lemma_fail_fast;
pub use laws::lemma_eddsa_length_enforced;
