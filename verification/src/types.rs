//! Core enumerations shared by the signing and verification pipelines, and
//! the error kinds every operation reports.

use vstd::prelude::*;

verus! {

/// Digital signature algorithm identifier, as carried in the `alg` field of
/// a protected header.
#[derive(Clone, Copy, Debug, PartialEq, Eq, Structural)]
pub enum Algorithm {
    /// ECDSA over the secp256k1 curve.
    Es256K,
    /// EdDSA over the Ed25519 curve.
    EdDsa,
}

/// Cryptographic key type, as carried in the `kty` field of a JWK.
#[derive(Clone, Copy, Debug, PartialEq, Eq, Structural)]
pub enum KeyType {
    /// Octet key pair (Edwards curve).
    Okp,
    /// Elliptic curve key pair.
    Ec,
    /// Octet string.
    Oct,
}

/// Cryptographic curve type, as carried in the `crv` field of a JWK.
#[derive(Clone, Copy, Debug, PartialEq, Eq, Structural)]
pub enum Curve {
    /// Ed25519 curve.
    Ed25519,
    /// secp256k1 curve.
    Es256K,
}

/// The error kinds surfaced by envelope operations. Each operation's contract
/// states exactly which kind is returned on which inputs.
#[derive(Clone, Copy, Debug, PartialEq, Eq, Structural)]
pub enum Error {
    /// Wrong segment count, invalid base64url, or malformed JSON.
    Format,
    /// Header algorithm mismatched against the resolved key's curve.
    UnsupportedAlgorithm,
    /// The header's key reference has no identifier, but verification needs one.
    MissingKeyIdentifier,
    /// The resolver capability failed to map a key identifier to a public key.
    KeyResolution,
    /// Missing or wrong-length coordinate, or unparseable key bytes.
    KeyMaterialInvalid,
    /// Cryptographic signature verification failed.
    SignatureInvalid,
    /// The signer capability failed.
    Signing,
}

/// Whether a header's declared algorithm is consistent with the curve tag of
/// the key that will verify it.
pub open spec fn spec_alg_matches(alg: Algorithm, crv: Curve) -> bool {
    match (alg, crv) {
        (Algorithm::Es256K, Curve::Es256K) => true,
        (Algorithm::EdDsa, Curve::Ed25519) => true,
        _ => false,
    }
}

/// Executable form of [`spec_alg_matches`].
pub fn alg_matches(alg: Algorithm, crv: Curve) -> (r: bool)
    ensures
        r == spec_alg_matches(alg, crv),
{
    match (alg, crv) {
        (Algorithm::Es256K, Curve::Es256K) => true,
        (Algorithm::EdDsa, Curve::Ed25519) => true,
        _ => false,
    }
}

} // verus!
