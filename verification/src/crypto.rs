//! Per-curve signature verification, through `k256`/`ecdsa` and
//! `ed25519-dalek`.
//!
//! The cryptographic primitives are outside code; their outcomes are named by
//! uninterpreted functions, and the decision tree around them — coordinate
//! checks, error selection, dispatch — is verified against the spec-level
//! pipeline below.

use vstd::prelude::*;
use vstd::utf8::encode_utf8;

use crate::b64::b64_decodable;
use crate::b64::b64url_chars;
use crate::b64::b64url_decode;
use crate::jwk::PublicKeyJwk;
use crate::jwk::PublicKeyJwkV;
use crate::types::Curve;
use crate::types::Error;

verus! {

/// The outcome of one low-level verification attempt.
#[derive(Clone, Copy, Debug, PartialEq, Eq, Structural)]
enum Verdict {
    /// The key bytes do not parse as a public key.
    BadKey,
    /// The signature bytes do not parse as a signature.
    BadEncoding,
    /// The signature verified.
    Accepted,
    /// The signature did not verify.
    Rejected,
}

/// Whether `ecdsa::VerifyingKey::<k256::Secp256k1>::from_sec1_bytes` accepts
/// these bytes as a secp256k1 public key.
pub uninterp spec fn es256k_key_ok(sec1: Seq<u8>) -> bool;

/// Whether `ecdsa::Signature::<k256::Secp256k1>::from_slice` accepts these
/// bytes: exactly 64 bytes carrying `r` and `s` in range.
pub uninterp spec fn es256k_sig_ok(sig: Seq<u8>) -> bool;

/// Whether the signature, normalized to low-S form, verifies over the
/// message under the key, as decided by `ecdsa`'s verifier for secp256k1.
pub uninterp spec fn es256k_accepts(sec1: Seq<u8>, msg: Seq<u8>, sig: Seq<u8>) -> bool;

/// Whether `ed25519_dalek::VerifyingKey::from_bytes` accepts these 32 bytes
/// as an Ed25519 public key.
pub uninterp spec fn ed25519_key_ok(pk: Seq<u8>) -> bool;

/// Whether the signature verifies over the message under the key, as decided
/// by `ed25519_dalek`'s verifier.
pub uninterp spec fn ed25519_accepts(pk: Seq<u8>, msg: Seq<u8>, sig: Seq<u8>) -> bool;

/// Relies on `ecdsa` with `k256::Secp256k1`: `VerifyingKey::from_sec1_bytes`
/// to parse the key, `Signature::from_slice` to parse the signature,
/// `Signature::normalize_s` to canonicalize a high-S signature, and
/// `Verifier::verify` for the verdict. Each step is deterministic in its
/// arguments.
#[verifier::external_body]
fn es256k_verdict(sec1: &Vec<u8>, msg: &[u8], sig: &[u8]) -> (r: Verdict)
    ensures
        (r == Verdict::BadKey) == !es256k_key_ok(sec1@),
        es256k_key_ok(sec1@) ==> (r == Verdict::BadEncoding) == !es256k_sig_ok(sig@),
        es256k_key_ok(sec1@) && es256k_sig_ok(sig@) ==> r == (if es256k_accepts(
            sec1@,
            msg@,
            sig@,
        ) {
            Verdict::Accepted
        } else {
            Verdict::Rejected
        }),
{
    let Ok(vk) = ecdsa::VerifyingKey::<k256::Secp256k1>::from_sec1_bytes(sec1) else {
        return Verdict::BadKey;
    };
    let Ok(s) = ecdsa::Signature::<k256::Secp256k1>::from_slice(sig) else {
        return Verdict::BadEncoding;
    };
    let s = s.normalize_s().unwrap_or(s);
    if ecdsa::signature::Verifier::verify(&vk, msg, &s).is_ok() {
        Verdict::Accepted
    } else {
        Verdict::Rejected
    }
}

/// Relies on `ed25519_dalek`: `VerifyingKey::from_bytes` to parse the key
/// (exactly 32 bytes, validity decided by point decompression),
/// `Signature::from_slice` (infallible at 64 bytes), and `Verifier::verify`
/// for the verdict. Each step is deterministic in its arguments.
#[verifier::external_body]
fn ed25519_verdict(pk: &Vec<u8>, msg: &[u8], sig: &[u8]) -> (r: Verdict)
    requires
        pk@.len() == 32,
        sig@.len() == 64,
    ensures
        (r == Verdict::BadKey) == !ed25519_key_ok(pk@),
        ed25519_key_ok(pk@) ==> r == (if ed25519_accepts(pk@, msg@, sig@) {
            Verdict::Accepted
        } else {
            Verdict::Rejected
        }),
{
    let Ok(bytes) = <&[u8; 32]>::try_from(pk.as_slice()) else {
        return Verdict::BadKey;
    };
    let Ok(vk) = ed25519_dalek::VerifyingKey::from_bytes(bytes) else {
        return Verdict::BadKey;
    };
    let Ok(s) = ed25519_dalek::Signature::from_slice(sig) else {
        return Verdict::BadEncoding;
    };
    if ed25519_dalek::Verifier::verify(&vk, msg, &s).is_ok() {
        Verdict::Accepted
    } else {
        Verdict::Rejected
    }
}

/// The uncompressed SEC1 point for a pair of decoded coordinates.
pub open spec fn sec1_point(x: Seq<u8>, y: Seq<u8>) -> Seq<u8> {
    seq![4u8] + x + y
}

/// The ES256K verification decision for a key whose coordinates decoded to
/// `x` and `y`.
pub open spec fn spec_es256k_outcome(x: Seq<u8>, y: Seq<u8>, msg: Seq<u8>, sig: Seq<u8>) -> Result<
    (),
    Error,
> {
    if !es256k_key_ok(sec1_point(x, y)) {
        Err(Error::KeyMaterialInvalid)
    } else if !es256k_sig_ok(sig) {
        Err(Error::Format)
    } else if es256k_accepts(sec1_point(x, y), msg, sig) {
        Ok(())
    } else {
        Err(Error::SignatureInvalid)
    }
}

/// The EdDSA verification decision for a key whose coordinate decoded to
/// `x`.
pub open spec fn spec_eddsa_outcome(x: Seq<u8>, msg: Seq<u8>, sig: Seq<u8>) -> Result<(), Error> {
    if x.len() != 32 {
        Err(Error::KeyMaterialInvalid)
    } else if !ed25519_key_ok(x) {
        Err(Error::KeyMaterialInvalid)
    } else if sig.len() != 64 {
        Err(Error::Format)
    } else if ed25519_accepts(x, msg, sig) {
        Ok(())
    } else {
        Err(Error::SignatureInvalid)
    }
}

/// The verification decision of a JWK over a message and raw signature
/// bytes, quantifying over the decodings of the key's base64url coordinates.
///
/// A coordinate that does not decode is `KeyMaterialInvalid`; otherwise the
/// curve's own decision applies to the decoded bytes. The coordinate
/// decodings are pinned by quantification: the decoder's contract makes any
/// two decodings of one segment equal.
pub open spec fn spec_jwk_verify(k: PublicKeyJwkV, msg: Seq<u8>, sig: Seq<u8>) -> Result<
    (),
    Error,
> {
    match k.crv {
        Curve::Es256K => match k.y {
            None => Err(Error::KeyMaterialInvalid),
            Some(yseg) => if !b64_decodable(k.x) || !b64_decodable(yseg) {
                Err(Error::KeyMaterialInvalid)
            } else {
                spec_es256k_decoded(k.x, yseg, msg, sig)
            },
        },
        Curve::Ed25519 => if !b64_decodable(k.x) {
            Err(Error::KeyMaterialInvalid)
        } else {
            spec_eddsa_decoded(k.x, msg, sig)
        },
    }
}

/// The ES256K decision over the decoded coordinates of two decodable
/// segments.
pub open spec fn spec_es256k_decoded(
    xseg: Seq<char>,
    yseg: Seq<char>,
    msg: Seq<u8>,
    sig: Seq<u8>,
) -> Result<(), Error> {
    spec_es256k_outcome(
        choose|x: Seq<u8>| b64url_chars(x) == xseg,
        choose|y: Seq<u8>| b64url_chars(y) == yseg,
        msg,
        sig,
    )
}

/// The EdDSA decision over the decoded coordinate of a decodable segment.
pub open spec fn spec_eddsa_decoded(xseg: Seq<char>, msg: Seq<u8>, sig: Seq<u8>) -> Result<
    (),
    Error,
> {
    spec_eddsa_outcome(choose|x: Seq<u8>| b64url_chars(x) == xseg, msg, sig)
}

impl PublicKeyJwk {
    /// Verify a signature over `msg` using this key, dispatching on the
    /// key's curve tag. The result equals the spec-level decision
    /// [`spec_jwk_verify`] applied to the key's model, the UTF-8 bytes of the
    /// message, and the signature bytes.
    pub fn verify(&self, msg: &str, sig: &[u8]) -> (r: Result<(), Error>)
        ensures
            r == spec_jwk_verify(self@, encode_utf8(msg@), sig@),
    {
        match self.crv {
            Curve::Es256K => self.verify_es256k(msg, sig),
            Curve::Ed25519 => self.verify_eddsa(msg, sig),
        }
    }

    /// ES256K verification: require both coordinates, build the uncompressed
    /// SEC1 point, and verify with low-S normalization applied.
    fn verify_es256k(&self, msg: &str, sig: &[u8]) -> (r: Result<(), Error>)
        requires
            self@.crv == Curve::Es256K,
        ensures
            r == spec_jwk_verify(self@, encode_utf8(msg@), sig@),
    {
        let y = match &self.y {
            Some(y) => y,
            None => {
                return Err(Error::KeyMaterialInvalid);
            },
        };
        let x_bytes = match b64url_decode(self.x.as_str()) {
            Some(v) => v,
            None => {
                return Err(Error::KeyMaterialInvalid);
            },
        };
        let y_bytes = match b64url_decode(y.as_str()) {
            Some(v) => v,
            None => {
                return Err(Error::KeyMaterialInvalid);
            },
        };
        let mut sec1: Vec<u8> = Vec::new();
        sec1.push(4);
        sec1.extend_from_slice(x_bytes.as_slice());
        sec1.extend_from_slice(y_bytes.as_slice());
        proof {
            assert(sec1@ =~= sec1_point(x_bytes@, y_bytes@));
            assert((choose|x: Seq<u8>| b64url_chars(x) == self@.x) == x_bytes@);
            assert((choose|yy: Seq<u8>| b64url_chars(yy) == y@) == y_bytes@);
        }
        match es256k_verdict(&sec1, msg.as_bytes(), sig) {
            Verdict::BadKey => Err(Error::KeyMaterialInvalid),
            Verdict::BadEncoding => Err(Error::Format),
            Verdict::Accepted => Ok(()),
            Verdict::Rejected => Err(Error::SignatureInvalid),
        }
    }

    /// EdDSA verification: require a 32-byte public key and a 64-byte
    /// signature before invoking the curve primitive.
    fn verify_eddsa(&self, msg: &str, sig: &[u8]) -> (r: Result<(), Error>)
        requires
            self@.crv == Curve::Ed25519,
        ensures
            r == spec_jwk_verify(self@, encode_utf8(msg@), sig@),
    {
        let x_bytes = match b64url_decode(self.x.as_str()) {
            Some(v) => v,
            None => {
                return Err(Error::KeyMaterialInvalid);
            },
        };
        proof {
            assert((choose|x: Seq<u8>| b64url_chars(x) == self@.x) == x_bytes@);
        }
        if x_bytes.len() != 32 {
            return Err(Error::KeyMaterialInvalid);
        }
        let key_ok = ed25519_key_check(&x_bytes);
        if !key_ok {
            return Err(Error::KeyMaterialInvalid);
        }
        if sig.len() != 64 {
            return Err(Error::Format);
        }
        match ed25519_verdict(&x_bytes, msg.as_bytes(), sig) {
            Verdict::BadKey => Err(Error::KeyMaterialInvalid),
            Verdict::BadEncoding => Err(Error::Format),
            Verdict::Accepted => Ok(()),
            Verdict::Rejected => Err(Error::SignatureInvalid),
        }
    }
}

/// Relies on `ed25519_dalek::VerifyingKey::from_bytes`: whether 32 bytes
/// parse as a public key, without verifying anything.
#[verifier::external_body]
fn ed25519_key_check(pk: &Vec<u8>) -> (r: bool)
    requires
        pk@.len() == 32,
    ensures
        r == ed25519_key_ok(pk@),
{
    match <&[u8; 32]>::try_from(pk.as_slice()) {
        Ok(bytes) => ed25519_dalek::VerifyingKey::from_bytes(bytes).is_ok(),
        Err(_) => false,
    }
}

} // verus!
