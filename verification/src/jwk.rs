//! The public-key data model consumed by the verification pipeline: a curve
//! tag plus base64url-encoded coordinates.

use vstd::prelude::*;

use crate::types::Curve;
use crate::types::KeyType;

verus! {

/// A public key in JWK form: key type, curve tag, and base64url-encoded
/// coordinates. The `y` coordinate is present only for curves that need it.
#[derive(Clone, Debug, PartialEq, Eq)]
pub struct PublicKeyJwk {
    /// Key type (`kty`).
    pub kty: KeyType,
    /// Curve tag (`crv`).
    pub crv: Curve,
    /// Base64url-encoded x coordinate.
    pub x: String,
    /// Base64url-encoded y coordinate, when the curve has one.
    pub y: Option<String>,
}

/// The mathematical model of a [`PublicKeyJwk`].
#[verifier::ext_equal]
pub struct PublicKeyJwkV {
    pub kty: KeyType,
    pub crv: Curve,
    pub x: Seq<char>,
    pub y: Option<Seq<char>>,
}

impl View for PublicKeyJwk {
    type V = PublicKeyJwkV;

    open spec fn view(&self) -> PublicKeyJwkV {
        PublicKeyJwkV {
            kty: self.kty,
            crv: self.crv,
            x: self.x@,
            y: match self.y {
                Some(y) => Some(y@),
                None => None,
            },
        }
    }
}

impl PublicKeyJwk {
    /// A field-by-field copy, with the model pinned to the original's.
    pub fn duplicate(&self) -> (r: Self)
        ensures
            r@ == self@,
    {
        let r = PublicKeyJwk {
            kty: self.kty,
            crv: self.crv,
            x: self.x.clone(),
            y: match &self.y {
                Some(y) => Some(y.clone()),
                None => None,
            },
        };
        assert(r@ == self@);
        r
    }
}

} // verus!
