//! The two injected capabilities: a signer and a key resolver.
//!
//! Both are modeled as traits whose spec functions describe what the
//! capability knows, so that the pipelines' contracts can say exactly which
//! signatures are produced, which keys are resolved, and how many times the
//! resolver was consulted. Implementations live with the callers — typically
//! adapters around key stores or remote services — exactly as the envelope
//! engine expects its collaborators to be supplied.

use vstd::prelude::*;

use crate::jwk::PublicKeyJwk;
use crate::jwk::PublicKeyJwkV;
use crate::types::Algorithm;
use crate::types::Error;

verus! {

/// A signing capability: produces raw signature bytes over a message, and
/// knows its algorithm, public key, and verification-method identifier.
pub trait Signer: Sized {
    /// The signer's algorithm. The default stands for an unspecified
    /// algorithm; an implementation overrides it with its own.
    open spec fn alg(&self) -> Algorithm {
        Algorithm::EdDsa
    }

    /// The verification-method identifier the signer reports, or `None` when
    /// the lookup fails. The default knows none.
    open spec fn vm(&self) -> Option<Seq<char>> {
        None
    }

    /// The signature the signer produces over a message, or `None` when
    /// signing fails. The default produces none.
    open spec fn sig_of(&self, msg: Seq<u8>) -> Option<Seq<u8>> {
        None
    }

    /// The public key bytes the signer reports, or `None` when the lookup
    /// fails. The default knows none.
    open spec fn pk(&self) -> Option<Seq<u8>> {
        None
    }

    /// Signature algorithm used by the signer.
    fn algorithm(&self) -> (r: Algorithm)
        ensures
            r == self.alg(),
    ;

    /// The verification method a verifier should use to verify the signer's
    /// signature, typically a DID URL plus a key fragment. Fallible: the
    /// signer may need to consult key information to construct it.
    fn verification_method(&self) -> (r: Result<String, Error>)
        ensures
            match r {
                Ok(s) => self.vm() == Some(s@),
                Err(e) => self.vm() is None && e == Error::Signing,
            },
    ;

    /// Sign a message, reporting failure to the caller.
    fn try_sign(&self, msg: &[u8]) -> (r: Result<Vec<u8>, Error>)
        ensures
            match r {
                Ok(sig) => self.sig_of(msg@) == Some(sig@),
                Err(e) => self.sig_of(msg@) is None && e == Error::Signing,
            },
    ;

    /// The public key of the signing key pair. Key rotation means this
    /// should only be consulted at the point of signing.
    fn public_key(&self) -> (r: Result<Vec<u8>, Error>)
        ensures
            match r {
                Ok(k) => self.pk() == Some(k@),
                Err(e) => self.pk() is None && e == Error::Signing,
            },
    ;

    /// Sign a message with a signer known not to fail. A convenience for
    /// callers that have ruled failure out; the pipelines use [`Signer::try_sign`].
    fn sign(&self, msg: &[u8]) -> (r: Vec<u8>)
        requires
            self.sig_of(msg@) is Some,
        ensures
            Some(r@) == self.sig_of(msg@),
    {
        match self.try_sign(msg) {
            Ok(sig) => sig,
            Err(_) => vstd::pervasive::unreached(),
        }
    }
}

/// A key-resolution capability: maps a key identifier to current public key
/// material. The model records both the mapping and the log of identifiers
/// resolved so far, so the verification pipeline can state exactly how often
/// and for which identifiers the resolver runs.
pub trait KeyResolver: Sized {
    /// The key the resolver knows for an identifier, or `None` when the
    /// identifier is unknown or unreachable. The default knows none.
    open spec fn key_for(&self, kid: Seq<char>) -> Option<PublicKeyJwkV> {
        None
    }

    /// The identifiers resolved so far, in call order. The default records
    /// them abstractly; an implementation refines it to its own state.
    open spec fn resolved(&self) -> Seq<Seq<char>> {
        Seq::empty()
    }

    /// Resolve an identifier to a public key. Appends the identifier to the
    /// log and leaves the mapping unchanged.
    fn resolve(&mut self, kid: &str) -> (r: Result<PublicKeyJwk, Error>)
        ensures
            final(self).resolved() == old(self).resolved().push(kid@),
            forall|k: Seq<char>| final(self).key_for(k) == old(self).key_for(k),
            match r {
                Ok(pk) => old(self).key_for(kid@) == Some(pk@),
                Err(e) => old(self).key_for(kid@) is None && e == Error::KeyResolution,
            },
    ;
}

} // verus!
