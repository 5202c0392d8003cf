//! The library's laws: properties relating the pipelines, stated over the
//! same spec functions the pipelines' contracts use, and proved once for all
//! inputs.

use vstd::prelude::*;
use vstd::utf8::encode_utf8;

use crate::b64::b64_decodable;
use crate::b64::b64url_chars;
use crate::b64::is_b64url_char;
use crate::caps::KeyResolver;
use crate::caps::Signer;
use crate::crypto::spec_jwk_verify;
use crate::header::header_json;
use crate::header::lemma_header_json_injective;
use crate::header::wf_header;
use crate::header::KeyV;
use crate::header::ProtectedV;
use crate::header::Type;
use crate::jwk::PublicKeyJwkV;
use crate::jws::lemma_compact_unique;
use crate::jws::seg_ok;
use crate::jws::sig_bytes_of;
use crate::jws::signing_input;
use crate::jws::spec_compact;
use crate::jws::spec_decode;
use crate::jws::spec_decode_resolved;
use crate::jws::spec_parse_compact;
use crate::jws::spec_resolved;
use crate::jws::spec_resolved_from;
use crate::jws::spec_sign_compact;
use crate::jws::spec_sign_jws;
use crate::jws::spec_verify_entry;
use crate::jws::spec_verify_from;
use crate::jws::spec_verify_jws;
use crate::jws::JwsV;
use crate::jws::JwtV;
use crate::jws::SignatureV;
use crate::types::spec_alg_matches;
use crate::types::Error;

verus! {

/// The header the signing pipeline builds for a signer whose
/// verification-method lookup succeeded.
pub open spec fn sign_header<S: Signer>(s: S, typ: Type) -> ProtectedV {
    ProtectedV {
        alg: s.alg(),
        typ,
        key: KeyV::KeyId(s.vm()->0),
        x5c: None,
        trust_chain: None,
    }
}

/// The bytes the signing pipeline signs: the UTF-8 bytes of
/// `header_b64.payload_b64`.
pub open spec fn sign_input_bytes<S: Signer>(s: S, typ: Type, payload: Seq<u8>) -> Seq<u8> {
    encode_utf8(
        signing_input(b64url_chars(header_json(sign_header(s, typ))), b64url_chars(payload)),
    )
}

/// A sequence of base64url alphabet characters, as every segment the
/// encoder produces is.
pub open spec fn b64_seg(s: Seq<char>) -> bool {
    forall|i: int| 0 <= i < s.len() ==> is_b64url_char(#[trigger] s[i])
}

/// Alphabet segments carry no dot.
pub proof fn lemma_b64_seg_ok(s: Seq<char>)
    requires
        b64_seg(s),
    ensures
        seg_ok(s),
{
    assert forall|i: int| 0 <= i < s.len() implies s[i] != '.' by {
        assert(is_b64url_char(s[i]));
    }
}

/// Round trip: decoding an encoded token yields the original payload.
///
/// For every payload, envelope type, and signer/resolver pair that share
/// matching key material — the resolver maps the signer's verification
/// method to a key of the signer's curve, and that key accepts the signer's
/// signature over the signing input — decoding the signing pipeline's
/// compact token succeeds, returns exactly the original payload bytes and
/// the header the pipeline built, and consults the resolver exactly once.
///
/// The base64url premises — segments over the url-safe alphabet, each with
/// no second preimage — are exactly what the encoder wrapper's contract
/// states for every segment it produces.
#[verifier::rlimit(100)]
#[verifier::spinoff_prover]
pub proof fn lemma_round_trip<S: Signer, R: KeyResolver>(
    signer: S,
    resolver: R,
    typ: Type,
    payload: Seq<u8>,
    pk: PublicKeyJwkV,
)
    requires
        signer.vm() is Some,
        (signer.vm()->0).len() > 0,
        wf_header(sign_header(signer, typ)),
        signer.sig_of(sign_input_bytes(signer, typ, payload)) is Some,
        resolver.key_for(signer.vm()->0) == Some(pk),
        spec_alg_matches(signer.alg(), pk.crv),
        spec_jwk_verify(
            pk,
            sign_input_bytes(signer, typ, payload),
            signer.sig_of(sign_input_bytes(signer, typ, payload))->0,
        ) == Ok::<(), Error>(()),
        b64_seg(b64url_chars(header_json(sign_header(signer, typ)))),
        b64_seg(b64url_chars(payload)),
        b64_seg(b64url_chars(signer.sig_of(sign_input_bytes(signer, typ, payload))->0)),
        forall|b: Seq<u8>|
            #[trigger] b64url_chars(b) == b64url_chars(header_json(sign_header(signer, typ)))
                ==> b == header_json(sign_header(signer, typ)),
        forall|b: Seq<u8>| #[trigger] b64url_chars(b) == b64url_chars(payload) ==> b == payload,
        forall|b: Seq<u8>|
            #[trigger] b64url_chars(b) == b64url_chars(
                signer.sig_of(sign_input_bytes(signer, typ, payload))->0,
            ) ==> b == signer.sig_of(sign_input_bytes(signer, typ, payload))->0,
    ensures
        spec_sign_compact(typ, payload, signer) is Ok,
        spec_decode(spec_sign_compact(typ, payload, signer)->Ok_0, resolver) == Ok::<
            JwtV,
            Error,
        >(JwtV { header: sign_header(signer, typ), claims: payload }),
        spec_decode_resolved(spec_sign_compact(typ, payload, signer)->Ok_0, resolver) == seq![
            signer.vm()->0,
        ],
{
    let hv = sign_header(signer, typ);
    let hj = header_json(hv);
    let h64 = b64url_chars(hj);
    let p64 = b64url_chars(payload);
    let input = sign_input_bytes(signer, typ, payload);
    let sig0 = signer.sig_of(input)->0;
    let s64 = b64url_chars(sig0);
    let vm = signer.vm()->0;

    // The signing pipeline's envelope and token.
    let jv = JwsV {
        payload: p64,
        signatures: seq![SignatureV { protected: hv, protected_b64: h64, signature: s64 }],
    };
    assert(spec_sign_jws(typ, payload, signer) == Ok::<JwsV, Error>(jv));
    let token = spec_compact(h64, p64, s64);
    assert(spec_sign_compact(typ, payload, signer) == Ok::<Seq<char>, Error>(token));

    // Parsing splits the token back into the same three segments.
    lemma_b64_seg_ok(h64);
    lemma_b64_seg_ok(p64);
    lemma_b64_seg_ok(s64);
    assert(seg_ok(h64) && seg_ok(p64) && seg_ok(s64) && token == spec_compact(h64, p64, s64));
    let (a, p, g) = choose|a: Seq<char>, p: Seq<char>, g: Seq<char>|
        seg_ok(a) && seg_ok(p) && seg_ok(g) && token == spec_compact(a, p, g);
    lemma_compact_unique(a, p, g, h64, p64, s64);

    // The header segment decodes to the canonical JSON of the one header
    // that produced it.
    assert(b64url_chars(hj) == a);
    let hb = choose|hb: Seq<u8>| b64url_chars(hb) == a;
    assert(b64url_chars(hb) == a);
    assert(hb == hj);
    assert(wf_header(hv) && header_json(hv) == hb);
    let hvc = choose|x: ProtectedV| wf_header(x) && header_json(x) == hb;
    assert(wf_header(hvc) && header_json(hvc) == hb);
    lemma_header_json_injective(hvc, hv);
    assert(spec_parse_compact(token) == Ok::<JwsV, Error>(jv));

    // The one signature entry verifies under the resolved key.
    let e = jv.signatures[0];
    assert(b64url_chars(sig0) == e.signature);
    assert(b64_decodable(e.signature));
    assert(sig_bytes_of(e.signature) == sig0) by {
        assert(b64url_chars(sig_bytes_of(e.signature)) == e.signature);
    }
    assert(encode_utf8(signing_input(e.protected_b64, jv.payload)) == input);
    assert(spec_verify_entry(jv.payload, e, resolver) == Ok::<(), Error>(()));
    assert(spec_verify_from(jv.payload, jv.signatures, 1, resolver) == Ok::<(), Error>(()));
    assert(spec_verify_jws(jv, resolver) == Ok::<(), Error>(()));

    // The payload decodes back to the original bytes.
    assert(b64url_chars(payload) == jv.payload);
    assert(b64_decodable(jv.payload));
    let claims = choose|b: Seq<u8>| b64url_chars(b) == jv.payload;
    assert(b64url_chars(claims) == jv.payload);
    assert(claims == payload);
    assert(spec_decode(token, resolver) == Ok::<JwtV, Error>(
        JwtV { header: hv, claims: payload },
    ));

    // Exactly one resolution: the one entry's key identifier.
    assert(spec_resolved_from(jv.payload, jv.signatures, 1, resolver) =~= Seq::<
        Seq<char>,
    >::empty());
    assert(spec_resolved(jv, resolver) =~= seq![vm]);
    assert(spec_decode_resolved(token, resolver) == seq![vm]);
}

/// Missing-key-identifier short circuit: an envelope whose first entry
/// carries an embedded key or an empty identifier fails verification with
/// `MissingKeyIdentifier`, and the resolver is never consulted.
pub proof fn lemma_missing_kid_short_circuit<R: KeyResolver>(j: JwsV, r: R)
    requires
        j.signatures.len() > 0,
        match j.signatures[0].protected.key {
            KeyV::Jwk(_) => true,
            KeyV::KeyId(kid) => kid.len() == 0,
        },
    ensures
        spec_verify_jws(j, r) == Err::<(), Error>(Error::MissingKeyIdentifier),
        spec_resolved(j, r) == Seq::<Seq<char>>::empty(),
{
    assert(spec_verify_entry(j.payload, j.signatures[0], r) == Err::<(), Error>(
        Error::MissingKeyIdentifier,
    ));
    assert(spec_resolved_from(j.payload, j.signatures, 0, r) =~= Seq::<Seq<char>>::empty());
}

/// Fail-fast over the entries from index `i` on: with the entries before
/// `k` verifying and entry `k` failing after reaching resolution, the
/// pipeline returns entry `k`'s error and resolves exactly one identifier
/// per entry up to and including `k`.
proof fn lemma_fail_fast_from<R: KeyResolver>(j: JwsV, r: R, i: int, k: int)
    requires
        0 <= i <= k < j.signatures.len(),
        forall|m: int|
            i <= m < k ==> spec_verify_entry(j.payload, #[trigger] j.signatures[m], r) is Ok,
        spec_verify_entry(j.payload, j.signatures[k], r) is Err,
        j.signatures[k].protected.key is KeyId,
        (j.signatures[k].protected.key->KeyId_0).len() > 0,
        b64_decodable(j.signatures[k].signature),
    ensures
        spec_verify_from(j.payload, j.signatures, i, r) == spec_verify_entry(
            j.payload,
            j.signatures[k],
            r,
        ),
        spec_resolved_from(j.payload, j.signatures, i, r).len() == k + 1 - i,
    decreases k - i,
{
    if i == k {
        assert(spec_resolved_from(j.payload, j.signatures, i, r) =~= seq![
            j.signatures[k].protected.key->KeyId_0,
        ]);
    } else {
        let e = j.signatures[i];
        assert(spec_verify_entry(j.payload, e, r) is Ok);
        // A verifying entry carries a non-empty identifier and a decodable
        // signature, so it contributes exactly one resolution.
        assert(e.protected.key is KeyId && (e.protected.key->KeyId_0).len() > 0 && b64_decodable(
            e.signature,
        )) by {
            match e.protected.key {
                KeyV::Jwk(_) => {
                    assert(spec_verify_entry(j.payload, e, r) is Err);
                },
                KeyV::KeyId(kid) => {
                    if kid.len() == 0 || !b64_decodable(e.signature) {
                        assert(spec_verify_entry(j.payload, e, r) is Err);
                    }
                },
            }
        }
        lemma_fail_fast_from(j, r, i + 1, k);
        assert(spec_resolved_from(j.payload, j.signatures, i, r) =~= seq![
            e.protected.key->KeyId_0,
        ] + spec_resolved_from(j.payload, j.signatures, i + 1, r));
    }
}

/// Multi-signature fail-fast: for an envelope whose entries before `k` all
/// verify and whose entry `k` fails after reaching resolution, verification
/// fails with entry `k`'s error and the resolver is invoked exactly `k + 1`
/// times — once per entry through the failing one, never beyond it.
pub proof fn lemma_fail_fast<R: KeyResolver>(j: JwsV, r: R, k: int)
    requires
        0 <= k < j.signatures.len(),
        forall|m: int|
            0 <= m < k ==> spec_verify_entry(j.payload, #[trigger] j.signatures[m], r) is Ok,
        spec_verify_entry(j.payload, j.signatures[k], r) is Err,
        j.signatures[k].protected.key is KeyId,
        (j.signatures[k].protected.key->KeyId_0).len() > 0,
        b64_decodable(j.signatures[k].signature),
    ensures
        spec_verify_jws(j, r) == spec_verify_entry(j.payload, j.signatures[k], r),
        spec_resolved(j, r).len() == k + 1,
{
    lemma_fail_fast_from(j, r, 0, k);
}

/// EdDSA length enforcement: a public key whose coordinate is not exactly
/// 32 bytes is rejected as key material, and with a well-formed key a
/// signature that is not exactly 64 bytes is rejected as a format error —
/// in both cases by the decision tree, before the curve primitive can
/// accept anything.
pub proof fn lemma_eddsa_length_enforced(k: PublicKeyJwkV, msg: Seq<u8>, sig: Seq<u8>, x: Seq<u8>)
    requires
        k.crv == crate::types::Curve::Ed25519,
        b64url_chars(x) == k.x,
        forall|b: Seq<u8>| b64url_chars(b) == k.x ==> b == x,
    ensures
        x.len() != 32 ==> spec_jwk_verify(k, msg, sig) == Err::<(), Error>(
            Error::KeyMaterialInvalid,
        ),
        x.len() == 32 && crate::crypto::ed25519_key_ok(x) && sig.len() != 64 ==> spec_jwk_verify(
            k,
            msg,
            sig,
        ) == Err::<(), Error>(Error::Format),
{
    assert(b64_decodable(k.x));
    let xc = choose|b: Seq<u8>| b64url_chars(b) == k.x;
    assert(b64url_chars(xc) == k.x);
    assert(xc == x);
}

} // verus!
