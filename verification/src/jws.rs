//! Signed envelopes: the compact serialization, the signing pipeline, and
//! the verification pipeline.

use vstd::prelude::*;
use vstd::utf8::encode_utf8;

use crate::b64::b64_decodable;
use crate::b64::b64url_chars;
use crate::b64::b64url_decode;
use crate::b64::b64url_encode;
use crate::caps::KeyResolver;
use crate::caps::Signer;
use crate::crypto::spec_jwk_verify;
use crate::header::header_json;
use crate::header::wf_header;
use crate::header::Key;
use crate::header::KeyV;
use crate::header::Protected;
use crate::header::ProtectedV;
use crate::header::Type;
use crate::types::spec_alg_matches;
use crate::types::alg_matches;
use crate::types::Error;

verus! {

/// An entry of the `signatures` array: the decoded protected header, the
/// exact base64url header segment the signature covers, and the base64url
/// signature. The header segment is retained verbatim so that verification
/// recomputes the signing input from the transmitted bytes, never from a
/// re-serialization.
#[derive(Clone, Debug)]
pub struct Signature {
    /// The decoded protected header.
    pub protected: Protected,
    /// The base64url header segment exactly as transmitted; covered by the
    /// signature.
    pub protected_b64: String,
    /// The base64url-encoded signature bytes.
    pub signature: String,
}

/// The model of a [`Signature`] entry.
#[verifier::ext_equal]
pub struct SignatureV {
    pub protected: ProtectedV,
    pub protected_b64: Seq<char>,
    pub signature: Seq<char>,
}

impl View for Signature {
    type V = SignatureV;

    open spec fn view(&self) -> SignatureV {
        SignatureV {
            protected: self.protected@,
            protected_b64: self.protected_b64@,
            signature: self.signature@,
        }
    }
}

impl DeepView for Signature {
    type V = SignatureV;

    open spec fn deep_view(&self) -> SignatureV {
        self@
    }
}

/// A signed envelope: the base64url payload and one or more signatures over
/// it.
#[derive(Clone, Debug)]
pub struct Jws {
    /// The base64url-encoded payload.
    pub payload: String,
    /// The signatures, each independently covering the payload.
    pub signatures: Vec<Signature>,
}

/// The model of a [`Jws`].
#[verifier::ext_equal]
pub struct JwsV {
    pub payload: Seq<char>,
    pub signatures: Seq<SignatureV>,
}

impl View for Jws {
    type V = JwsV;

    open spec fn view(&self) -> JwsV {
        JwsV { payload: self.payload@, signatures: self.signatures.deep_view() }
    }
}

/// A verified token: the protected header of its first signature and the
/// decoded payload bytes.
#[derive(Clone, Debug, PartialEq, Eq)]
pub struct Jwt {
    /// The protected header under which the token was signed.
    pub header: Protected,
    /// The decoded payload bytes.
    pub claims: Vec<u8>,
}

/// The model of a [`Jwt`].
#[verifier::ext_equal]
pub struct JwtV {
    pub header: ProtectedV,
    pub claims: Seq<u8>,
}

impl View for Jwt {
    type V = JwtV;

    open spec fn view(&self) -> JwtV {
        JwtV { header: self.header@, claims: self.claims@ }
    }
}

/// A well-formed signature entry: the stored header segment is the canonical
/// encoding of the decoded header.
pub open spec fn wf_sig(s: SignatureV) -> bool {
    wf_header(s.protected) && s.protected_b64 == b64url_chars(header_json(s.protected))
}

/// A well-formed envelope: every entry is well-formed.
pub open spec fn wf_jws(j: JwsV) -> bool {
    forall|i: int| 0 <= i < j.signatures.len() ==> wf_sig(#[trigger] j.signatures[i])
}

impl Jws {
    /// The envelope's invariant: constructors establish it, and
    /// [`Jws::verify`] requires it.
    pub open spec fn wf(&self) -> bool {
        wf_jws(self@)
    }
}

// ---------------------------------------------------------------------------
// Compact form
// ---------------------------------------------------------------------------

/// A segment of a compact token: free of dots.
pub open spec fn seg_ok(s: Seq<char>) -> bool {
    forall|i: int| 0 <= i < s.len() ==> s[i] != '.'
}

/// The compact serialization of three segments.
pub open spec fn spec_compact(a: Seq<char>, p: Seq<char>, g: Seq<char>) -> Seq<char> {
    a + seq!['.'] + p + seq!['.'] + g
}

/// The signing input: the header segment, a dot, and the payload segment.
pub open spec fn signing_input(h64: Seq<char>, p64: Seq<char>) -> Seq<char> {
    h64 + seq!['.'] + p64
}

/// The dots of a compact serialization sit exactly at the two separators.
pub proof fn lemma_compact_dots(a: Seq<char>, p: Seq<char>, g: Seq<char>)
    requires
        seg_ok(a),
        seg_ok(p),
        seg_ok(g),
    ensures
        spec_compact(a, p, g).len() == a.len() + p.len() + g.len() + 2,
        spec_compact(a, p, g)[a.len() as int] == '.',
        spec_compact(a, p, g)[(a.len() + 1 + p.len()) as int] == '.',
        forall|i: int|
            0 <= i < spec_compact(a, p, g).len() && i != a.len() && i != a.len() + 1 + p.len()
                ==> spec_compact(a, p, g)[i] != '.',
{
    let s = spec_compact(a, p, g);
    assert forall|i: int|
        0 <= i < s.len() && i != a.len() && i != a.len() + 1 + p.len() implies s[i] != '.' by {
        if i < a.len() {
            assert(s[i] == a[i]);
        } else if i < a.len() + 1 + p.len() {
            assert(s[i] == p[i - a.len() - 1]);
        } else {
            assert(s[i] == g[i - a.len() - 2 - p.len()]);
        }
    }
}

/// A sequence splits into three dot-free segments in at most one way.
pub proof fn lemma_compact_unique(
    a1: Seq<char>,
    p1: Seq<char>,
    g1: Seq<char>,
    a2: Seq<char>,
    p2: Seq<char>,
    g2: Seq<char>,
)
    requires
        seg_ok(a1),
        seg_ok(p1),
        seg_ok(g1),
        seg_ok(a2),
        seg_ok(p2),
        seg_ok(g2),
        spec_compact(a1, p1, g1) == spec_compact(a2, p2, g2),
    ensures
        a1 == a2,
        p1 == p2,
        g1 == g2,
{
    let s = spec_compact(a1, p1, g1);
    lemma_compact_dots(a1, p1, g1);
    lemma_compact_dots(a2, p2, g2);
    // The first dot pins the first segment's length.
    if a1.len() < a2.len() {
        assert(s[a1.len() as int] == '.');
        assert(false);
    }
    if a2.len() < a1.len() {
        assert(s[a2.len() as int] == '.');
        assert(false);
    }
    assert(a1 =~= a2) by {
        assert forall|i: int| 0 <= i < a1.len() implies a1[i] == a2[i] by {
            assert(s[i] == a1[i]);
            assert(s[i] == a2[i]);
        }
    }
    // The second dot pins the payload segment's length.
    if p1.len() < p2.len() {
        assert(s[(a1.len() + 1 + p1.len()) as int] == '.');
        assert(s[(a2.len() + 1 + p2.len()) as int] == '.');
        assert(false);
    }
    if p2.len() < p1.len() {
        assert(s[(a2.len() + 1 + p2.len()) as int] == '.');
        assert(false);
    }
    assert(p1 =~= p2) by {
        assert forall|i: int| 0 <= i < p1.len() implies p1[i] == p2[i] by {
            assert(s[a1.len() + 1 + i] == p1[i]);
            assert(s[a2.len() + 1 + i] == p2[i]);
        }
    }
    assert(g1 =~= g2) by {
        assert forall|i: int| 0 <= i < g1.len() implies g1[i] == g2[i] by {
            assert(s[a1.len() + 2 + p1.len() + i] == g1[i]);
            assert(s[a2.len() + 2 + p2.len() + i] == g2[i]);
        }
    }
}

/// The parse of a compact token, at the level of the model.
///
/// A token parses when it splits into three dot-free segments whose first
/// segment is the base64url encoding of the canonical JSON of a well-formed
/// header; the result keeps the header segment verbatim, the payload and
/// signature segments undecoded. Each `choose` is uniquely determined: the
/// split by [`lemma_compact_unique`], the header bytes by the decoder's
/// contract, the header by the codec's injectivity.
pub open spec fn spec_parse_compact(t: Seq<char>) -> Result<JwsV, Error> {
    if !(exists|a: Seq<char>, p: Seq<char>, g: Seq<char>|
        seg_ok(a) && seg_ok(p) && seg_ok(g) && t == spec_compact(a, p, g)) {
        Err(Error::Format)
    } else {
        let (a, p, g) = choose|a: Seq<char>, p: Seq<char>, g: Seq<char>|
            seg_ok(a) && seg_ok(p) && seg_ok(g) && t == spec_compact(a, p, g);
        if !(exists|hb: Seq<u8>| b64url_chars(hb) == a) {
            Err(Error::Format)
        } else {
            let hb = choose|hb: Seq<u8>| b64url_chars(hb) == a;
            if !(exists|hv: ProtectedV| wf_header(hv) && header_json(hv) == hb) {
                Err(Error::Format)
            } else {
                let hv = choose|hv: ProtectedV| wf_header(hv) && header_json(hv) == hb;
                Ok(
                    JwsV {
                        payload: p,
                        signatures: seq![
                            SignatureV { protected: hv, protected_b64: a, signature: g },
                        ],
                    },
                )
            }
        }
    }
}

impl Jws {
    /// Parse a compact token: split on dots — any segment count other than
    /// three is a format error, found before anything is decoded — then
    /// decode the header segment. The payload and signature segments stay as
    /// transmitted.
    #[verifier::rlimit(100)]
    #[verifier::spinoff_prover]
    pub fn parse(s: &str) -> (r: Result<Jws, Error>)
        ensures
            match r {
                Ok(j) => spec_parse_compact(s@) == Ok::<JwsV, Error>(j@) && j.wf(),
                Err(e) => spec_parse_compact(s@) == Err::<JwsV, Error>(e),
            },
    {
        let n = s.unicode_len();
        let mut d1: Option<usize> = None;
        let mut d2: Option<usize> = None;
        let mut i: usize = 0;
        while i < n
            invariant
                0 <= i <= n,
                n == s@.len(),
                match (d1, d2) {
                    (None, None) => forall|k: int| 0 <= k < i ==> s@[k] != '.',
                    (Some(q1), None) => 0 <= q1 < i && s@[q1 as int] == '.' && (forall|k: int|
                        0 <= k < i && k != q1 ==> s@[k] != '.'),
                    (Some(q1), Some(q2)) => 0 <= q1 < q2 < i && s@[q1 as int] == '.'
                        && s@[q2 as int] == '.' && (forall|k: int|
                        0 <= k < i && k != q1 && k != q2 ==> s@[k] != '.'),
                    (None, Some(_)) => false,
                },
            decreases n - i,
        {
            let c = s.get_char(i);
            if c == '.' {
                match (d1, d2) {
                    (None, _) => {
                        d1 = Some(i);
                    },
                    (Some(_), None) => {
                        d2 = Some(i);
                    },
                    (Some(q1), Some(q2)) => {
                        // A third dot: more than three segments.
                        proof {
                            assert forall|a: Seq<char>, p: Seq<char>, g: Seq<char>|
                                !(seg_ok(a) && seg_ok(p) && seg_ok(g) && s@ == spec_compact(
                                    a,
                                    p,
                                    g,
                                )) by {
                                if seg_ok(a) && seg_ok(p) && seg_ok(g) && s@ == spec_compact(
                                    a,
                                    p,
                                    g,
                                ) {
                                    lemma_compact_dots(a, p, g);
                                    assert(q1 == a.len() || q1 == a.len() + 1 + p.len());
                                    assert(q2 == a.len() || q2 == a.len() + 1 + p.len());
                                    assert(i == a.len() || i == a.len() + 1 + p.len());
                                }
                            }
                        }
                        return Err(Error::Format);
                    },
                }
            }
            i = i + 1;
        }
        let (q1, q2) = match (d1, d2) {
            (Some(q1), Some(q2)) => (q1, q2),
            _ => {
                // Fewer than two dots: fewer than three segments.
                proof {
                    assert forall|a: Seq<char>, p: Seq<char>, g: Seq<char>|
                        !(seg_ok(a) && seg_ok(p) && seg_ok(g) && s@ == spec_compact(a, p, g)) by {
                        if seg_ok(a) && seg_ok(p) && seg_ok(g) && s@ == spec_compact(a, p, g) {
                            lemma_compact_dots(a, p, g);
                        }
                    }
                }
                return Err(Error::Format);
            },
        };
        let h64 = s.substring_char(0, q1).to_owned();
        let p64 = s.substring_char(q1 + 1, q2).to_owned();
        let g64 = s.substring_char(q2 + 1, n).to_owned();
        proof {
            assert(s@ =~= spec_compact(h64@, p64@, g64@));
            assert(seg_ok(h64@));
            assert(seg_ok(p64@));
            assert(seg_ok(g64@));
        }
        let ghost split = choose|a: Seq<char>, p: Seq<char>, g: Seq<char>|
            seg_ok(a) && seg_ok(p) && seg_ok(g) && s@ == spec_compact(a, p, g);
        proof {
            lemma_compact_unique(split.0, split.1, split.2, h64@, p64@, g64@);
        }
        let hb = match b64url_decode(h64.as_str()) {
            Some(v) => v,
            None => {
                return Err(Error::Format);
            },
        };
        proof {
            assert((choose|b: Seq<u8>| b64url_chars(b) == h64@) == hb@);
        }
        let protected = match crate::header::parse_header_json(hb.as_slice()) {
            Ok(h) => h,
            Err(e) => {
                return Err(e);
            },
        };
        let ghost hvc = choose|hv: ProtectedV| wf_header(hv) && header_json(hv) == hb@;
        proof {
            assert(wf_header(hvc) && header_json(hvc) == hb@);
            assert(hvc == protected@);
        }
        let entry = Signature { protected, protected_b64: h64, signature: g64 };
        let mut signatures: Vec<Signature> = Vec::new();
        signatures.push(entry);
        let jws = Jws { payload: p64, signatures };
        proof {
            assert(jws@.signatures =~= seq![
                SignatureV { protected: hvc, protected_b64: h64@, signature: g64@ },
            ]);
            assert(spec_parse_compact(s@) == Ok::<JwsV, Error>(jws@));
            assert(wf_jws(jws@));
        }
        Ok(jws)
    }
}


// ---------------------------------------------------------------------------
// Sign pipeline
// ---------------------------------------------------------------------------

/// The envelope the signing pipeline produces for a signer model: a header
/// carrying the signer's algorithm and verification method, the base64url
/// payload, and one signature over the signing input. Fails with the
/// signer's error when the verification-method lookup or the signing fails,
/// and with a format error when the verification method cannot be carried in
/// the canonical header JSON.
pub open spec fn spec_sign_jws<S: Signer>(typ: Type, payload: Seq<u8>, s: S) -> Result<
    JwsV,
    Error,
> {
    match s.vm() {
        None => Err(Error::Signing),
        Some(vm) => {
            let hv = ProtectedV {
                alg: s.alg(),
                typ,
                key: KeyV::KeyId(vm),
                x5c: None,
                trust_chain: None,
            };
            if !wf_header(hv) {
                Err(Error::Format)
            } else {
                let h64 = b64url_chars(header_json(hv));
                let p64 = b64url_chars(payload);
                match s.sig_of(encode_utf8(signing_input(h64, p64))) {
                    None => Err(Error::Signing),
                    Some(sig) => Ok(
                        JwsV {
                            payload: p64,
                            signatures: seq![
                                SignatureV {
                                    protected: hv,
                                    protected_b64: h64,
                                    signature: b64url_chars(sig),
                                },
                            ],
                        },
                    ),
                }
            }
        },
    }
}

/// The compact token the signing pipeline produces: the three segments of
/// [`spec_sign_jws`]'s envelope joined with dots.
pub open spec fn spec_sign_compact<S: Signer>(typ: Type, payload: Seq<u8>, s: S) -> Result<
    Seq<char>,
    Error,
> {
    match spec_sign_jws(typ, payload, s) {
        Err(e) => Err(e),
        Ok(j) => Ok(spec_compact(j.signatures[0].protected_b64, j.payload, j.signatures[0].signature)),
    }
}

impl Jws {
    /// Create a signed envelope for the given payload bytes: obtain the
    /// signer's verification method and algorithm, build and encode the
    /// protected header, sign `header_b64.payload_b64`, and assemble a
    /// single-entry envelope. Signer failures propagate immediately.
    pub fn new<S: Signer>(typ: Type, payload: &[u8], signer: &S) -> (r: Result<Jws, Error>)
        ensures
            match r {
                Ok(j) => spec_sign_jws(typ, payload@, *signer) == Ok::<JwsV, Error>(j@) && j.wf(),
                Err(e) => spec_sign_jws(typ, payload@, *signer) == Err::<JwsV, Error>(e),
            },
    {
        let vm = match signer.verification_method() {
            Ok(v) => v,
            Err(e) => {
                return Err(e);
            },
        };
        let protected = Protected {
            alg: signer.algorithm(),
            typ,
            key: Key::KeyId(vm),
            x5c: None,
            trust_chain: None,
        };
        let ghost hv = ProtectedV {
            alg: signer.alg(),
            typ,
            key: KeyV::KeyId(signer.vm()->0),
            x5c: None,
            trust_chain: None,
        };
        proof {
            assert(protected@ =~= hv);
        }
        let h64 = match protected.encode() {
            Ok(h) => h,
            Err(e) => {
                return Err(e);
            },
        };
        let p64 = b64url_encode(payload);
        let mut input = h64.clone();
        input.append(".");
        input.append(p64.as_str());
        proof {
            reveal_strlit(".");
            assert(input@ =~= signing_input(h64@, p64@));
        }
        let sig = match signer.try_sign(input.as_str().as_bytes()) {
            Ok(s) => s,
            Err(e) => {
                return Err(e);
            },
        };
        let s64 = b64url_encode(sig.as_slice());
        let entry = Signature { protected, protected_b64: h64, signature: s64 };
        let mut signatures: Vec<Signature> = Vec::new();
        signatures.push(entry);
        let jws = Jws { payload: p64, signatures };
        proof {
            assert(jws@.signatures =~= seq![
                SignatureV {
                    protected: hv,
                    protected_b64: b64url_chars(header_json(hv)),
                    signature: b64url_chars(sig@),
                },
            ]);
            assert(spec_sign_jws(typ, payload@, *signer) == Ok::<JwsV, Error>(jws@));
            assert(wf_jws(jws@));
        }
        Ok(jws)
    }
}

/// Encode the payload bytes and sign, returning a token in compact form:
/// `header_b64.payload_b64.signature_b64`.
pub fn encode<S: Signer>(typ: Type, payload: &[u8], signer: &S) -> (r: Result<String, Error>)
    ensures
        match r {
            Ok(t) => spec_sign_compact(typ, payload@, *signer) == Ok::<Seq<char>, Error>(t@),
            Err(e) => spec_sign_compact(typ, payload@, *signer) == Err::<Seq<char>, Error>(e),
        },
{
    let jws = match Jws::new(typ, payload, signer) {
        Ok(j) => j,
        Err(e) => {
            return Err(e);
        },
    };
    let sig = &jws.signatures[0];
    let mut token = sig.protected_b64.clone();
    token.append(".");
    token.append(jws.payload.as_str());
    token.append(".");
    token.append(sig.signature.as_str());
    proof {
        reveal_strlit(".");
        assert(token@ =~= spec_compact(sig@.protected_b64, jws@.payload, sig@.signature));
    }
    Ok(token)
}

// ---------------------------------------------------------------------------
// Verify pipeline
// ---------------------------------------------------------------------------

/// The signature bytes a base64url signature segment decodes to. Meaningful
/// when the segment is decodable; unique because the decoder's contract pins
/// every preimage.
pub open spec fn sig_bytes_of(seg: Seq<char>) -> Seq<u8> {
    choose|b: Seq<u8>| b64url_chars(b) == seg
}

/// The verification decision for one signature entry, in pipeline order:
/// the key reference must carry a non-empty identifier, the signature
/// segment must decode, the identifier must resolve, the resolved key's
/// curve must match the declared algorithm, and the signature must verify
/// over the signing input recomputed from the stored header segment.
pub open spec fn spec_verify_entry<R: KeyResolver>(payload: Seq<char>, e: SignatureV, r: R) -> Result<
    (),
    Error,
> {
    match e.protected.key {
        KeyV::Jwk(_) => Err(Error::MissingKeyIdentifier),
        KeyV::KeyId(kid) => {
            if kid.len() == 0 {
                Err(Error::MissingKeyIdentifier)
            } else if !b64_decodable(e.signature) {
                Err(Error::Format)
            } else {
                match r.key_for(kid) {
                    None => Err(Error::KeyResolution),
                    Some(pk) => {
                        if !spec_alg_matches(e.protected.alg, pk.crv) {
                            Err(Error::UnsupportedAlgorithm)
                        } else {
                            spec_jwk_verify(
                                pk,
                                encode_utf8(signing_input(e.protected_b64, payload)),
                                sig_bytes_of(e.signature),
                            )
                        }
                    },
                }
            }
        },
    }
}

/// The verification decision for the entries from index `i` on: the first
/// failing entry's error, or success when every remaining entry verifies.
pub open spec fn spec_verify_from<R: KeyResolver>(
    payload: Seq<char>,
    sigs: Seq<SignatureV>,
    i: int,
    r: R,
) -> Result<(), Error>
    decreases sigs.len() - i,
{
    if i < 0 || i >= sigs.len() {
        Ok(())
    } else {
        match spec_verify_entry(payload, sigs[i], r) {
            Err(e) => Err(e),
            Ok(u) => spec_verify_from(payload, sigs, i + 1, r),
        }
    }
}

/// The identifiers the resolver is asked for, in order, while verifying the
/// entries from index `i` on: one per entry that reaches resolution,
/// stopping after the first entry that fails.
pub open spec fn spec_resolved_from<R: KeyResolver>(
    payload: Seq<char>,
    sigs: Seq<SignatureV>,
    i: int,
    r: R,
) -> Seq<Seq<char>>
    decreases sigs.len() - i,
{
    if i < 0 || i >= sigs.len() {
        Seq::empty()
    } else {
        match sigs[i].protected.key {
            KeyV::Jwk(_) => Seq::empty(),
            KeyV::KeyId(kid) => {
                if kid.len() == 0 || !b64_decodable(sigs[i].signature) {
                    Seq::empty()
                } else {
                    seq![kid] + (if spec_verify_entry(payload, sigs[i], r) is Ok {
                        spec_resolved_from(payload, sigs, i + 1, r)
                    } else {
                        Seq::empty()
                    })
                }
            },
        }
    }
}

/// The verification decision for a whole envelope: an envelope with no
/// signature entry is not valid; otherwise every entry must verify, in list
/// order, stopping at the first failure.
pub open spec fn spec_verify_jws<R: KeyResolver>(j: JwsV, r: R) -> Result<(), Error> {
    if j.signatures.len() == 0 {
        Err(Error::Format)
    } else {
        spec_verify_from(j.payload, j.signatures, 0, r)
    }
}

/// The identifiers resolved while verifying a whole envelope.
pub open spec fn spec_resolved<R: KeyResolver>(j: JwsV, r: R) -> Seq<Seq<char>> {
    spec_resolved_from(j.payload, j.signatures, 0, r)
}

impl Jws {
    /// Verify every signature entry, in list order, against the keys the
    /// resolver supplies. Fail-fast: the first failing entry's error is
    /// returned and no further entry is examined; in particular the resolver
    /// is consulted exactly once per entry that reaches resolution, as
    /// [`spec_resolved`] states.
    #[verifier::rlimit(100)]
    #[verifier::spinoff_prover]
    pub fn verify<R: KeyResolver>(&self, resolver: &mut R) -> (r: Result<(), Error>)
        requires
            self.wf(),
        ensures
            r == spec_verify_jws(self@, *old(resolver)),
            final(resolver).resolved() == old(resolver).resolved() + spec_resolved(
                self@,
                *old(resolver),
            ),
            forall|k: Seq<char>| final(resolver).key_for(k) == old(resolver).key_for(k),
    {
        let ghost r0 = *old(resolver);
        let n = self.signatures.len();
        if n == 0 {
            return Err(Error::Format);
        }
        let mut i: usize = 0;
        while i < n
            invariant
                r0 == *old(resolver),
                0 <= i <= n,
                0 < n == self@.signatures.len(),
                self.wf(),
                forall|k: Seq<char>| resolver.key_for(k) == r0.key_for(k),
                spec_verify_from(self@.payload, self@.signatures, 0, r0) == spec_verify_from(
                    self@.payload,
                    self@.signatures,
                    i as int,
                    r0,
                ),
                r0.resolved() + spec_resolved_from(self@.payload, self@.signatures, 0, r0)
                    == resolver.resolved() + spec_resolved_from(
                    self@.payload,
                    self@.signatures,
                    i as int,
                    r0,
                ),
            decreases n - i,
        {
            let entry = &self.signatures[i];
            let ghost ev = self@.signatures[i as int];
            proof {
                assert(ev == entry@);
                assert(wf_sig(ev));
            }
            let kid = match &entry.protected.key {
                Key::Jwk(_) => {
                    proof {
                        assert(ev.protected.key is Jwk);
                        assert(spec_verify_entry(self@.payload, ev, r0) == Err::<(), Error>(
                            Error::MissingKeyIdentifier,
                        ));
                        assert(spec_verify_jws(self@, r0) == Err::<(), Error>(
                            Error::MissingKeyIdentifier,
                        ));
                        assert(spec_resolved_from(self@.payload, self@.signatures, i as int, r0)
                            =~= Seq::<Seq<char>>::empty());
                        assert(resolver.resolved() + spec_resolved_from(
                            self@.payload,
                            self@.signatures,
                            i as int,
                            r0,
                        ) =~= resolver.resolved());
                        assert(resolver.resolved() == r0.resolved() + spec_resolved(self@, r0));
                    }
                    return Err(Error::MissingKeyIdentifier);
                },
                Key::KeyId(kid) => kid,
            };
            if kid.as_str().is_empty() {
                proof {
                    assert(ev.protected.key == KeyV::KeyId(kid@));
                    assert(kid@.len() == 0);
                    assert(spec_verify_entry(self@.payload, ev, r0) == Err::<(), Error>(
                        Error::MissingKeyIdentifier,
                    ));
                    assert(spec_verify_jws(self@, r0) == Err::<(), Error>(
                        Error::MissingKeyIdentifier,
                    ));
                    assert(spec_resolved_from(self@.payload, self@.signatures, i as int, r0)
                        =~= Seq::<Seq<char>>::empty());
                    assert(resolver.resolved() + spec_resolved_from(
                        self@.payload,
                        self@.signatures,
                        i as int,
                        r0,
                    ) =~= resolver.resolved());
                    assert(resolver.resolved() == r0.resolved() + spec_resolved(self@, r0));
                }
                return Err(Error::MissingKeyIdentifier);
            }
            let sig = match b64url_decode(entry.signature.as_str()) {
                Some(v) => v,
                None => {
                    proof {
                        assert(ev.protected.key == KeyV::KeyId(kid@));
                        assert(kid@.len() > 0);
                        assert(!b64_decodable(ev.signature)) by {
                            if b64_decodable(ev.signature) {
                                let b = choose|b: Seq<u8>| b64url_chars(b) == ev.signature;
                                assert(entry.signature@ != b64url_chars(b));
                            }
                        }
                        assert(spec_verify_entry(self@.payload, ev, r0) == Err::<(), Error>(
                            Error::Format,
                        ));
                        assert(spec_verify_jws(self@, r0) == Err::<(), Error>(Error::Format));
                        assert(spec_resolved_from(self@.payload, self@.signatures, i as int, r0)
                            =~= Seq::<Seq<char>>::empty());
                        assert(resolver.resolved() + spec_resolved_from(
                            self@.payload,
                            self@.signatures,
                            i as int,
                            r0,
                        ) =~= resolver.resolved());
                        assert(resolver.resolved() == r0.resolved() + spec_resolved(self@, r0));
                    }
                    return Err(Error::Format);
                },
            };
            proof {
                assert(b64_decodable(ev.signature)) by {
                    assert(b64url_chars(sig@) == ev.signature);
                }
                assert(sig_bytes_of(ev.signature) == sig@) by {
                    assert(b64url_chars(sig_bytes_of(ev.signature)) == ev.signature);
                }
            }
            let ghost log_before = resolver.resolved();
            let pk = match resolver.resolve(kid.as_str()) {
                Ok(pk) => pk,
                Err(e) => {
                    proof {
                        assert(r0.key_for(kid@) is None);
                        assert(spec_verify_entry(self@.payload, ev, r0) == Err::<(), Error>(
                            Error::KeyResolution,
                        ));
                        assert(spec_verify_jws(self@, r0) == Err::<(), Error>(
                            Error::KeyResolution,
                        ));
                        assert(spec_resolved_from(self@.payload, self@.signatures, i as int, r0)
                            =~= seq![kid@]);
                        assert(resolver.resolved() =~= log_before.push(kid@));
                        assert(log_before + spec_resolved_from(
                            self@.payload,
                            self@.signatures,
                            i as int,
                            r0,
                        ) =~= log_before.push(kid@));
                        assert(resolver.resolved() == r0.resolved() + spec_resolved(self@, r0));
                    }
                    return Err(Error::KeyResolution);
                },
            };
            if !alg_matches(entry.protected.alg, pk.crv) {
                proof {
                    assert(r0.key_for(kid@) == Some(pk@));
                    assert(spec_verify_entry(self@.payload, ev, r0) == Err::<(), Error>(
                        Error::UnsupportedAlgorithm,
                    ));
                    assert(spec_verify_jws(self@, r0) == Err::<(), Error>(
                        Error::UnsupportedAlgorithm,
                    ));
                    assert(spec_resolved_from(self@.payload, self@.signatures, i as int, r0)
                        =~= seq![kid@]);
                    assert(resolver.resolved() =~= log_before.push(kid@));
                    assert(log_before + spec_resolved_from(
                        self@.payload,
                        self@.signatures,
                        i as int,
                        r0,
                    ) =~= log_before.push(kid@));
                    assert(resolver.resolved() == r0.resolved() + spec_resolved(self@, r0));
                }
                return Err(Error::UnsupportedAlgorithm);
            }
            let mut input = entry.protected_b64.clone();
            input.append(".");
            input.append(self.payload.as_str());
            proof {
                reveal_strlit(".");
                assert(input@ =~= signing_input(ev.protected_b64, self@.payload));
            }
            match pk.verify(input.as_str(), sig.as_slice()) {
                Ok(u) => {
                    proof {
                        assert(r0.key_for(kid@) == Some(pk@));
                        assert(spec_verify_entry(self@.payload, ev, r0) == Ok::<(), Error>(()));
                        assert(spec_verify_from(self@.payload, self@.signatures, i as int, r0)
                            == spec_verify_from(self@.payload, self@.signatures, i + 1, r0));
                        assert(spec_resolved_from(self@.payload, self@.signatures, i as int, r0)
                            =~= seq![kid@] + spec_resolved_from(
                            self@.payload,
                            self@.signatures,
                            i + 1,
                            r0,
                        ));
                        assert(resolver.resolved() =~= log_before.push(kid@));
                        assert(log_before.push(kid@) + spec_resolved_from(
                            self@.payload,
                            self@.signatures,
                            i + 1,
                            r0,
                        ) =~= log_before + spec_resolved_from(
                            self@.payload,
                            self@.signatures,
                            i as int,
                            r0,
                        ));
                    }
                },
                Err(e) => {
                    proof {
                        assert(r0.key_for(kid@) == Some(pk@));
                        assert(spec_verify_entry(self@.payload, ev, r0) == Err::<(), Error>(e));
                        assert(spec_verify_jws(self@, r0) == Err::<(), Error>(e));
                        assert(spec_resolved_from(self@.payload, self@.signatures, i as int, r0)
                            =~= seq![kid@]);
                        assert(resolver.resolved() =~= log_before.push(kid@));
                        assert(log_before + spec_resolved_from(
                            self@.payload,
                            self@.signatures,
                            i as int,
                            r0,
                        ) =~= log_before.push(kid@));
                        assert(resolver.resolved() == r0.resolved() + spec_resolved(self@, r0));
                    }
                    return Err(e);
                },
            }
            i = i + 1;
        }
        Ok(())
    }
}

// ---------------------------------------------------------------------------
// Decode
// ---------------------------------------------------------------------------

/// The decode decision for a compact token: parse, verify every signature,
/// then decode the payload. The payload is only decoded — and only exposed —
/// after every signature verified.
pub open spec fn spec_decode<R: KeyResolver>(t: Seq<char>, r: R) -> Result<JwtV, Error> {
    match spec_parse_compact(t) {
        Err(e) => Err(e),
        Ok(jv) => match spec_verify_jws(jv, r) {
            Err(e) => Err(e),
            Ok(u) => {
                if b64_decodable(jv.payload) {
                    Ok(
                        JwtV {
                            header: jv.signatures[0].protected,
                            claims: choose|b: Seq<u8>| b64url_chars(b) == jv.payload,
                        },
                    )
                } else {
                    Err(Error::Format)
                }
            },
        },
    }
}

/// The identifiers resolved while decoding a compact token.
pub open spec fn spec_decode_resolved<R: KeyResolver>(t: Seq<char>, r: R) -> Seq<Seq<char>> {
    match spec_parse_compact(t) {
        Ok(jv) => spec_resolved(jv, r),
        Err(e) => Seq::empty(),
    }
}

/// Decode a compact token: parse it, verify its signature against the key
/// the resolver supplies, and return the protected header with the decoded
/// payload. The claims are pinned against every preimage of the payload
/// segment, so a caller who knows the segment's encoding knows the claims.
pub fn decode<R: KeyResolver>(token: &str, resolver: &mut R) -> (r: Result<Jwt, Error>)
    ensures
        match r {
            Ok(jwt) => spec_decode(token@, *old(resolver)) == Ok::<JwtV, Error>(jwt@) && (forall|
                pb: Seq<u8>,
                jv: JwsV,
            |
                spec_parse_compact(token@) == Ok::<JwsV, Error>(jv) && b64url_chars(pb)
                    == jv.payload ==> jwt.claims@ == pb),
            Err(e) => spec_decode(token@, *old(resolver)) == Err::<JwtV, Error>(e),
        },
        final(resolver).resolved() == old(resolver).resolved() + spec_decode_resolved(
            token@,
            *old(resolver),
        ),
        forall|k: Seq<char>| final(resolver).key_for(k) == old(resolver).key_for(k),
{
    let jws = match Jws::parse(token) {
        Ok(j) => j,
        Err(e) => {
            proof {
                assert(final(resolver).resolved() =~= old(resolver).resolved()
                    + spec_decode_resolved(token@, *old(resolver)));
            }
            return Err(e);
        },
    };
    match jws.verify(resolver) {
        Ok(u) => {},
        Err(e) => {
            return Err(e);
        },
    }
    let claims = match b64url_decode(jws.payload.as_str()) {
        Some(v) => v,
        None => {
            return Err(Error::Format);
        },
    };
    let header = jws.signatures[0].protected.duplicate();
    let jwt = Jwt { header, claims };
    proof {
        assert(jwt@ =~= spec_decode(token@, *old(resolver))->Ok_0);
    }
    Ok(jwt)
}

// ---------------------------------------------------------------------------
// Builder
// ---------------------------------------------------------------------------

/// A fluent construction surface for signed envelopes: holds a pending
/// envelope type and payload, then builds via the signing pipeline.
#[derive(Clone, Debug)]
pub struct JwsBuilder {
    /// The `typ` the built envelope's header will declare.
    pub jwt_type: Type,
    /// The payload bytes to sign.
    pub payload: Vec<u8>,
}

impl JwsBuilder {
    /// A builder with the general-purpose envelope type and an empty
    /// payload.
    pub fn new() -> (r: Self)
        ensures
            r.jwt_type == Type::Jwt,
            r.payload@ == Seq::<u8>::empty(),
    {
        JwsBuilder { jwt_type: Type::Jwt, payload: Vec::new() }
    }

    /// Specify the header `typ`.
    pub fn jwt_type(self, jwt_type: Type) -> (r: Self)
        ensures
            r.jwt_type == jwt_type,
            r.payload == self.payload,
    {
        JwsBuilder { jwt_type, payload: self.payload }
    }

    /// Specify the payload bytes to be signed.
    pub fn payload(self, payload: Vec<u8>) -> (r: Self)
        ensures
            r.jwt_type == self.jwt_type,
            r.payload == payload,
    {
        JwsBuilder { jwt_type: self.jwt_type, payload }
    }

    /// Generate the envelope: behaviorally identical to [`Jws::new`] on the
    /// pending type and payload.
    pub fn build<S: Signer>(self, signer: &S) -> (r: Result<Jws, Error>)
        ensures
            match r {
                Ok(j) => spec_sign_jws(self.jwt_type, self.payload@, *signer) == Ok::<
                    JwsV,
                    Error,
                >(j@) && j.wf(),
                Err(e) => spec_sign_jws(self.jwt_type, self.payload@, *signer) == Err::<
                    JwsV,
                    Error,
                >(e),
            },
    {
        Jws::new(self.jwt_type, self.payload.as_slice(), signer)
    }
}

} // verus!
