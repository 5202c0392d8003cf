//! The protected header and its canonical JSON codec.
//!
//! A header serializes to one canonical JSON byte string: fixed field order,
//! no whitespace, string values carried verbatim (strings containing `"`,
//! `\` or control bytes are rejected rather than escaped). The parser accepts
//! exactly the canonical form, so decoding is the inverse of encoding.

use vstd::prelude::*;
use vstd::utf8::encode_utf8;

use crate::jwk::PublicKeyJwk;
use crate::jwk::PublicKeyJwkV;
use crate::types::Algorithm;
use crate::types::Curve;
use crate::types::Error;
use crate::types::KeyType;

verus! {

/// The JWS `typ` header parameter.
#[derive(Clone, Copy, Debug, Default, PartialEq, Eq, Structural)]
pub enum Type {
    /// General purpose JWT type.
    #[default]
    Jwt,
    /// JWT `typ` for a wallet's proof of possession of key material.
    Openid4VciProofJwt,
    /// JWT `typ` for an authorization request object.
    OauthAuthzReqJwt,
}

/// The key material reference for a signature: exactly one of an opaque key
/// identifier or an embedded public key.
#[derive(Clone, Debug, PartialEq, Eq)]
pub enum Key {
    /// A key identifier, resolved externally to a public key.
    KeyId(String),
    /// The public key itself, embedded inline.
    Jwk(PublicKeyJwk),
}

/// The model of a [`Key`].
#[verifier::ext_equal]
pub enum KeyV {
    KeyId(Seq<char>),
    Jwk(PublicKeyJwkV),
}

impl View for Key {
    type V = KeyV;

    open spec fn view(&self) -> KeyV {
        match self {
            Key::KeyId(kid) => KeyV::KeyId(kid@),
            Key::Jwk(k) => KeyV::Jwk(k@),
        }
    }
}

impl Default for Key {
    /// The default key reference is an empty identifier.
    fn default() -> (r: Self)
        ensures
            r@ == KeyV::KeyId(Seq::<char>::empty()),
    {
        Key::KeyId(String::new())
    }
}

/// JWS protected header: algorithm, media type, key reference, and two
/// optional opaque attestation fields.
#[derive(Clone, Debug, PartialEq, Eq)]
pub struct Protected {
    /// Digital signature algorithm identifier.
    pub alg: Algorithm,
    /// Declared media type of the JWS.
    pub typ: Type,
    /// The key material reference for the signature.
    pub key: Key,
    /// Optional certificate (or chain) attesting the signing key; opaque.
    pub x5c: Option<String>,
    /// Optional federation trust chain; opaque.
    pub trust_chain: Option<String>,
}

/// The model of a [`Protected`] header.
#[verifier::ext_equal]
pub struct ProtectedV {
    pub alg: Algorithm,
    pub typ: Type,
    pub key: KeyV,
    pub x5c: Option<Seq<char>>,
    pub trust_chain: Option<Seq<char>>,
}

impl View for Protected {
    type V = ProtectedV;

    open spec fn view(&self) -> ProtectedV {
        ProtectedV {
            alg: self.alg,
            typ: self.typ,
            key: self.key@,
            x5c: match self.x5c {
                Some(s) => Some(s@),
                None => None,
            },
            trust_chain: match self.trust_chain {
                Some(s) => Some(s@),
                None => None,
            },
        }
    }
}

// ---------------------------------------------------------------------------
// Canonical JSON model
// ---------------------------------------------------------------------------

/// Bytes a JSON string value may carry verbatim: no quote, no backslash, no
/// control bytes.
pub open spec fn bytes_ok(b: Seq<u8>) -> bool {
    forall|i: int| 0 <= i < b.len() ==> b[i] != 34 && b[i] != 92 && b[i] >= 32
}

/// A string value the canonical codec can carry: its UTF-8 bytes satisfy
/// [`bytes_ok`].
pub open spec fn wf_str(s: Seq<char>) -> bool {
    bytes_ok(encode_utf8(s))
}

/// `{"alg":"`
pub open spec fn lit_open_alg() -> Seq<u8> {
    seq![123u8, 34u8, 97u8, 108u8, 103u8, 34u8, 58u8, 34u8]
}

/// `,"typ":"`
pub open spec fn lit_typ() -> Seq<u8> {
    seq![44u8, 34u8, 116u8, 121u8, 112u8, 34u8, 58u8, 34u8]
}

/// `,"kid":"`
pub open spec fn lit_kid() -> Seq<u8> {
    seq![44u8, 34u8, 107u8, 105u8, 100u8, 34u8, 58u8, 34u8]
}

/// `,"jwk":{"kty":"`
pub open spec fn lit_jwk() -> Seq<u8> {
    seq![
        44u8,
        34u8,
        106u8,
        119u8,
        107u8,
        34u8,
        58u8,
        123u8,
        34u8,
        107u8,
        116u8,
        121u8,
        34u8,
        58u8,
        34u8,
    ]
}

/// `,"crv":"`
pub open spec fn lit_crv() -> Seq<u8> {
    seq![44u8, 34u8, 99u8, 114u8, 118u8, 34u8, 58u8, 34u8]
}

/// `,"x":"`
pub open spec fn lit_x() -> Seq<u8> {
    seq![44u8, 34u8, 120u8, 34u8, 58u8, 34u8]
}

/// `,"y":"`
pub open spec fn lit_y() -> Seq<u8> {
    seq![44u8, 34u8, 121u8, 34u8, 58u8, 34u8]
}

/// `,"x5c":"`
pub open spec fn lit_x5c() -> Seq<u8> {
    seq![44u8, 34u8, 120u8, 53u8, 99u8, 34u8, 58u8, 34u8]
}

/// `,"trust_chain":"`
pub open spec fn lit_trust_chain() -> Seq<u8> {
    seq![
        44u8,
        34u8,
        116u8,
        114u8,
        117u8,
        115u8,
        116u8,
        95u8,
        99u8,
        104u8,
        97u8,
        105u8,
        110u8,
        34u8,
        58u8,
        34u8,
    ]
}

/// `"` closing a string value.
pub open spec fn lit_quote() -> Seq<u8> {
    seq![34u8]
}

/// `}` closing an object.
pub open spec fn lit_close() -> Seq<u8> {
    seq![125u8]
}

/// The JSON name of an [`Algorithm`], as UTF-8 bytes.
pub open spec fn alg_name_bytes(a: Algorithm) -> Seq<u8> {
    match a {
        Algorithm::Es256K => seq![69u8, 83u8, 50u8, 53u8, 54u8, 75u8],  // ES256K
        Algorithm::EdDsa => seq![69u8, 100u8, 68u8, 83u8, 65u8],  // EdDSA
    }
}

/// The JSON name of a [`Type`], as UTF-8 bytes.
pub open spec fn typ_name_bytes(t: Type) -> Seq<u8> {
    match t {
        Type::Jwt => seq![106u8, 119u8, 116u8],  // jwt
        Type::Openid4VciProofJwt => seq![
            111u8,
            112u8,
            101u8,
            110u8,
            105u8,
            100u8,
            52u8,
            118u8,
            99u8,
            105u8,
            45u8,
            112u8,
            114u8,
            111u8,
            111u8,
            102u8,
            43u8,
            106u8,
            119u8,
            116u8,
        ],  // openid4vci-proof+jwt
        Type::OauthAuthzReqJwt => seq![
            111u8,
            97u8,
            117u8,
            116u8,
            104u8,
            45u8,
            97u8,
            117u8,
            116u8,
            104u8,
            122u8,
            45u8,
            114u8,
            101u8,
            113u8,
            43u8,
            106u8,
            119u8,
            116u8,
        ],  // oauth-authz-req+jwt
    }
}

/// The JSON name of a [`KeyType`], as UTF-8 bytes.
pub open spec fn kty_name_bytes(k: KeyType) -> Seq<u8> {
    match k {
        KeyType::Okp => seq![79u8, 75u8, 80u8],  // OKP
        KeyType::Ec => seq![69u8, 67u8],  // EC
        KeyType::Oct => seq![111u8, 99u8, 116u8],  // oct
    }
}

/// The JSON name of a [`Curve`], as UTF-8 bytes.
pub open spec fn crv_name_bytes(c: Curve) -> Seq<u8> {
    match c {
        Curve::Ed25519 => seq![69u8, 100u8, 50u8, 53u8, 53u8, 49u8, 57u8],  // Ed25519
        Curve::Es256K => seq![69u8, 83u8, 50u8, 53u8, 54u8, 75u8],  // ES256K
    }
}

/// Canonical JSON of the key reference: either the `kid` field, or the
/// flattened `jwk` object. Each chunk includes its leading comma.
pub open spec fn key_json(k: KeyV) -> Seq<u8> {
    match k {
        KeyV::KeyId(kid) => lit_kid() + encode_utf8(kid) + lit_quote(),
        KeyV::Jwk(j) => lit_jwk() + kty_name_bytes(j.kty) + lit_quote() + lit_crv()
            + crv_name_bytes(j.crv) + lit_quote() + lit_x() + encode_utf8(j.x) + lit_quote() + (
        match j.y {
            Some(y) => lit_y() + encode_utf8(y) + lit_quote(),
            None => Seq::<u8>::empty(),
        }) + lit_close(),
    }
}

/// Canonical JSON of the optional `x5c` field, including its leading comma.
pub open spec fn x5c_json(v: Option<Seq<char>>) -> Seq<u8> {
    match v {
        Some(s) => lit_x5c() + encode_utf8(s) + lit_quote(),
        None => Seq::<u8>::empty(),
    }
}

/// Canonical JSON of the optional `trust_chain` field, including its leading
/// comma.
pub open spec fn trust_chain_json(v: Option<Seq<char>>) -> Seq<u8> {
    match v {
        Some(s) => lit_trust_chain() + encode_utf8(s) + lit_quote(),
        None => Seq::<u8>::empty(),
    }
}

/// The canonical JSON byte string of a protected header. Field order is
/// fixed: `alg`, `typ`, then `kid` or the flattened `jwk`, then the optional
/// fields, each omitted entirely when absent.
pub open spec fn header_json(h: ProtectedV) -> Seq<u8> {
    lit_open_alg() + alg_name_bytes(h.alg) + lit_quote() + lit_typ() + typ_name_bytes(h.typ)
        + lit_quote() + key_json(h.key) + x5c_json(h.x5c) + trust_chain_json(h.trust_chain)
        + lit_close()
}

// ---------------------------------------------------------------------------
// Sequence utilities for the codec proofs
// ---------------------------------------------------------------------------

/// `x` occurs in `b` at offset `pos`.
pub open spec fn starts_at(b: Seq<u8>, pos: int, x: Seq<u8>) -> bool {
    &&& 0 <= pos
    &&& pos + x.len() <= b.len()
    &&& b.subrange(pos, pos + x.len()) == x
}

/// Peeling one chunk off a decomposition of the tail of `b`.
pub proof fn lemma_peel(b: Seq<u8>, pos: int, x: Seq<u8>, rest: Seq<u8>)
    requires
        0 <= pos <= b.len(),
        b.skip(pos) == x + rest,
    ensures
        pos + x.len() <= b.len(),
        starts_at(b, pos, x),
        b.skip(pos + x.len()) == rest,
{
    assert(b.skip(pos).len() == x.len() + rest.len());
    assert(b.subrange(pos, pos + x.len()) =~= x) by {
        assert forall|i: int| 0 <= i < x.len() implies b.subrange(pos, pos + x.len())[i] == x[i] by {
            assert(b.skip(pos)[i] == (x + rest)[i]);
        }
    }
    assert(b.skip(pos + x.len()) =~= rest) by {
        assert forall|i: int| 0 <= i < rest.len() implies b.skip(pos + x.len())[i] == rest[i] by {
            assert(b.skip(pos + x.len())[i] == b[pos + x.len() + i]);
            assert(b.skip(pos)[x.len() + i] == b[pos + x.len() + i]);
            assert((x + rest)[x.len() + i] == rest[i]);
        }
    }
}

/// No quote byte occurs in `b`.
pub open spec fn no_quote(b: Seq<u8>) -> bool {
    forall|i: int| 0 <= i < b.len() ==> b[i] != 34
}

/// A quote-terminated chunk is determined by the first quote: two
/// decompositions of one sequence into a quote-free chunk, a quote, and a
/// tail must agree.
pub proof fn lemma_quote_split(x1: Seq<u8>, r1: Seq<u8>, x2: Seq<u8>, r2: Seq<u8>)
    requires
        no_quote(x1),
        no_quote(x2),
        x1 + lit_quote() + r1 == x2 + lit_quote() + r2,
    ensures
        x1 == x2,
        r1 == r2,
{
    let s = x1 + lit_quote() + r1;
    assert(lit_quote().len() == 1);
    assert(s.len() == x1.len() + 1 + r1.len());
    assert((x2 + lit_quote() + r2).len() == x2.len() + 1 + r2.len());
    if x1.len() < x2.len() {
        assert(s[x1.len() as int] == 34);
        assert((x2 + lit_quote() + r2)[x1.len() as int] == x2[x1.len() as int]);
        assert(false);
    }
    if x2.len() < x1.len() {
        assert(s[x2.len() as int] == (x2 + lit_quote() + r2)[x2.len() as int]);
        assert((x2 + lit_quote() + r2)[x2.len() as int] == 34);
        assert(x1[x2.len() as int] == 34);
        assert(false);
    }
    assert(x1 =~= x2) by {
        assert forall|i: int| 0 <= i < x1.len() implies x1[i] == x2[i] by {
            assert(s[i] == x1[i]);
            assert((x2 + lit_quote() + r2)[i] == x2[i]);
        }
    }
    assert(r1 =~= r2) by {
        assert forall|i: int| 0 <= i < r1.len() implies r1[i] == r2[i] by {
            assert((x1 + lit_quote()).len() == x1.len() + 1);
            assert((x2 + lit_quote()).len() == x2.len() + 1);
            assert(s[x1.len() + 1 + i] == ((x1 + lit_quote()) + r1)[(x1 + lit_quote()).len() + i]);
            assert(s[x1.len() + 1 + i] == r1[i]);
            assert((x2 + lit_quote() + r2)[x2.len() + 1 + i] == r2[i]);
        }
    }
}

// ---------------------------------------------------------------------------
// Executable helpers
// ---------------------------------------------------------------------------

/// Byte-sequence equality.
fn bytes_eq(a: &[u8], b: &[u8]) -> (r: bool)
    ensures
        r == (a@ == b@),
{
    if a.len() != b.len() {
        assert(a@ != b@) by {
            assert(a@.len() != b@.len());
        }
        return false;
    }
    let n = a.len();
    for i in 0..n
        invariant
            n == a@.len() == b@.len(),
            forall|j: int| 0 <= j < i ==> a@[j] == b@[j],
    {
        if a[i] != b[i] {
            return false;
        }
    }
    assert(a@ =~= b@);
    true
}

/// Match `lit` at offset `pos` of `b`, returning the offset just past it.
fn expect(b: &[u8], pos: usize, lit: &[u8]) -> (r: Option<usize>)
    requires
        pos <= b@.len(),
    ensures
        match r {
            Some(np) => np == pos + lit@.len() && np <= b@.len() && b@.subrange(
                pos as int,
                np as int,
            ) == lit@,
            None => !starts_at(b@, pos as int, lit@),
        },
{
    if b.len() - pos < lit.len() {
        return None;
    }
    let n = lit.len();
    let end: usize = pos + n;
    for k in pos..end
        invariant
            pos <= end <= b@.len(),
            end == pos + n,
            n == lit@.len(),
            forall|j: int| 0 <= j < k - pos ==> b@[pos + j] == lit@[j],
    {
        if b[k] != lit[k - pos] {
            assert(!starts_at(b@, pos as int, lit@)) by {
                if starts_at(b@, pos as int, lit@) {
                    assert(b@.subrange(pos as int, pos + lit@.len())[k - pos] == lit@[k - pos]);
                }
            }
            return None;
        }
    }
    assert(b@.subrange(pos as int, end as int) =~= lit@);
    Some(end)
}

/// Scan a string value from offset `pos` up to its closing quote, rejecting
/// bytes a canonical string value cannot carry.
fn scan_string(b: &[u8], pos: usize) -> (r: Option<(Vec<u8>, usize)>)
    requires
        pos <= b@.len(),
    ensures
        match r {
            Some(p) => {
                &&& pos < p.1 <= b@.len()
                &&& b@.subrange(pos as int, p.1 - 1) == p.0@
                &&& bytes_ok(p.0@)
                &&& no_quote(p.0@)
                &&& b@.skip(pos as int) == p.0@ + lit_quote() + b@.skip(p.1 as int)
            },
            None => forall|t: Seq<u8>, rest: Seq<u8>|
                b@.skip(pos as int) == t + lit_quote() + rest ==> !bytes_ok(t),
        },
{
    let mut chunk: Vec<u8> = Vec::new();
    let mut i: usize = pos;
    loop
        invariant
            pos <= i <= b@.len(),
            chunk@ == b@.subrange(pos as int, i as int),
            bytes_ok(chunk@),
            no_quote(chunk@),
        decreases b@.len() - i,
    {
        if i == b.len() {
            // No closing quote: no decomposition with a quote exists at all.
            proof {
                assert forall|t: Seq<u8>, rest: Seq<u8>|
                    b@.skip(pos as int) == t + lit_quote() + rest implies !bytes_ok(t) by {
                    if bytes_ok(t) {
                        assert(t + lit_quote() + rest =~= t + (lit_quote() + rest));
                        lemma_peel(b@, pos as int, t, lit_quote() + rest);
                        let q = pos + t.len();
                        assert(b@.skip(q)[0] == (lit_quote() + rest)[0]);
                        assert(b@[q] == 34);
                        assert(chunk@[q - pos] == 34);
                    }
                }
            }
            return None;
        }
        let c = b[i];
        if c == 34 {
            proof {
                assert(b@.subrange(pos as int, (i + 1) - 1) == chunk@);
                assert(b@.skip(pos as int) =~= chunk@ + lit_quote() + b@.skip(i + 1));
            }
            return Some((chunk, i + 1));
        }
        if c == 92 || c < 32 {
            // A canonical string value cannot carry this byte, and it sits
            // before any closing quote.
            proof {
                assert forall|t: Seq<u8>, rest: Seq<u8>|
                    b@.skip(pos as int) == t + lit_quote() + rest implies !bytes_ok(t) by {
                    if bytes_ok(t) {
                        assert(t + lit_quote() + rest =~= t + (lit_quote() + rest));
                        lemma_peel(b@, pos as int, t, lit_quote() + rest);
                        let q = pos + t.len();
                        assert(b@.skip(q)[0] == (lit_quote() + rest)[0]);
                        assert(b@[q] == 34);
                        if q < i {
                            assert(chunk@[q - pos] == 34);
                        } else if q == i {
                        } else {
                            assert(t[i - pos] == b@.subrange(pos as int, pos + t.len())[i - pos]);
                        }
                    }
                }
            }
            return None;
        }
        chunk.push(c);
        proof {
            assert(chunk@ =~= b@.subrange(pos as int, (i + 1) as int));
        }
        i = i + 1;
    }
}

/// Relies on `String::from_utf8`: succeeds exactly on valid UTF-8 input and
/// yields the string whose UTF-8 encoding is that input.
#[verifier::external_body]
fn string_from_utf8(v: Vec<u8>) -> (r: Option<String>)
    ensures
        match r {
            Some(s) => encode_utf8(s@) == v@,
            None => !vstd::utf8::valid_utf8(v@),
        },
{
    String::from_utf8(v).ok()
}

fn v_open_alg() -> (r: Vec<u8>)
    ensures
        r@ == lit_open_alg(),
{
    let v: Vec<u8> = vec![123u8, 34u8, 97u8, 108u8, 103u8, 34u8, 58u8, 34u8];
    proof {
        assert(v@ =~= lit_open_alg());
    }
    v
}

fn v_typ() -> (r: Vec<u8>)
    ensures
        r@ == lit_typ(),
{
    let v: Vec<u8> = vec![44u8, 34u8, 116u8, 121u8, 112u8, 34u8, 58u8, 34u8];
    proof {
        assert(v@ =~= lit_typ());
    }
    v
}

fn v_kid() -> (r: Vec<u8>)
    ensures
        r@ == lit_kid(),
{
    let v: Vec<u8> = vec![44u8, 34u8, 107u8, 105u8, 100u8, 34u8, 58u8, 34u8];
    proof {
        assert(v@ =~= lit_kid());
    }
    v
}

fn v_jwk() -> (r: Vec<u8>)
    ensures
        r@ == lit_jwk(),
{
    let v: Vec<u8> = vec![
        44u8,
        34u8,
        106u8,
        119u8,
        107u8,
        34u8,
        58u8,
        123u8,
        34u8,
        107u8,
        116u8,
        121u8,
        34u8,
        58u8,
        34u8,
    ];
    proof {
        assert(v@ =~= lit_jwk());
    }
    v
}

fn v_crv() -> (r: Vec<u8>)
    ensures
        r@ == lit_crv(),
{
    let v: Vec<u8> = vec![44u8, 34u8, 99u8, 114u8, 118u8, 34u8, 58u8, 34u8];
    proof {
        assert(v@ =~= lit_crv());
    }
    v
}

fn v_x() -> (r: Vec<u8>)
    ensures
        r@ == lit_x(),
{
    let v: Vec<u8> = vec![44u8, 34u8, 120u8, 34u8, 58u8, 34u8];
    proof {
        assert(v@ =~= lit_x());
    }
    v
}

fn v_y() -> (r: Vec<u8>)
    ensures
        r@ == lit_y(),
{
    let v: Vec<u8> = vec![44u8, 34u8, 121u8, 34u8, 58u8, 34u8];
    proof {
        assert(v@ =~= lit_y());
    }
    v
}

fn v_x5c() -> (r: Vec<u8>)
    ensures
        r@ == lit_x5c(),
{
    let v: Vec<u8> = vec![44u8, 34u8, 120u8, 53u8, 99u8, 34u8, 58u8, 34u8];
    proof {
        assert(v@ =~= lit_x5c());
    }
    v
}

fn v_trust_chain() -> (r: Vec<u8>)
    ensures
        r@ == lit_trust_chain(),
{
    let v: Vec<u8> = vec![
        44u8,
        34u8,
        116u8,
        114u8,
        117u8,
        115u8,
        116u8,
        95u8,
        99u8,
        104u8,
        97u8,
        105u8,
        110u8,
        34u8,
        58u8,
        34u8,
    ];
    proof {
        assert(v@ =~= lit_trust_chain());
    }
    v
}

fn alg_name_vec(a: Algorithm) -> (r: Vec<u8>)
    ensures
        r@ == alg_name_bytes(a),
{
    match a {
        Algorithm::Es256K => {
            let v: Vec<u8> = vec![69u8, 83u8, 50u8, 53u8, 54u8, 75u8];
            proof {
                assert(v@ =~= alg_name_bytes(a));
            }
            v
        },
        Algorithm::EdDsa => {
            let v: Vec<u8> = vec![69u8, 100u8, 68u8, 83u8, 65u8];
            proof {
                assert(v@ =~= alg_name_bytes(a));
            }
            v
        },
    }
}

fn typ_name_vec(t: Type) -> (r: Vec<u8>)
    ensures
        r@ == typ_name_bytes(t),
{
    match t {
        Type::Jwt => {
            let v: Vec<u8> = vec![106u8, 119u8, 116u8];
            proof {
                assert(v@ =~= typ_name_bytes(t));
            }
            v
        },
        Type::Openid4VciProofJwt => {
            let v: Vec<u8> = vec![
                111u8,
                112u8,
                101u8,
                110u8,
                105u8,
                100u8,
                52u8,
                118u8,
                99u8,
                105u8,
                45u8,
                112u8,
                114u8,
                111u8,
                111u8,
                102u8,
                43u8,
                106u8,
                119u8,
                116u8,
            ];
            proof {
                assert(v@ =~= typ_name_bytes(t));
            }
            v
        },
        Type::OauthAuthzReqJwt => {
            let v: Vec<u8> = vec![
                111u8,
                97u8,
                117u8,
                116u8,
                104u8,
                45u8,
                97u8,
                117u8,
                116u8,
                104u8,
                122u8,
                45u8,
                114u8,
                101u8,
                113u8,
                43u8,
                106u8,
                119u8,
                116u8,
            ];
            proof {
                assert(v@ =~= typ_name_bytes(t));
            }
            v
        },
    }
}

fn kty_name_vec(k: KeyType) -> (r: Vec<u8>)
    ensures
        r@ == kty_name_bytes(k),
{
    match k {
        KeyType::Okp => {
            let v: Vec<u8> = vec![79u8, 75u8, 80u8];
            proof {
                assert(v@ =~= kty_name_bytes(k));
            }
            v
        },
        KeyType::Ec => {
            let v: Vec<u8> = vec![69u8, 67u8];
            proof {
                assert(v@ =~= kty_name_bytes(k));
            }
            v
        },
        KeyType::Oct => {
            let v: Vec<u8> = vec![111u8, 99u8, 116u8];
            proof {
                assert(v@ =~= kty_name_bytes(k));
            }
            v
        },
    }
}

fn crv_name_vec(c: Curve) -> (r: Vec<u8>)
    ensures
        r@ == crv_name_bytes(c),
{
    match c {
        Curve::Ed25519 => {
            let v: Vec<u8> = vec![69u8, 100u8, 50u8, 53u8, 53u8, 49u8, 57u8];
            proof {
                assert(v@ =~= crv_name_bytes(c));
            }
            v
        },
        Curve::Es256K => {
            let v: Vec<u8> = vec![69u8, 83u8, 50u8, 53u8, 54u8, 75u8];
            proof {
                assert(v@ =~= crv_name_bytes(c));
            }
            v
        },
    }
}

/// Whether the UTF-8 bytes of `s` can be carried verbatim as a JSON string
/// value.
fn check_str(s: &str) -> (r: bool)
    ensures
        r == wf_str(s@),
{
    let b = s.as_bytes();
    let n = b.len();
    for i in 0..n
        invariant
            n == b@.len(),
            b@ == encode_utf8(s@),
            forall|j: int| 0 <= j < i ==> b@[j] != 34 && b@[j] != 92 && b@[j] >= 32,
    {
        let c = b[i];
        if c == 34 || c == 92 || c < 32 {
            assert(!bytes_ok(b@)) by {
                assert(b@[i as int] == c);
            }
            return false;
        }
    }
    assert(bytes_ok(b@));
    true
}

/// Whether every string value of an embedded key is one the codec carries.
pub open spec fn wf_jwk(k: PublicKeyJwkV) -> bool {
    wf_str(k.x) && match k.y {
        Some(y) => wf_str(y),
        None => true,
    }
}

/// Whether every string value of a key reference is one the codec carries.
pub open spec fn wf_key(k: KeyV) -> bool {
    match k {
        KeyV::KeyId(kid) => wf_str(kid),
        KeyV::Jwk(j) => wf_jwk(j),
    }
}

/// Whether every string value of a header is one the codec carries; encoding
/// succeeds exactly on such headers.
pub open spec fn wf_header(h: ProtectedV) -> bool {
    &&& wf_key(h.key)
    &&& match h.x5c {
        Some(s) => wf_str(s),
        None => true,
    }
    &&& match h.trust_chain {
        Some(s) => wf_str(s),
        None => true,
    }
}

// ---------------------------------------------------------------------------
// Encoding
// ---------------------------------------------------------------------------

/// Serialize a header to its canonical JSON bytes. Succeeds exactly on
/// well-formed headers (every string value free of quotes, backslashes and
/// control bytes), and then produces exactly [`header_json`].
/// Append a quote-terminated string value chunk: `lead`, then the UTF-8
/// bytes of `s`, then the closing quote.
fn append_value(out: &mut Vec<u8>, lead: Vec<u8>, s: &str)
    ensures
        final(out)@ == old(out)@ + lead@ + encode_utf8(s@) + lit_quote(),
{
    out.extend_from_slice(lead.as_slice());
    out.extend_from_slice(s.as_bytes());
    out.push(34);
    proof {
        assert(final(out)@ =~= old(out)@ + lead@ + encode_utf8(s@) + lit_quote());
    }
}

/// Append a quote-terminated enumeration name chunk.
fn append_name(out: &mut Vec<u8>, lead: Vec<u8>, name: Vec<u8>)
    ensures
        final(out)@ == old(out)@ + lead@ + name@ + lit_quote(),
{
    out.extend_from_slice(lead.as_slice());
    out.extend_from_slice(name.as_slice());
    out.push(34);
    proof {
        assert(final(out)@ =~= old(out)@ + lead@ + name@ + lit_quote());
    }
}

/// Build the canonical JSON of a well-formed header.
#[verifier::rlimit(60)]
fn build_header_json(h: &Protected) -> (v: Vec<u8>)
    requires
        wf_header(h@),
    ensures
        v@ == header_json(h@),
{
    let mut out: Vec<u8> = Vec::new();
    append_name(&mut out, v_open_alg(), alg_name_vec(h.alg));
    append_name(&mut out, v_typ(), typ_name_vec(h.typ));
    let ghost head = lit_open_alg() + alg_name_bytes(h@.alg) + lit_quote() + lit_typ()
        + typ_name_bytes(h@.typ) + lit_quote();
    proof {
        assert(out@ =~= head);
    }
    match &h.key {
        Key::KeyId(kid) => {
            append_value(&mut out, v_kid(), kid.as_str());
            proof {
                assert(out@ =~= head + key_json(h@.key));
            }
        },
        Key::Jwk(k) => {
            append_name(&mut out, v_jwk(), kty_name_vec(k.kty));
            append_name(&mut out, v_crv(), crv_name_vec(k.crv));
            append_value(&mut out, v_x(), k.x.as_str());
            match &k.y {
                Some(y) => {
                    append_value(&mut out, v_y(), y.as_str());
                },
                None => {},
            }
            out.push(125);
            proof {
                assert(out@ =~= head + key_json(h@.key));
            }
        },
    }
    let ghost head2 = out@;
    match &h.x5c {
        Some(s) => {
            append_value(&mut out, v_x5c(), s.as_str());
        },
        None => {},
    }
    proof {
        assert(out@ =~= head2 + x5c_json(h@.x5c));
    }
    let ghost head3 = out@;
    match &h.trust_chain {
        Some(s) => {
            append_value(&mut out, v_trust_chain(), s.as_str());
        },
        None => {},
    }
    out.push(125);
    proof {
        assert(out@ =~= head3 + trust_chain_json(h@.trust_chain) + lit_close());
        assert(out@ =~= header_json(h@));
    }
    out
}

/// Serialize a header to its canonical JSON bytes. Succeeds exactly on
/// well-formed headers (every string value free of quotes, backslashes and
/// control bytes), and then produces exactly [`header_json`].
pub fn encode_header_json(h: &Protected) -> (r: Result<Vec<u8>, Error>)
    ensures
        match r {
            Ok(v) => wf_header(h@) && v@ == header_json(h@),
            Err(e) => e == Error::Format && !wf_header(h@),
        },
{
    let key_ok = match &h.key {
        Key::KeyId(kid) => check_str(kid.as_str()),
        Key::Jwk(k) => check_str(k.x.as_str()) && (match &k.y {
            Some(y) => check_str(y.as_str()),
            None => true,
        }),
    };
    let x5c_ok = match &h.x5c {
        Some(s) => check_str(s.as_str()),
        None => true,
    };
    let tc_ok = match &h.trust_chain {
        Some(s) => check_str(s.as_str()),
        None => true,
    };
    if !(key_ok && x5c_ok && tc_ok) {
        assert(!wf_header(h@));
        return Err(Error::Format);
    }
    assert(wf_header(h@));
    Ok(build_header_json(h))
}

// ---------------------------------------------------------------------------
// Parsing
// ---------------------------------------------------------------------------

/// The tail of the canonical JSON after the key reference: the optional
/// fields and the closing brace.
pub open spec fn rest_opts(hv: ProtectedV) -> Seq<u8> {
    x5c_json(hv.x5c) + trust_chain_json(hv.trust_chain) + lit_close()
}

/// The tail after the fixed `alg`/`typ` prefix: the key reference onward.
pub open spec fn rest_key(hv: ProtectedV) -> Seq<u8> {
    key_json(hv.key) + rest_opts(hv)
}

/// The tail after `{"alg":"`.
pub open spec fn rest_alg(hv: ProtectedV) -> Seq<u8> {
    alg_name_bytes(hv.alg) + lit_quote() + (lit_typ() + (typ_name_bytes(hv.typ) + lit_quote()
        + rest_key(hv)))
}

/// The canonical JSON splits as the opening literal plus [`rest_alg`].
pub proof fn lemma_decompose(hv: ProtectedV)
    ensures
        header_json(hv) == lit_open_alg() + rest_alg(hv),
{
    assert(header_json(hv) =~= lit_open_alg() + rest_alg(hv));
}

/// Every enumeration name is a byte sequence a string value may carry, so
/// in particular quote-free.
pub proof fn lemma_names_ok()
    ensures
        forall|a: Algorithm| bytes_ok(#[trigger] alg_name_bytes(a)),
        forall|t: Type| bytes_ok(#[trigger] typ_name_bytes(t)),
        forall|k: KeyType| bytes_ok(#[trigger] kty_name_bytes(k)),
        forall|c: Curve| bytes_ok(#[trigger] crv_name_bytes(c)),
{
    assert forall|a: Algorithm| bytes_ok(#[trigger] alg_name_bytes(a)) by {
        match a {
            Algorithm::Es256K => assert(bytes_ok(alg_name_bytes(Algorithm::Es256K))),
            Algorithm::EdDsa => assert(bytes_ok(alg_name_bytes(Algorithm::EdDsa))),
        }
    }
    assert forall|t: Type| bytes_ok(#[trigger] typ_name_bytes(t)) by {
        match t {
            Type::Jwt => assert(bytes_ok(typ_name_bytes(Type::Jwt))),
            Type::Openid4VciProofJwt => assert(bytes_ok(typ_name_bytes(Type::Openid4VciProofJwt))),
            Type::OauthAuthzReqJwt => assert(bytes_ok(typ_name_bytes(Type::OauthAuthzReqJwt))),
        }
    }
    assert forall|k: KeyType| bytes_ok(#[trigger] kty_name_bytes(k)) by {
        match k {
            KeyType::Okp => assert(bytes_ok(kty_name_bytes(KeyType::Okp))),
            KeyType::Ec => assert(bytes_ok(kty_name_bytes(KeyType::Ec))),
            KeyType::Oct => assert(bytes_ok(kty_name_bytes(KeyType::Oct))),
        }
    }
    assert forall|c: Curve| bytes_ok(#[trigger] crv_name_bytes(c)) by {
        match c {
            Curve::Ed25519 => assert(bytes_ok(crv_name_bytes(Curve::Ed25519))),
            Curve::Es256K => assert(bytes_ok(crv_name_bytes(Curve::Es256K))),
        }
    }
}

/// Each enumeration's names are pairwise distinct.
pub proof fn lemma_names_injective()
    ensures
        forall|a1: Algorithm, a2: Algorithm|
            alg_name_bytes(a1) == alg_name_bytes(a2) ==> a1 == a2,
        forall|t1: Type, t2: Type| typ_name_bytes(t1) == typ_name_bytes(t2) ==> t1 == t2,
        forall|k1: KeyType, k2: KeyType| kty_name_bytes(k1) == kty_name_bytes(k2) ==> k1 == k2,
        forall|c1: Curve, c2: Curve| crv_name_bytes(c1) == crv_name_bytes(c2) ==> c1 == c2,
{
    assert(alg_name_bytes(Algorithm::Es256K).len() == 6);
    assert(alg_name_bytes(Algorithm::EdDsa).len() == 5);
    assert(typ_name_bytes(Type::Jwt).len() == 3);
    assert(typ_name_bytes(Type::Openid4VciProofJwt).len() == 20);
    assert(typ_name_bytes(Type::OauthAuthzReqJwt).len() == 19);
    assert(kty_name_bytes(KeyType::Okp)[0] == 79);
    assert(kty_name_bytes(KeyType::Ec).len() == 2);
    assert(kty_name_bytes(KeyType::Okp).len() == 3);
    assert(kty_name_bytes(KeyType::Oct)[0] == 111);
    assert(crv_name_bytes(Curve::Ed25519).len() == 7);
    assert(crv_name_bytes(Curve::Es256K).len() == 6);
}

/// Map a scanned chunk to an [`Algorithm`] name.
fn alg_of_chunk(c: &[u8]) -> (r: Option<Algorithm>)
    ensures
        match r {
            Some(a) => c@ == alg_name_bytes(a),
            None => forall|a: Algorithm| c@ != alg_name_bytes(a),
        },
{
    let n = alg_name_vec(Algorithm::Es256K);
    if bytes_eq(c, n.as_slice()) {
        return Some(Algorithm::Es256K);
    }
    let n = alg_name_vec(Algorithm::EdDsa);
    if bytes_eq(c, n.as_slice()) {
        return Some(Algorithm::EdDsa);
    }
    proof {
        assert forall|a: Algorithm| c@ != alg_name_bytes(a) by {
            match a {
                Algorithm::Es256K => {},
                Algorithm::EdDsa => {},
            }
        }
    }
    None
}

/// Map a scanned chunk to a [`Type`] name.
fn typ_of_chunk(c: &[u8]) -> (r: Option<Type>)
    ensures
        match r {
            Some(t) => c@ == typ_name_bytes(t),
            None => forall|t: Type| c@ != typ_name_bytes(t),
        },
{
    let n = typ_name_vec(Type::Jwt);
    if bytes_eq(c, n.as_slice()) {
        return Some(Type::Jwt);
    }
    let n = typ_name_vec(Type::Openid4VciProofJwt);
    if bytes_eq(c, n.as_slice()) {
        return Some(Type::Openid4VciProofJwt);
    }
    let n = typ_name_vec(Type::OauthAuthzReqJwt);
    if bytes_eq(c, n.as_slice()) {
        return Some(Type::OauthAuthzReqJwt);
    }
    proof {
        assert forall|t: Type| c@ != typ_name_bytes(t) by {
            match t {
                Type::Jwt => {},
                Type::Openid4VciProofJwt => {},
                Type::OauthAuthzReqJwt => {},
            }
        }
    }
    None
}

/// Map a scanned chunk to a [`KeyType`] name.
fn kty_of_chunk(c: &[u8]) -> (r: Option<KeyType>)
    ensures
        match r {
            Some(k) => c@ == kty_name_bytes(k),
            None => forall|k: KeyType| c@ != kty_name_bytes(k),
        },
{
    let n = kty_name_vec(KeyType::Okp);
    if bytes_eq(c, n.as_slice()) {
        return Some(KeyType::Okp);
    }
    let n = kty_name_vec(KeyType::Ec);
    if bytes_eq(c, n.as_slice()) {
        return Some(KeyType::Ec);
    }
    let n = kty_name_vec(KeyType::Oct);
    if bytes_eq(c, n.as_slice()) {
        return Some(KeyType::Oct);
    }
    proof {
        assert forall|k: KeyType| c@ != kty_name_bytes(k) by {
            match k {
                KeyType::Okp => {},
                KeyType::Ec => {},
                KeyType::Oct => {},
            }
        }
    }
    None
}

/// Map a scanned chunk to a [`Curve`] name.
fn crv_of_chunk(c: &[u8]) -> (r: Option<Curve>)
    ensures
        match r {
            Some(k) => c@ == crv_name_bytes(k),
            None => forall|k: Curve| c@ != crv_name_bytes(k),
        },
{
    let n = crv_name_vec(Curve::Ed25519);
    if bytes_eq(c, n.as_slice()) {
        return Some(Curve::Ed25519);
    }
    let n = crv_name_vec(Curve::Es256K);
    if bytes_eq(c, n.as_slice()) {
        return Some(Curve::Es256K);
    }
    proof {
        assert forall|k: Curve| c@ != crv_name_bytes(k) by {
            match k {
                Curve::Ed25519 => {},
                Curve::Es256K => {},
            }
        }
    }
    None
}

/// Parse a string value terminated by a quote, yielding the string and the
/// offset just past the closing quote. On failure, no well-formed string
/// value sits at `pos`.
fn parse_value(b: &[u8], pos: usize) -> (r: Option<(String, usize)>)
    requires
        pos <= b@.len(),
    ensures
        match r {
            Some(p) => {
                &&& pos < p.1 <= b@.len()
                &&& wf_str(p.0@)
                &&& b@.skip(pos as int) == encode_utf8(p.0@) + lit_quote() + b@.skip(p.1 as int)
            },
            None => forall|t: Seq<char>, rest: Seq<u8>|
                b@.skip(pos as int) == encode_utf8(t) + lit_quote() + rest ==> !wf_str(t),
        },
{
    match scan_string(b, pos) {
        None => {
            proof {
                assert forall|t: Seq<char>, rest: Seq<u8>|
                    b@.skip(pos as int) == encode_utf8(t) + lit_quote() + rest implies !wf_str(t)
                by {
                    if wf_str(t) {
                        assert(!bytes_ok(encode_utf8(t)));
                    }
                }
            }
            None
        },
        Some((chunk, np)) => {
            let ghost chunk_seq = chunk@;
            match string_from_utf8(chunk) {
                Some(s) => {
                    proof {
                        assert(b@.skip(pos as int) == encode_utf8(s@) + lit_quote() + b@.skip(
                            np as int,
                        ));
                    }
                    Some((s, np))
                },
                None => {
                    proof {
                        assert forall|t: Seq<char>, rest: Seq<u8>|
                            b@.skip(pos as int) == encode_utf8(t) + lit_quote() + rest implies
                            !wf_str(t) by {
                            if wf_str(t) {
                                lemma_quote_split(
                                    chunk_seq,
                                    b@.skip(np as int),
                                    encode_utf8(t),
                                    rest,
                                );
                                vstd::utf8::encode_utf8_valid_utf8(t);
                            }
                        }
                    }
                    None
                },
            }
        },
    }
}

/// Parse the fixed prefix of the canonical JSON: `{"alg":"<name>","typ":"<name>"`.
///
/// On success the offset sits just past the quote closing the `typ` name, and
/// any header whose canonical JSON is `b` carries exactly the returned
/// algorithm and type, with [`rest_key`] at that offset. On failure `b` is
/// no header's canonical JSON.
#[verifier::rlimit(100)]
#[verifier::spinoff_prover]
fn parse_prefix(b: &[u8]) -> (r: Result<(Algorithm, Type, usize), Error>)
    ensures
        match r {
            Ok(p) => {
                &&& 0 < p.2 <= b@.len()
                &&& b@.subrange(0, p.2 as int) == lit_open_alg() + alg_name_bytes(p.0)
                    + lit_quote() + lit_typ() + typ_name_bytes(p.1) + lit_quote()
                &&& forall|hv: ProtectedV|
                    wf_header(hv) && b@ == header_json(hv) ==> hv.alg == p.0 && hv.typ == p.1
                        && b@.skip(p.2 as int) == rest_key(hv)
            },
            Err(e) => e == Error::Format && (forall|hv: ProtectedV|
                wf_header(hv) ==> b@ != header_json(hv)),
        },
{
    proof {
        lemma_names_ok();
        lemma_names_injective();
    }
    let l = v_open_alg();
    let p1 = match expect(b, 0, l.as_slice()) {
        Some(p) => p,
        None => {
            proof {
                assert forall|hv: ProtectedV| wf_header(hv) implies b@ != header_json(hv) by {
                    if b@ == header_json(hv) {
                        lemma_decompose(hv);
                        assert(b@.skip(0) =~= b@);
                        lemma_peel(b@, 0, lit_open_alg(), rest_alg(hv));
                    }
                }
            }
            return Err(Error::Format);
        },
    };
    let (alg_chunk, p2) = match scan_string(b, p1) {
        Some(x) => x,
        None => {
            proof {
                assert forall|hv: ProtectedV| wf_header(hv) implies b@ != header_json(hv) by {
                    if b@ == header_json(hv) {
                        lemma_decompose(hv);
                        assert(b@.skip(0) =~= b@);
                        lemma_peel(b@, 0, lit_open_alg(), rest_alg(hv));
                        assert(b@.skip(p1 as int) == alg_name_bytes(hv.alg) + lit_quote() + (
                        lit_typ() + (typ_name_bytes(hv.typ) + lit_quote() + rest_key(hv))));
                    }
                }
            }
            return Err(Error::Format);
        },
    };
    let alg = match alg_of_chunk(alg_chunk.as_slice()) {
        Some(a) => a,
        None => {
            proof {
                assert forall|hv: ProtectedV| wf_header(hv) implies b@ != header_json(hv) by {
                    if b@ == header_json(hv) {
                        lemma_decompose(hv);
                        assert(b@.skip(0) =~= b@);
                        lemma_peel(b@, 0, lit_open_alg(), rest_alg(hv));
                        lemma_quote_split(
                            alg_chunk@,
                            b@.skip(p2 as int),
                            alg_name_bytes(hv.alg),
                            lit_typ() + (typ_name_bytes(hv.typ) + lit_quote() + rest_key(hv)),
                        );
                    }
                }
            }
            return Err(Error::Format);
        },
    };
    // From here on: any matching header has hv.alg == alg, and its tail
    // after `p2` starts with the `typ` literal.
    proof {
        assert forall|hv: ProtectedV| wf_header(hv) && b@ == header_json(hv) implies hv.alg == alg
            && b@.skip(p2 as int) == lit_typ() + (typ_name_bytes(hv.typ) + lit_quote() + rest_key(
            hv,
        )) by {
            lemma_decompose(hv);
            assert(b@.skip(0) =~= b@);
            lemma_peel(b@, 0, lit_open_alg(), rest_alg(hv));
            lemma_quote_split(
                alg_chunk@,
                b@.skip(p2 as int),
                alg_name_bytes(hv.alg),
                lit_typ() + (typ_name_bytes(hv.typ) + lit_quote() + rest_key(hv)),
            );
        }
    }
    let l = v_typ();
    let p3 = match expect(b, p2, l.as_slice()) {
        Some(p) => p,
        None => {
            proof {
                assert forall|hv: ProtectedV| wf_header(hv) implies b@ != header_json(hv) by {
                    if b@ == header_json(hv) {
                        lemma_peel(
                            b@,
                            p2 as int,
                            lit_typ(),
                            typ_name_bytes(hv.typ) + lit_quote() + rest_key(hv),
                        );
                    }
                }
            }
            return Err(Error::Format);
        },
    };
    proof {
        assert forall|hv: ProtectedV| wf_header(hv) && b@ == header_json(hv) implies b@.skip(
            p3 as int,
        ) == typ_name_bytes(hv.typ) + lit_quote() + rest_key(hv) by {
            lemma_peel(
                b@,
                p2 as int,
                lit_typ(),
                typ_name_bytes(hv.typ) + lit_quote() + rest_key(hv),
            );
        }
    }
    let (typ_chunk, p4) = match scan_string(b, p3) {
        Some(x) => x,
        None => {
            proof {
                assert forall|hv: ProtectedV| wf_header(hv) implies b@ != header_json(hv) by {
                    if b@ == header_json(hv) {
                        assert(b@.skip(p3 as int) == typ_name_bytes(hv.typ) + lit_quote()
                            + rest_key(hv));
                    }
                }
            }
            return Err(Error::Format);
        },
    };
    let typ = match typ_of_chunk(typ_chunk.as_slice()) {
        Some(t) => t,
        None => {
            proof {
                assert forall|hv: ProtectedV| wf_header(hv) implies b@ != header_json(hv) by {
                    if b@ == header_json(hv) {
                        lemma_quote_split(
                            typ_chunk@,
                            b@.skip(p4 as int),
                            typ_name_bytes(hv.typ),
                            rest_key(hv),
                        );
                    }
                }
            }
            return Err(Error::Format);
        },
    };
    proof {
        assert(b@.subrange(0, p4 as int) =~= b@.subrange(0, p1 as int) + b@.subrange(
            p1 as int,
            p2 as int,
        ) + b@.subrange(p2 as int, p3 as int) + b@.subrange(p3 as int, p4 as int));
        assert(b@.subrange(p1 as int, p2 as int) =~= alg_chunk@ + lit_quote());
        assert(b@.subrange(p3 as int, p4 as int) =~= typ_chunk@ + lit_quote());
        assert(b@.subrange(0, p4 as int) =~= lit_open_alg() + alg_name_bytes(alg) + lit_quote()
            + lit_typ() + typ_name_bytes(typ) + lit_quote());
        assert forall|hv: ProtectedV| wf_header(hv) && b@ == header_json(hv) implies hv.alg == alg
            && hv.typ == typ && b@.skip(p4 as int) == rest_key(hv) by {
            lemma_quote_split(
                typ_chunk@,
                b@.skip(p4 as int),
                typ_name_bytes(hv.typ),
                rest_key(hv),
            );
        }
    }
    Ok((alg, typ, p4))
}

fn v_close() -> (r: Vec<u8>)
    ensures
        r@ == lit_close(),
{
    let v: Vec<u8> = vec![125u8];
    proof {
        assert(v@ =~= lit_close());
    }
    v
}

/// A chunk is exactly the bytes between two known offsets.
pub proof fn lemma_mid(b: Seq<u8>, pos: int, x: Seq<u8>, p2: int)
    requires
        0 <= pos <= p2 <= b.len(),
        b.skip(pos) == x + b.skip(p2),
    ensures
        p2 - pos == x.len(),
        b.subrange(pos, p2) == x,
{
    assert(b.skip(pos).len() == x.len() + b.skip(p2).len());
    lemma_peel(b, pos, x, b.skip(p2));
}

/// The model of an optional string field.
pub open spec fn opt_view(o: Option<String>) -> Option<Seq<char>> {
    match o {
        Some(s) => Some(s@),
        None => None,
    }
}

/// Whether an optional string field's value is one the codec carries.
pub open spec fn wf_opt(o: Option<Seq<char>>) -> bool {
    match o {
        Some(s) => wf_str(s),
        None => true,
    }
}

/// Tails of an embedded key's JSON, stepwise, ending in `rest`.
pub open spec fn jrest_y(j: PublicKeyJwkV, rest: Seq<u8>) -> Seq<u8> {
    match j.y {
        Some(y) => lit_y() + (encode_utf8(y) + lit_quote() + (lit_close() + rest)),
        None => lit_close() + rest,
    }
}

pub open spec fn jtail5(j: PublicKeyJwkV, rest: Seq<u8>) -> Seq<u8> {
    encode_utf8(j.x) + lit_quote() + jrest_y(j, rest)
}

pub open spec fn jtail4(j: PublicKeyJwkV, rest: Seq<u8>) -> Seq<u8> {
    lit_x() + jtail5(j, rest)
}

pub open spec fn jtail3(j: PublicKeyJwkV, rest: Seq<u8>) -> Seq<u8> {
    crv_name_bytes(j.crv) + lit_quote() + jtail4(j, rest)
}

pub open spec fn jtail2(j: PublicKeyJwkV, rest: Seq<u8>) -> Seq<u8> {
    lit_crv() + jtail3(j, rest)
}

pub open spec fn jtail1(j: PublicKeyJwkV, rest: Seq<u8>) -> Seq<u8> {
    kty_name_bytes(j.kty) + lit_quote() + jtail2(j, rest)
}

/// A key-identifier reference's JSON followed by `rest`, regrouped for
/// stepwise peeling.
pub proof fn lemma_key_kid_decompose(kid: Seq<char>, rest: Seq<u8>)
    ensures
        key_json(KeyV::KeyId(kid)) + rest == lit_kid() + (encode_utf8(kid) + lit_quote() + rest),
{
    assert(key_json(KeyV::KeyId(kid)) + rest =~= lit_kid() + (encode_utf8(kid) + lit_quote()
        + rest));
}

/// An embedded key reference's JSON followed by `rest`, regrouped for
/// stepwise peeling.
#[verifier::rlimit(100)]
#[verifier::spinoff_prover]
pub proof fn lemma_key_jwk_decompose(j: PublicKeyJwkV, rest: Seq<u8>)
    ensures
        key_json(KeyV::Jwk(j)) + rest == lit_jwk() + jtail1(j, rest),
{
    match j.y {
        Some(_) => {
            assert(key_json(KeyV::Jwk(j)) + rest =~= lit_jwk() + jtail1(j, rest));
        },
        None => {
            assert(key_json(KeyV::Jwk(j)) + rest =~= lit_jwk() + jtail1(j, rest));
        },
    }
}

/// The tail after the trust-chain decision point.
pub open spec fn tc_tail(o: Option<Seq<char>>) -> Seq<u8> {
    match o {
        Some(t) => lit_trust_chain() + (encode_utf8(t) + lit_quote() + lit_close()),
        None => lit_close(),
    }
}

/// The optional fields and closing brace, regrouped for stepwise peeling.
pub proof fn lemma_opts_decompose(o1: Option<Seq<char>>, o2: Option<Seq<char>>)
    ensures
        x5c_json(o1) + trust_chain_json(o2) + lit_close() == (match o1 {
            Some(s) => lit_x5c() + (encode_utf8(s) + lit_quote() + tc_tail(o2)),
            None => tc_tail(o2),
        }),
{
    match o1 {
        Some(s) => {
            assert(x5c_json(o1) + trust_chain_json(o2) + lit_close() =~= lit_x5c() + (encode_utf8(
                s,
            ) + lit_quote() + tc_tail(o2)));
        },
        None => {
            assert(x5c_json(o1) + trust_chain_json(o2) + lit_close() =~= tc_tail(o2));
        },
    }
}

/// Parse an embedded key: `,"jwk":{"kty":"<n>","crv":"<n>","x":"<v>"` then
/// optionally `,"y":"<v>"`, then `}`. Self-delimiting; on success any
/// decomposition of the tail at `pos` into a well-formed embedded key plus a
/// remainder is exactly the one returned.
#[verifier::rlimit(100)]
#[verifier::spinoff_prover]
fn parse_jwk(b: &[u8], pos: usize) -> (r: Result<(PublicKeyJwk, usize), Error>)
    requires
        pos <= b@.len(),
    ensures
        match r {
            Ok(p) => {
                &&& pos < p.1 <= b@.len()
                &&& wf_jwk(p.0@)
                &&& b@.subrange(pos as int, p.1 as int) == key_json(KeyV::Jwk(p.0@))
                &&& forall|j: PublicKeyJwkV, rest: Seq<u8>|
                    #![trigger key_json(KeyV::Jwk(j)) + rest]
                    wf_jwk(j) && b@.skip(pos as int) == key_json(KeyV::Jwk(j)) + rest ==> j
                        == p.0@ && b@.skip(p.1 as int) == rest
            },
            Err(e) => e == Error::Format && (forall|j: PublicKeyJwkV, rest: Seq<u8>|
                #![trigger key_json(KeyV::Jwk(j)) + rest]
                wf_jwk(j) ==> b@.skip(pos as int) != key_json(KeyV::Jwk(j)) + rest),
        },
{
    proof {
        lemma_names_ok();
        lemma_names_injective();
    }
    let ljwk = v_jwk();
    let p1 = match expect(b, pos, ljwk.as_slice()) {
        Some(p) => p,
        None => {
            proof {
                assert forall|j: PublicKeyJwkV, rest: Seq<u8>| #![trigger key_json(KeyV::Jwk(j)) + rest] wf_jwk(j) implies b@.skip(
                    pos as int,
                ) != key_json(KeyV::Jwk(j)) + rest by {
                    if b@.skip(pos as int) == key_json(KeyV::Jwk(j)) + rest {
                        lemma_key_jwk_decompose(j, rest);
                        lemma_peel(b@, pos as int, lit_jwk(), jtail1(j, rest));
                    }
                }
            }
            return Err(Error::Format);
        },
    };
    proof {
        assert forall|j: PublicKeyJwkV, rest: Seq<u8>| #![trigger key_json(KeyV::Jwk(j)) + rest]
            wf_jwk(j) && b@.skip(pos as int) == key_json(KeyV::Jwk(j)) + rest implies b@.skip(
            p1 as int,
        ) == jtail1(j, rest) by {
            lemma_key_jwk_decompose(j, rest);
            lemma_peel(b@, pos as int, lit_jwk(), jtail1(j, rest));
        }
    }
    let (kty_chunk, p2) = match scan_string(b, p1) {
        Some(x) => x,
        None => {
            proof {
                assert forall|j: PublicKeyJwkV, rest: Seq<u8>| #![trigger key_json(KeyV::Jwk(j)) + rest] wf_jwk(j) implies b@.skip(
                    pos as int,
                ) != key_json(KeyV::Jwk(j)) + rest by {
                    if b@.skip(pos as int) == key_json(KeyV::Jwk(j)) + rest {
                        assert(b@.skip(p1 as int) == kty_name_bytes(j.kty) + lit_quote() + jtail2(
                            j,
                            rest,
                        ));
                    }
                }
            }
            return Err(Error::Format);
        },
    };
    let kty = match kty_of_chunk(kty_chunk.as_slice()) {
        Some(k) => k,
        None => {
            proof {
                assert forall|j: PublicKeyJwkV, rest: Seq<u8>| #![trigger key_json(KeyV::Jwk(j)) + rest] wf_jwk(j) implies b@.skip(
                    pos as int,
                ) != key_json(KeyV::Jwk(j)) + rest by {
                    if b@.skip(pos as int) == key_json(KeyV::Jwk(j)) + rest {
                        lemma_quote_split(
                            kty_chunk@,
                            b@.skip(p2 as int),
                            kty_name_bytes(j.kty),
                            jtail2(j, rest),
                        );
                    }
                }
            }
            return Err(Error::Format);
        },
    };
    proof {
        assert forall|j: PublicKeyJwkV, rest: Seq<u8>| #![trigger key_json(KeyV::Jwk(j)) + rest]
            wf_jwk(j) && b@.skip(pos as int) == key_json(KeyV::Jwk(j)) + rest implies j.kty == kty
            && b@.skip(p2 as int) == jtail2(j, rest) by {
            lemma_quote_split(
                kty_chunk@,
                b@.skip(p2 as int),
                kty_name_bytes(j.kty),
                jtail2(j, rest),
            );
        }
    }
    let lcrv = v_crv();
    let p3 = match expect(b, p2, lcrv.as_slice()) {
        Some(p) => p,
        None => {
            proof {
                assert forall|j: PublicKeyJwkV, rest: Seq<u8>| #![trigger key_json(KeyV::Jwk(j)) + rest] wf_jwk(j) implies b@.skip(
                    pos as int,
                ) != key_json(KeyV::Jwk(j)) + rest by {
                    if b@.skip(pos as int) == key_json(KeyV::Jwk(j)) + rest {
                        lemma_peel(b@, p2 as int, lit_crv(), jtail3(j, rest));
                    }
                }
            }
            return Err(Error::Format);
        },
    };
    let (crv_chunk, p4) = match scan_string(b, p3) {
        Some(x) => x,
        None => {
            proof {
                assert forall|j: PublicKeyJwkV, rest: Seq<u8>| #![trigger key_json(KeyV::Jwk(j)) + rest] wf_jwk(j) implies b@.skip(
                    pos as int,
                ) != key_json(KeyV::Jwk(j)) + rest by {
                    if b@.skip(pos as int) == key_json(KeyV::Jwk(j)) + rest {
                        lemma_peel(b@, p2 as int, lit_crv(), jtail3(j, rest));
                    }
                }
            }
            return Err(Error::Format);
        },
    };
    let crv = match crv_of_chunk(crv_chunk.as_slice()) {
        Some(c) => c,
        None => {
            proof {
                assert forall|j: PublicKeyJwkV, rest: Seq<u8>| #![trigger key_json(KeyV::Jwk(j)) + rest] wf_jwk(j) implies b@.skip(
                    pos as int,
                ) != key_json(KeyV::Jwk(j)) + rest by {
                    if b@.skip(pos as int) == key_json(KeyV::Jwk(j)) + rest {
                        lemma_peel(b@, p2 as int, lit_crv(), jtail3(j, rest));
                        lemma_quote_split(
                            crv_chunk@,
                            b@.skip(p4 as int),
                            crv_name_bytes(j.crv),
                            jtail4(j, rest),
                        );
                    }
                }
            }
            return Err(Error::Format);
        },
    };
    proof {
        assert forall|j: PublicKeyJwkV, rest: Seq<u8>| #![trigger key_json(KeyV::Jwk(j)) + rest]
            wf_jwk(j) && b@.skip(pos as int) == key_json(KeyV::Jwk(j)) + rest implies j.crv == crv
            && b@.skip(p4 as int) == jtail4(j, rest) by {
            lemma_peel(b@, p2 as int, lit_crv(), jtail3(j, rest));
            lemma_quote_split(
                crv_chunk@,
                b@.skip(p4 as int),
                crv_name_bytes(j.crv),
                jtail4(j, rest),
            );
        }
    }
    let lx = v_x();
    let p5 = match expect(b, p4, lx.as_slice()) {
        Some(p) => p,
        None => {
            proof {
                assert forall|j: PublicKeyJwkV, rest: Seq<u8>| #![trigger key_json(KeyV::Jwk(j)) + rest] wf_jwk(j) implies b@.skip(
                    pos as int,
                ) != key_json(KeyV::Jwk(j)) + rest by {
                    if b@.skip(pos as int) == key_json(KeyV::Jwk(j)) + rest {
                        lemma_peel(b@, p4 as int, lit_x(), jtail5(j, rest));
                    }
                }
            }
            return Err(Error::Format);
        },
    };
    let (x_str, p6) = match parse_value(b, p5) {
        Some(x) => x,
        None => {
            proof {
                assert forall|j: PublicKeyJwkV, rest: Seq<u8>| #![trigger key_json(KeyV::Jwk(j)) + rest] wf_jwk(j) implies b@.skip(
                    pos as int,
                ) != key_json(KeyV::Jwk(j)) + rest by {
                    if b@.skip(pos as int) == key_json(KeyV::Jwk(j)) + rest {
                        lemma_peel(b@, p4 as int, lit_x(), jtail5(j, rest));
                    }
                }
            }
            return Err(Error::Format);
        },
    };
    proof {
        assert forall|j: PublicKeyJwkV, rest: Seq<u8>| #![trigger key_json(KeyV::Jwk(j)) + rest]
            wf_jwk(j) && b@.skip(pos as int) == key_json(KeyV::Jwk(j)) + rest implies j.x == x_str@
            && b@.skip(p6 as int) == jrest_y(j, rest) by {
            lemma_peel(b@, p4 as int, lit_x(), jtail5(j, rest));
            lemma_quote_split(
                encode_utf8(x_str@),
                b@.skip(p6 as int),
                encode_utf8(j.x),
                jrest_y(j, rest),
            );
            vstd::utf8::encode_utf8_decode_utf8(x_str@);
            vstd::utf8::encode_utf8_decode_utf8(j.x);
        }
    }
    let ghost mid = b@.subrange(pos as int, p6 as int);
    proof {
        lemma_mid(b@, p5 as int, encode_utf8(x_str@) + lit_quote(), p6 as int);
        assert(mid =~= b@.subrange(pos as int, p1 as int) + b@.subrange(p1 as int, p2 as int)
            + b@.subrange(p2 as int, p3 as int) + b@.subrange(p3 as int, p4 as int) + b@.subrange(
            p4 as int,
            p5 as int,
        ) + b@.subrange(p5 as int, p6 as int));
        assert(b@.subrange(p1 as int, p2 as int) =~= kty_chunk@ + lit_quote());
        assert(b@.subrange(p3 as int, p4 as int) =~= crv_chunk@ + lit_quote());
        assert(mid =~= lit_jwk() + kty_name_bytes(kty) + lit_quote() + lit_crv() + crv_name_bytes(
            crv,
        ) + lit_quote() + lit_x() + encode_utf8(x_str@) + lit_quote());
    }
    parse_jwk_end(b, pos, p6, kty, crv, x_str, Ghost(mid))
}

/// Finish an embedded key: the optional `,"y":"<v>"` and the closing brace.
/// `mid` is the part already parsed, from the leading comma through the
/// quote closing the `x` value.
#[verifier::rlimit(100)]
#[verifier::spinoff_prover]
fn parse_jwk_end(
    b: &[u8],
    pos: usize,
    p6: usize,
    kty: KeyType,
    crv: Curve,
    x_str: String,
    Ghost(mid): Ghost<Seq<u8>>,
) -> (r: Result<(PublicKeyJwk, usize), Error>)
    requires
        pos <= p6 <= b@.len(),
        wf_str(x_str@),
        b@.subrange(pos as int, p6 as int) == mid,
        mid == lit_jwk() + kty_name_bytes(kty) + lit_quote() + lit_crv() + crv_name_bytes(crv)
            + lit_quote() + lit_x() + encode_utf8(x_str@) + lit_quote(),
        forall|j: PublicKeyJwkV, rest: Seq<u8>|
            #![trigger key_json(KeyV::Jwk(j)) + rest]
            wf_jwk(j) && b@.skip(pos as int) == key_json(KeyV::Jwk(j)) + rest ==> j.kty == kty
                && j.crv == crv && j.x == x_str@ && b@.skip(p6 as int) == jrest_y(j, rest),
    ensures
        match r {
            Ok(p) => {
                &&& pos < p.1 <= b@.len()
                &&& wf_jwk(p.0@)
                &&& b@.subrange(pos as int, p.1 as int) == key_json(KeyV::Jwk(p.0@))
                &&& forall|j: PublicKeyJwkV, rest: Seq<u8>|
                    #![trigger key_json(KeyV::Jwk(j)) + rest]
                    wf_jwk(j) && b@.skip(pos as int) == key_json(KeyV::Jwk(j)) + rest ==> j
                        == p.0@ && b@.skip(p.1 as int) == rest
            },
            Err(e) => e == Error::Format && (forall|j: PublicKeyJwkV, rest: Seq<u8>|
                #![trigger key_json(KeyV::Jwk(j)) + rest]
                wf_jwk(j) ==> b@.skip(pos as int) != key_json(KeyV::Jwk(j)) + rest),
        },
{
    let ly = v_y();
    match expect(b, p6, ly.as_slice()) {
        Some(p7) => {
            let (ys, p8) = match parse_value(b, p7) {
                Some(x) => x,
                None => {
                    proof {
                        assert forall|j: PublicKeyJwkV, rest: Seq<u8>| #![trigger key_json(KeyV::Jwk(j)) + rest] wf_jwk(j) implies b@.skip(
                            pos as int,
                        ) != key_json(KeyV::Jwk(j)) + rest by {
                            if b@.skip(pos as int) == key_json(KeyV::Jwk(j)) + rest {
                                match j.y {
                                    Some(y) => {
                                        lemma_peel(
                                            b@,
                                            p6 as int,
                                            lit_y(),
                                            encode_utf8(y) + lit_quote() + (lit_close() + rest),
                                        );
                                    },
                                    None => {
                                        assert(b@.skip(p6 as int)[0] == (lit_close() + rest)[0]);
                                        assert(b@.subrange(p6 as int, p6 + lit_y().len())[0]
                                            == b@.skip(p6 as int)[0]);
                                    },
                                }
                            }
                        }
                    }
                    return Err(Error::Format);
                },
            };
            let lc = v_close();
            let p9 = match expect(b, p8, lc.as_slice()) {
                Some(p) => p,
                None => {
                    proof {
                        assert forall|j: PublicKeyJwkV, rest: Seq<u8>| #![trigger key_json(KeyV::Jwk(j)) + rest] wf_jwk(j) implies b@.skip(
                            pos as int,
                        ) != key_json(KeyV::Jwk(j)) + rest by {
                            if b@.skip(pos as int) == key_json(KeyV::Jwk(j)) + rest {
                                match j.y {
                                    Some(y) => {
                                        lemma_peel(
                                            b@,
                                            p6 as int,
                                            lit_y(),
                                            encode_utf8(y) + lit_quote() + (lit_close() + rest),
                                        );
                                        lemma_quote_split(
                                            encode_utf8(ys@),
                                            b@.skip(p8 as int),
                                            encode_utf8(y),
                                            lit_close() + rest,
                                        );
                                        lemma_peel(b@, p8 as int, lit_close(), rest);
                                    },
                                    None => {
                                        assert(b@.skip(p6 as int)[0] == (lit_close() + rest)[0]);
                                        assert(b@.subrange(p6 as int, p6 + lit_y().len())[0]
                                            == b@.skip(p6 as int)[0]);
                                    },
                                }
                            }
                        }
                    }
                    return Err(Error::Format);
                },
            };
            let jwk = PublicKeyJwk { kty, crv, x: x_str, y: Some(ys) };
            proof {
                lemma_mid(b@, p7 as int, encode_utf8(ys@) + lit_quote(), p8 as int);
                assert(b@.subrange(pos as int, p9 as int) =~= mid + b@.subrange(
                    p6 as int,
                    p7 as int,
                ) + b@.subrange(p7 as int, p8 as int) + b@.subrange(p8 as int, p9 as int));
                assert(b@.subrange(pos as int, p9 as int) =~= key_json(KeyV::Jwk(jwk@)));
                assert forall|j: PublicKeyJwkV, rest: Seq<u8>| #![trigger key_json(KeyV::Jwk(j)) + rest]
                    wf_jwk(j) && b@.skip(pos as int) == key_json(KeyV::Jwk(j)) + rest implies j
                    == jwk@ && b@.skip(p9 as int) == rest by {
                    match j.y {
                        Some(y) => {
                            lemma_peel(
                                b@,
                                p6 as int,
                                lit_y(),
                                encode_utf8(y) + lit_quote() + (lit_close() + rest),
                            );
                            lemma_quote_split(
                                encode_utf8(ys@),
                                b@.skip(p8 as int),
                                encode_utf8(y),
                                lit_close() + rest,
                            );
                            vstd::utf8::encode_utf8_decode_utf8(ys@);
                            vstd::utf8::encode_utf8_decode_utf8(y);
                            lemma_peel(b@, p8 as int, lit_close(), rest);
                            assert(j =~= jwk@);
                        },
                        None => {
                            assert(b@.skip(p6 as int)[0] == (lit_close() + rest)[0]);
                            assert(b@.subrange(p6 as int, p6 + lit_y().len())[0] == b@.skip(
                                p6 as int,
                            )[0]);
                        },
                    }
                }
            }
            Ok((jwk, p9))
        },
        None => {
            let lc = v_close();
            let p9 = match expect(b, p6, lc.as_slice()) {
                Some(p) => p,
                None => {
                    proof {
                        assert forall|j: PublicKeyJwkV, rest: Seq<u8>| #![trigger key_json(KeyV::Jwk(j)) + rest] wf_jwk(j) implies b@.skip(
                            pos as int,
                        ) != key_json(KeyV::Jwk(j)) + rest by {
                            if b@.skip(pos as int) == key_json(KeyV::Jwk(j)) + rest {
                                match j.y {
                                    Some(y) => {
                                        lemma_peel(
                                            b@,
                                            p6 as int,
                                            lit_y(),
                                            encode_utf8(y) + lit_quote() + (lit_close() + rest),
                                        );
                                    },
                                    None => {
                                        lemma_peel(b@, p6 as int, lit_close(), rest);
                                    },
                                }
                            }
                        }
                    }
                    return Err(Error::Format);
                },
            };
            let jwk = PublicKeyJwk { kty, crv, x: x_str, y: None };
            proof {
                assert(b@.subrange(pos as int, p9 as int) =~= mid + b@.subrange(
                    p6 as int,
                    p9 as int,
                ));
                assert(b@.subrange(pos as int, p9 as int) =~= key_json(KeyV::Jwk(jwk@)));
                assert forall|j: PublicKeyJwkV, rest: Seq<u8>| #![trigger key_json(KeyV::Jwk(j)) + rest]
                    wf_jwk(j) && b@.skip(pos as int) == key_json(KeyV::Jwk(j)) + rest implies j
                    == jwk@ && b@.skip(p9 as int) == rest by {
                    match j.y {
                        Some(y) => {
                            assert(b@.skip(p6 as int)[0] == (lit_y() + (encode_utf8(y)
                                + lit_quote() + (lit_close() + rest)))[0]);
                            assert(b@.subrange(p6 as int, p6 + lit_y().len())[0] == b@.skip(
                                p6 as int,
                            )[0]);
                        },
                        None => {
                            lemma_peel(b@, p6 as int, lit_close(), rest);
                            assert(j =~= jwk@);
                        },
                    }
                }
            }
            Ok((jwk, p9))
        },
    }
}

/// Parse the key reference: `,"kid":"<v>"`, or `,"jwk":{...}`. The grammar
/// is self-delimiting, so on success any decomposition of the tail at `pos`
/// into a well-formed key reference plus a remainder is exactly the one
/// returned.
#[verifier::rlimit(100)]
#[verifier::spinoff_prover]
fn parse_key(b: &[u8], pos: usize) -> (r: Result<(Key, usize), Error>)
    requires
        pos <= b@.len(),
    ensures
        match r {
            Ok(p) => {
                &&& pos < p.1 <= b@.len()
                &&& wf_key(p.0@)
                &&& b@.subrange(pos as int, p.1 as int) == key_json(p.0@)
                &&& forall|kv: KeyV, rest: Seq<u8>|
                    #![trigger key_json(kv) + rest]
                    wf_key(kv) && b@.skip(pos as int) == key_json(kv) + rest ==> kv == p.0@
                        && b@.skip(p.1 as int) == rest
            },
            Err(e) => e == Error::Format && (forall|kv: KeyV, rest: Seq<u8>|
                #![trigger key_json(kv) + rest]
                wf_key(kv) ==> b@.skip(pos as int) != key_json(kv) + rest),
        },
{
    let lkid = v_kid();
    match expect(b, pos, lkid.as_slice()) {
        Some(p1) => {
            match parse_value(b, p1) {
                Some((s, p2)) => {
                    proof {
                        lemma_mid(b@, p1 as int, encode_utf8(s@) + lit_quote(), p2 as int);
                        assert(b@.subrange(pos as int, p2 as int) =~= b@.subrange(
                            pos as int,
                            p1 as int,
                        ) + b@.subrange(p1 as int, p2 as int));
                        assert(b@.subrange(pos as int, p2 as int) =~= key_json(KeyV::KeyId(s@)));
                        assert forall|kv: KeyV, rest: Seq<u8>| #![trigger key_json(kv) + rest]
                            wf_key(kv) && b@.skip(pos as int) == key_json(kv) + rest implies kv
                            == KeyV::KeyId(s@) && b@.skip(p2 as int) == rest by {
                            match kv {
                                KeyV::KeyId(kid) => {
                                    lemma_key_kid_decompose(kid, rest);
                                    lemma_peel(
                                        b@,
                                        pos as int,
                                        lit_kid(),
                                        encode_utf8(kid) + lit_quote() + rest,
                                    );
                                    lemma_quote_split(
                                        encode_utf8(s@),
                                        b@.skip(p2 as int),
                                        encode_utf8(kid),
                                        rest,
                                    );
                                    vstd::utf8::encode_utf8_decode_utf8(s@);
                                    vstd::utf8::encode_utf8_decode_utf8(kid);
                                    assert(kv =~= KeyV::KeyId(s@));
                                },
                                KeyV::Jwk(j) => {
                                    lemma_key_jwk_decompose(j, rest);
                                    lemma_peel(b@, pos as int, lit_jwk(), jtail1(j, rest));
                                    assert(b@[pos + 2] == b@.subrange(
                                        pos as int,
                                        pos + lit_jwk().len(),
                                    )[2]);
                                    assert(b@[pos + 2] == b@.subrange(pos as int, p1 as int)[2]);
                                    assert(false);
                                },
                            }
                        }
                    }
                    Ok((Key::KeyId(s), p2))
                },
                None => {
                    proof {
                        assert forall|kv: KeyV, rest: Seq<u8>| #![trigger key_json(kv) + rest] wf_key(kv) implies b@.skip(
                            pos as int,
                        ) != key_json(kv) + rest by {
                            if b@.skip(pos as int) == key_json(kv) + rest {
                                match kv {
                                    KeyV::KeyId(kid) => {
                                        lemma_key_kid_decompose(kid, rest);
                                        lemma_peel(
                                            b@,
                                            pos as int,
                                            lit_kid(),
                                            encode_utf8(kid) + lit_quote() + rest,
                                        );
                                    },
                                    KeyV::Jwk(j) => {
                                        lemma_key_jwk_decompose(j, rest);
                                        lemma_peel(b@, pos as int, lit_jwk(), jtail1(j, rest));
                                        assert(b@[pos + 2] == b@.subrange(
                                            pos as int,
                                            pos + lit_jwk().len(),
                                        )[2]);
                                        assert(b@[pos + 2] == b@.subrange(
                                            pos as int,
                                            p1 as int,
                                        )[2]);
                                    },
                                }
                            }
                        }
                    }
                    Err(Error::Format)
                },
            }
        },
        None => {
            match parse_jwk(b, pos) {
                Ok((jwk, p9)) => {
                    let key = Key::Jwk(jwk);
                    proof {
                        assert forall|kv: KeyV, rest: Seq<u8>| #![trigger key_json(kv) + rest]
                            wf_key(kv) && b@.skip(pos as int) == key_json(kv) + rest implies kv
                            == key@ && b@.skip(p9 as int) == rest by {
                            match kv {
                                KeyV::KeyId(kid) => {
                                    lemma_key_kid_decompose(kid, rest);
                                    lemma_peel(
                                        b@,
                                        pos as int,
                                        lit_kid(),
                                        encode_utf8(kid) + lit_quote() + rest,
                                    );
                                },
                                KeyV::Jwk(j) => {
                                    assert(kv =~= key@);
                                },
                            }
                        }
                    }
                    Ok((key, p9))
                },
                Err(e) => {
                    proof {
                        assert forall|kv: KeyV, rest: Seq<u8>| #![trigger key_json(kv) + rest] wf_key(kv) implies b@.skip(
                            pos as int,
                        ) != key_json(kv) + rest by {
                            if b@.skip(pos as int) == key_json(kv) + rest {
                                match kv {
                                    KeyV::KeyId(kid) => {
                                        lemma_key_kid_decompose(kid, rest);
                                        lemma_peel(
                                            b@,
                                            pos as int,
                                            lit_kid(),
                                            encode_utf8(kid) + lit_quote() + rest,
                                        );
                                    },
                                    KeyV::Jwk(j) => {},
                                }
                            }
                        }
                    }
                    Err(e)
                },
            }
        },
    }
}

/// Parse the optional `x5c` and `trust_chain` fields and the closing brace,
/// consuming the input to its end. Self-delimiting against the end of input:
/// on success any well-formed pair of optional values whose JSON is the tail
/// at `pos` is exactly the returned pair.
#[verifier::rlimit(100)]
#[verifier::spinoff_prover]
fn parse_opts(b: &[u8], pos: usize) -> (r: Result<(Option<String>, Option<String>), Error>)
    requires
        pos <= b@.len(),
    ensures
        match r {
            Ok(p) => {
                &&& wf_opt(opt_view(p.0))
                &&& wf_opt(opt_view(p.1))
                &&& b@.skip(pos as int) == x5c_json(opt_view(p.0)) + trust_chain_json(
                    opt_view(p.1),
                ) + lit_close()
                &&& forall|q1: Option<Seq<char>>, q2: Option<Seq<char>>|
                    #![trigger x5c_json(q1) + trust_chain_json(q2)]
                    wf_opt(q1) && wf_opt(q2) && b@.skip(pos as int) == x5c_json(q1)
                        + trust_chain_json(q2) + lit_close() ==> q1 == opt_view(p.0) && q2
                        == opt_view(p.1)
            },
            Err(e) => e == Error::Format && (forall|q1: Option<Seq<char>>, q2: Option<Seq<char>>|
                #![trigger x5c_json(q1) + trust_chain_json(q2)]
                wf_opt(q1) && wf_opt(q2) ==> b@.skip(pos as int) != x5c_json(q1)
                    + trust_chain_json(q2) + lit_close()),
        },
{
    let lx5 = v_x5c();
    let (x5, posa) = match expect(b, pos, lx5.as_slice()) {
        Some(p1) => {
            match parse_value(b, p1) {
                Some((s, p2)) => {
                    proof {
                        lemma_mid(b@, p1 as int, encode_utf8(s@) + lit_quote(), p2 as int);
                        assert(b@.subrange(pos as int, p2 as int) =~= b@.subrange(
                            pos as int,
                            p1 as int,
                        ) + b@.subrange(p1 as int, p2 as int));
                        assert(b@.subrange(pos as int, p2 as int) =~= x5c_json(Some(s@)));
                        assert forall|q1: Option<Seq<char>>, q2: Option<Seq<char>>|
                            #![trigger x5c_json(q1) + trust_chain_json(q2)]
                            wf_opt(q1) && wf_opt(q2) && b@.skip(pos as int) == x5c_json(q1)
                                + trust_chain_json(q2) + lit_close() implies q1 == Some(s@)
                            && b@.skip(p2 as int) == tc_tail(q2) by {
                            lemma_opts_decompose(q1, q2);
                            match q1 {
                                Some(t) => {
                                    lemma_peel(
                                        b@,
                                        pos as int,
                                        lit_x5c(),
                                        encode_utf8(t) + lit_quote() + tc_tail(q2),
                                    );
                                    lemma_quote_split(
                                        encode_utf8(s@),
                                        b@.skip(p2 as int),
                                        encode_utf8(t),
                                        tc_tail(q2),
                                    );
                                    vstd::utf8::encode_utf8_decode_utf8(s@);
                                    vstd::utf8::encode_utf8_decode_utf8(t);
                                },
                                None => {
                                    match q2 {
                                        Some(t) => {
                                            lemma_peel(
                                                b@,
                                                pos as int,
                                                lit_trust_chain(),
                                                encode_utf8(t) + lit_quote() + lit_close(),
                                            );
                                            assert(b@[pos + 2] == b@.subrange(
                                                pos as int,
                                                pos + lit_trust_chain().len(),
                                            )[2]);
                                            assert(b@[pos + 2] == b@.subrange(
                                                pos as int,
                                                p1 as int,
                                            )[2]);
                                        },
                                        None => {
                                            assert(b@.skip(pos as int)[0] == lit_close()[0]);
                                            assert(b@.subrange(pos as int, p1 as int)[0]
                                                == b@.skip(pos as int)[0]);
                                        },
                                    }
                                },
                            }
                        }
                    }
                    (Some(s), p2)
                },
                None => {
                    proof {
                        assert forall|q1: Option<Seq<char>>, q2: Option<Seq<char>>|
                            #![trigger x5c_json(q1) + trust_chain_json(q2)]
                            wf_opt(q1) && wf_opt(q2) implies b@.skip(pos as int) != x5c_json(q1)
                            + trust_chain_json(q2) + lit_close() by {
                            if b@.skip(pos as int) == x5c_json(q1) + trust_chain_json(q2)
                                + lit_close() {
                                lemma_opts_decompose(q1, q2);
                                match q1 {
                                    Some(t) => {
                                        lemma_peel(
                                            b@,
                                            pos as int,
                                            lit_x5c(),
                                            encode_utf8(t) + lit_quote() + tc_tail(q2),
                                        );
                                    },
                                    None => {
                                        match q2 {
                                            Some(t) => {
                                                lemma_peel(
                                                    b@,
                                                    pos as int,
                                                    lit_trust_chain(),
                                                    encode_utf8(t) + lit_quote() + lit_close(),
                                                );
                                                assert(b@[pos + 2] == b@.subrange(
                                                    pos as int,
                                                    pos + lit_trust_chain().len(),
                                                )[2]);
                                                assert(b@[pos + 2] == b@.subrange(
                                                    pos as int,
                                                    p1 as int,
                                                )[2]);
                                            },
                                            None => {
                                                assert(b@.skip(pos as int)[0] == lit_close()[0]);
                                                assert(b@.subrange(pos as int, p1 as int)[0]
                                                    == b@.skip(pos as int)[0]);
                                            },
                                        }
                                    },
                                }
                            }
                        }
                    }
                    return Err(Error::Format);
                },
            }
        },
        None => {
            proof {
                assert forall|q1: Option<Seq<char>>, q2: Option<Seq<char>>|
                    #![trigger x5c_json(q1) + trust_chain_json(q2)]
                    wf_opt(q1) && wf_opt(q2) && b@.skip(pos as int) == x5c_json(q1)
                        + trust_chain_json(q2) + lit_close() implies q1 == None::<Seq<char>>
                    && b@.skip(pos as int) == tc_tail(q2) by {
                    lemma_opts_decompose(q1, q2);
                    match q1 {
                        Some(t) => {
                            lemma_peel(
                                b@,
                                pos as int,
                                lit_x5c(),
                                encode_utf8(t) + lit_quote() + tc_tail(q2),
                            );
                        },
                        None => {},
                    }
                }
            }
            (None, pos)
        },
    };
    // The trust-chain decision point: either its literal, or the closing
    // brace.
    let ltc = v_trust_chain();
    let (tc, posb) = match expect(b, posa, ltc.as_slice()) {
        Some(p1) => {
            match parse_value(b, p1) {
                Some((s, p2)) => {
                    proof {
                        lemma_mid(b@, p1 as int, encode_utf8(s@) + lit_quote(), p2 as int);
                        assert(b@.subrange(posa as int, p2 as int) =~= b@.subrange(
                            posa as int,
                            p1 as int,
                        ) + b@.subrange(p1 as int, p2 as int));
                        assert(b@.subrange(posa as int, p2 as int) =~= trust_chain_json(
                            Some(s@),
                        ));
                        assert forall|q2: Option<Seq<char>>|
                            #![trigger tc_tail(q2)]
                            wf_opt(q2) && b@.skip(posa as int) == tc_tail(q2) implies q2 == Some(
                            s@,
                        ) && b@.skip(p2 as int) == lit_close() by {
                            match q2 {
                                Some(t) => {
                                    lemma_peel(
                                        b@,
                                        posa as int,
                                        lit_trust_chain(),
                                        encode_utf8(t) + lit_quote() + lit_close(),
                                    );
                                    lemma_quote_split(
                                        encode_utf8(s@),
                                        b@.skip(p2 as int),
                                        encode_utf8(t),
                                        lit_close(),
                                    );
                                    vstd::utf8::encode_utf8_decode_utf8(s@);
                                    vstd::utf8::encode_utf8_decode_utf8(t);
                                },
                                None => {
                                    assert(b@.skip(posa as int)[0] == lit_close()[0]);
                                    assert(b@.subrange(posa as int, p1 as int)[0] == b@.skip(
                                        posa as int,
                                    )[0]);
                                },
                            }
                        }
                    }
                    (Some(s), p2)
                },
                None => {
                    proof {
                        assert forall|q2: Option<Seq<char>>| #![trigger tc_tail(q2)]
                            wf_opt(q2) implies b@.skip(posa as int) != tc_tail(q2) by {
                            if b@.skip(posa as int) == tc_tail(q2) {
                                match q2 {
                                    Some(t) => {
                                        lemma_peel(
                                            b@,
                                            posa as int,
                                            lit_trust_chain(),
                                            encode_utf8(t) + lit_quote() + lit_close(),
                                        );
                                    },
                                    None => {
                                        assert(b@.skip(posa as int)[0] == lit_close()[0]);
                                        assert(b@.subrange(posa as int, p1 as int)[0] == b@.skip(
                                            posa as int,
                                        )[0]);
                                    },
                                }
                            }
                        }
                        assert forall|q1: Option<Seq<char>>, q2: Option<Seq<char>>|
                            #![trigger x5c_json(q1) + trust_chain_json(q2)]
                            wf_opt(q1) && wf_opt(q2) implies b@.skip(pos as int) != x5c_json(q1)
                            + trust_chain_json(q2) + lit_close() by {
                            if b@.skip(pos as int) == x5c_json(q1) + trust_chain_json(q2)
                                + lit_close() {
                                assert(tc_tail(q2) != b@.skip(posa as int));
                            }
                        }
                    }
                    return Err(Error::Format);
                },
            }
        },
        None => {
            proof {
                assert forall|q2: Option<Seq<char>>| #![trigger tc_tail(q2)]
                    wf_opt(q2) && b@.skip(posa as int) == tc_tail(q2) implies q2 == None::<
                    Seq<char>,
                > && b@.skip(posa as int) == lit_close() by {
                    match q2 {
                        Some(t) => {
                            lemma_peel(
                                b@,
                                posa as int,
                                lit_trust_chain(),
                                encode_utf8(t) + lit_quote() + lit_close(),
                            );
                        },
                        None => {},
                    }
                }
            }
            (None, posa)
        },
    };
    // The closing brace, which must end the input.
    let lc = v_close();
    match expect(b, posb, lc.as_slice()) {
        Some(pe) => {
            if pe == b.len() {
                proof {
                    assert(b@.skip(posb as int) =~= lit_close());
                    assert(b@.subrange(pos as int, posa as int) == x5c_json(opt_view(x5)));
                    assert(b@.subrange(posa as int, posb as int) == trust_chain_json(
                        opt_view(tc),
                    ));
                    assert(b@.skip(pos as int) =~= b@.subrange(pos as int, posa as int)
                        + b@.subrange(posa as int, posb as int) + b@.skip(posb as int));
                    assert(b@.skip(pos as int) =~= x5c_json(opt_view(x5)) + trust_chain_json(
                        opt_view(tc),
                    ) + lit_close());
                    assert forall|q1: Option<Seq<char>>, q2: Option<Seq<char>>|
                        #![trigger x5c_json(q1) + trust_chain_json(q2)]
                        wf_opt(q1) && wf_opt(q2) && b@.skip(pos as int) == x5c_json(q1)
                            + trust_chain_json(q2) + lit_close() implies q1 == opt_view(x5) && q2
                        == opt_view(tc) by {
                        assert(b@.skip(posa as int) == tc_tail(q2));
                    }
                }
                Ok((x5, tc))
            } else {
                proof {
                    assert forall|q1: Option<Seq<char>>, q2: Option<Seq<char>>|
                        #![trigger x5c_json(q1) + trust_chain_json(q2)]
                        wf_opt(q1) && wf_opt(q2) implies b@.skip(pos as int) != x5c_json(q1)
                        + trust_chain_json(q2) + lit_close() by {
                        if b@.skip(pos as int) == x5c_json(q1) + trust_chain_json(q2)
                            + lit_close() {
                            assert(b@.skip(posa as int) == tc_tail(q2));
                            assert(b@.skip(posb as int) == lit_close());
                        }
                    }
                }
                Err(Error::Format)
            }
        },
        None => {
            proof {
                assert forall|q1: Option<Seq<char>>, q2: Option<Seq<char>>|
                    #![trigger x5c_json(q1) + trust_chain_json(q2)]
                    wf_opt(q1) && wf_opt(q2) implies b@.skip(pos as int) != x5c_json(q1)
                    + trust_chain_json(q2) + lit_close() by {
                    if b@.skip(pos as int) == x5c_json(q1) + trust_chain_json(q2) + lit_close() {
                        assert(b@.skip(posa as int) == tc_tail(q2));
                        assert(b@.skip(posb as int) == lit_close());
                        lemma_peel(b@, posb as int, lit_close(), Seq::<u8>::empty());
                        assert(lit_close() + Seq::<u8>::empty() =~= lit_close());
                    }
                }
            }
            Err(Error::Format)
        },
    }
}

/// Parse a header's canonical JSON. Decoding is exactly the inverse of
/// [`encode_header_json`]: it succeeds precisely on the canonical JSON of a
/// well-formed header, and returns that header.
#[verifier::rlimit(100)]
#[verifier::spinoff_prover]
pub fn parse_header_json(b: &[u8]) -> (r: Result<Protected, Error>)
    ensures
        match r {
            Ok(h) => {
                &&& wf_header(h@)
                &&& b@ == header_json(h@)
                &&& forall|hv: ProtectedV| wf_header(hv) && b@ == header_json(hv) ==> hv == h@
            },
            Err(e) => e == Error::Format && (forall|hv: ProtectedV|
                wf_header(hv) ==> b@ != header_json(hv)),
        },
{
    let (alg, typ, p1) = match parse_prefix(b) {
        Ok(x) => x,
        Err(e) => {
            return Err(e);
        },
    };
    let (key, p2) = match parse_key(b, p1) {
        Ok(x) => x,
        Err(e) => {
            proof {
                assert forall|hv: ProtectedV| wf_header(hv) implies b@ != header_json(hv) by {
                    if b@ == header_json(hv) {
                        assert(b@.skip(p1 as int) == rest_key(hv));
                        assert(key_json(hv.key) + rest_opts(hv) == rest_key(hv));
                    }
                }
            }
            return Err(Error::Format);
        },
    };
    let (x5, tc) = match parse_opts(b, p2) {
        Ok(x) => x,
        Err(e) => {
            proof {
                assert forall|hv: ProtectedV| wf_header(hv) implies b@ != header_json(hv) by {
                    if b@ == header_json(hv) {
                        assert(b@.skip(p1 as int) == rest_key(hv));
                        assert(key_json(hv.key) + rest_opts(hv) == rest_key(hv));
                        assert(b@.skip(p2 as int) == rest_opts(hv));
                        assert(x5c_json(hv.x5c) + trust_chain_json(hv.trust_chain) + lit_close()
                            == rest_opts(hv));
                    }
                }
            }
            return Err(Error::Format);
        },
    };
    let h = Protected { alg, typ, key, x5c: x5, trust_chain: tc };
    proof {
        assert(b@ =~= b@.subrange(0, p1 as int) + b@.subrange(p1 as int, p2 as int) + b@.skip(
            p2 as int,
        ));
        assert(b@ =~= header_json(h@));
        assert forall|hv: ProtectedV| wf_header(hv) && b@ == header_json(hv) implies hv == h@ by {
            assert(b@.skip(p1 as int) == rest_key(hv));
            assert(key_json(hv.key) + rest_opts(hv) == rest_key(hv));
            assert(b@.skip(p2 as int) == rest_opts(hv));
            assert(x5c_json(hv.x5c) + trust_chain_json(hv.trust_chain) + lit_close() == rest_opts(
                hv,
            ));
            assert(hv =~= h@);
        }
    }
    Ok(h)
}

impl Protected {
    /// The base64url form of this header's canonical JSON: the string that
    /// stands as the first segment of a compact token.
    pub fn encode(&self) -> (r: Result<String, Error>)
        ensures
            match r {
                Ok(s) => {
                    &&& wf_header(self@)
                    &&& s@ == crate::b64::b64url_chars(header_json(self@))
                    &&& forall|i: int|
                        0 <= i < s@.len() ==> crate::b64::is_b64url_char(#[trigger] s@[i])
                },
                Err(e) => e == Error::Format && !wf_header(self@),
            },
    {
        match encode_header_json(self) {
            Ok(v) => Ok(crate::b64::b64url_encode(v.as_slice())),
            Err(e) => Err(e),
        }
    }

    /// Decode a base64url header segment: the inverse of [`Protected::encode`].
    /// Succeeds exactly on the encodings that `encode` produces, and returns
    /// the one header that produces them.
    pub fn decode(s: &str) -> (r: Result<Protected, Error>)
        ensures
            match r {
                Ok(h) => {
                    &&& wf_header(h@)
                    &&& s@ == crate::b64::b64url_chars(header_json(h@))
                    &&& forall|hv: ProtectedV|
                        wf_header(hv) && s@ == crate::b64::b64url_chars(header_json(hv)) ==> hv
                            == h@
                },
                Err(e) => e == Error::Format && (forall|hv: ProtectedV|
                    wf_header(hv) ==> s@ != crate::b64::b64url_chars(header_json(hv))),
            },
    {
        match crate::b64::b64url_decode(s) {
            None => Err(Error::Format),
            Some(v) => {
                match parse_header_json(v.as_slice()) {
                    Ok(h) => {
                        proof {
                            assert forall|hv: ProtectedV|
                                wf_header(hv) && s@ == crate::b64::b64url_chars(
                                    header_json(hv),
                                ) implies hv == h@ by {
                                assert(header_json(hv) == v@);
                            }
                        }
                        Ok(h)
                    },
                    Err(e) => {
                        proof {
                            assert forall|hv: ProtectedV| wf_header(hv) implies s@
                                != crate::b64::b64url_chars(header_json(hv)) by {
                                if s@ == crate::b64::b64url_chars(header_json(hv)) {
                                    assert(header_json(hv) == v@);
                                }
                            }
                        }
                        Err(e)
                    },
                }
            },
        }
    }

    /// The key identifier, when the key reference is an identifier.
    pub fn kid(&self) -> (r: Option<&str>)
        ensures
            match r {
                Some(s) => self@.key matches KeyV::KeyId(k) && k == s@,
                None => self@.key is Jwk,
            },
    {
        match &self.key {
            Key::KeyId(kid) => Some(kid.as_str()),
            Key::Jwk(_) => None,
        }
    }

    /// The embedded public key, when the key reference embeds one.
    pub fn jwk(&self) -> (r: Option<&PublicKeyJwk>)
        ensures
            match r {
                Some(k) => self@.key matches KeyV::Jwk(j) && j == k@,
                None => self@.key is KeyId,
            },
    {
        match &self.key {
            Key::Jwk(jwk) => Some(jwk),
            Key::KeyId(_) => None,
        }
    }

    /// A field-by-field copy, with the model pinned to the original's.
    pub fn duplicate(&self) -> (r: Self)
        ensures
            r@ == self@,
    {
        let r = Protected {
            alg: self.alg,
            typ: self.typ,
            key: match &self.key {
                Key::KeyId(kid) => Key::KeyId(kid.clone()),
                Key::Jwk(j) => Key::Jwk(j.duplicate()),
            },
            x5c: match &self.x5c {
                Some(s) => Some(s.clone()),
                None => None,
            },
            trust_chain: match &self.trust_chain {
                Some(s) => Some(s.clone()),
                None => None,
            },
        };
        assert(r@ =~= self@);
        r
    }
}


/// Cancelling a shared prefix of two equal concatenations.
pub proof fn lemma_cancel(p: Seq<u8>, x: Seq<u8>, y: Seq<u8>)
    requires
        p + x == p + y,
    ensures
        x == y,
{
    assert((p + x).len() == p.len() + x.len());
    assert((p + y).len() == p.len() + y.len());
    assert(x.len() == y.len());
    assert(x =~= y) by {
        assert forall|i: int| 0 <= i < x.len() implies x[i] == y[i] by {
            assert((p + x)[p.len() + i] == x[i]);
            assert((p + y)[p.len() + i] == y[i]);
            assert((p + x)[p.len() + i] == (p + y)[p.len() + i]);
        }
    }
}

/// The canonical JSON codec is injective: two well-formed headers with the
/// same canonical JSON are the same header. This is what lets a decoded
/// header stand for the one the encoder produced.
#[verifier::rlimit(100)]
#[verifier::spinoff_prover]
pub proof fn lemma_header_json_injective(h1: ProtectedV, h2: ProtectedV)
    requires
        wf_header(h1),
        wf_header(h2),
        header_json(h1) == header_json(h2),
    ensures
        h1 == h2,
{
    lemma_names_ok();
    lemma_names_injective();
    lemma_decompose(h1);
    lemma_decompose(h2);
    lemma_cancel(lit_open_alg(), rest_alg(h1), rest_alg(h2));
    let r1 = lit_typ() + (typ_name_bytes(h1.typ) + lit_quote() + rest_key(h1));
    let r2 = lit_typ() + (typ_name_bytes(h2.typ) + lit_quote() + rest_key(h2));
    lemma_quote_split(alg_name_bytes(h1.alg), r1, alg_name_bytes(h2.alg), r2);
    assert(h1.alg == h2.alg);
    lemma_cancel(
        lit_typ(),
        typ_name_bytes(h1.typ) + lit_quote() + rest_key(h1),
        typ_name_bytes(h2.typ) + lit_quote() + rest_key(h2),
    );
    lemma_quote_split(typ_name_bytes(h1.typ), rest_key(h1), typ_name_bytes(h2.typ), rest_key(h2));
    assert(h1.typ == h2.typ);
    // The key reference.
    match (h1.key, h2.key) {
        (KeyV::KeyId(k1), KeyV::KeyId(k2)) => {
            lemma_key_kid_decompose(k1, rest_opts(h1));
            lemma_key_kid_decompose(k2, rest_opts(h2));
            lemma_cancel(
                lit_kid(),
                encode_utf8(k1) + lit_quote() + rest_opts(h1),
                encode_utf8(k2) + lit_quote() + rest_opts(h2),
            );
            lemma_quote_split(encode_utf8(k1), rest_opts(h1), encode_utf8(k2), rest_opts(h2));
            vstd::utf8::encode_utf8_decode_utf8(k1);
            vstd::utf8::encode_utf8_decode_utf8(k2);
            assert(h1.key == h2.key);
        },
        (KeyV::Jwk(j1), KeyV::Jwk(j2)) => {
            lemma_key_jwk_decompose(j1, rest_opts(h1));
            lemma_key_jwk_decompose(j2, rest_opts(h2));
            lemma_cancel(lit_jwk(), jtail1(j1, rest_opts(h1)), jtail1(j2, rest_opts(h2)));
            lemma_quote_split(
                kty_name_bytes(j1.kty),
                jtail2(j1, rest_opts(h1)),
                kty_name_bytes(j2.kty),
                jtail2(j2, rest_opts(h2)),
            );
            assert(j1.kty == j2.kty);
            lemma_cancel(lit_crv(), jtail3(j1, rest_opts(h1)), jtail3(j2, rest_opts(h2)));
            lemma_quote_split(
                crv_name_bytes(j1.crv),
                jtail4(j1, rest_opts(h1)),
                crv_name_bytes(j2.crv),
                jtail4(j2, rest_opts(h2)),
            );
            assert(j1.crv == j2.crv);
            lemma_cancel(lit_x(), jtail5(j1, rest_opts(h1)), jtail5(j2, rest_opts(h2)));
            lemma_quote_split(
                encode_utf8(j1.x),
                jrest_y(j1, rest_opts(h1)),
                encode_utf8(j2.x),
                jrest_y(j2, rest_opts(h2)),
            );
            vstd::utf8::encode_utf8_decode_utf8(j1.x);
            vstd::utf8::encode_utf8_decode_utf8(j2.x);
            assert(j1.x == j2.x);
            match (j1.y, j2.y) {
                (Some(y1), Some(y2)) => {
                    lemma_cancel(
                        lit_y(),
                        encode_utf8(y1) + lit_quote() + (lit_close() + rest_opts(h1)),
                        encode_utf8(y2) + lit_quote() + (lit_close() + rest_opts(h2)),
                    );
                    lemma_quote_split(
                        encode_utf8(y1),
                        lit_close() + rest_opts(h1),
                        encode_utf8(y2),
                        lit_close() + rest_opts(h2),
                    );
                    vstd::utf8::encode_utf8_decode_utf8(y1);
                    vstd::utf8::encode_utf8_decode_utf8(y2);
                    lemma_cancel(lit_close(), rest_opts(h1), rest_opts(h2));
                    assert(h1.key =~= h2.key);
                },
                (None, None) => {
                    lemma_cancel(lit_close(), rest_opts(h1), rest_opts(h2));
                    assert(h1.key =~= h2.key);
                },
                (Some(y1), None) => {
                    assert(jrest_y(j1, rest_opts(h1))[0] == 44);
                    assert(jrest_y(j2, rest_opts(h2))[0] == 125);
                },
                (None, Some(y2)) => {
                    assert(jrest_y(j1, rest_opts(h1))[0] == 125);
                    assert(jrest_y(j2, rest_opts(h2))[0] == 44);
                },
            }
        },
        (KeyV::KeyId(k1), KeyV::Jwk(j2)) => {
            lemma_key_kid_decompose(k1, rest_opts(h1));
            lemma_key_jwk_decompose(j2, rest_opts(h2));
            assert(rest_key(h1)[2] == lit_kid()[2]);
            assert(rest_key(h2)[2] == lit_jwk()[2]);
        },
        (KeyV::Jwk(j1), KeyV::KeyId(k2)) => {
            lemma_key_jwk_decompose(j1, rest_opts(h1));
            lemma_key_kid_decompose(k2, rest_opts(h2));
            assert(rest_key(h1)[2] == lit_jwk()[2]);
            assert(rest_key(h2)[2] == lit_kid()[2]);
        },
    }
    // The optional fields.
    lemma_opts_decompose(h1.x5c, h1.trust_chain);
    lemma_opts_decompose(h2.x5c, h2.trust_chain);
    match (h1.x5c, h2.x5c) {
        (Some(s1), Some(s2)) => {
            lemma_cancel(
                lit_x5c(),
                encode_utf8(s1) + lit_quote() + tc_tail(h1.trust_chain),
                encode_utf8(s2) + lit_quote() + tc_tail(h2.trust_chain),
            );
            lemma_quote_split(
                encode_utf8(s1),
                tc_tail(h1.trust_chain),
                encode_utf8(s2),
                tc_tail(h2.trust_chain),
            );
            vstd::utf8::encode_utf8_decode_utf8(s1);
            vstd::utf8::encode_utf8_decode_utf8(s2);
        },
        (None, None) => {},
        (Some(s1), None) => {
            let lhs = lit_x5c() + (encode_utf8(s1) + lit_quote() + tc_tail(h1.trust_chain));
            match h2.trust_chain {
                Some(_) => {
                    assert(lhs[2] == lit_x5c()[2]);
                    assert(tc_tail(h2.trust_chain)[2] == lit_trust_chain()[2]);
                },
                None => {
                    assert(lhs.len() >= lit_x5c().len());
                    assert(tc_tail(h2.trust_chain).len() == 1);
                },
            }
        },
        (None, Some(s2)) => {
            let rhs = lit_x5c() + (encode_utf8(s2) + lit_quote() + tc_tail(h2.trust_chain));
            match h1.trust_chain {
                Some(_) => {
                    assert(rhs[2] == lit_x5c()[2]);
                    assert(tc_tail(h1.trust_chain)[2] == lit_trust_chain()[2]);
                },
                None => {
                    assert(rhs.len() >= lit_x5c().len());
                    assert(tc_tail(h1.trust_chain).len() == 1);
                },
            }
        },
    }
    assert(tc_tail(h1.trust_chain) == tc_tail(h2.trust_chain));
    match (h1.trust_chain, h2.trust_chain) {
        (Some(t1), Some(t2)) => {
            lemma_cancel(
                lit_trust_chain(),
                encode_utf8(t1) + lit_quote() + lit_close(),
                encode_utf8(t2) + lit_quote() + lit_close(),
            );
            lemma_quote_split(encode_utf8(t1), lit_close(), encode_utf8(t2), lit_close());
            vstd::utf8::encode_utf8_decode_utf8(t1);
            vstd::utf8::encode_utf8_decode_utf8(t2);
        },
        (None, None) => {},
        (Some(t1), None) => {
            assert(tc_tail(h1.trust_chain)[0] == 44);
            assert(tc_tail(h2.trust_chain)[0] == 125);
        },
        (None, Some(t2)) => {
            assert(tc_tail(h1.trust_chain)[0] == 125);
            assert(tc_tail(h2.trust_chain)[0] == 44);
        },
    }
    assert(h1 =~= h2);
}

} // verus!
