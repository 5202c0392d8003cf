//! Unpadded base64url encoding and decoding, through `base64ct`.
//!
//! The encoding itself is outside code; its result is named by the
//! uninterpreted function [`b64url_chars`], and everything the library proves
//! about base64url goes through the contracts of the two wrappers below.

use base64ct::Encoding;
use vstd::prelude::*;

verus! {

/// The unpadded base64url encoding of `b`, as produced by
/// `base64ct::Base64UrlUnpadded`. Uninterpreted: the library never restates
/// the encoding algorithm, it only relies on the facts the wrappers state.
pub uninterp spec fn b64url_chars(b: Seq<u8>) -> Seq<char>;

/// The characters of the base64url alphabet. `.` is not among them, which is
/// what lets a compact token be split unambiguously on dots.
pub open spec fn is_b64url_char(c: char) -> bool {
    ('A' <= c && c <= 'Z') || ('a' <= c && c <= 'z') || ('0' <= c && c <= '9') || c == '-' || c
        == '_'
}

/// Whether some byte sequence encodes to `s`.
pub open spec fn b64_decodable(s: Seq<char>) -> bool {
    exists|b: Seq<u8>| b64url_chars(b) == s
}

/// Relies on `base64ct::Base64UrlUnpadded::encode_string`: unpadded
/// base64url over the RFC 4648 URL-safe alphabet. The last clause is the
/// encoding's injectivity at this point: decoding inverts encoding, and the
/// decoder is a function, so no other byte sequence shares this encoding.
#[verifier::external_body]
pub fn b64url_encode(b: &[u8]) -> (r: String)
    ensures
        r@ == b64url_chars(b@),
        forall|i: int| 0 <= i < r@.len() ==> is_b64url_char(#[trigger] r@[i]),
        forall|b2: Seq<u8>| b64url_chars(b2) == r@ ==> b2 == b@,
{
    base64ct::Base64UrlUnpadded::encode_string(b)
}

/// Relies on `base64ct::Base64UrlUnpadded::decode_vec`: strict decoding that
/// accepts exactly the canonical unpadded encodings (it re-encodes the final
/// block and compares), so success pins the input to `b64url_chars` of the
/// result, and failure means no byte sequence encodes to the input.
#[verifier::external_body]
pub fn b64url_decode(s: &str) -> (r: Option<Vec<u8>>)
    ensures
        match r {
            Some(v) => s@ == b64url_chars(v@) && forall|b: Seq<u8>|
                b64url_chars(b) == s@ ==> b == v@,
            None => forall|b: Seq<u8>| s@ != b64url_chars(b),
        },
{
    base64ct::Base64UrlUnpadded::decode_vec(s).ok()
}

} // verus!
