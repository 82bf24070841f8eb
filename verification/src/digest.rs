//! Digests over bytes and JSON values.

use vstd::prelude::*;
use vstd::utf8::{encode_utf8, encode_utf8_decode_utf8};

use crate::digits::{hex, hex_of, law_hex_tells_bytes_apart};
use crate::json::{compact, Json, JsonView};
use crate::unambiguous::{law_compact_text_is_unambiguous, numbers_written};

verus! {

/// The SHA-256 digest of a run of bytes.
pub uninterp spec fn sha256(bytes: Seq<u8>) -> Seq<u8>;

/// The SHA-256 digest of `bytes`: `sha2::Sha256::digest`.
///
/// The digest depends on the bytes alone, is called [`sha256`] of them, and is
/// 32 bytes long; how it is computed is not stated.
#[verifier::external_body]
fn sha256_of(bytes: &[u8]) -> (r: Vec<u8>)
    ensures
        r@ == sha256(bytes@),
        r@.len() == 32,
{
    <sha2::Sha256 as sha2::Digest>::digest(bytes).to_vec()
}

/// The SHA-256 digest of `bytes` in lower-case hexadecimal.
pub fn sha256_hex(bytes: &[u8]) -> (r: String)
    ensures
        r@ == hex(sha256(bytes@)),
        r@.len() == 64,
{
    hex_of(&sha256_of(bytes))
}

/// The digest of the compact text of `v`, in lower-case hexadecimal.
pub open spec fn json_digest(v: JsonView) -> Seq<char> {
    hex(sha256(encode_utf8(compact(v))))
}

/// Whether the compact texts of two values differ and have one SHA-256 digest.
pub open spec fn collide(a: JsonView, b: JsonView) -> bool {
    let x = encode_utf8(compact(a));
    let y = encode_utf8(compact(b));
    x != y && sha256(x) == sha256(y)
}

/// The digest of the compact text of `value`, in lower-case hexadecimal.
pub fn json_sha256(value: &Json) -> (r: String)
    ensures
        r@ == json_digest(value@),
        r@.len() == 64,
{
    let text = value.to_compact();
    sha256_hex(text.as_str().as_bytes())
}

/// Values with the same digest are the same, unless SHA-256 collides on their
/// two texts.
pub proof fn law_digest_tells_values_apart(a: JsonView, b: JsonView)
    requires
        numbers_written(a),
        numbers_written(b),
        json_digest(a) == json_digest(b),
        !collide(a, b),
    ensures
        a == b,
{
    law_hex_tells_bytes_apart(
        sha256(encode_utf8(compact(a))),
        sha256(encode_utf8(compact(b))),
    );
    encode_utf8_decode_utf8(compact(a));
    encode_utf8_decode_utf8(compact(b));
    law_compact_text_is_unambiguous(a, b);
}

} // verus!
