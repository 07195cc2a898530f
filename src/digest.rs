//! SHA-256 digests rendered as lowercase hexadecimal text.

use vstd::prelude::*;
use vstd::utf8::encode_utf8;
use crate::encoding::{lower_hex, push_lower_hex, lemma_lower_hex_len, is_lower_hex_text};

verus! {

/// The SHA-256 digest of a byte string.
pub uninterp spec fn sha256_of(bytes: Seq<u8>) -> Seq<u8>;

/// Lowercase hexadecimal SHA-256 digest of the UTF-8 bytes of `text`.
pub open spec fn hex_digest(text: Seq<char>) -> Seq<char> {
    lower_hex(sha256_of(encode_utf8(text)))
}

/// Relies on sha2's `Sha256::digest`: the SHA-256 digest of the bytes, whose
/// output type holds exactly 32 bytes.
#[verifier::external_body]
fn sha256(bytes: &[u8]) -> (r: Vec<u8>)
    ensures
        r@ == sha256_of(bytes@),
        r@.len() == 32,
{
    <sha2::Sha256 as sha2::Digest>::digest(bytes).to_vec()
}

/// Every digest text is 64 lowercase hexadecimal digits.
pub proof fn lemma_hex_digest_shape(text: Seq<char>)
    ensures
        hex_digest(text).len() == 64 <==> sha256_of(encode_utf8(text)).len() == 32,
        is_lower_hex_text(hex_digest(text)),
{
    lemma_lower_hex_len(sha256_of(encode_utf8(text)));
}

/// The lowercase hexadecimal SHA-256 digest of the UTF-8 bytes of `text`.
pub fn sha256_hex(text: &str) -> (r: String)
    ensures
        r@ == hex_digest(text@),
        r@.len() == 64,
        is_lower_hex_text(r@),
{
    let bytes = text.as_bytes();
    let digest = sha256(bytes);
    let mut out = String::new();
    push_lower_hex(&mut out, digest.as_slice());
    proof {
        assert(Seq::<char>::empty() + lower_hex(digest@) =~= lower_hex(digest@));
        lemma_hex_digest_shape(text@);
    }
    out
}

} // verus!
