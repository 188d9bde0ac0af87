//! Content digests: SHA-256 behind a named result, hex text with an exact
//! specification, and the fingerprint of a variable mapping.

use vstd::prelude::*;
use sha2::Digest;
use crate::text::hex_digit;
use crate::vars::{map_canon, VarMap};

verus! {

/// The SHA-256 digest of a byte sequence; stated only by name, as a function
/// of the input alone.
pub uninterp spec fn sha256_of(bytes: Seq<u8>) -> Seq<u8>;

/// Relies on `sha2::Sha256` (`update` then `finalize`): the digest depends on
/// the input bytes alone and is 32 bytes long.
#[verifier::external_body]
fn sha256_digest(bytes: &[u8]) -> (r: Vec<u8>)
    ensures
        r@ == sha256_of(bytes@),
        r@.len() == 32,
{
    let mut hasher = sha2::Sha256::new();
    hasher.update(bytes);
    hasher.finalize().to_vec()
}

/// Lower-case hexadecimal text: two digits per byte, in order.
pub open spec fn hex_of(bytes: Seq<u8>) -> Seq<char>
    decreases bytes.len(),
{
    if bytes.len() == 0 {
        Seq::empty()
    } else {
        hex_of(bytes.drop_last()) + seq![
            hex_digit(bytes.last() as int / 16),
            hex_digit(bytes.last() as int % 16),
        ]
    }
}

/// Relies on `hex::encode`: each byte becomes two lower-case hexadecimal
/// digits, most significant first, in input order.
#[verifier::external_body]
fn hex_encode(bytes: &[u8]) -> (r: String)
    ensures
        r@ == hex_of(bytes@),
{
    hex::encode(bytes)
}

/// The fingerprint of a variable mapping with the given canonical entries:
/// the hex SHA-256 of the canonical serialization's bytes.
pub open spec fn spec_fingerprint(canon: Seq<char>) -> Seq<char> {
    hex_of(sha256_of(vstd::utf8::encode_utf8(canon)))
}

/// The deterministic digest of a canonicalized variable mapping, used as a
/// render-cache key component.
pub fn fingerprint_of(vars: &VarMap) -> (r: String)
    ensures
        r@ == spec_fingerprint(map_canon(vars.entry_views())),
        r@.len() == 64,
{
    let canon = vars.canonical_string();
    let digest = sha256_digest(canon.as_str().as_bytes());
    let r = hex_encode(digest.as_slice());
    proof {
        lemma_hex_of_len(digest@);
    }
    r
}

/// Hex text is twice as long as its bytes.
pub proof fn lemma_hex_of_len(bytes: Seq<u8>)
    ensures
        hex_of(bytes).len() == 2 * bytes.len(),
    decreases bytes.len(),
{
    if bytes.len() > 0 {
        lemma_hex_of_len(bytes.drop_last());
    }
}

} // verus!
