//! Stable identifiers.
use vstd::prelude::*;
use crate::text::{join, joined};

verus! {

/// Lower-case hexadecimal BLAKE3 digest of a text's UTF-8 bytes.
pub uninterp spec fn blake3_hex_of(data: Seq<char>) -> Seq<char>;

/// Hashes a text with `blake3::hash` and writes the digest with
/// `Hash::to_hex`. Claimed of it: the digest is a function of the text.
#[verifier::external_body]
fn blake3_hex(data: &str) -> (r: String)
    ensures
        r@ == blake3_hex_of(data@),
{
    blake3::hash(data.as_bytes()).to_hex().to_string()
}

/// Identifier made of several parts.
pub open spec fn structure_id_of(parts: Seq<Seq<char>>) -> Seq<char> {
    blake3_hex_of(joined(parts, "|"@))
}

/// Identifier made of several parts: the digest of the parts with bars
/// between them.
pub fn structure_id(parts: &Vec<String>) -> (r: String)
    ensures
        r@ == structure_id_of(parts.deep_view()),
{
    let all = join(parts, "|");
    blake3_hex(all.as_str())
}

/// The digest of a text: the identity of a run and of its evidence.
pub fn content_hash(text: &str) -> (r: String)
    ensures
        r@ == blake3_hex_of(text@),
{
    blake3_hex(text)
}

} // verus!
