use vstd::prelude::*;
use crate::text::{hex_lower, lemma_hex_lower_len};

verus! {

/// The SHA-1 digest of `data`.
pub uninterp spec fn sha1_of(data: Seq<u8>) -> Seq<u8>;

/// Relies on `sha1::Sha1` through `digest::Digest::digest`: the SHA-1 digest
/// of the bytes, which is 20 bytes long.
#[verifier::external_body]
fn sha1_digest(data: &[u8]) -> (r: Vec<u8>)
    ensures
        r@ == sha1_of(data@),
        r@.len() == 20,
{
    <sha1::Sha1 as sha1::Digest>::digest(data).to_vec()
}

/// The content address of `data`: its SHA-1 digest in lowercase hexadecimal,
/// 40 characters long.
pub fn hash(s: &[u8]) -> (r: String)
    ensures
        r@ == hex_lower(sha1_of(s@)),
        r@.len() == 40,
{
    let d = sha1_digest(s);
    proof {
        lemma_hex_lower_len(d@);
    }
    crate::text::hex_encode(d.as_slice())
}

} // verus!
