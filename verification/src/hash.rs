//! Digests of byte strings, as lowercase hexadecimal text.

use vstd::prelude::*;
use crate::cache::{hex_bytes, hex_string};

verus! {

/// The MD5 digest of `data` (what `md5::compute` returns).
pub uninterp spec fn md5_digest(data: Seq<u8>) -> Seq<u8>;

/// Calls `md5::compute` and hands back the digest's bytes: the named digest of `data`
/// (`md5_digest`), 16 bytes long as the crate's `Digest([u8; 16])` is.
#[verifier::external_body]
fn md5_compute(data: &[u8]) -> (d: Vec<u8>)
    ensures
        d@ == md5_digest(data@),
        d@.len() == 16,
{
    md5::compute(data).0.to_vec()
}

/// The MD5 digest of `data` in lowercase hexadecimal.
pub fn md5_hex(data: &[u8]) -> (r: String)
    ensures
        r@ == hex_bytes(md5_digest(data@)),
        r@.len() == 32,
{
    let d = md5_compute(data);
    let r = hex_string(d.as_slice());
    proof {
        lemma_hex_len(d@);
    }
    r
}

pub proof fn lemma_hex_len(b: Seq<u8>)
    ensures
        hex_bytes(b).len() == 2 * b.len(),
    decreases b.len(),
{
    if b.len() > 0 {
        lemma_hex_len(b.drop_last());
    }
}

} // verus!
