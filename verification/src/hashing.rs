//! Derivation of task identifiers. The content fields of a task and the
//! global nonce are SCALE-encoded and hashed with BLAKE2s; the leading 64
//! bits of the digest become the identifier's digest half. Both outside
//! computations are named, not restated: nothing downstream depends on the
//! byte layout or the digest values, only on their determinism.

use vstd::prelude::*;

use blake2::{Blake2s256, Digest};
use parity_scale_codec::Encode;

verus! {

/// What `parity_scale_codec::Encode::encode` returns for the tuple of the
/// task's content fields and the nonce.
pub uninterp spec fn scale_of(
    desc: Seq<u8>,
    min_rep: u32,
    pay: u64,
    judge_pay: u64,
    subjects: Seq<u32>,
    nonce: u64,
) -> Seq<u8>;

/// The leading 64 bits of what `blake2::Blake2s256` digests the bytes to.
pub uninterp spec fn blake2_of(bytes: Seq<u8>) -> u64;

/// Relies on `parity_scale_codec::Encode::encode` on a tuple of plain values:
/// the SCALE encoding, a function of the encoded values alone. The compact
/// length prefix of a SCALE-encoded vector only covers lengths up to
/// u32::MAX; `encode` panics beyond that, so such inputs are excluded here.
#[verifier::external_body]
fn scale_encode_content(
    desc: &Vec<u8>,
    min_rep: u32,
    pay: u64,
    judge_pay: u64,
    subjects: &Vec<u32>,
    nonce: u64,
) -> (r: Vec<u8>)
    requires
        desc@.len() <= u32::MAX,
        subjects@.len() <= u32::MAX,
    ensures
        r@ == scale_of(desc@, min_rep, pay, judge_pay, subjects@, nonce),
{
    (desc, min_rep, pay, judge_pay, subjects, nonce).encode()
}

/// Relies on `blake2::Blake2s256` through `digest::Digest::digest`: the
/// BLAKE2s-256 digest, a function of the input bytes alone; its first eight
/// bytes are read as a little-endian integer.
#[verifier::external_body]
fn blake2_hash64(bytes: &Vec<u8>) -> (r: u64)
    ensures
        r == blake2_of(bytes@),
{
    let digest = Blake2s256::digest(bytes.as_slice());
    let mut first: [u8; 8] = [0u8; 8];
    first.copy_from_slice(&digest[0..8]);
    u64::from_le_bytes(first)
}

/// The digest half of a task identifier: the BLAKE2s digest of the SCALE
/// encoding of the task's content fields and the nonce.
pub open spec fn spec_content_digest(
    desc: Seq<u8>,
    min_rep: u32,
    pay: u64,
    judge_pay: u64,
    subjects: Seq<u32>,
    nonce: u64,
) -> u64 {
    blake2_of(scale_of(desc, min_rep, pay, judge_pay, subjects, nonce))
}

pub fn content_digest(
    desc: &Vec<u8>,
    min_rep: u32,
    pay: u64,
    judge_pay: u64,
    subjects: &Vec<u32>,
    nonce: u64,
) -> (r: u64)
    requires
        desc@.len() <= u32::MAX,
        subjects@.len() <= u32::MAX,
    ensures
        r == spec_content_digest(desc@, min_rep, pay, judge_pay, subjects@, nonce),
{
    let bytes = scale_encode_content(desc, min_rep, pay, judge_pay, subjects, nonce);
    blake2_hash64(&bytes)
}

} // verus!
