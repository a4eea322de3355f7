//! SHA3-256 used as a keyed function, and the byte string that is hashed for
//! a posting.

use crate::bytes::{be64, be64_at, lemma_be64_round_trip, put_be64};
use sha3::{Digest, Sha3_256};
use vstd::prelude::*;
use vstd::utf8::{encode_utf8, encode_utf8_decode_utf8};

verus! {

/// The SHA3-256 digest of `data`.
pub uninterp spec fn sha3_256(data: Seq<u8>) -> Seq<u8>;

/// Calls `Sha3_256::digest` of the crate `sha3` on `data` and copies the
/// output array into a vector. Trusted: the result is the SHA3-256 digest of
/// exactly these bytes, and it is 32 bytes long.
#[verifier::external_body]
pub(crate) fn sha3_256_digest(data: &[u8]) -> (out: Vec<u8>)
    ensures
        out@ == sha3_256(data@),
        out@.len() == 32,
{
    Sha3_256::digest(data).to_vec()
}

/// The bytes hashed for the posting `(term, occ)` under `secret`: the secret,
/// the term in UTF-8, and the occurrence id as eight big-endian bytes.
pub open spec fn prf_input(secret: Seq<u8>, term: Seq<char>, occ: u64) -> Seq<u8> {
    secret + encode_utf8(term) + be64(occ)
}

/// The keyed digest of the posting `(term, occ)` under `secret`.
pub open spec fn prf(secret: Seq<u8>, term: Seq<char>, occ: u64) -> Seq<u8> {
    sha3_256(prf_input(secret, term, occ))
}

/// Computes the keyed digest of `(term, occ)` under `secret`.
pub fn keyed_digest(secret: &[u8], term: &str, occ: u64) -> (out: Vec<u8>)
    ensures
        out@ == prf(secret@, term@, occ),
        out@.len() == 32,
{
    let mut input: Vec<u8> = Vec::new();
    input.extend_from_slice(secret);
    input.extend_from_slice(term.as_bytes());
    put_be64(&mut input, occ);
    assert(input@ =~= prf_input(secret@, term@, occ));
    sha3_256_digest(input.as_slice())
}

/// Under one secret, two postings are hashed from the same bytes only if they
/// have the same term and the same occurrence id: two distinct postings can
/// share a lookup key only through a collision of the hash itself.
pub proof fn lemma_prf_input_injective(
    secret: Seq<u8>,
    term1: Seq<char>,
    occ1: u64,
    term2: Seq<char>,
    occ2: u64,
)
    requires
        prf_input(secret, term1, occ1) == prf_input(secret, term2, occ2),
    ensures
        term1 == term2,
        occ1 == occ2,
{
    let a = prf_input(secret, term1, occ1);
    let b = prf_input(secret, term2, occ2);
    let e1 = encode_utf8(term1);
    let e2 = encode_utf8(term2);
    lemma_be64_round_trip(occ1);
    lemma_be64_round_trip(occ2);
    assert(a.len() == secret.len() + e1.len() + 8);
    assert(b.len() == secret.len() + e2.len() + 8);
    assert(e1.len() == e2.len());
    let n: int = (secret.len() + e1.len()) as int;
    assert(a.subrange(n, n + 8) =~= be64(occ1));
    assert(b.subrange(n, n + 8) =~= be64(occ2));
    assert(be64_at(be64(occ1), 0) == be64_at(be64(occ2), 0));
    assert(a.subrange(secret.len() as int, n) =~= e1);
    assert(b.subrange(secret.len() as int, n) =~= e2);
    encode_utf8_decode_utf8(term1);
    encode_utf8_decode_utf8(term2);
}

} // verus!
