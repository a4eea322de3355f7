//! Opaque posting records: the lookup key of a posting and the masked value
//! that carries the document's metadata.

use crate::bytes::{
    be64, be64_at, get_be64, lemma_be64_at_window, lemma_be64_round_trip, lemma_xor_twice,
    put_be64,
};
use crate::hash::{keyed_digest, prf};
use crate::index::{posting_views, IndexUpdate, PostingView, Term, Term2Document, TermView};
use crate::store::EncryptedIndexUpdate;
use vstd::prelude::*;
use vstd::utf8::encode_utf8;

verus! {

/// Length of a lookup key in bytes.
pub const KEY_LEN: usize = 32;

/// Length of a masked value in bytes.
pub const VALUE_LEN: usize = 24;

/// What a posting says of its document: the document's id, its size in bytes,
/// and how often the term occurs in it.
#[derive(Debug, PartialEq, Eq, Clone, Copy, Structural)]
pub struct DocumentMeta {
    pub id: u64,
    pub size: u64,
    pub f: u64,
}

impl DocumentMeta {
    pub fn new(id: u64, size: u64, f: u64) -> (out: Self)
        ensures
            out == (DocumentMeta { id, size, f }),
    {
        Self { id, size, f }
    }
}

/// The lookup key of the posting `(term, occ)` under the index secret.
pub open spec fn lookup_key(secret: Seq<u8>, term: Seq<char>, occ: u64) -> Seq<u8> {
    prf(secret, term, occ)
}

/// The 24 bytes that carry `meta` under the mask `digest`: the id, the term
/// frequency and the size, each XORed with one of the first three words of the
/// digest and written big-endian, in this order.
pub open spec fn mask_meta(digest: Seq<u8>, meta: DocumentMeta) -> Seq<u8> {
    be64(be64_at(digest, 0) ^ meta.id) + be64(be64_at(digest, 8) ^ meta.f) + be64(
        be64_at(digest, 16) ^ meta.size,
    )
}

/// The metadata that the 24 bytes `value` carry under the mask `digest`.
pub open spec fn unmask_meta(digest: Seq<u8>, value: Seq<u8>) -> DocumentMeta {
    DocumentMeta {
        id: be64_at(digest, 0) ^ be64_at(value, 0),
        f: be64_at(digest, 8) ^ be64_at(value, 8),
        size: be64_at(digest, 16) ^ be64_at(value, 16),
    }
}

/// The masked value of the posting `(term, occ)` with metadata `meta` under
/// the value secret.
pub open spec fn masked_value(secret: Seq<u8>, term: Seq<char>, occ: u64, meta: DocumentMeta) -> Seq<
    u8,
> {
    mask_meta(prf(secret, term, occ), meta)
}

/// The metadata read from `value` for the posting `(term, occ)` under the
/// value secret.
pub open spec fn decoded_meta(secret: Seq<u8>, term: Seq<char>, occ: u64, value: Seq<u8>) -> DocumentMeta {
    unmask_meta(prf(secret, term, occ), value)
}

/// Unmasking what was masked with the same digest gives the metadata back,
/// whatever the digest is.
pub proof fn lemma_mask_round_trip(digest: Seq<u8>, meta: DocumentMeta)
    ensures
        mask_meta(digest, meta).len() == 24,
        unmask_meta(digest, mask_meta(digest, meta)) == meta,
{
    let h0 = be64_at(digest, 0);
    let h1 = be64_at(digest, 8);
    let h2 = be64_at(digest, 16);
    let v = mask_meta(digest, meta);
    lemma_be64_round_trip(h0 ^ meta.id);
    lemma_be64_round_trip(h1 ^ meta.f);
    lemma_be64_round_trip(h2 ^ meta.size);
    assert(v.len() == 24);
    assert(v.subrange(0, 8) =~= be64(h0 ^ meta.id));
    assert(v.subrange(8, 16) =~= be64(h1 ^ meta.f));
    assert(v.subrange(16, 24) =~= be64(h2 ^ meta.size));
    lemma_be64_at_window(v, 0, be64(h0 ^ meta.id));
    lemma_be64_at_window(v, 8, be64(h1 ^ meta.f));
    lemma_be64_at_window(v, 16, be64(h2 ^ meta.size));
    lemma_xor_twice(h0, meta.id);
    lemma_xor_twice(h1, meta.f);
    lemma_xor_twice(h2, meta.size);
}

/// Decoding the value that was encoded for a posting, with the same term,
/// occurrence id and value secret, recovers the metadata exactly. The index
/// secret plays no part in it.
pub proof fn lemma_value_round_trip(secret: Seq<u8>, term: Seq<char>, occ: u64, meta: DocumentMeta)
    ensures
        masked_value(secret, term, occ, meta).len() == 24,
        decoded_meta(secret, term, occ, masked_value(secret, term, occ, meta)) == meta,
{
    lemma_mask_round_trip(prf(secret, term, occ), meta);
}

/// The lookup key of a posting depends on the secret, the term's text and the
/// occurrence id alone: two terms that agree in these have the same key,
/// whatever their weights.
pub proof fn lemma_key_deterministic(secret: Seq<u8>, a: TermView, b: TermView)
    requires
        a.term == b.term,
        a.id == b.id,
    ensures
        lookup_key(secret, a.term, a.id) == lookup_key(secret, b.term, b.id),
{
}

/// Derives the 32-byte lookup key of `term` under the index secret `key`.
pub fn encrypt_index_key(term: &Term, key: &[u8]) -> (out: Vec<u8>)
    ensures
        out@ == lookup_key(key@, term.term@, term.id),
        out@.len() == KEY_LEN,
{
    keyed_digest(key, term.term.as_str(), term.id)
}

/// Encodes `meta` as the 24-byte masked value of `term` under the value
/// secret `key`.
pub fn encrypt_index_value(term: &Term, meta: &DocumentMeta, key: &[u8]) -> (out: Vec<u8>)
    ensures
        out@ == masked_value(key@, term.term@, term.id, *meta),
        out@.len() == VALUE_LEN,
{
    let digest = keyed_digest(key, term.term.as_str(), term.id);
    let id_xor = get_be64(digest.as_slice(), 0);
    let fr_xor = get_be64(digest.as_slice(), 8);
    let si_xor = get_be64(digest.as_slice(), 16);
    let mut v: Vec<u8> = Vec::new();
    put_be64(&mut v, id_xor ^ meta.id);
    put_be64(&mut v, fr_xor ^ meta.f);
    put_be64(&mut v, si_xor ^ meta.size);
    assert(v@ =~= masked_value(key@, term.term@, term.id, *meta));
    v
}

/// Reads the metadata out of a 24-byte masked value of `term` under the value
/// secret `key`.
pub fn unmask_value(term: &Term, value: &[u8], key: &[u8]) -> (meta: DocumentMeta)
    requires
        value@.len() == VALUE_LEN,
    ensures
        meta == decoded_meta(key@, term.term@, term.id, value@),
{
    let digest = keyed_digest(key, term.term.as_str(), term.id);
    let id_xor = get_be64(digest.as_slice(), 0);
    let fr_xor = get_be64(digest.as_slice(), 8);
    let si_xor = get_be64(digest.as_slice(), 16);
    let id_masked = get_be64(value, 0);
    let fr_masked = get_be64(value, 8);
    let si_masked = get_be64(value, 16);
    DocumentMeta { id: id_xor ^ id_masked, f: fr_xor ^ fr_masked, size: si_xor ^ si_masked }
}

/// Reads the metadata out of a 24-byte masked value of `term` under the value
/// secret `key`. A value of any other length carries no metadata and is not
/// accepted.
pub fn get_document_meta(term: &Term, value: Vec<u8>, key: &[u8]) -> (meta: DocumentMeta)
    requires
        value@.len() == VALUE_LEN,
    ensures
        meta == decoded_meta(key@, term.term@, term.id, value@),
{
    unmask_value(term, value.as_slice(), key)
}

/// Reads the metadata out of `value` if it has the length of a masked value;
/// an empty slot or a value of any other length gives `None`.
pub fn try_document_meta(term: &Term, value: &[u8], key: &[u8]) -> (out: Option<DocumentMeta>)
    ensures
        out == (if value@.len() == VALUE_LEN {
            Some(decoded_meta(key@, term.term@, term.id, value@))
        } else {
            None
        }),
{
    if value.len() == VALUE_LEN {
        Some(unmask_value(term, value, key))
    } else {
        None
    }
}

/// The metadata that a posting carries: the id of its document, the size of
/// the document's content in bytes, and the term's frequency in it.
pub open spec fn posting_meta(p: PostingView) -> DocumentMeta {
    DocumentMeta {
        id: p.document.id,
        size: encode_utf8(p.document.content).len() as u64,
        f: p.freq,
    }
}

/// The encrypted record of a posting: its lookup key under the index secret
/// `k1` and its masked value under the value secret `k2`.
pub open spec fn encrypted_posting(p: PostingView, k1: Seq<u8>, k2: Seq<u8>) -> (Seq<u8>, Seq<u8>) {
    (lookup_key(k1, p.term.term, p.term.id), masked_value(k2, p.term.term, p.term.id, posting_meta(p)))
}

/// The encrypted records of a sequence of postings, in the same order.
pub open spec fn encrypted_postings(postings: Seq<PostingView>, k1: Seq<u8>, k2: Seq<u8>) -> Seq<
    (Seq<u8>, Seq<u8>),
> {
    Seq::new(postings.len(), |i: int| encrypted_posting(postings[i], k1, k2))
}

/// Encodes one posting as its encrypted record.
pub fn encrypt_posting(posting: &Term2Document, k1: &[u8], k2: &[u8]) -> (out: (Vec<u8>, Vec<u8>))
    ensures
        (out.0@, out.1@) == encrypted_posting(posting@, k1@, k2@),
        out.0@.len() == KEY_LEN,
        out.1@.len() == VALUE_LEN,
{
    let key_vec = encrypt_index_key(&posting.term, k1);
    let size = posting.document.content.as_str().as_bytes().len();
    let meta = DocumentMeta::new(posting.document.id, size as u64, posting.freq);
    let value_vec = encrypt_index_value(&posting.term, &meta, k2);
    (key_vec, value_vec)
}

/// Encodes a batch of postings: one encrypted record for each, in order, with
/// lookup keys under `k1` and masked values under `k2`.
pub fn encrypt_index_update(index_update: &IndexUpdate, k1: &[u8], k2: &[u8]) -> (out:
    EncryptedIndexUpdate)
    ensures
        out@ == encrypted_postings(posting_views(index_update.relations@), k1@, k2@),
        forall|i: int|
            0 <= i < out@.len() ==> (#[trigger] out@[i]).0.len() == KEY_LEN && out@[i].1.len()
                == VALUE_LEN,
{
    encrypt_postings(&index_update.relations, k1, k2)
}

/// Encodes a sequence of postings: one encrypted record for each, in order.
pub fn encrypt_postings(postings: &Vec<Term2Document>, k1: &[u8], k2: &[u8]) -> (out:
    EncryptedIndexUpdate)
    ensures
        out@ == encrypted_postings(posting_views(postings@), k1@, k2@),
        forall|i: int|
            0 <= i < out@.len() ==> (#[trigger] out@[i]).0.len() == KEY_LEN && out@[i].1.len()
                == VALUE_LEN,
{
    let mut encr = EncryptedIndexUpdate::new();
    let mut i: usize = 0;
    while i < postings.len()
        invariant
            i <= postings@.len(),
            encr@ == encrypted_postings(posting_views(postings@).take(i as int), k1@, k2@),
            forall|m: int|
                0 <= m < encr@.len() ==> (#[trigger] encr@[m]).0.len() == KEY_LEN && encr@[m].1.len()
                    == VALUE_LEN,
        decreases postings@.len() - i,
    {
        let (key_vec, value_vec) = encrypt_posting(&postings[i], k1, k2);
        encr.add(key_vec, value_vec);
        assert(encr@ =~= encrypted_postings(posting_views(postings@).take(i + 1), k1@, k2@));
        i += 1;
    }
    assert(posting_views(postings@).take(postings@.len() as int) =~= posting_views(postings@));
    encr
}

} // verus!
