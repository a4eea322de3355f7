//! Client-side core of a searchable symmetric-encryption index with BM25
//! ranking: keyed derivation of opaque posting records, XOR-masked document
//! metadata, the term dictionary, the ingest and query paths, the order of
//! results, and the sealed document store.
//!
//! The server sees lookup keys, masked values and sealed documents only. The
//! client holds the secrets and the dictionary, tokenizes and scores.

pub mod bytes;
pub mod codec;
pub mod crypto;
pub mod dictionary;
pub mod hash;
pub mod index;
pub mod indexer;
pub mod keys;
pub mod posting;
pub mod query;
pub mod ranking;
pub mod store;
pub mod utils;

pub use codec::{decode_document, encode_document};
pub use crypto::{decrypt, encrypt, seal_with_nonce, CryptoError, EncryptedDocument, SymmetricKey};
pub use dictionary::Dictionary;
pub use index::{Document, IndexUpdate, Term, Term2Document};
pub use indexer::{Indexer, IngestError};
pub use keys::Keys;
pub use posting::{
    encrypt_index_key, encrypt_index_update, encrypt_index_value, get_document_meta,
    try_document_meta, DocumentMeta,
};
pub use query::{hits_by_document, DocumentHits, Hit, Query};
pub use ranking::{rank, Scored};
pub use store::{
    EncryptedDocumentStorage, EncryptedIndex, EncryptedIndexUpdate, EncryptedTerm2Document,
};
pub use utils::{group_by, tokenize};
