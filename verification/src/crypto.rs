//! Sealing of documents: AES-256-GCM over a document's byte form, under a
//! fresh nonce for every seal.

use crate::codec::{decode_document, document_bytes, encode_document, parse_document};
use crate::index::{Document, DocumentView};
use aes_gcm::aead::{Aead, AeadCore, KeyInit, OsRng};
use aes_gcm::{Aes256Gcm, Key, Nonce};
use vstd::prelude::*;

verus! {

/// Length of a document key in bytes.
pub const DOCUMENT_KEY_LEN: usize = 32;

/// Length of a nonce in bytes.
pub const NONCE_LEN: usize = 12;

/// Length of the authentication tag that ends a ciphertext.
pub const TAG_LEN: usize = 16;

/// The longest plaintext, in bytes, that can be sealed.
pub const SEAL_MAX: u64 = 0x10_0000_0000;

/// What AES-256-GCM makes of `plaintext` under a 32-byte key and a 12-byte
/// nonce, without associated data: the ciphertext followed by its tag.
pub uninterp spec fn aes256_gcm_seal(key: Seq<u8>, nonce: Seq<u8>, plaintext: Seq<u8>) -> Seq<u8>;

/// The plaintext that AES-256-GCM recovers from `sealed` under a 32-byte key
/// and a 12-byte nonce, or `None` where the tag does not authenticate it.
pub uninterp spec fn aes256_gcm_open(key: Seq<u8>, nonce: Seq<u8>, sealed: Seq<u8>) -> Option<
    Seq<u8>,
>;

/// Why a document could not be sealed or opened.
#[derive(Debug, Clone, Copy, PartialEq, Eq, Structural)]
pub enum CryptoError {
    /// The document's byte form is longer than `SEAL_MAX`.
    TooLarge,
    /// The nonce of a sealed document is not 12 bytes long.
    BadNonce,
    /// The ciphertext is not authentic under this key and nonce.
    OpenFailed,
    /// The plaintext is not the byte form of a document.
    Malformed,
}

/// The secret key under which documents are sealed: 32 bytes.
pub struct SymmetricKey {
    key: Vec<u8>,
}

impl View for SymmetricKey {
    type V = Seq<u8>;

    closed spec fn view(&self) -> Seq<u8> {
        self.key@
    }
}

impl Clone for SymmetricKey {
    fn clone(&self) -> (out: Self)
        ensures
            out@ == self@,
    {
        proof {
            use_type_invariant(self);
        }
        let key = self.key.clone();
        assert(key@ =~= self.key@);
        Self { key }
    }
}

/// What an [`EncryptedDocument`] holds, as mathematical values.
pub struct SealedView {
    pub nonce: Seq<u8>,
    pub ciphertext: Seq<u8>,
}

/// A sealed document: the nonce it was sealed under, and the ciphertext.
#[derive(Debug, PartialEq)]
pub struct EncryptedDocument {
    nonce: Vec<u8>,
    ciphertext: Vec<u8>,
}

impl View for EncryptedDocument {
    type V = SealedView;

    closed spec fn view(&self) -> SealedView {
        SealedView { nonce: self.nonce@, ciphertext: self.ciphertext@ }
    }
}

impl Clone for EncryptedDocument {
    fn clone(&self) -> (out: Self)
        ensures
            out@ == self@,
    {
        EncryptedDocument { nonce: self.nonce.clone(), ciphertext: self.ciphertext.clone() }
    }
}

impl EncryptedDocument {
    /// A sealed document from its two parts, as they came over the wire.
    pub fn new(nonce: Vec<u8>, ciphertext: Vec<u8>) -> (out: Self)
        ensures
            out@ == (SealedView { nonce: nonce@, ciphertext: ciphertext@ }),
    {
        Self { nonce, ciphertext }
    }

    pub fn nonce(&self) -> (out: &Vec<u8>)
        ensures
            out@ == self@.nonce,
    {
        &self.nonce
    }

    pub fn ciphertext(&self) -> (out: &Vec<u8>)
        ensures
            out@ == self@.ciphertext,
    {
        &self.ciphertext
    }
}

/// Calls `Aes256Gcm::generate_key` of the crate `aes_gcm` with the operating
/// system's random generator. Trusted: the key is 32 bytes long.
#[verifier::external_body]
fn fresh_key_bytes() -> (out: Vec<u8>)
    ensures
        out@.len() == DOCUMENT_KEY_LEN,
{
    Aes256Gcm::generate_key(OsRng).to_vec()
}

/// Calls `Aes256Gcm::generate_nonce` of the crate `aes_gcm` with the operating
/// system's random generator. Trusted: the nonce is 12 bytes long.
#[verifier::external_body]
fn fresh_nonce() -> (out: Vec<u8>)
    ensures
        out@.len() == NONCE_LEN,
{
    Aes256Gcm::generate_nonce(&mut OsRng).to_vec()
}

/// Calls `Aead::encrypt` on an `Aes256Gcm` of the crate `aes_gcm`, made from
/// `key`, with `nonce` and without associated data. Trusted: it fails exactly
/// on a plaintext longer than `SEAL_MAX`; otherwise the result is the sealed
/// form of the plaintext under this key and nonce, 16 bytes longer than the
/// plaintext, and opening it under the same key and nonce gives the plaintext.
#[verifier::external_body]
fn aead_seal(key: &[u8], nonce: &[u8], plaintext: &[u8]) -> (out: Option<Vec<u8>>)
    requires
        key@.len() == DOCUMENT_KEY_LEN,
        nonce@.len() == NONCE_LEN,
    ensures
        out is Some <==> plaintext@.len() <= SEAL_MAX,
        out is Some ==> out->0@ == aes256_gcm_seal(key@, nonce@, plaintext@),
        out is Some ==> out->0@.len() == plaintext@.len() + TAG_LEN,
        out is Some ==> aes256_gcm_open(key@, nonce@, out->0@) == Some(plaintext@),
{
    let cipher = Aes256Gcm::new(Key::<Aes256Gcm>::from_slice(key));
    cipher.encrypt(Nonce::from_slice(nonce), plaintext).ok()
}

/// Calls `Aead::decrypt` on an `Aes256Gcm` of the crate `aes_gcm`, made from
/// `key`, with `nonce` and without associated data. Trusted: the result is
/// what AES-256-GCM recovers from `sealed` under this key and nonce, `None`
/// where it rejects the input.
#[verifier::external_body]
fn aead_open(key: &[u8], nonce: &[u8], sealed: &[u8]) -> (out: Option<Vec<u8>>)
    requires
        key@.len() == DOCUMENT_KEY_LEN,
        nonce@.len() == NONCE_LEN,
    ensures
        match out {
            Some(plaintext) => aes256_gcm_open(key@, nonce@, sealed@) == Some(plaintext@),
            None => aes256_gcm_open(key@, nonce@, sealed@) is None,
        },
{
    let cipher = Aes256Gcm::new(Key::<Aes256Gcm>::from_slice(key));
    cipher.decrypt(Nonce::from_slice(nonce), sealed).ok()
}

impl SymmetricKey {
    #[verifier::type_invariant]
    spec fn well_formed(self) -> bool {
        self.key@.len() == DOCUMENT_KEY_LEN
    }

    /// A fresh random key.
    pub fn new() -> (out: Self)
        ensures
            out@.len() == DOCUMENT_KEY_LEN,
    {
        Self { key: fresh_key_bytes() }
    }

    /// The key made of `bytes`, which must be 32.
    pub fn from_bytes(bytes: Vec<u8>) -> (out: Option<Self>)
        ensures
            out is Some <==> bytes@.len() == DOCUMENT_KEY_LEN,
            out is Some ==> out->0@ == bytes@,
    {
        if bytes.len() == DOCUMENT_KEY_LEN {
            Some(Self { key: bytes })
        } else {
            None
        }
    }

    /// The 32 bytes of the key.
    pub fn as_bytes(&self) -> (out: &Vec<u8>)
        ensures
            out@ == self@,
            out@.len() == DOCUMENT_KEY_LEN,
    {
        proof {
            use_type_invariant(self);
        }
        &self.key
    }
}

/// What opening a sealed document under `key` gives: the document, or the
/// reason why there is none.
pub open spec fn opened(sealed: SealedView, key: Seq<u8>) -> Result<DocumentView, CryptoError> {
    if sealed.nonce.len() != NONCE_LEN {
        Err(CryptoError::BadNonce)
    } else {
        match aes256_gcm_open(key, sealed.nonce, sealed.ciphertext) {
            None => Err(CryptoError::OpenFailed),
            Some(plaintext) => match parse_document(plaintext) {
                None => Err(CryptoError::Malformed),
                Some(d) => Ok(d),
            },
        }
    }
}

/// Seals `document` under `key` and the given nonce. The result is fixed by
/// the three. It fails where the nonce is not 12 bytes long, and else only
/// where the document's byte form is longer than `SEAL_MAX`. Opening the
/// result under the same key gives the document back.
pub fn seal_with_nonce(document: &Document, key: &SymmetricKey, nonce: Vec<u8>) -> (out: Result<
    EncryptedDocument,
    CryptoError,
>)
    ensures
        match out {
            Ok(sealed) => nonce@.len() == NONCE_LEN && document_bytes(document@).len() <= SEAL_MAX
                && sealed@ == (SealedView {
                nonce: nonce@,
                ciphertext: aes256_gcm_seal(key@, nonce@, document_bytes(document@)),
            }) && sealed@.ciphertext.len() == document_bytes(document@).len() + TAG_LEN && opened(
                sealed@,
                key@,
            ) == Ok::<DocumentView, CryptoError>(document@),
            Err(e) => if nonce@.len() != NONCE_LEN {
                e == CryptoError::BadNonce
            } else {
                e == CryptoError::TooLarge && document_bytes(document@).len() > SEAL_MAX
            },
        },
{
    if nonce.len() != NONCE_LEN {
        return Err(CryptoError::BadNonce);
    }
    let bytes = encode_document(document);
    match aead_seal(key.as_bytes().as_slice(), nonce.as_slice(), bytes.as_slice()) {
        Some(ciphertext) => Ok(EncryptedDocument { nonce, ciphertext }),
        None => Err(CryptoError::TooLarge),
    }
}

/// Seals `document` under `key` and a fresh random nonce. It fails only where
/// the document's byte form is longer than `SEAL_MAX`. Whatever nonce was
/// drawn, the ciphertext is the sealed form of the document under it, and
/// opening the result under the same key gives the document back.
pub fn encrypt(document: &Document, key: &SymmetricKey) -> (out: Result<
    EncryptedDocument,
    CryptoError,
>)
    ensures
        match out {
            Ok(sealed) => document_bytes(document@).len() <= SEAL_MAX && sealed@.nonce.len()
                == NONCE_LEN && sealed@.ciphertext == aes256_gcm_seal(
                key@,
                sealed@.nonce,
                document_bytes(document@),
            ) && sealed@.ciphertext.len() == document_bytes(document@).len() + TAG_LEN && opened(
                sealed@,
                key@,
            ) == Ok::<DocumentView, CryptoError>(document@),
            Err(e) => e == CryptoError::TooLarge && document_bytes(document@).len() > SEAL_MAX,
        },
{
    let nonce = fresh_nonce();
    seal_with_nonce(document, key, nonce)
}

/// Opens a sealed document under `key`: checks the nonce's length,
/// authenticates and decrypts the ciphertext, and reads the document from the
/// plaintext.
pub fn decrypt(document: &EncryptedDocument, key: &SymmetricKey) -> (out: Result<
    Document,
    CryptoError,
>)
    ensures
        match out {
            Ok(d) => opened(document@, key@) == Ok::<DocumentView, CryptoError>(d@),
            Err(e) => opened(document@, key@) == Err::<DocumentView, CryptoError>(e),
        },
{
    if document.nonce.len() != NONCE_LEN {
        return Err(CryptoError::BadNonce);
    }
    match aead_open(
        key.as_bytes().as_slice(),
        document.nonce.as_slice(),
        document.ciphertext.as_slice(),
    ) {
        None => Err(CryptoError::OpenFailed),
        Some(plaintext) => match decode_document(plaintext.as_slice()) {
            None => Err(CryptoError::Malformed),
            Some(d) => Ok(d),
        },
    }
}

} // verus!
