//! The client's secrets, and the random values it draws.

use crate::crypto::SymmetricKey;
use rand::rngs::OsRng;
use rand::RngCore;
use vstd::prelude::*;

verus! {

/// Length in bytes of a freshly drawn index or value secret.
pub const SECRET_LEN: usize = 32;

/// What a [`Keys`] holds, as mathematical values.
pub struct KeysView {
    pub document_key: Seq<u8>,
    pub index_key: Seq<u8>,
    pub value_key: Seq<u8>,
}

/// The three secrets of a client: the key that seals documents, the secret
/// from which lookup keys are derived, and the secret that masks values.
pub struct Keys {
    document_key: SymmetricKey,
    index_key: Vec<u8>,
    value_key: Vec<u8>,
}

impl View for Keys {
    type V = KeysView;

    closed spec fn view(&self) -> KeysView {
        KeysView {
            document_key: self.document_key@,
            index_key: self.index_key@,
            value_key: self.value_key@,
        }
    }
}

/// Calls `next_u64` on the `OsRng` of the crate `rand`. Trusted: nothing is
/// claimed of the number drawn.
#[verifier::external_body]
pub(crate) fn random_u64() -> (out: u64) {
    OsRng.next_u64()
}

impl Keys {
    /// Calls `fill_bytes` on the `OsRng` of the crate `rand` over a buffer of
    /// `size` bytes. Trusted: the result has that many bytes.
    #[verifier::external_body]
    fn generate_secure_random(size: usize) -> (out: Vec<u8>)
        ensures
            out@.len() == size,
    {
        let mut buffer = vec![0u8; size];
        OsRng.fill_bytes(&mut buffer);
        buffer
    }

    /// Three fresh random secrets, the index and the value secret of 32 bytes
    /// each.
    pub fn new() -> (out: Self)
        ensures
            out@.document_key.len() == 32,
            out@.index_key.len() == SECRET_LEN,
            out@.value_key.len() == SECRET_LEN,
    {
        Self {
            document_key: SymmetricKey::new(),
            index_key: Self::generate_secure_random(SECRET_LEN),
            value_key: Self::generate_secure_random(SECRET_LEN),
        }
    }

    /// The keys made of three secrets that were kept from an earlier run.
    pub fn from_parts(document_key: SymmetricKey, index_key: Vec<u8>, value_key: Vec<u8>) -> (out:
        Self)
        ensures
            out@ == (KeysView {
                document_key: document_key@,
                index_key: index_key@,
                value_key: value_key@,
            }),
    {
        Self { document_key, index_key, value_key }
    }

    pub fn document_key(&self) -> (out: &SymmetricKey)
        ensures
            out@ == self@.document_key,
    {
        &self.document_key
    }

    pub fn index_key(&self) -> (out: &Vec<u8>)
        ensures
            out@ == self@.index_key,
    {
        &self.index_key
    }

    pub fn value_key(&self) -> (out: &Vec<u8>)
        ensures
            out@ == self@.value_key,
    {
        &self.value_key
    }
}

} // verus!
