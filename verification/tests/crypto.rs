use ebm25::{
    decode_document, decrypt, encode_document, encrypt, encrypt_index_key, encrypt_index_update,
    encrypt_index_value, get_document_meta, seal_with_nonce, try_document_meta, CryptoError,
    Document, DocumentMeta, EncryptedDocument, IndexUpdate, SymmetricKey, Term, Term2Document,
};

fn sample_document() -> Document {
    Document { id: 42, title: "title".to_string(), content: "body".to_string() }
}

#[test]
fn test_hashing_and_xor() {
    let t = &Term::new("term".to_string(), 42);
    let key = [0x12u8, 0x34, 0x56, 0x78, 0x90];

    let meta = DocumentMeta::new(78361473624, 523232, 42484759348);

    let hash = encrypt_index_value(t, &meta, &key);
    let meta2 = get_document_meta(t, hash, &key);

    assert_eq!(meta, meta2);
}

#[test]
fn test_encrypt_decrypt() {
    let key = SymmetricKey::new();

    let document = Document { id: 42, title: "title".to_string(), content: "body".to_string() };
    let encrypted_document = encrypt(&document, &key).unwrap();
    let decrypted_document = decrypt(&encrypted_document, &key).unwrap();

    assert_eq!(document, decrypted_document);
}

#[test]
fn lookup_key_is_the_sha3_digest_of_secret_term_and_occurrence() {
    let key = [0x12u8, 0x34, 0x56, 0x78, 0x90];
    let out = encrypt_index_key(&Term::new("term".to_string(), 42), &key);
    assert_eq!(
        out,
        vec![
            140, 155, 207, 1, 47, 118, 204, 106, 32, 202, 36, 4, 1, 209, 15, 118, 103, 143, 20,
            252, 49, 26, 139, 59, 243, 244, 88, 106, 134, 70, 221, 202
        ]
    );
    let empty: [u8; 0] = [];
    let out = encrypt_index_key(&Term::new(String::new(), 1), &empty);
    assert_eq!(
        out,
        vec![
            108, 112, 213, 122, 245, 61, 191, 77, 149, 37, 53, 3, 221, 90, 190, 140, 73, 233, 83,
            35, 111, 210, 56, 81, 16, 139, 146, 187, 236, 138, 201, 7
        ]
    );
}

#[test]
fn masked_value_is_the_metadata_xored_with_the_digest() {
    let key = [0x12u8, 0x34, 0x56, 0x78, 0x90];
    let meta = DocumentMeta::new(78361473624, 523232, 42484759348);
    let out = encrypt_index_value(&Term::new("term".to_string(), 42), &meta, &key);
    assert_eq!(
        out,
        vec![
            140, 155, 207, 19, 17, 195, 254, 50, 32, 202, 36, 13, 229, 152, 244, 66, 103, 143, 20,
            252, 49, 29, 112, 219
        ]
    );
}

#[test]
fn lookup_key_is_deterministic_and_ignores_the_weight() {
    let key = vec![7u8; 32];
    let a = Term::new("fox".to_string(), 3);
    let mut b = Term::new("fox".to_string(), 3);
    b.score_mult(5);
    assert_eq!(b.score, 5);
    assert_eq!(encrypt_index_key(&a, &key), encrypt_index_key(&a, &key));
    assert_eq!(encrypt_index_key(&a, &key), encrypt_index_key(&b, &key));
    assert_eq!(encrypt_index_key(&a, &key).len(), 32);
}

#[test]
fn lookup_keys_of_distinct_postings_differ() {
    let key = vec![7u8; 32];
    let k1 = encrypt_index_key(&Term::new("fox".to_string(), 1), &key);
    let k2 = encrypt_index_key(&Term::new("fox".to_string(), 2), &key);
    let k3 = encrypt_index_key(&Term::new("dog".to_string(), 1), &key);
    let k4 = encrypt_index_key(&Term::new("fox".to_string(), 1), &vec![8u8; 32]);
    assert_ne!(k1, k2);
    assert_ne!(k1, k3);
    assert_ne!(k2, k3);
    assert_ne!(k1, k4);
}

#[test]
fn value_round_trip_on_edge_values() {
    let key = vec![1u8; 32];
    let cases = [
        DocumentMeta::new(0, 0, 0),
        DocumentMeta::new(u64::MAX, u64::MAX, u64::MAX),
        DocumentMeta::new(1, 2, 3),
        DocumentMeta::new(0x0102030405060708, 0x1112131415161718, 0x2122232425262728),
    ];
    for meta in cases {
        let term = Term::new("naïve".to_string(), 9);
        let value = encrypt_index_value(&term, &meta, &key);
        assert_eq!(value.len(), 24);
        assert_eq!(get_document_meta(&term, value.clone(), &key), meta);
        assert_eq!(try_document_meta(&term, &value, &key), Some(meta));
    }
}

#[test]
fn empty_or_misshapen_value_is_not_decoded() {
    let key = vec![1u8; 32];
    let term = Term::new("fox".to_string(), 1);
    assert_eq!(try_document_meta(&term, &[], &key), None);
    assert_eq!(try_document_meta(&term, &[0u8; 23], &key), None);
    assert_eq!(try_document_meta(&term, &[0u8; 25], &key), None);
}

#[test]
fn flipped_value_secret_decodes_to_other_metadata() {
    let key = vec![1u8; 32];
    let mut flipped = key.clone();
    flipped[5] ^= 0x40;
    let term = Term::new("fox".to_string(), 1);
    let meta = DocumentMeta::new(17, 200, 3);
    let value = encrypt_index_value(&term, &meta, &key);
    let garbage = get_document_meta(&term, value, &flipped);
    assert_ne!(garbage, meta);
    assert_ne!(garbage.id, meta.id);
}

#[test]
fn document_bytes_are_id_then_length_prefixed_texts() {
    let bytes = encode_document(&sample_document());
    assert_eq!(
        bytes,
        vec![
            0, 0, 0, 0, 0, 0, 0, 42, 0, 0, 0, 0, 0, 0, 0, 5, 116, 105, 116, 108, 101, 0, 0, 0, 0,
            0, 0, 0, 4, 98, 111, 100, 121
        ]
    );
    assert_eq!(decode_document(&bytes), Some(sample_document()));
}

#[test]
fn document_round_trip_with_empty_and_wide_texts() {
    let docs = [
        Document { id: 0, title: String::new(), content: String::new() },
        Document { id: u64::MAX, title: "é".to_string(), content: "日本語 text 🦀".to_string() },
    ];
    for d in docs {
        assert_eq!(decode_document(&encode_document(&d)), Some(d));
    }
}

#[test]
fn misshapen_document_bytes_are_rejected() {
    let good = encode_document(&sample_document());
    assert_eq!(decode_document(&[]), None);
    assert_eq!(decode_document(&good[..23]), None);
    assert_eq!(decode_document(&good[..good.len() - 1]), None);
    let mut longer = good.clone();
    longer.push(0);
    assert_eq!(decode_document(&longer), None);
    let mut huge_title = good.clone();
    huge_title[8] = 0xff;
    assert_eq!(decode_document(&huge_title), None);
    let mut bad_text = good.clone();
    bad_text[16] = 0xff;
    assert_eq!(decode_document(&bad_text), None);
    let mut bad_content = good.clone();
    let last = bad_content.len() - 1;
    bad_content[last] = 0x80;
    assert_eq!(decode_document(&bad_content), None);
}

#[test]
fn sealing_under_a_given_nonce_is_aes_256_gcm() {
    let key = SymmetricKey::from_bytes((0u8..32).collect()).unwrap();
    let nonce: Vec<u8> = (0u8..12).collect();
    let sealed = seal_with_nonce(&sample_document(), &key, nonce.clone()).unwrap();
    assert_eq!(sealed.nonce(), &nonce);
    assert_eq!(
        sealed.ciphertext(),
        &vec![
            71, 2, 214, 27, 197, 229, 194, 49, 141, 65, 151, 139, 177, 233, 120, 104, 247, 191,
            243, 88, 149, 123, 95, 124, 56, 103, 229, 133, 25, 11, 111, 214, 120, 73, 130, 184,
            20, 11, 172, 200, 144, 218, 114, 117, 165, 130, 125, 251, 1
        ]
    );
    assert_eq!(decrypt(&sealed, &key), Ok(sample_document()));
    assert_eq!(seal_with_nonce(&sample_document(), &key, vec![0u8; 11]), Err(CryptoError::BadNonce));
    assert_eq!(seal_with_nonce(&sample_document(), &key, vec![0u8; 13]), Err(CryptoError::BadNonce));
}

#[test]
fn sealed_document_has_fresh_nonce_and_tag() {
    let key = SymmetricKey::new();
    let d = sample_document();
    let a = encrypt(&d, &key).unwrap();
    let b = encrypt(&d, &key).unwrap();
    assert_eq!(a.nonce().len(), 12);
    assert_eq!(a.ciphertext().len(), encode_document(&d).len() + 16);
    assert_ne!(a.nonce(), b.nonce());
    assert_ne!(a.ciphertext(), b.ciphertext());
    assert_eq!(decrypt(&a, &key), Ok(d.clone()));
    assert_eq!(decrypt(&b, &key), Ok(d));
}

#[test]
fn opening_under_another_key_fails() {
    let k1 = SymmetricKey::new();
    let k2 = SymmetricKey::new();
    assert_eq!(k1.as_bytes().len(), 32);
    assert_ne!(k1.as_bytes(), k2.as_bytes());
    let sealed = encrypt(&sample_document(), &k1).unwrap();
    assert_eq!(decrypt(&sealed, &k2), Err(CryptoError::OpenFailed));
}

#[test]
fn tampered_or_misshapen_sealed_document_fails() {
    let key = SymmetricKey::new();
    let sealed = encrypt(&sample_document(), &key).unwrap();
    let mut ct = sealed.ciphertext().clone();
    ct[0] ^= 1;
    let tampered = EncryptedDocument::new(sealed.nonce().clone(), ct);
    assert_eq!(decrypt(&tampered, &key), Err(CryptoError::OpenFailed));
    let short_nonce = EncryptedDocument::new(vec![0u8; 11], sealed.ciphertext().clone());
    assert_eq!(decrypt(&short_nonce, &key), Err(CryptoError::BadNonce));
    let no_tag = EncryptedDocument::new(sealed.nonce().clone(), vec![1, 2, 3]);
    assert_eq!(decrypt(&no_tag, &key), Err(CryptoError::OpenFailed));
}

#[test]
fn plaintext_that_is_no_document_is_malformed() {
    // The bytes 1, 2, 3 sealed with AES-256-GCM under the key 0..32 and the nonce 0..12.
    let key = SymmetricKey::from_bytes((0u8..32).collect()).unwrap();
    let sealed = EncryptedDocument::new((0u8..12).collect(), vec![70, 0, 213, 34, 10, 154, 150, 187, 196, 107, 171, 88, 75, 117, 252, 115, 56, 73, 90]);
    assert_eq!(decrypt(&sealed, &key), Err(CryptoError::Malformed));
}

#[test]
fn symmetric_key_takes_32_bytes_only() {
    assert!(SymmetricKey::from_bytes(vec![0u8; 31]).is_none());
    assert!(SymmetricKey::from_bytes(vec![0u8; 33]).is_none());
    let key = SymmetricKey::from_bytes(vec![9u8; 32]).unwrap();
    assert_eq!(key.as_bytes(), &vec![9u8; 32]);
    assert_eq!(key.clone().as_bytes(), key.as_bytes());
}

#[test]
fn batch_of_postings_is_encoded_in_order() {
    let k1 = vec![1u8; 32];
    let k2 = vec![2u8; 32];
    let doc = Document { id: 77, title: String::new(), content: "alpha beta alpha".to_string() };
    let update = IndexUpdate {
        relations: vec![
            Term2Document { term: Term::new("alpha".to_string(), 1), freq: 2, document: doc.clone() },
            Term2Document { term: Term::new("beta".to_string(), 4), freq: 1, document: doc.clone() },
        ],
    };
    let out = encrypt_index_update(&update, &k1, &k2);
    assert_eq!(out.len(), 2);
    let records = out.records();
    let alpha = Term::new("alpha".to_string(), 1);
    let beta = Term::new("beta".to_string(), 4);
    assert_eq!(records[0].key(), &encrypt_index_key(&alpha, &k1));
    assert_eq!(records[1].key(), &encrypt_index_key(&beta, &k1));
    assert_eq!(
        get_document_meta(&alpha, records[0].value().clone(), &k2),
        DocumentMeta::new(77, 16, 2)
    );
    assert_eq!(
        get_document_meta(&beta, records[1].value().clone(), &k2),
        DocumentMeta::new(77, 16, 1)
    );
}
