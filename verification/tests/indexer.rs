use ebm25::{
    decrypt, encrypt_index_key, get_document_meta, DocumentMeta, EncryptedIndex, Indexer,
    IngestError, Keys, SymmetricKey, Term,
};

#[test]
fn test_add() {
    let mut indexer = Indexer::new();
    let text = "This is a test".to_string();
    let document = indexer.add(text).unwrap();
    assert_eq!(document.content, "This is a test");
}

#[test]
fn test_get_encrypted_doc_storage() {
    let mut indexer = Indexer::new();
    let mut index = EncryptedIndex::new();
    let text = "This is a test".to_string();
    let document = indexer.add(text).unwrap();

    let encrypted_doc_storage = indexer.get_encrypted_doc_storage();
    index.update(&indexer.get_encrypted_index());

    // search
    let term = Term::new("This".to_string(), 1);

    let key_req = encrypt_index_key(&term, indexer.keys().index_key());
    let val_res = index.get(&key_req).unwrap();
    let meta = get_document_meta(&term, val_res.clone(), indexer.keys().value_key());

    assert_eq!(meta.id, document.id);

    let decr = decrypt(encrypted_doc_storage.get(meta.id).unwrap(), indexer.keys().document_key())
        .unwrap();
    assert_eq!(decr.content, document.content)
}

#[test]
fn fresh_client_has_three_secrets_and_nothing_else() {
    let indexer = Indexer::new();
    assert_eq!(indexer.keys().index_key().len(), 32);
    assert_eq!(indexer.keys().value_key().len(), 32);
    assert_eq!(indexer.keys().document_key().as_bytes().len(), 32);
    assert_ne!(indexer.keys().index_key(), indexer.keys().value_key());
    assert_ne!(indexer.keys().index_key(), &vec![0u8; 32]);
    assert_eq!(indexer.document_count(), 0);
    assert_eq!(indexer.posting_count(), 0);
    assert_eq!(indexer.total_document_size(), 0);
    assert_eq!(indexer.get_encrypted_index().len(), 0);
    assert_eq!(indexer.get_encrypted_doc_storage().len(), 0);
    let other = Indexer::new();
    assert_ne!(indexer.keys().index_key(), other.keys().index_key());
}

#[test]
fn ingest_makes_one_posting_for_each_distinct_term() {
    let keys = Keys::from_parts(
        SymmetricKey::from_bytes(vec![3u8; 32]).unwrap(),
        vec![1u8; 32],
        vec![2u8; 32],
    );
    let mut indexer = Indexer::with_keys(keys);
    let doc = indexer.add_with_id(1234, "alpha beta alpha".to_string()).unwrap();
    assert_eq!(doc.id, 1234);
    assert_eq!(doc.title, "");
    assert_eq!(doc.content, "alpha beta alpha");
    assert_eq!(indexer.dictionary().freq("alpha"), 1);
    assert_eq!(indexer.dictionary().freq("beta"), 1);
    assert_eq!(indexer.dictionary().freq("gamma"), 0);
    assert_eq!(indexer.total_document_size(), 16);
    assert_eq!(indexer.document_count(), 1);
    assert_eq!(indexer.document_ids(), &vec![1234]);
    assert_eq!(indexer.posting_count(), 2);

    let batch = indexer.get_encrypted_index();
    assert_eq!(batch.len(), 2);
    let alpha = Term::new("alpha".to_string(), 1);
    let beta = Term::new("beta".to_string(), 1);
    assert_eq!(batch.records()[0].key(), &encrypt_index_key(&alpha, &[1u8; 32]));
    assert_eq!(batch.records()[1].key(), &encrypt_index_key(&beta, &[1u8; 32]));
    assert_eq!(indexer.meta(&alpha, batch.records()[0].value()), DocumentMeta::new(1234, 16, 2));
    assert_eq!(indexer.meta(&beta, batch.records()[1].value()), DocumentMeta::new(1234, 16, 1));
}

#[test]
fn counter_rises_by_one_for_each_document_that_holds_the_term() {
    let mut indexer = Indexer::new();
    indexer.add("fox fox fox dog".to_string()).unwrap();
    assert_eq!(indexer.dictionary().freq("fox"), 1);
    assert_eq!(indexer.dictionary().freq("dog"), 1);
    indexer.add("cat".to_string()).unwrap();
    assert_eq!(indexer.dictionary().freq("fox"), 1);
    assert_eq!(indexer.dictionary().freq("cat"), 1);
    indexer.add("fox cat fox".to_string()).unwrap();
    assert_eq!(indexer.dictionary().freq("fox"), 2);
    assert_eq!(indexer.dictionary().freq("cat"), 2);
    assert_eq!(indexer.dictionary().freq("dog"), 1);
    assert_eq!(indexer.posting_count(), 5);
    assert_eq!(indexer.total_document_size(), 15 + 3 + 11);
}

#[test]
fn same_content_twice_gives_two_documents_and_two_postings_for_each_term() {
    let mut indexer = Indexer::new();
    let before = indexer.dictionary().freq("brown");
    let a = indexer.add("Brown fox brown dog".to_string()).unwrap();
    let b = indexer.add("Brown fox brown dog".to_string()).unwrap();
    assert_ne!(a.id, b.id);
    assert_eq!(a.content, b.content);
    for t in ["Brown", "fox", "brown", "dog"] {
        assert_eq!(indexer.dictionary().freq(t), 2);
    }
    assert_eq!(indexer.dictionary().freq("brown"), before + 2);
    let batch = indexer.get_encrypted_index();
    assert_eq!(batch.len(), 8);
    let records = batch.records();
    for i in 0..records.len() {
        for j in (i + 1)..records.len() {
            assert_ne!(records[i].key(), records[j].key());
        }
    }
    for t in ["Brown", "fox", "brown", "dog"] {
        let k1 = encrypt_index_key(&Term::new(t.to_string(), 1), indexer.keys().index_key());
        let k2 = encrypt_index_key(&Term::new(t.to_string(), 2), indexer.keys().index_key());
        assert_eq!(records.iter().filter(|r| r.key() == &k1).count(), 1);
        assert_eq!(records.iter().filter(|r| r.key() == &k2).count(), 1);
    }
    assert_eq!(indexer.get_encrypted_doc_storage().len(), 2);
}

#[test]
fn text_without_tokens_is_rejected_and_changes_nothing() {
    let mut indexer = Indexer::new();
    indexer.add("one two".to_string()).unwrap();
    assert_eq!(indexer.add("".to_string()), Err(IngestError::NoTokens));
    assert_eq!(indexer.add(" ,.; ".to_string()), Err(IngestError::NoTokens));
    assert_eq!(indexer.document_count(), 1);
    assert_eq!(indexer.posting_count(), 2);
    assert_eq!(indexer.total_document_size(), 7);
}

#[test]
fn document_with_a_used_id_replaces_the_earlier_one() {
    let mut indexer = Indexer::new();
    indexer.add_with_id(7, "first text".to_string()).unwrap();
    indexer.add_with_id(7, "second".to_string()).unwrap();
    assert_eq!(indexer.document_count(), 1);
    assert_eq!(indexer.document_ids(), &vec![7]);
    assert_eq!(indexer.posting_count(), 3);
    assert_eq!(indexer.total_document_size(), 16);
    let storage = indexer.get_encrypted_doc_storage();
    let opened = indexer.decrypt(storage.get(7).unwrap()).unwrap();
    assert_eq!(opened.content, "second");
}

#[test]
fn sealed_storage_opens_to_the_documents_held() {
    let mut indexer = Indexer::new();
    let a = indexer.add("The quick brown fox".to_string()).unwrap();
    let b = indexer.add("Magic the gathering".to_string()).unwrap();
    let storage = indexer.get_encrypted_doc_storage();
    assert_eq!(storage.len(), 2);
    assert_eq!(indexer.decrypt(storage.get(a.id).unwrap()), Ok(a.clone()));
    assert_eq!(indexer.decrypt(storage.get(b.id).unwrap()), Ok(b));
    let stranger = Indexer::new();
    assert!(stranger.decrypt(storage.get(a.id).unwrap()).is_err());
}
