use ebm25::{
    Dictionary, EncryptedDocument, EncryptedDocumentStorage, EncryptedIndex, EncryptedIndexUpdate,
    EncryptedTerm2Document,
};

#[test]
fn dictionary_counts_from_one() {
    let mut d = Dictionary::new();
    assert_eq!(d.freq("fox"), 0);
    assert_eq!(d.add_or_get("fox".to_string()), 1);
    assert_eq!(d.add_or_get("fox".to_string()), 2);
    assert_eq!(d.add_or_get("dog".to_string()), 1);
    assert_eq!(d.add_or_get("fox".to_string()), 3);
    assert_eq!(d.freq("fox"), 3);
    assert_eq!(d.freq("dog"), 1);
    assert_eq!(d.freq("cat"), 0);
}

#[test]
fn index_maps_keys_to_values_and_later_writes_win() {
    let mut index = EncryptedIndex::new();
    assert_eq!(index.get(&[1, 2, 3]), None);
    index.add(vec![1, 2, 3], vec![10]);
    index.add(vec![1, 2], vec![20]);
    assert_eq!(index.get(&[1, 2, 3]), Some(&vec![10]));
    assert_eq!(index.get(&[1, 2]), Some(&vec![20]));
    assert_eq!(index.get(&[1]), None);
    index.add(vec![1, 2, 3], vec![30]);
    assert_eq!(index.get(&[1, 2, 3]), Some(&vec![30]));
    assert_eq!(index.get(&[1, 2]), Some(&vec![20]));
    assert_eq!(index.len(), 2);
}

#[test]
fn index_update_writes_a_batch_in_order() {
    let mut batch = EncryptedIndexUpdate::new();
    assert_eq!(batch.len(), 0);
    batch.add(vec![1], vec![11]);
    batch.add(vec![2], vec![22]);
    batch.add(vec![1], vec![33]);
    assert_eq!(batch.len(), 3);
    let mut index = EncryptedIndex::new();
    index.add(vec![9], vec![99]);
    index.update(&batch);
    assert_eq!(index.get(&[1]), Some(&vec![33]));
    assert_eq!(index.get(&[2]), Some(&vec![22]));
    assert_eq!(index.get(&[9]), Some(&vec![99]));
    assert_eq!(index.len(), 3);

    let same = EncryptedIndexUpdate::insert(vec![
        EncryptedTerm2Document::new(vec![1], vec![11]),
        EncryptedTerm2Document::new(vec![2], vec![22]),
        EncryptedTerm2Document::new(vec![1], vec![33]),
    ]);
    assert_eq!(same, batch);
    assert_eq!(same.records()[1].key(), &vec![2]);
    assert_eq!(same.records()[1].value(), &vec![22]);
}

#[test]
fn index_lookup_answers_in_order_with_empty_slots_for_misses() {
    let mut index = EncryptedIndex::new();
    index.add(vec![1], vec![11]);
    index.add(vec![2], vec![22]);
    let answer = index.lookup(&vec![vec![2], vec![7], vec![1], vec![2]]);
    assert_eq!(answer, vec![vec![22], vec![], vec![11], vec![22]]);
    assert_eq!(index.lookup(&Vec::new()), Vec::<Vec<u8>>::new());
}

#[test]
fn document_storage_keeps_the_latest_document_of_an_id() {
    let mut storage = EncryptedDocumentStorage::new();
    assert_eq!(storage.get(5), None);
    storage.add(5, EncryptedDocument::new(vec![0; 12], vec![1]));
    storage.add(6, EncryptedDocument::new(vec![0; 12], vec![2]));
    storage.add(5, EncryptedDocument::new(vec![1; 12], vec![3]));
    assert_eq!(storage.len(), 2);
    assert_eq!(storage.get(5), Some(&EncryptedDocument::new(vec![1; 12], vec![3])));
    assert_eq!(storage.get(6), Some(&EncryptedDocument::new(vec![0; 12], vec![2])));
    assert_eq!(storage.get(7), None);
}
