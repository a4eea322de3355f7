use ebm25::{
    hits_by_document, rank, Document, DocumentHits, DocumentMeta, EncryptedDocumentStorage,
    EncryptedIndex, Hit, Indexer, Keys, Scored, SymmetricKey,
};
use std::collections::HashMap;

const SENTENCES: [&str; 8] = [
    "The quick brown fox jumps over the lazy dog",
    "The quick brown fox jumps over the quick dog",
    "Brown fox brown dog",
    "Magic the gathering",
    "Brown fox lazy dog",
    "Lazy dog quick brown fox",
    "Brown dog lazy fox",
    "The quick brown fox and the quick blue hare",
];

struct Server {
    index: EncryptedIndex,
    storage: EncryptedDocumentStorage,
    lookups: usize,
}

fn flush(indexer: &Indexer) -> Server {
    let mut index = EncryptedIndex::new();
    index.update(&indexer.get_encrypted_index());
    Server { index, storage: indexer.get_encrypted_doc_storage(), lookups: 0 }
}

fn idf(doc_count: u64, doc_freq: u64) -> f64 {
    (1. + (doc_count as f64 - doc_freq as f64 + 0.5) / (doc_freq as f64 + 0.5)).ln()
}

fn score(indexer: &Indexer, hit: &Hit) -> f64 {
    let (k1, b) = (1.2, 0.75);
    let n = indexer.document_count() as u64;
    let avgdl = indexer.total_document_size() as f64 / n as f64;
    let tf = hit.meta.f as f64;
    let dl = hit.meta.size as f64;
    let s = idf(n, hit.doc_freq) * (tf * (k1 + 1.0)) / (tf + k1 * (1.0 - b + b * dl / avgdl));
    s * hit.weight as f64
}

fn order_key(x: f64) -> u64 {
    if x.is_nan() || x <= 0.0 {
        0
    } else {
        x.to_bits()
    }
}

fn hits(indexer: &Indexer, server: &mut Server, text: &str) -> Vec<Hit> {
    let query = indexer.query(text.to_string());
    if query.query.is_empty() {
        return Vec::new();
    }
    server.lookups += query.query.len();
    let response = server.index.lookup(&query.query);
    assert_eq!(response.len(), query.terms.len());
    indexer.hits(&query, &response).unwrap()
}

fn search(indexer: &Indexer, server: &mut Server, text: &str, top_k: usize) -> Vec<(Document, f64)> {
    let mut sums: HashMap<u64, f64> = HashMap::new();
    for document in hits_by_document(&hits(indexer, server, text)) {
        sums.insert(document.id, document.hits.iter().map(|hit| score(indexer, hit)).sum());
    }
    let candidates: Vec<Scored> =
        sums.iter().map(|(id, s)| Scored { id: *id, score: order_key(*s) }).collect();
    let mut out = Vec::new();
    for best in rank(&candidates, top_k) {
        if let Some(sealed) = server.storage.get(best.id) {
            if let Ok(d) = indexer.decrypt(sealed) {
                out.push((d, sums[&best.id]));
            }
        }
    }
    out
}

fn corpus() -> (Indexer, Vec<Document>) {
    let mut indexer = Indexer::new();
    let docs = SENTENCES.iter().map(|s| indexer.add(s.to_string()).unwrap()).collect();
    (indexer, docs)
}

#[test]
fn query_for_gathering_finds_the_one_sentence() {
    let (indexer, docs) = corpus();
    let mut server = flush(&indexer);
    let result = search(&indexer, &mut server, "gathering", 5);
    assert_eq!(result.len(), 1);
    assert_eq!(result[0].0, docs[3]);
    assert_eq!(result[0].0.content, "Magic the gathering");
}

#[test]
fn query_for_quick_brown_ranks_the_sentences_with_both_terms() {
    let (indexer, docs) = corpus();
    let mut server = flush(&indexer);
    let result = search(&indexer, &mut server, "quick brown", 3);
    assert_eq!(result.len(), 3);
    let both = [&docs[0], &docs[1], &docs[5], &docs[7]];
    for (d, _) in &result {
        assert!(both.contains(&d));
        assert_ne!(d, &docs[3]);
    }
    assert!(result[0].1 >= result[1].1 && result[1].1 >= result[2].1);
    assert_ne!(result[0].0.id, result[1].0.id);
    assert_ne!(result[1].0.id, result[2].0.id);
    assert_ne!(result[0].0.id, result[2].0.id);

    let all = search(&indexer, &mut server, "quick brown", 10);
    assert_eq!(all.len(), 5);
    assert_eq!(all[4].0, docs[2]);
    for pair in all.windows(2) {
        assert!(pair[0].1 > pair[1].1 || (pair[0].1 == pair[1].1 && pair[0].0.id < pair[1].0.id));
    }
}

#[test]
fn query_for_an_unknown_term_sends_nothing() {
    let (indexer, _) = corpus();
    let mut server = flush(&indexer);
    let query = indexer.query("xyznotindexed".to_string());
    assert!(query.terms.is_empty());
    assert!(query.query.is_empty());
    let result = search(&indexer, &mut server, "xyznotindexed", 10);
    assert!(result.is_empty());
    assert_eq!(server.lookups, 0);
}

#[test]
fn query_expands_each_token_to_one_key_for_each_occurrence() {
    let (indexer, _) = corpus();
    let query = indexer.query("quick brown quick".to_string());
    assert_eq!(indexer.dictionary().freq("quick"), 4);
    assert_eq!(indexer.dictionary().freq("brown"), 5);
    assert_eq!(query.terms.len(), 9);
    assert_eq!(query.query.len(), 9);
    for i in 0..4 {
        assert_eq!(query.terms[i].term, "quick");
        assert_eq!(query.terms[i].id, i as u64 + 1);
        assert_eq!(query.terms[i].score, 2);
    }
    for i in 4..9 {
        assert_eq!(query.terms[i].term, "brown");
        assert_eq!(query.terms[i].id, i as u64 - 3);
        assert_eq!(query.terms[i].score, 1);
    }
    for i in 0..9 {
        assert_eq!(
            query.query[i],
            ebm25::encrypt_index_key(&query.terms[i], indexer.keys().index_key())
        );
        assert_eq!(query.query[i].len(), 32);
    }
}

#[test]
fn single_document_query_recovers_frequency_and_size() {
    let mut indexer = Indexer::new();
    let doc = indexer.add("alpha beta alpha".to_string()).unwrap();
    let mut server = flush(&indexer);
    let found = hits(&indexer, &mut server, "alpha");
    assert_eq!(found.len(), 1);
    assert_eq!(found[0].meta.id, doc.id);
    assert_eq!(found[0].meta.f, 2);
    assert_eq!(found[0].meta.size, "alpha beta alpha".len() as u64);
    assert_eq!(found[0].doc_freq, 1);
    assert_eq!(found[0].weight, 1);
    let result = search(&indexer, &mut server, "alpha", 1);
    assert_eq!(result.len(), 1);
    assert_eq!(result[0].0, doc);
}

#[test]
fn stale_server_gives_misses_that_are_passed_over() {
    let mut indexer = Indexer::new();
    let first = indexer.add("alpha beta".to_string()).unwrap();
    let mut server = flush(&indexer);
    indexer.add("alpha gamma".to_string()).unwrap();
    let query = indexer.query("alpha".to_string());
    assert_eq!(query.query.len(), 2);
    let response = server.index.lookup(&query.query);
    assert_eq!(response[0].len(), 24);
    assert_eq!(response[1].len(), 0);
    let found = indexer.hits(&query, &response).unwrap();
    assert_eq!(found.len(), 1);
    assert_eq!(indexer.hits(&query, &response[..1].to_vec()), None);
    assert_eq!(indexer.hits(&query, &Vec::new()), None);
    assert_eq!(found[0].meta.id, first.id);
    assert_eq!(found[0].doc_freq, 2);
    let result = search(&indexer, &mut server, "alpha", 5);
    assert_eq!(result.len(), 1);
    assert_eq!(result[0].0, first);
}

#[test]
fn flipped_value_secret_gives_wrong_ids_and_no_crash() {
    let doc_key = SymmetricKey::from_bytes(vec![3u8; 32]).unwrap();
    let mut writer =
        Indexer::with_keys(Keys::from_parts(doc_key.clone(), vec![1u8; 32], vec![2u8; 32]));
    let mut value_key = vec![2u8; 32];
    value_key[0] ^= 1;
    let mut reader = Indexer::with_keys(Keys::from_parts(doc_key, vec![1u8; 32], value_key));
    let mut ids = Vec::new();
    for (i, s) in SENTENCES.iter().enumerate() {
        ids.push(writer.add_with_id(i as u64 + 1, s.to_string()).unwrap().id);
        reader.add_with_id(i as u64 + 1, s.to_string()).unwrap();
    }
    let mut server = flush(&writer);
    let found = hits(&reader, &mut server, "fox");
    assert_eq!(found.len(), 7);
    for hit in &found {
        assert!(!ids.contains(&hit.meta.id));
    }
    let result = search(&reader, &mut server, "fox", 5);
    assert!(result.is_empty());
}

#[test]
fn hits_are_grouped_by_document_in_order_of_first_occurrence() {
    let hit = |id: u64, f: u64| Hit { meta: DocumentMeta::new(id, 10, f), doc_freq: 1, weight: 1 };
    let hits = vec![hit(5, 1), hit(3, 2), hit(5, 3), hit(9, 4), hit(3, 5)];
    assert_eq!(
        hits_by_document(&hits),
        vec![
            DocumentHits { id: 5, hits: vec![hit(5, 1), hit(5, 3)] },
            DocumentHits { id: 3, hits: vec![hit(3, 2), hit(3, 5)] },
            DocumentHits { id: 9, hits: vec![hit(9, 4)] },
        ]
    );
    assert_eq!(hits_by_document(&Vec::new()), Vec::<DocumentHits>::new());
}
