//! The client's state and its write path: ingest of documents, and the two
//! batches that a flush sends.

use crate::codec::{document_bytes, lemma_document_round_trip, HEADER_LEN};
use crate::crypto::{
    aes256_gcm_seal, decrypt, encrypt, opened, CryptoError, EncryptedDocument, NONCE_LEN, SEAL_MAX,
};
use crate::dictionary::{freq_in, Dictionary};
use crate::hash::{lemma_prf_input_injective, prf_input};
use crate::index::{
    posting_views, Document, DocumentView, PostingView, Term, Term2Document, TermView,
};
use crate::keys::{random_u64, Keys, KeysView};
use crate::posting::{encrypt_postings, encrypted_postings, lookup_key, KEY_LEN, VALUE_LEN};
use crate::store::{EncryptedDocumentStorage, EncryptedIndexUpdate};
use crate::utils::{group_by, group_views, grouped, lemma_grouped, tokenize, tokens_of};
use std::collections::HashMap;
use vstd::prelude::*;
use vstd::utf8::encode_utf8;

verus! {

/// Why a text was not ingested.
#[derive(Debug, Clone, Copy, PartialEq, Eq, Structural)]
pub enum IngestError {
    /// The tokenizer made no token of the text.
    NoTokens,
    /// The document would be too long to seal.
    TooLarge,
    /// A counter of the client would overflow.
    Full,
}

/// The postings that one document adds: one for each group of its tokens, in
/// order, with the occurrence id that follows the term's counter in `counts`.
pub open spec fn new_postings(
    groups: Seq<(Seq<char>, nat)>,
    counts: Map<Seq<char>, u64>,
    document: DocumentView,
) -> Seq<PostingView> {
    Seq::new(
        groups.len(),
        |j: int|
            PostingView {
                term: TermView {
                    term: groups[j].0,
                    id: (freq_in(counts, groups[j].0) + 1) as u64,
                    score: 1,
                },
                freq: groups[j].1 as u64,
                document,
            },
    )
}

/// Whether `records` holds a posting of `term` with the occurrence id `occ`.
pub open spec fn has_posting(records: Seq<PostingView>, term: Seq<char>, occ: u64) -> bool {
    exists|i: int|
        0 <= i < records.len() && (#[trigger] records[i]).term.term == term && records[i].term.id
            == occ
}

/// Whether `batch` holds a record under the lookup key `key`.
pub open spec fn batch_holds_key(batch: Seq<(Seq<u8>, Seq<u8>)>, key: Seq<u8>) -> bool {
    exists|i: int| 0 <= i < batch.len() && (#[trigger] batch[i]).0 == key
}

/// Whether one of the first `n` groups has the text `term`.
pub open spec fn among_groups(groups: Seq<(Seq<char>, nat)>, n: int, term: Seq<char>) -> bool {
    exists|m: int| 0 <= m < n && m < groups.len() && (#[trigger] groups[m]).0 == term
}

/// The dictionary is the one source of occurrence ids: no counter exceeds the
/// number of postings, and the postings of a term carry the ids from 1 to the
/// term's counter, each once and in rising order.
pub open spec fn postings_follow_counts(counts: Map<Seq<char>, u64>, records: Seq<PostingView>) -> bool {
    &&& forall|t: Seq<char>| #[trigger] freq_in(counts, t) <= records.len()
    &&& forall|i: int|
        0 <= i < records.len() ==> 1 <= (#[trigger] records[i]).term.id <= freq_in(
            counts,
            records[i].term.term,
        )
    &&& forall|i: int, j: int|
        0 <= i < j < records.len() && (#[trigger] records[i]).term.term == (
        #[trigger] records[j]).term.term ==> records[i].term.id < records[j].term.id
    &&& forall|t: Seq<char>, occ: u64|
        1 <= occ <= freq_in(counts, t) ==> #[trigger] has_posting(records, t, occ)
}

/// Two postings that follow the counts never agree in both term and
/// occurrence id, so no two of them are hashed from the same bytes.
pub proof fn lemma_postings_distinct(
    counts: Map<Seq<char>, u64>,
    records: Seq<PostingView>,
    i: int,
    j: int,
)
    requires
        postings_follow_counts(counts, records),
        0 <= i < records.len(),
        0 <= j < records.len(),
        i != j,
    ensures
        records[i].term.term != records[j].term.term || records[i].term.id != records[j].term.id,
{
    if i < j {
        assert(records[i].term.term == records[j].term.term ==> records[i].term.id
            < records[j].term.id);
    } else {
        assert(records[j].term.term == records[i].term.term ==> records[j].term.id
            < records[i].term.id);
    }
}

/// Ingesting one document keeps the postings in step with the counts: each
/// group's counter goes up by one, and the group's posting takes the new
/// value as its occurrence id.
pub proof fn lemma_ingest_follows_counts(
    counts: Map<Seq<char>, u64>,
    records: Seq<PostingView>,
    groups: Seq<(Seq<char>, nat)>,
    document: DocumentView,
    counts_after: Map<Seq<char>, u64>,
)
    requires
        postings_follow_counts(counts, records),
        groups.len() >= 1,
        records.len() + groups.len() <= usize::MAX,
        forall|a: int, b: int| 0 <= a < b < groups.len() ==> groups[a].0 != groups[b].0,
        forall|t: Seq<char>| #[trigger]
            freq_in(counts_after, t) == freq_in(counts, t) + (if among_groups(
                groups,
                groups.len() as int,
                t,
            ) {
                1int
            } else {
                0int
            }),
    ensures
        postings_follow_counts(counts_after, records + new_postings(groups, counts, document)),
{
    let added = new_postings(groups, counts, document);
    let after = records + added;
    let n = records.len() as int;
    assert forall|t: Seq<char>| #[trigger] freq_in(counts_after, t) <= after.len() by {
        assert(freq_in(counts, t) <= records.len());
    }
    assert forall|i: int| 0 <= i < after.len() implies 1 <= (#[trigger] after[i]).term.id
        <= freq_in(counts_after, after[i].term.term) by {
        if i < n {
            assert(after[i] == records[i]);
        } else {
            let t = groups[i - n].0;
            assert(after[i] == added[i - n]);
            assert(freq_in(counts, t) <= records.len());
            assert(among_groups(groups, groups.len() as int, t));
        }
    }
    assert forall|i: int, j: int|
        0 <= i < j < after.len() && (#[trigger] after[i]).term.term == (
        #[trigger] after[j]).term.term implies after[i].term.id < after[j].term.id by {
        if j < n {
            assert(after[i] == records[i] && after[j] == records[j]);
        } else if i < n {
            let t = groups[j - n].0;
            assert(after[i] == records[i]);
            assert(after[j] == added[j - n]);
            assert(freq_in(counts, t) <= records.len());
        } else {
            assert(after[i] == added[i - n] && after[j] == added[j - n]);
            assert(groups[i - n].0 != groups[j - n].0);
        }
    }
    assert forall|t: Seq<char>, occ: u64| 1 <= occ <= freq_in(counts_after, t) implies #[trigger]
        has_posting(after, t, occ) by {
        if occ <= freq_in(counts, t) {
            assert(has_posting(records, t, occ));
            let i = choose|i: int|
                0 <= i < records.len() && (#[trigger] records[i]).term.term == t
                    && records[i].term.id == occ;
            assert(after[i] == records[i]);
        } else {
            assert(among_groups(groups, groups.len() as int, t));
            let m = choose|m: int|
                0 <= m < groups.len() && m < groups.len() && (#[trigger] groups[m]).0 == t;
            assert(freq_in(counts, t) <= records.len());
            assert(after[n + m] == added[m]);
            assert(after[n + m].term.term == t && after[n + m].term.id == occ);
        }
    }
}

/// What holds of a client's state between its operations.
///
/// The dictionary is the one source of occurrence ids: the postings of a
/// term carry the ids from 1 to the term's counter, each once and in rising
/// order, so that no two postings agree in both term and id. Every document
/// held can be sealed, and the list of ids names exactly the documents held.
pub open spec fn corpus_wf(
    counts: Map<Seq<char>, u64>,
    records: Seq<PostingView>,
    documents: Map<u64, Document>,
    ids: Seq<u64>,
) -> bool {
    &&& postings_follow_counts(counts, records)
    &&& forall|id: u64| #[trigger]
        documents.contains_key(id) ==> document_bytes(documents[id]@).len() <= SEAL_MAX
    &&& forall|i: int| 0 <= i < ids.len() ==> documents.contains_key(#[trigger] ids[i])
    &&& forall|id: u64| #[trigger] documents.contains_key(id) ==> ids.contains(id)
}

/// What a client has ingested: the dictionary, the documents, the postings
/// made so far, and the total size of the documents.
struct Corpus {
    dictionary: Dictionary,
    documents: HashMap<u64, Document>,
    document_ids: Vec<u64>,
    index_records: Vec<Term2Document>,
    total_document_size: u64,
}

impl Corpus {
    #[verifier::type_invariant]
    spec fn well_formed(self) -> bool {
        corpus_wf(
            self.dictionary@,
            posting_views(self.index_records@),
            self.documents@,
            self.document_ids@,
        )
    }

    fn empty() -> (out: Self)
        ensures
            out.dictionary@ == Map::<Seq<char>, u64>::empty(),
            out.documents@ == Map::<u64, Document>::empty(),
            out.document_ids@ == Seq::<u64>::empty(),
            out.index_records@ == Seq::<Term2Document>::empty(),
            out.total_document_size == 0,
    {
        Self {
            dictionary: Dictionary::new(),
            documents: HashMap::new(),
            document_ids: Vec::new(),
            index_records: Vec::new(),
            total_document_size: 0u64,
        }
    }
}

/// The client: its secrets and what it has ingested.
pub struct Indexer {
    keys: Keys,
    corpus: Corpus,
}

impl Indexer {
    /// The counters of the dictionary.
    pub closed spec fn spec_dictionary(&self) -> Map<Seq<char>, u64> {
        self.corpus.dictionary@
    }

    /// The counter of `term`, 0 if the term was never seen.
    pub open spec fn spec_freq(&self, term: Seq<char>) -> u64 {
        freq_in(self.spec_dictionary(), term)
    }

    /// The three secrets.
    pub closed spec fn spec_keys(&self) -> KeysView {
        self.keys@
    }

    /// The documents held, by id.
    pub closed spec fn spec_documents(&self) -> Map<u64, Document> {
        self.corpus.documents@
    }

    /// The postings made so far, oldest first.
    pub closed spec fn spec_records(&self) -> Seq<PostingView> {
        posting_views(self.corpus.index_records@)
    }

    /// The sum of the sizes in bytes of the texts ingested.
    pub closed spec fn spec_total_size(&self) -> u64 {
        self.corpus.total_document_size
    }

    /// The ids of the documents held, each once.
    pub closed spec fn spec_document_ids(&self) -> Seq<u64> {
        self.corpus.document_ids@
    }

    /// What holds of every client between its operations: see [`corpus_wf`].
    /// The operations keep it without asking for it.
    pub open spec fn wf(&self) -> bool {
        corpus_wf(
            self.spec_dictionary(),
            self.spec_records(),
            self.spec_documents(),
            self.spec_document_ids(),
        )
    }

    /// A client with the given secrets and nothing ingested.
    pub fn with_keys(keys: Keys) -> (out: Self)
        ensures
            out.wf(),
            out.spec_keys() == keys@,
            out.spec_dictionary() == Map::<Seq<char>, u64>::empty(),
            out.spec_documents() == Map::<u64, Document>::empty(),
            out.spec_records() == Seq::<PostingView>::empty(),
            out.spec_total_size() == 0,
    {
        let out = Self { keys, corpus: Corpus::empty() };
        assert(out.spec_records() =~= Seq::<PostingView>::empty());
        out
    }

    /// Why `text` cannot be ingested now, if anything: it has no tokens, it
    /// is too long to be sealed as a document, or a counter would overflow.
    pub open spec fn ingest_error(&self, text: Seq<char>) -> Option<IngestError> {
        let size = encode_utf8(text).len();
        let groups = grouped(tokens_of(text));
        if groups.len() == 0 {
            Some(IngestError::NoTokens)
        } else if HEADER_LEN + size > SEAL_MAX {
            Some(IngestError::TooLarge)
        } else if self.spec_total_size() + size > u64::MAX || self.spec_records().len()
            + groups.len() > usize::MAX {
            Some(IngestError::Full)
        } else {
            None
        }
    }

    /// Ingests `text` as the content of a new document with the given id.
    ///
    /// On an error nothing changes. Otherwise the document is held under its
    /// id, its size is added to the total, the counter of each term that
    /// occurs in the text goes up by exactly one and no other counter
    /// changes, and one posting is appended for each distinct term, in the
    /// order of first occurrence, with the new counter as its occurrence id
    /// and the number of the term's occurrences in the text.
    pub fn add_with_id(&mut self, id: u64, text: String) -> (out: Result<Document, IngestError>)
        ensures
            match out {
                Err(e) => old(self).ingest_error(text@) == Some(e) && *final(self) == *old(self),
                Ok(document) => {
                    &&& old(self).ingest_error(text@) is None
                    &&& document@ == (DocumentView { id, title: Seq::empty(), content: text@ })
                    &&& final(self).wf()
                    &&& final(self).spec_keys() == old(self).spec_keys()
                    &&& final(self).spec_total_size() == old(self).spec_total_size() + encode_utf8(
                        text@,
                    ).len()
                    &&& final(self).spec_documents() == old(self).spec_documents().insert(
                        id,
                        document,
                    )
                    &&& final(self).spec_records() == old(self).spec_records() + new_postings(
                        grouped(tokens_of(text@)),
                        old(self).spec_dictionary(),
                        document@,
                    )
                    &&& forall|t: Seq<char>| #[trigger]
                        final(self).spec_freq(t) == old(self).spec_freq(t) + (if tokens_of(
                            text@,
                        ).contains(t) {
                            1int
                        } else {
                            0int
                        })
                },
            },
    {
        let tokens = tokenize(text.as_str());
        let groups = group_by(&tokens);
        let size: usize = text.as_str().as_bytes().len();
        let ghost gs = grouped(tokens_of(text@));
        let ghost counts = self.corpus.dictionary@;
        let ghost records = posting_views(self.corpus.index_records@);
        proof {
            use_type_invariant(&self.corpus);
            lemma_grouped(tokens_of(text@));
        }
        if groups.len() == 0 {
            return Err(IngestError::NoTokens);
        }
        if size as u64 > SEAL_MAX - HEADER_LEN as u64 {
            return Err(IngestError::TooLarge);
        }
        if size as u64 > u64::MAX - self.corpus.total_document_size || groups.len() > usize::MAX
            - self.corpus.index_records.len() {
            return Err(IngestError::Full);
        }
        let document = Document { id, title: String::new(), content: text };
        proof {
            lemma_document_round_trip(document@);
        }
        let mut corpus = Corpus::empty();
        std::mem::swap(&mut corpus, &mut self.corpus);
        let Corpus {
            mut dictionary,
            mut documents,
            mut document_ids,
            mut index_records,
            total_document_size,
        } = corpus;
        let ghost documents_before = documents@;
        let ghost ids_before = document_ids@;
        if !documents.contains_key(&id) {
            document_ids.push(id);
        }
        documents.insert(id, document.clone());
        let total: u64 = total_document_size + size as u64;
        let ghost added = new_postings(gs, counts, document@);
        proof {
            assert forall|i: int| 0 <= i < document_ids@.len() implies documents@.contains_key(
                #[trigger] document_ids@[i],
            ) by {
                if i < ids_before.len() {
                    assert(document_ids@[i] == ids_before[i]);
                    assert(documents_before.contains_key(ids_before[i]));
                }
            }
            assert forall|d: u64| #[trigger] documents@.contains_key(d) implies document_ids@.contains(
                d,
            ) by {
                if documents_before.contains_key(d) {
                    assert(ids_before.contains(d));
                    let i = choose|i: int| 0 <= i < ids_before.len() && ids_before[i] == d;
                    assert(document_ids@[i] == d);
                } else {
                    assert(d == id);
                    assert(document_ids@[document_ids@.len() - 1] == d);
                }
            }
        }
        let mut j: usize = 0;
        while j < groups.len()
            invariant
                j <= groups@.len(),
                group_views(groups@) == gs,
                gs.len() == groups@.len(),
                gs.len() >= 1,
                forall|a: int, b: int| 0 <= a < b < gs.len() ==> gs[a].0 != gs[b].0,
                records.len() + gs.len() <= usize::MAX,
                forall|t: Seq<char>| #[trigger] freq_in(counts, t) <= records.len(),
                forall|t: Seq<char>| #[trigger]
                    freq_in(dictionary@, t) == freq_in(counts, t) + (if among_groups(
                        gs,
                        j as int,
                        t,
                    ) {
                        1int
                    } else {
                        0int
                    }),
                added == new_postings(gs, counts, document@),
                posting_views(index_records@) == records + added.take(j as int),
            decreases groups@.len() - j,
        {
            let ghost before = dictionary@;
            let ghost prev = index_records@;
            let ghost t = gs[j as int].0;
            let token: String = groups[j].0.clone();
            let f: u64 = groups[j].1;
            proof {
                assert(group_views(groups@)[j as int] == gs[j as int]);
                assert(token@ == t);
                if among_groups(gs, j as int, t) {
                    let m = choose|m: int| 0 <= m < j && m < gs.len() && (#[trigger] gs[m]).0 == t;
                    assert(gs[m].0 != gs[j as int].0);
                }
                assert(freq_in(before, t) == freq_in(counts, t));
            }
            let occ = dictionary.add_or_get(token.clone());
            let term = Term::new(token, occ);
            index_records.push(Term2Document { term, freq: f, document: document.clone() });
            proof {
                let now = posting_views(index_records@);
                let last = index_records@[index_records@.len() - 1];
                assert(last@.term == term@);
                assert(last@.freq == f);
                assert(last@.document == document@);
                assert(gs[j as int].1 == groups@[j as int].1 as nat);
                assert(last@ == added[j as int]);
                assert(added.len() == gs.len());
                assert(added.take(j as int).len() == j);
                assert(posting_views(prev).len() == records.len() + j);
                assert(now.len() == records.len() + j + 1);
                assert forall|i: int| 0 <= i < now.len() implies now[i] == (records + added.take(
                    j + 1,
                ))[i] by {
                    if i < records.len() + j {
                        assert(now[i] == posting_views(prev)[i]);
                        assert(posting_views(prev)[i] == (records + added.take(j as int))[i]);
                    }
                }
                assert(now =~= records + added.take(j + 1));
                assert forall|u: Seq<char>| #[trigger]
                    freq_in(dictionary@, u) == freq_in(counts, u) + (if among_groups(
                        gs,
                        j + 1,
                        u,
                    ) {
                        1int
                    } else {
                        0int
                    }) by {
                    if u == t {
                        assert(gs[j as int].0 == u);
                        assert(among_groups(gs, j + 1, u));
                    } else {
                        assert(freq_in(dictionary@, u) == freq_in(before, u));
                        if among_groups(gs, j as int, u) {
                            let m = choose|m: int|
                                0 <= m < j && m < gs.len() && (#[trigger] gs[m]).0 == u;
                            assert(gs[m].0 == u);
                            assert(among_groups(gs, j + 1, u));
                        }
                        if among_groups(gs, j + 1, u) {
                            let m = choose|m: int|
                                0 <= m < j + 1 && m < gs.len() && (#[trigger] gs[m]).0 == u;
                            assert(m < j);
                            assert(among_groups(gs, j as int, u));
                        }
                    }
                }
            }
            j += 1;
        }
        proof {
            assert(added.take(gs.len() as int) =~= added);
            lemma_ingest_follows_counts(counts, records, gs, document@, dictionary@);
            assert forall|u: Seq<char>| among_groups(gs, gs.len() as int, u) <==> tokens_of(
                text@,
            ).contains(u) by {
                if among_groups(gs, gs.len() as int, u) {
                    let m = choose|m: int|
                        0 <= m < gs.len() && m < gs.len() && (#[trigger] gs[m]).0 == u;
                    assert(tokens_of(text@).contains(gs[m].0));
                }
                if tokens_of(text@).contains(u) {
                    let m = choose|m: int| 0 <= m < gs.len() && #[trigger] gs[m].0 == u;
                    assert(gs[m].0 == u);
                }
            }
            assert forall|d: u64| #[trigger] documents@.contains_key(d) implies document_bytes(
                documents@[d]@,
            ).len() <= SEAL_MAX by {
                if d != id {
                    assert(documents_before.contains_key(d));
                }
            }
        }
        self.corpus = Corpus {
            dictionary,
            documents,
            document_ids,
            index_records,
            total_document_size: total,
        };
        Ok(document)
    }

    /// Ingests `text` as the content of a new document with a random id, as
    /// [`Indexer::add_with_id`] does with the id that was drawn.
    pub fn add(&mut self, text: String) -> (out: Result<Document, IngestError>)
        ensures
            match out {
                Err(e) => old(self).ingest_error(text@) == Some(e) && *final(self) == *old(self),
                Ok(document) => {
                    &&& old(self).ingest_error(text@) is None
                    &&& document@.title == Seq::<char>::empty()
                    &&& document@.content == text@
                    &&& final(self).wf()
                    &&& final(self).spec_keys() == old(self).spec_keys()
                    &&& final(self).spec_total_size() == old(self).spec_total_size() + encode_utf8(
                        text@,
                    ).len()
                    &&& final(self).spec_documents() == old(self).spec_documents().insert(
                        document.id,
                        document,
                    )
                    &&& final(self).spec_records() == old(self).spec_records() + new_postings(
                        grouped(tokens_of(text@)),
                        old(self).spec_dictionary(),
                        document@,
                    )
                    &&& forall|t: Seq<char>| #[trigger]
                        final(self).spec_freq(t) == old(self).spec_freq(t) + (if tokens_of(
                            text@,
                        ).contains(t) {
                            1int
                        } else {
                            0int
                        })
                },
            },
    {
        let id = random_u64();
        self.add_with_id(id, text)
    }

    /// A client with fresh random secrets and nothing ingested.
    pub fn new() -> (out: Self)
        ensures
            out.wf(),
            out.spec_keys().document_key.len() == 32,
            out.spec_keys().index_key.len() == 32,
            out.spec_keys().value_key.len() == 32,
            out.spec_dictionary() == Map::<Seq<char>, u64>::empty(),
            out.spec_documents() == Map::<u64, Document>::empty(),
            out.spec_records() == Seq::<PostingView>::empty(),
            out.spec_total_size() == 0,
    {
        Self::with_keys(Keys::new())
    }

    /// Opens a sealed document under the client's document key.
    pub fn decrypt(&self, enc_doc: &EncryptedDocument) -> (out: Result<Document, CryptoError>)
        ensures
            match out {
                Ok(d) => opened(enc_doc@, self.spec_keys().document_key) == Ok::<
                    DocumentView,
                    CryptoError,
                >(d@),
                Err(e) => opened(enc_doc@, self.spec_keys().document_key) == Err::<
                    DocumentView,
                    CryptoError,
                >(e),
            },
    {
        decrypt(enc_doc, self.keys.document_key())
    }

    /// Seals every document held, each under a nonce of its own. The store
    /// that results holds exactly the ids of the documents held, and what it
    /// holds under an id opens, under the client's document key, to the
    /// document with that id.
    pub fn get_encrypted_doc_storage(&self) -> (out: EncryptedDocumentStorage)
        ensures
            out@.dom() == self.spec_documents().dom(),
            forall|id: u64| #[trigger]
                out@.contains_key(id) ==> out@[id]@.nonce.len() == NONCE_LEN && out@[id]@.ciphertext
                    == aes256_gcm_seal(
                    self.spec_keys().document_key,
                    out@[id]@.nonce,
                    document_bytes(self.spec_documents()[id]@),
                ) && opened(out@[id]@, self.spec_keys().document_key) == Ok::<
                    DocumentView,
                    CryptoError,
                >(self.spec_documents()[id]@),
    {
        proof {
            use_type_invariant(&self.corpus);
        }
        let mut encrypted_docs = EncryptedDocumentStorage::new();
        let mut i: usize = 0;
        while i < self.corpus.document_ids.len()
            invariant
                i <= self.corpus.document_ids@.len(),
                self.wf(),
                forall|id: u64| #[trigger]
                    encrypted_docs@.contains_key(id) <==> self.corpus.document_ids@.take(i as int).contains(
                        id,
                    ),
                forall|id: u64| #[trigger]
                    encrypted_docs@.contains_key(id) ==> encrypted_docs@[id]@.nonce.len()
                        == NONCE_LEN && encrypted_docs@[id]@.ciphertext == aes256_gcm_seal(
                        self.keys@.document_key,
                        encrypted_docs@[id]@.nonce,
                        document_bytes(self.corpus.documents@[id]@),
                    ) && opened(encrypted_docs@[id]@, self.keys@.document_key) == Ok::<
                        DocumentView,
                        CryptoError,
                    >(self.corpus.documents@[id]@),
            decreases self.corpus.document_ids@.len() - i,
        {
            let id: u64 = self.corpus.document_ids[i];
            let ghost before = encrypted_docs@;
            proof {
                assert(self.spec_documents().contains_key(self.spec_document_ids()[i as int]));
                assert(self.corpus.document_ids@.take(i + 1) =~= self.corpus.document_ids@.take(i as int).push(id));
            }
            match self.corpus.documents.get(&id) {
                Some(document) => {
                    match encrypt(document, self.keys.document_key()) {
                        Ok(enc_doc) => {
                            encrypted_docs.add(id, enc_doc);
                        },
                        Err(_) => {
                            assert(false);
                        },
                    }
                },
                None => {
                    assert(false);
                },
            }
            proof {
                assert forall|d: u64| #[trigger]
                    encrypted_docs@.contains_key(d) <==> self.corpus.document_ids@.take(i + 1).contains(
                        d,
                    ) by {
                    let shorter = self.corpus.document_ids@.take(i as int);
                    let longer = self.corpus.document_ids@.take(i + 1);
                    if shorter.contains(d) {
                        let m = choose|m: int| 0 <= m < shorter.len() && shorter[m] == d;
                        assert(longer[m] == d);
                    }
                    if longer.contains(d) && d != id {
                        let m = choose|m: int| 0 <= m < longer.len() && longer[m] == d;
                        assert(shorter[m] == d);
                    }
                    assert(longer[i as int] == id);
                }
            }
            i += 1;
        }
        proof {
            assert(self.corpus.document_ids@.take(self.corpus.document_ids@.len() as int) =~= self.corpus.document_ids@);
            assert forall|id: u64| encrypted_docs@.dom().contains(id) <==> self.spec_documents().dom().contains(
                id,
            ) by {
                if self.spec_documents().contains_key(id) {
                    assert(self.spec_document_ids().contains(id));
                }
                if self.spec_document_ids().contains(id) {
                    let m = choose|m: int|
                        0 <= m < self.spec_document_ids().len() && self.spec_document_ids()[m] == id;
                    assert(self.spec_documents().contains_key(self.spec_document_ids()[m]));
                }
            }
            assert(encrypted_docs@.dom() =~= self.spec_documents().dom());
        }
        encrypted_docs
    }

    /// Encodes every posting made so far as its encrypted record, oldest
    /// first: lookup keys under the index secret, masked values under the
    /// value secret.
    pub fn get_encrypted_index(&self) -> (out: EncryptedIndexUpdate)
        ensures
            self.wf(),
            out@ == encrypted_postings(
                self.spec_records(),
                self.spec_keys().index_key,
                self.spec_keys().value_key,
            ),
            forall|i: int|
                0 <= i < out@.len() ==> (#[trigger] out@[i]).0.len() == KEY_LEN && out@[i].1.len()
                    == VALUE_LEN,
    {
        proof {
            use_type_invariant(&self.corpus);
        }
        encrypt_postings(
            &self.corpus.index_records,
            self.keys.index_key().as_slice(),
            self.keys.value_key().as_slice(),
        )
    }

    /// The batch that a flush sends holds, for every term and every
    /// occurrence id from 1 to the term's counter, a record under the lookup
    /// key of that pair; and every record of it stands under such a key.
    pub proof fn lemma_index_covers_the_counters(&self)
        requires
            self.wf(),
        ensures
            forall|t: Seq<char>, occ: u64|
                1 <= occ <= self.spec_freq(t) ==> batch_holds_key(
                    encrypted_postings(
                        self.spec_records(),
                        self.spec_keys().index_key,
                        self.spec_keys().value_key,
                    ),
                    #[trigger] lookup_key(self.spec_keys().index_key, t, occ),
                ),
            forall|i: int|
                0 <= i < self.spec_records().len() ==> {
                    let r = #[trigger] self.spec_records()[i];
                    &&& 1 <= r.term.id <= self.spec_freq(r.term.term)
                    &&& encrypted_postings(
                        self.spec_records(),
                        self.spec_keys().index_key,
                        self.spec_keys().value_key,
                    )[i].0 == lookup_key(self.spec_keys().index_key, r.term.term, r.term.id)
                },
    {
        let records = self.spec_records();
        let batch = encrypted_postings(
            records,
            self.spec_keys().index_key,
            self.spec_keys().value_key,
        );
        assert forall|t: Seq<char>, occ: u64| 1 <= occ <= self.spec_freq(t) implies batch_holds_key(
            batch,
            #[trigger] lookup_key(self.spec_keys().index_key, t, occ),
        ) by {
            assert(has_posting(records, t, occ));
            let i = choose|i: int|
                0 <= i < records.len() && (#[trigger] records[i]).term.term == t
                    && records[i].term.id == occ;
            assert(batch[i].0 == lookup_key(self.spec_keys().index_key, t, occ));
        }
    }

    /// No two postings of a client are hashed from the same bytes, under any
    /// secret: their lookup keys can only agree through a collision of the
    /// hash.
    pub proof fn lemma_postings_hash_distinct_inputs(&self, secret: Seq<u8>, i: int, j: int)
        requires
            self.wf(),
            0 <= i < self.spec_records().len(),
            0 <= j < self.spec_records().len(),
            i != j,
        ensures
            prf_input(secret, self.spec_records()[i].term.term, self.spec_records()[i].term.id)
                != prf_input(
                secret,
                self.spec_records()[j].term.term,
                self.spec_records()[j].term.id,
            ),
    {
        let a = self.spec_records()[i].term;
        let b = self.spec_records()[j].term;
        lemma_postings_distinct(self.spec_dictionary(), self.spec_records(), i, j);
        if prf_input(secret, a.term, a.id) == prf_input(secret, b.term, b.id) {
            lemma_prf_input_injective(secret, a.term, a.id, b.term, b.id);
        }
    }

    /// The dictionary.
    pub fn dictionary(&self) -> (out: &Dictionary)
        ensures
            out@ == self.spec_dictionary(),
    {
        &self.corpus.dictionary
    }

    /// The three secrets.
    pub fn keys(&self) -> (out: &Keys)
        ensures
            out@ == self.spec_keys(),
    {
        &self.keys
    }

    /// The sum of the sizes in bytes of the texts ingested.
    pub fn total_document_size(&self) -> (out: u64)
        ensures
            out == self.spec_total_size(),
    {
        self.corpus.total_document_size
    }

    /// The number of documents held.
    pub fn document_count(&self) -> (out: usize)
        ensures
            out == self.spec_documents().len(),
    {
        self.corpus.documents.len()
    }

    /// The ids of the documents held.
    pub fn document_ids(&self) -> (out: &Vec<u64>)
        ensures
            out@ == self.spec_document_ids(),
    {
        &self.corpus.document_ids
    }

    /// The number of postings made so far.
    pub fn posting_count(&self) -> (out: usize)
        ensures
            out == self.spec_records().len(),
    {
        self.corpus.index_records.len()
    }
}

} // verus!
