//! What the server keeps: the encrypted index, a map from lookup keys to
//! masked values, and the sealed documents by id; and the batches in which
//! postings reach it.

use crate::crypto::EncryptedDocument;
use std::collections::HashMap;
use vstd::prelude::*;

verus! {

/// One encrypted posting: the lookup key `t` and the masked value `d`.
#[derive(Debug, PartialEq)]
pub struct EncryptedTerm2Document {
    t: Vec<u8>,
    d: Vec<u8>,
}

impl View for EncryptedTerm2Document {
    type V = (Seq<u8>, Seq<u8>);

    closed spec fn view(&self) -> (Seq<u8>, Seq<u8>) {
        (self.t@, self.d@)
    }
}

impl EncryptedTerm2Document {
    pub fn new(term: Vec<u8>, document: Vec<u8>) -> (out: Self)
        ensures
            out@ == (term@, document@),
    {
        Self { t: term, d: document }
    }

    /// The lookup key.
    pub fn key(&self) -> (out: &Vec<u8>)
        ensures
            out@ == self@.0,
    {
        &self.t
    }

    /// The masked value.
    pub fn value(&self) -> (out: &Vec<u8>)
        ensures
            out@ == self@.1,
    {
        &self.d
    }
}

/// The key and value of each record of a sequence.
pub open spec fn record_views(records: Seq<EncryptedTerm2Document>) -> Seq<(Seq<u8>, Seq<u8>)> {
    Seq::new(records.len(), |i: int| records[i]@)
}

/// A batch of encrypted postings, in the order in which they were made.
#[derive(Debug, PartialEq)]
pub struct EncryptedIndexUpdate {
    add: Vec<EncryptedTerm2Document>,
}

impl View for EncryptedIndexUpdate {
    type V = Seq<(Seq<u8>, Seq<u8>)>;

    closed spec fn view(&self) -> Seq<(Seq<u8>, Seq<u8>)> {
        record_views(self.add@)
    }
}

impl EncryptedIndexUpdate {
    /// The batch that holds the records of `vec`.
    pub fn insert(vec: Vec<EncryptedTerm2Document>) -> (out: Self)
        ensures
            out@ == record_views(vec@),
    {
        Self { add: vec }
    }

    /// An empty batch.
    pub fn new() -> (out: Self)
        ensures
            out@ == Seq::<(Seq<u8>, Seq<u8>)>::empty(),
    {
        let out = Self { add: Vec::new() };
        assert(out@ =~= Seq::<(Seq<u8>, Seq<u8>)>::empty());
        out
    }

    /// Appends one record.
    pub fn add(&mut self, term: Vec<u8>, document: Vec<u8>)
        ensures
            final(self)@ == old(self)@.push((term@, document@)),
    {
        self.add.push(EncryptedTerm2Document { t: term, d: document });
        assert(self@ =~= old(self)@.push((term@, document@)));
    }

    /// The number of records.
    pub fn len(&self) -> (out: usize)
        ensures
            out == self@.len(),
    {
        self.add.len()
    }

    /// The records, in order.
    pub fn records(&self) -> (out: &Vec<EncryptedTerm2Document>)
        ensures
            record_views(out@) == self@,
    {
        &self.add
    }
}

/// The map that results from writing `records` into `index` one after the
/// other; a later write to a key replaces an earlier one.
pub open spec fn apply_records(index: Map<Seq<u8>, Seq<u8>>, records: Seq<(Seq<u8>, Seq<u8>)>) -> Map<
    Seq<u8>,
    Seq<u8>,
>
    decreases records.len(),
{
    if records.len() == 0 {
        index
    } else {
        apply_records(index, records.drop_last()).insert(records.last().0, records.last().1)
    }
}

/// No two records of `records` have the same key.
pub open spec fn distinct_keys(records: Seq<(Seq<u8>, Seq<u8>)>) -> bool {
    forall|i: int, j: int| 0 <= i < j < records.len() ==> records[i].0 != records[j].0
}

/// A key that no record has is mapped as before the records were written.
pub proof fn lemma_apply_absent(
    index: Map<Seq<u8>, Seq<u8>>,
    records: Seq<(Seq<u8>, Seq<u8>)>,
    key: Seq<u8>,
)
    requires
        forall|j: int| 0 <= j < records.len() ==> records[j].0 != key,
    ensures
        apply_records(index, records).contains_key(key) == index.contains_key(key),
        index.contains_key(key) ==> apply_records(index, records)[key] == index[key],
    decreases records.len(),
{
    if records.len() > 0 {
        lemma_apply_absent(index, records.drop_last(), key);
    }
}

/// The key of a record is mapped to that record's value, provided no other
/// record has the same key.
pub proof fn lemma_apply_present(
    index: Map<Seq<u8>, Seq<u8>>,
    records: Seq<(Seq<u8>, Seq<u8>)>,
    i: int,
)
    requires
        0 <= i < records.len(),
        distinct_keys(records),
    ensures
        apply_records(index, records).contains_key(records[i].0),
        apply_records(index, records)[records[i].0] == records[i].1,
    decreases records.len(),
{
    if i < records.len() - 1 {
        lemma_apply_present(index, records.drop_last(), i);
    }
}

/// Replacing the value of a record is the same as writing its key once more,
/// provided no other record has the same key.
pub proof fn lemma_apply_replace(
    index: Map<Seq<u8>, Seq<u8>>,
    records: Seq<(Seq<u8>, Seq<u8>)>,
    i: int,
    value: Seq<u8>,
)
    requires
        0 <= i < records.len(),
        distinct_keys(records),
    ensures
        apply_records(index, records.update(i, (records[i].0, value))) == apply_records(
            index,
            records,
        ).insert(records[i].0, value),
    decreases records.len(),
{
    let replaced = records.update(i, (records[i].0, value));
    if i == records.len() - 1 {
        assert(replaced.drop_last() =~= records.drop_last());
        assert(apply_records(index, replaced) =~= apply_records(index, records).insert(
            records[i].0,
            value,
        ));
    } else {
        lemma_apply_replace(index, records.drop_last(), i, value);
        assert(replaced.drop_last() =~= records.drop_last().update(i, (records[i].0, value)));
        assert(apply_records(index, replaced) =~= apply_records(index, records).insert(
            records[i].0,
            value,
        ));
    }
}

/// Records with distinct keys, written into an empty index, leave as many
/// keys as there are records.
pub proof fn lemma_apply_len(records: Seq<(Seq<u8>, Seq<u8>)>)
    requires
        distinct_keys(records),
    ensures
        apply_records(Map::empty(), records).dom().finite(),
        apply_records(Map::empty(), records).dom().len() == records.len(),
    decreases records.len(),
{
    if records.len() > 0 {
        let earlier = records.drop_last();
        lemma_apply_len(earlier);
        assert forall|j: int| 0 <= j < earlier.len() implies earlier[j].0 != records.last().0 by {
            assert(records[j].0 != records[records.len() - 1].0);
        }
        lemma_apply_absent(Map::empty(), earlier, records.last().0);
        assert(apply_records(Map::empty(), records).dom() =~= apply_records(
            Map::empty(),
            earlier,
        ).dom().insert(records.last().0));
    }
}

/// Writing two batches one after the other is writing their concatenation.
pub proof fn lemma_apply_concat(
    index: Map<Seq<u8>, Seq<u8>>,
    a: Seq<(Seq<u8>, Seq<u8>)>,
    b: Seq<(Seq<u8>, Seq<u8>)>,
)
    ensures
        apply_records(apply_records(index, a), b) == apply_records(index, a + b),
    decreases b.len(),
{
    if b.len() == 0 {
        assert(a + b =~= a);
    } else {
        lemma_apply_concat(index, a, b.drop_last());
        assert((a + b).drop_last() =~= a + b.drop_last());
    }
}

/// Writing a batch changes exactly the keys of the batch: what results is the
/// index as it was, overlaid with what the batch alone would leave.
pub proof fn lemma_apply_overlay(index: Map<Seq<u8>, Seq<u8>>, records: Seq<(Seq<u8>, Seq<u8>)>)
    ensures
        apply_records(index, records) == index.union_prefer_right(
            apply_records(Map::empty(), records),
        ),
    decreases records.len(),
{
    if records.len() == 0 {
        assert(index =~= index.union_prefer_right(Map::empty()));
    } else {
        lemma_apply_overlay(index, records.drop_last());
        assert(apply_records(index, records) =~= index.union_prefer_right(
            apply_records(Map::empty(), records),
        ));
    }
}

/// Writing the same batch a second time changes nothing.
pub proof fn lemma_apply_idempotent(index: Map<Seq<u8>, Seq<u8>>, records: Seq<(Seq<u8>, Seq<u8>)>)
    ensures
        apply_records(apply_records(index, records), records) == apply_records(index, records),
{
    let batch = apply_records(Map::empty(), records);
    lemma_apply_overlay(index, records);
    lemma_apply_overlay(apply_records(index, records), records);
    assert(index.union_prefer_right(batch).union_prefer_right(batch) =~= index.union_prefer_right(
        batch,
    ));
}

/// Whether two byte strings are equal.
pub fn bytes_eq(a: &[u8], b: &[u8]) -> (out: bool)
    ensures
        out == (a@ == b@),
{
    if a.len() != b.len() {
        return false;
    }
    let mut i: usize = 0;
    while i < a.len()
        invariant
            a@.len() == b@.len(),
            i <= a@.len(),
            forall|j: int| 0 <= j < i ==> a@[j] == b@[j],
        decreases a@.len() - i,
    {
        if a[i] != b[i] {
            return false;
        }
        i += 1;
    }
    assert(a@ =~= b@);
    true
}

/// The encrypted index: a map from lookup keys to masked values. Each key is
/// held once; a write to a key that is present replaces its value.
#[derive(Debug)]
pub struct EncryptedIndex {
    index: Vec<EncryptedTerm2Document>,
}

impl View for EncryptedIndex {
    type V = Map<Seq<u8>, Seq<u8>>;

    closed spec fn view(&self) -> Map<Seq<u8>, Seq<u8>> {
        apply_records(Map::empty(), record_views(self.index@))
    }
}

impl EncryptedIndex {
    /// No key is held twice.
    #[verifier::type_invariant]
    spec fn well_formed(self) -> bool {
        distinct_keys(record_views(self.index@))
    }

    /// An empty index.
    pub fn new() -> (out: Self)
        ensures
            out@ == Map::<Seq<u8>, Seq<u8>>::empty(),
    {
        Self { index: Vec::new() }
    }

    /// The place of the record with this key, if there is one.
    fn position(&self, key: &[u8]) -> (out: Option<usize>)
        ensures
            match out {
                Some(i) => i < self.index@.len() && self.index@[i as int]@.0 == key@,
                None => forall|j: int| 0 <= j < self.index@.len() ==> self.index@[j]@.0 != key@,
            },
    {
        let mut i: usize = 0;
        while i < self.index.len()
            invariant
                i <= self.index@.len(),
                forall|j: int| 0 <= j < i ==> self.index@[j]@.0 != key@,
            decreases self.index@.len() - i,
        {
            if bytes_eq(self.index[i].t.as_slice(), key) {
                return Some(i);
            }
            i += 1;
        }
        None
    }

    /// Writes `value` under `key`, in place of any value that the key had.
    pub fn add(&mut self, key: Vec<u8>, value: Vec<u8>)
        ensures
            final(self)@ == old(self)@.insert(key@, value@),
    {
        proof {
            use_type_invariant(&*self);
        }
        let ghost before = record_views(self.index@);
        let place = self.position(key.as_slice());
        let mut records: Vec<EncryptedTerm2Document> = Vec::new();
        std::mem::swap(&mut records, &mut self.index);
        match place {
            Some(i) => {
                records.set(i, EncryptedTerm2Document { t: key, d: value });
                proof {
                    assert(record_views(records@) =~= before.update(
                        i as int,
                        (before[i as int].0, value@),
                    ));
                    lemma_apply_replace(Map::empty(), before, i as int, value@);
                    let after = record_views(records@);
                    assert forall|a: int, b: int| 0 <= a < b < after.len() implies after[a].0
                        != after[b].0 by {
                        assert(after[a].0 == before[a].0 && after[b].0 == before[b].0);
                    }
                }
            },
            None => {
                records.push(EncryptedTerm2Document { t: key, d: value });
                proof {
                    let after = record_views(records@);
                    assert(after =~= before.push((key@, value@)));
                    assert(after.drop_last() =~= before);
                    assert forall|a: int, b: int| 0 <= a < b < after.len() implies after[a].0
                        != after[b].0 by {
                        if b < before.len() {
                            assert(after[a].0 == before[a].0 && after[b].0 == before[b].0);
                        } else {
                            assert(after[a].0 == before[a].0);
                        }
                    }
                }
            },
        }
        self.index = records;
    }

    /// Writes the records of a batch, in order.
    pub fn update(&mut self, index_update: &EncryptedIndexUpdate)
        ensures
            final(self)@ == apply_records(old(self)@, index_update@),
    {
        let mut i: usize = 0;
        while i < index_update.add.len()
            invariant
                i <= index_update.add@.len(),
                self@ == apply_records(old(self)@, index_update@.take(i as int)),
            decreases index_update.add@.len() - i,
        {
            let record = &index_update.add[i];
            proof {
                assert(index_update@.take(i + 1).drop_last() =~= index_update@.take(i as int));
            }
            self.add(record.t.clone(), record.d.clone());
            i += 1;
        }
        assert(index_update@.take(index_update.add@.len() as int) =~= index_update@);
    }

    /// The value held under `key`, if there is one.
    pub fn get(&self, key: &[u8]) -> (out: Option<&Vec<u8>>)
        ensures
            match out {
                Some(value) => self@.contains_key(key@) && self@[key@] == value@,
                None => !self@.contains_key(key@),
            },
    {
        proof {
            use_type_invariant(self);
        }
        match self.position(key) {
            Some(i) => {
                proof {
                    lemma_apply_present(Map::empty(), record_views(self.index@), i as int);
                }
                Some(&self.index[i].d)
            },
            None => {
                proof {
                    lemma_apply_absent(Map::empty(), record_views(self.index@), key@);
                }
                None
            },
        }
    }

    /// The number of keys held.
    pub fn len(&self) -> (out: usize)
        ensures
            out == self@.dom().len(),
    {
        proof {
            use_type_invariant(self);
            lemma_apply_len(record_views(self.index@));
        }
        self.index.len()
    }

    /// Answers a search: for each key of `query`, in order, the value held
    /// under it, or an empty value where the key is not held.
    pub fn lookup(&self, query: &Vec<Vec<u8>>) -> (out: Vec<Vec<u8>>)
        ensures
            out@.len() == query@.len(),
            forall|i: int|
                0 <= i < query@.len() ==> (#[trigger] out@[i])@ == (if self@.contains_key(
                    query@[i]@,
                ) {
                    self@[query@[i]@]
                } else {
                    Seq::<u8>::empty()
                }),
    {
        let mut out: Vec<Vec<u8>> = Vec::new();
        let mut i: usize = 0;
        while i < query.len()
            invariant
                i <= query@.len(),
                out@.len() == i,
                forall|j: int|
                    0 <= j < i ==> (#[trigger] out@[j])@ == (if self@.contains_key(query@[j]@) {
                        self@[query@[j]@]
                    } else {
                        Seq::<u8>::empty()
                    }),
            decreases query@.len() - i,
        {
            match self.get(query[i].as_slice()) {
                Some(value) => out.push(value.clone()),
                None => out.push(Vec::new()),
            }
            i += 1;
        }
        out
    }
}

/// The sealed documents, by document id.
#[derive(Debug, PartialEq)]
pub struct EncryptedDocumentStorage {
    documents: HashMap<u64, EncryptedDocument>,
}

impl View for EncryptedDocumentStorage {
    type V = Map<u64, EncryptedDocument>;

    closed spec fn view(&self) -> Map<u64, EncryptedDocument> {
        self.documents@
    }
}

impl EncryptedDocumentStorage {
    /// An empty store.
    pub fn new() -> (out: Self)
        ensures
            out@ == Map::<u64, EncryptedDocument>::empty(),
    {
        Self { documents: HashMap::new() }
    }

    /// Stores `document` under `id`, in place of any document that the id had.
    pub fn add(&mut self, id: u64, document: EncryptedDocument)
        ensures
            final(self)@ == old(self)@.insert(id, document),
    {
        self.documents.insert(id, document);
    }

    /// The sealed document stored under `id`, if there is one.
    pub fn get(&self, id: u64) -> (out: Option<&EncryptedDocument>)
        ensures
            match out {
                Some(document) => self@.contains_key(id) && self@[id] == *document,
                None => !self@.contains_key(id),
            },
    {
        self.documents.get(&id)
    }

    /// The number of documents stored.
    pub fn len(&self) -> (out: usize)
        ensures
            out == self@.len(),
    {
        self.documents.len()
    }
}

} // verus!
