//! The read path: the expansion of a query into lookup keys, and the reading
//! of the server's answer.

use crate::dictionary::freq_in;
use crate::index::{Term, TermView};
use crate::indexer::Indexer;
use crate::posting::{
    decoded_meta, encrypt_index_key, lookup_key, try_document_meta, DocumentMeta, KEY_LEN,
    VALUE_LEN,
};
use crate::utils::{group_by, group_views, grouped, tokenize, tokens_of};
use vstd::prelude::*;

verus! {

/// What a [`Query`] holds, as mathematical values.
pub struct QueryView {
    pub terms: Seq<TermView>,
    pub query: Seq<Seq<u8>>,
}

/// An expanded query: the terms in the clear, which stay with the client,
/// and the lookup key of each, which the server gets. The two run in
/// parallel.
#[derive(Debug, PartialEq)]
pub struct Query {
    pub terms: Vec<Term>,
    pub query: Vec<Vec<u8>>,
}

/// What each term of a sequence holds.
pub open spec fn term_views(terms: Seq<Term>) -> Seq<TermView> {
    Seq::new(terms.len(), |i: int| terms[i]@)
}

/// The contents of each byte string of a sequence.
pub open spec fn byte_views(values: Seq<Vec<u8>>) -> Seq<Seq<u8>> {
    Seq::new(values.len(), |i: int| values[i]@)
}

impl View for Query {
    type V = QueryView;

    open spec fn view(&self) -> QueryView {
        QueryView { terms: term_views(self.terms@), query: byte_views(self.query@) }
    }
}

/// The terms that stand for one token of a query: one for each occurrence id
/// from 1 to `n`, all with the token's multiplicity as their weight.
pub open spec fn expansion(term: Seq<char>, weight: nat, n: nat) -> Seq<TermView> {
    Seq::new(n, |i: int| TermView { term, id: (i + 1) as u64, score: weight as u64 })
}

/// The terms that a query expands to: for each group of its tokens, in order,
/// the expansion of the token up to its counter in `counts`. A token without
/// a counter adds nothing.
pub open spec fn planned_terms(groups: Seq<(Seq<char>, nat)>, counts: Map<Seq<char>, u64>) -> Seq<
    TermView,
>
    decreases groups.len(),
{
    if groups.len() == 0 {
        Seq::empty()
    } else {
        planned_terms(groups.drop_last(), counts) + expansion(
            groups.last().0,
            groups.last().1,
            freq_in(counts, groups.last().0) as nat,
        )
    }
}

/// The lookup key of each term of a sequence under the index secret.
pub open spec fn keys_of(terms: Seq<TermView>, secret: Seq<u8>) -> Seq<Seq<u8>> {
    Seq::new(terms.len(), |i: int| lookup_key(secret, terms[i].term, terms[i].id))
}

/// What one answered lookup says: the metadata of a document, the number of
/// documents that hold the term, and the weight of the term in the query.
#[derive(Debug, Clone, Copy, PartialEq, Eq, Structural)]
pub struct Hit {
    pub meta: DocumentMeta,
    pub doc_freq: u64,
    pub weight: u64,
}

/// The hits among the first `n` slots of an answer: a slot of 24 bytes is
/// decoded with the term at the same place; an empty slot, or one of any
/// other length, is passed over.
pub open spec fn hits_of(
    terms: Seq<TermView>,
    response: Seq<Seq<u8>>,
    secret: Seq<u8>,
    counts: Map<Seq<char>, u64>,
    n: nat,
) -> Seq<Hit>
    decreases n,
{
    if n == 0 {
        Seq::empty()
    } else {
        let i = n - 1;
        let before = hits_of(terms, response, secret, counts, i as nat);
        if response[i].len() == VALUE_LEN {
            before.push(
                Hit {
                    meta: decoded_meta(secret, terms[i].term, terms[i].id, response[i]),
                    doc_freq: freq_in(counts, terms[i].term),
                    weight: terms[i].score,
                },
            )
        } else {
            before
        }
    }
}

/// The ids of the documents among `hits`, each once, in the order of first
/// occurrence.
pub open spec fn documents_hit(hits: Seq<Hit>) -> Seq<u64>
    decreases hits.len(),
{
    if hits.len() == 0 {
        Seq::empty()
    } else if documents_hit(hits.drop_last()).contains(hits.last().meta.id) {
        documents_hit(hits.drop_last())
    } else {
        documents_hit(hits.drop_last()).push(hits.last().meta.id)
    }
}

/// The hits of `hits` that name the document `id`, in order.
pub open spec fn hits_for(hits: Seq<Hit>, id: u64) -> Seq<Hit>
    decreases hits.len(),
{
    if hits.len() == 0 {
        Seq::empty()
    } else if hits.last().meta.id == id {
        hits_for(hits.drop_last(), id).push(hits.last())
    } else {
        hits_for(hits.drop_last(), id)
    }
}

/// The hits of one document.
#[derive(Debug, PartialEq)]
pub struct DocumentHits {
    pub id: u64,
    pub hits: Vec<Hit>,
}

/// `documents_hit` names exactly the documents of the hits, each once.
pub proof fn lemma_documents_hit(hits: Seq<Hit>)
    ensures
        documents_hit(hits).no_duplicates(),
        documents_hit(hits).len() <= hits.len(),
        forall|id: u64| #[trigger]
            documents_hit(hits).contains(id) <==> exists|i: int|
                0 <= i < hits.len() && (#[trigger] hits[i]).meta.id == id,
    decreases hits.len(),
{
    if hits.len() > 0 {
        let earlier = hits.drop_last();
        let last = hits.last().meta.id;
        lemma_documents_hit(earlier);
        assert forall|id: u64| #[trigger]
            documents_hit(hits).contains(id) <==> exists|i: int|
                0 <= i < hits.len() && (#[trigger] hits[i]).meta.id == id by {
            if documents_hit(hits).contains(id) {
                let j = choose|j: int|
                    0 <= j < documents_hit(hits).len() && documents_hit(hits)[j] == id;
                if j < documents_hit(earlier).len() {
                    assert(documents_hit(earlier)[j] == id);
                    assert(documents_hit(earlier).contains(id));
                    let i = choose|i: int|
                        0 <= i < earlier.len() && (#[trigger] earlier[i]).meta.id == id;
                    assert(hits[i].meta.id == id);
                } else {
                    assert(hits[hits.len() - 1].meta.id == id);
                }
            }
            if exists|i: int| 0 <= i < hits.len() && (#[trigger] hits[i]).meta.id == id {
                let i = choose|i: int| 0 <= i < hits.len() && (#[trigger] hits[i]).meta.id == id;
                if i < earlier.len() {
                    assert(earlier[i].meta.id == id);
                    assert(documents_hit(earlier).contains(id));
                    let j = choose|j: int|
                        0 <= j < documents_hit(earlier).len() && documents_hit(earlier)[j] == id;
                    assert(documents_hit(hits)[j] == id);
                } else {
                    assert(id == last);
                    if !documents_hit(earlier).contains(last) {
                        assert(documents_hit(hits)[documents_hit(earlier).len() as int] == id);
                    }
                }
            }
        }
    }
}

/// The place of `id` among `ids`, if it is there.
fn find_document(ids: &Vec<u64>, id: u64) -> (out: Option<usize>)
    ensures
        match out {
            Some(k) => k < ids@.len() && ids@[k as int] == id,
            None => !ids@.contains(id),
        },
{
    let mut j: usize = 0;
    while j < ids.len()
        invariant
            j <= ids@.len(),
            forall|m: int| 0 <= m < j ==> ids@[m] != id,
        decreases ids@.len() - j,
    {
        if ids[j] == id {
            return Some(j);
        }
        j += 1;
    }
    None
}

/// Groups hits by document: each document that is hit once, in the order of
/// first occurrence, with its hits in the order of the answer.
pub fn hits_by_document(hits: &Vec<Hit>) -> (out: Vec<DocumentHits>)
    ensures
        out@.len() == documents_hit(hits@).len(),
        forall|j: int|
            0 <= j < out@.len() ==> (#[trigger] out@[j]).id == documents_hit(hits@)[j]
                && out@[j].hits@ == hits_for(hits@, out@[j].id),
{
    let mut ids: Vec<u64> = Vec::new();
    let mut i: usize = 0;
    while i < hits.len()
        invariant
            i <= hits@.len(),
            ids@ == documents_hit(hits@.take(i as int)),
        decreases hits@.len() - i,
    {
        proof {
            assert(hits@.take(i + 1).drop_last() =~= hits@.take(i as int));
        }
        if find_document(&ids, hits[i].meta.id).is_none() {
            ids.push(hits[i].meta.id);
        }
        i += 1;
    }
    assert(hits@.take(hits@.len() as int) =~= hits@);
    let mut out: Vec<DocumentHits> = Vec::new();
    let mut j: usize = 0;
    while j < ids.len()
        invariant
            j <= ids@.len(),
            ids@ == documents_hit(hits@),
            out@.len() == j,
            forall|m: int|
                0 <= m < j ==> (#[trigger] out@[m]).id == ids@[m] && out@[m].hits@ == hits_for(
                    hits@,
                    out@[m].id,
                ),
        decreases ids@.len() - j,
    {
        let id: u64 = ids[j];
        let mut group: Vec<Hit> = Vec::new();
        let mut i: usize = 0;
        while i < hits.len()
            invariant
                i <= hits@.len(),
                group@ == hits_for(hits@.take(i as int), id),
            decreases hits@.len() - i,
        {
            proof {
                assert(hits@.take(i + 1).drop_last() =~= hits@.take(i as int));
            }
            if hits[i].meta.id == id {
                group.push(hits[i]);
            }
            i += 1;
        }
        assert(hits@.take(hits@.len() as int) =~= hits@);
        out.push(DocumentHits { id, hits: group });
        j += 1;
    }
    out
}

/// A query for a text without any token that the dictionary knows expands to
/// nothing: no key is sent.
pub proof fn lemma_unknown_terms_plan_nothing(
    groups: Seq<(Seq<char>, nat)>,
    counts: Map<Seq<char>, u64>,
)
    requires
        forall|j: int| 0 <= j < groups.len() ==> freq_in(counts, #[trigger] groups[j].0) == 0,
    ensures
        planned_terms(groups, counts) == Seq::<TermView>::empty(),
    decreases groups.len(),
{
    if groups.len() > 0 {
        lemma_unknown_terms_plan_nothing(groups.drop_last(), counts);
        assert(freq_in(counts, groups[groups.len() - 1].0) == 0);
        assert(planned_terms(groups, counts) =~= Seq::<TermView>::empty());
    }
}

impl Indexer {
    /// Expands a query text: for each distinct token, in the order of first
    /// occurrence, one term and one lookup key for every occurrence id from 1
    /// to the token's counter. Each term carries the number of times the
    /// token stands in the query as its weight.
    pub fn query(&self, text: String) -> (out: Query)
        ensures
            out@.terms == planned_terms(grouped(tokens_of(text@)), self.spec_dictionary()),
            out@.query == keys_of(out@.terms, self.spec_keys().index_key),
            forall|i: int| 0 <= i < out@.query.len() ==> (#[trigger] out@.query[i]).len() == KEY_LEN,
    {
        let tokens = tokenize(text.as_str());
        let grouped_tokens = group_by(&tokens);
        let ghost gs = grouped(tokens_of(text@));
        let ghost counts = self.spec_dictionary();
        let ghost secret = self.spec_keys().index_key;
        let mut terms: Vec<Term> = Vec::new();
        let mut query: Vec<Vec<u8>> = Vec::new();
        let mut g: usize = 0;
        assert(term_views(terms@) =~= planned_terms(gs.take(0), counts));
        assert(byte_views(query@) =~= keys_of(term_views(terms@), secret));
        while g < grouped_tokens.len()
            invariant
                g <= grouped_tokens@.len(),
                group_views(grouped_tokens@) == gs,
                counts == self.spec_dictionary(),
                secret == self.spec_keys().index_key,
                term_views(terms@) == planned_terms(gs.take(g as int), counts),
                byte_views(query@) == keys_of(term_views(terms@), secret),
                forall|m: int| 0 <= m < query@.len() ==> (#[trigger] query@[m])@.len() == KEY_LEN,
            decreases grouped_tokens@.len() - g,
        {
            let token = &grouped_tokens[g].0;
            let count: u64 = grouped_tokens[g].1;
            let documents: u64 = self.dictionary().freq(token.as_str());
            let ghost base = term_views(terms@);
            let ghost t = gs[g as int].0;
            let ghost w = gs[g as int].1;
            proof {
                assert(group_views(grouped_tokens@)[g as int] == gs[g as int]);
                assert(gs.take(g + 1).drop_last() =~= gs.take(g as int));
                assert(gs.take(g + 1).last() == gs[g as int]);
                assert(term_views(terms@) =~= base + expansion(t, w, 0));
            }
            let mut i: u64 = 0;
            while i < documents
                invariant
                    i <= documents,
                    g < grouped_tokens@.len(),
                    token@ == t,
                    count as nat == w,
                    secret == self.spec_keys().index_key,
                    term_views(terms@) == base + expansion(t, w, i as nat),
                    byte_views(query@) == keys_of(term_views(terms@), secret),
                    forall|m: int|
                        0 <= m < query@.len() ==> (#[trigger] query@[m])@.len() == KEY_LEN,
                decreases documents - i,
            {
                let id: u64 = i + 1;
                let mut term = Term::new(token.clone(), id);
                term.score_mult(count);
                let key = encrypt_index_key(&term, self.keys().index_key().as_slice());
                let ghost terms_before = term_views(terms@);
                let ghost keys_before = byte_views(query@);
                query.push(key);
                terms.push(term);
                proof {
                    assert(term_views(terms@) =~= terms_before.push(term@));
                    assert(term_views(terms@) =~= base + expansion(t, w, (i + 1) as nat));
                    assert(byte_views(query@) =~= keys_before.push(key@));
                    assert(byte_views(query@) =~= keys_of(term_views(terms@), secret));
                }
                i += 1;
            }
            g += 1;
        }
        assert(gs.take(grouped_tokens@.len() as int) =~= gs);
        Query { terms, query }
    }

    /// Reads the metadata out of a 24-byte value that the server returned for
    /// `term`, under the value secret.
    pub fn meta(&self, term: &Term, value: &Vec<u8>) -> (out: DocumentMeta)
        requires
            value@.len() == VALUE_LEN,
        ensures
            out == decoded_meta(self.spec_keys().value_key, term.term@, term.id, value@),
    {
        crate::posting::unmask_value(term, value.as_slice(), self.keys().value_key().as_slice())
    }

    /// Reads the server's answer to a query: the hit of each slot that holds
    /// a value, in order, with the term's document frequency and its weight
    /// in the query. An answer that has not one slot for each term of the
    /// query is no answer to it, and gives `None`.
    pub fn hits(&self, query: &Query, response: &Vec<Vec<u8>>) -> (out: Option<Vec<Hit>>)
        ensures
            out is Some <==> response@.len() == query@.terms.len(),
            out is Some ==> out->0@ == hits_of(
                query@.terms,
                byte_views(response@),
                self.spec_keys().value_key,
                self.spec_dictionary(),
                response@.len(),
            ),
    {
        if response.len() != query.terms.len() {
            return None;
        }
        let ghost terms = query@.terms;
        let ghost slots = byte_views(response@);
        let ghost secret = self.spec_keys().value_key;
        let ghost counts = self.spec_dictionary();
        let mut out: Vec<Hit> = Vec::new();
        let mut i: usize = 0;
        while i < response.len()
            invariant
                i <= response@.len(),
                response@.len() == query.terms@.len(),
                terms == query@.terms,
                slots == byte_views(response@),
                secret == self.spec_keys().value_key,
                counts == self.spec_dictionary(),
                out@ == hits_of(terms, slots, secret, counts, i as nat),
            decreases response@.len() - i,
        {
            let term = &query.terms[i];
            assert(terms[i as int] == term@);
            assert(slots[i as int] == response@[i as int]@);
            match try_document_meta(
                term,
                response[i].as_slice(),
                self.keys().value_key().as_slice(),
            ) {
                Some(meta) => {
                    let doc_freq = self.dictionary().freq(term.term.as_str());
                    out.push(Hit { meta, doc_freq, weight: term.score });
                },
                None => {},
            }
            i += 1;
        }
        Some(out)
    }
}

} // verus!
