//! Plaintext records of the client: documents, terms and postings.

use vstd::prelude::*;

verus! {

/// What a [`Document`] holds, as mathematical values.
pub struct DocumentView {
    pub id: u64,
    pub title: Seq<char>,
    pub content: Seq<char>,
}

/// A document as the client holds it; only its sealed form leaves the client.
#[derive(Debug, PartialEq)]
pub struct Document {
    pub id: u64,
    pub title: String,
    pub content: String,
}

impl View for Document {
    type V = DocumentView;

    open spec fn view(&self) -> DocumentView {
        DocumentView { id: self.id, title: self.title@, content: self.content@ }
    }
}

impl Clone for Document {
    fn clone(&self) -> (out: Self)
        ensures
            out == *self,
    {
        Document { id: self.id, title: self.title.clone(), content: self.content.clone() }
    }
}

/// What a [`Term`] holds, as mathematical values.
pub struct TermView {
    pub term: Seq<char>,
    pub id: u64,
    pub score: u64,
}

/// A normalized token together with its occurrence id: the value of the
/// term's counter in the dictionary when the posting was made, counted from 1.
/// `score` is the weight of the term on the query side, 1 unless multiplied.
#[derive(Debug, PartialEq)]
pub struct Term {
    pub term: String,
    pub id: u64,
    pub score: u64,
}

impl View for Term {
    type V = TermView;

    open spec fn view(&self) -> TermView {
        TermView { term: self.term@, id: self.id, score: self.score }
    }
}

impl Clone for Term {
    fn clone(&self) -> (out: Self)
        ensures
            out == *self,
    {
        Term { term: self.term.clone(), id: self.id, score: self.score }
    }
}

impl Term {
    /// A term with weight 1.
    pub fn new(term: String, id: u64) -> (out: Self)
        ensures
            out@ == (TermView { term: term@, id, score: 1 }),
    {
        Self { term, id, score: 1 }
    }

    /// Multiplies the weight by `score`.
    pub fn score_mult(&mut self, score: u64)
        requires
            old(self).score * score <= u64::MAX,
        ensures
            final(self)@ == (TermView {
                term: old(self).term@,
                id: old(self).id,
                score: (old(self).score * score) as u64,
            }),
    {
        self.score = self.score * score;
    }
}

/// What a [`Term2Document`] holds, as mathematical values.
pub struct PostingView {
    pub term: TermView,
    pub freq: u64,
    pub document: DocumentView,
}

/// A posting: `term` occurs `freq` times in `document`.
#[derive(Debug, PartialEq)]
pub struct Term2Document {
    pub term: Term,
    pub freq: u64,
    pub document: Document,
}

impl View for Term2Document {
    type V = PostingView;

    open spec fn view(&self) -> PostingView {
        PostingView { term: self.term@, freq: self.freq, document: self.document@ }
    }
}

/// What each posting of a sequence holds.
pub open spec fn posting_views(postings: Seq<Term2Document>) -> Seq<PostingView> {
    Seq::new(postings.len(), |i: int| postings[i]@)
}

/// A batch of postings that waits to be encoded.
#[derive(Debug, PartialEq)]
pub struct IndexUpdate {
    pub relations: Vec<Term2Document>,
}

} // verus!
