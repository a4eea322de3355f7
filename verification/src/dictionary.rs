//! The term dictionary: for each term, how many postings were made for it.

use vstd::hash_map::StringHashMap;
use vstd::prelude::*;

verus! {

/// The counter that `counts` holds for `term`, 0 where it holds none.
pub open spec fn freq_in(counts: Map<Seq<char>, u64>, term: Seq<char>) -> u64 {
    if counts.contains_key(term) {
        counts[term]
    } else {
        0
    }
}

/// One counter per term. A term's counter is the occurrence id of its latest
/// posting, and the number of documents in which it was seen.
pub struct Dictionary {
    terms: StringHashMap<u64>,
}

impl View for Dictionary {
    type V = Map<Seq<char>, u64>;

    closed spec fn view(&self) -> Map<Seq<char>, u64> {
        self.terms@
    }
}

impl Dictionary {
    /// The counter of `term`, 0 if the term was never seen.
    pub open spec fn spec_freq(&self, term: Seq<char>) -> u64 {
        freq_in(self@, term)
    }

    /// A dictionary without terms.
    pub fn new() -> (out: Self)
        ensures
            out@ == Map::<Seq<char>, u64>::empty(),
    {
        Self { terms: StringHashMap::new() }
    }

    /// Counts one more posting for `term` and returns the new counter: 1 for a
    /// term not seen before. No other counter changes.
    pub fn add_or_get(&mut self, term: String) -> (out: u64)
        requires
            old(self).spec_freq(term@) < u64::MAX,
        ensures
            out == old(self).spec_freq(term@) + 1,
            final(self)@ == old(self)@.insert(term@, out),
            final(self).spec_freq(term@) == out,
            forall|t: Seq<char>| t != term@ ==> final(self).spec_freq(t) == old(self).spec_freq(t),
    {
        let current: u64 = match self.terms.get(term.as_str()) {
            Some(count) => *count,
            None => 0,
        };
        let next: u64 = current + 1;
        self.terms.insert(term, next);
        next
    }

    /// The counter of `term`, 0 if the term was never seen.
    pub fn freq(&self, term: &str) -> (out: u64)
        ensures
            out == self.spec_freq(term@),
    {
        match self.terms.get(term) {
            Some(count) => *count,
            None => 0,
        }
    }
}

} // verus!
