//! The order of search results: by falling score, and by rising document id
//! among equal scores.

use vstd::prelude::*;
use vstd::relations::total_ordering;
use vstd::seq_lib::{lemma_sorted_unique, to_multiset_build, to_multiset_insert};

verus! {

/// A document with its cumulative score. Scores are compared as integers: the
/// caller maps its scores to integers in a way that keeps their order.
#[derive(Debug, Clone, Copy, PartialEq, Eq, Structural)]
pub struct Scored {
    pub id: u64,
    pub score: u64,
}

/// Whether `a` stands no later than `b` in a ranking: it has the higher
/// score, or the same score and no higher id.
pub open spec fn ranks_first(a: Scored, b: Scored) -> bool {
    a.score > b.score || (a.score == b.score && a.id <= b.id)
}

/// The order of a ranking, as a relation.
pub open spec fn rank_order() -> spec_fn(Scored, Scored) -> bool {
    |a: Scored, b: Scored| ranks_first(a, b)
}

/// Whether `s` is in ranking order: by falling score, and by rising id among
/// equal scores.
pub open spec fn ranked(s: Seq<Scored>) -> bool {
    forall|i: int, j: int| 0 <= i < j < s.len() ==> ranks_first(s[i], s[j])
}

/// The candidates in ranking order.
pub open spec fn ranking(candidates: Seq<Scored>) -> Seq<Scored> {
    candidates.sort_by(rank_order())
}

/// The order of a ranking is total: any two candidates are ordered, and only
/// equal ones both ways.
pub proof fn lemma_rank_order_total()
    ensures
        total_ordering(rank_order()),
{
    let r = rank_order();
    assert forall|x: Scored, y: Scored| #[trigger] r(x, y) && #[trigger] r(y, x) implies x == y by {
        assert(ranks_first(x, y) && ranks_first(y, x));
    }
    assert forall|x: Scored, y: Scored, z: Scored| #[trigger] r(x, y) && #[trigger] r(y, z) implies r(
        x,
        z,
    ) by {
        assert(ranks_first(x, y) && ranks_first(y, z));
    }
    assert forall|x: Scored, y: Scored| #[trigger] r(x, y) || #[trigger] r(y, x) by {
        assert(ranks_first(x, y) || ranks_first(y, x));
    }
    assert forall|x: Scored| #[trigger] r(x, x) by {
        assert(ranks_first(x, x));
    }
}

/// The ranking of some candidates holds each of them as often as they were
/// given, sorted by falling score and, among equal scores, by rising id; and
/// it is the only sequence that does.
pub proof fn lemma_ranking(candidates: Seq<Scored>)
    ensures
        ranking(candidates).to_multiset() == candidates.to_multiset(),
        ranking(candidates).len() == candidates.len(),
        ranked(ranking(candidates)),
        forall|other: Seq<Scored>|
            ranked(other) && other.to_multiset() == candidates.to_multiset() ==> other == ranking(
                candidates,
            ),
{
    lemma_rank_order_total();
    candidates.lemma_sort_by_ensures(rank_order());
    candidates.to_multiset_ensures();
    ranking(candidates).to_multiset_ensures();
    let sorted = ranking(candidates);
    assert forall|i: int, j: int| 0 <= i < j < sorted.len() implies ranks_first(
        sorted[i],
        sorted[j],
    ) by {
        assert(rank_order()(sorted[i], sorted[j]));
    }
    assert forall|other: Seq<Scored>|
        ranked(other) && other.to_multiset() == candidates.to_multiset() implies other == ranking(
        candidates,
    ) by {
        assert forall|i: int, j: int| 0 <= i < j < other.len() implies #[trigger] rank_order()(
            other[i],
            other[j],
        ) by {
            assert(ranks_first(other[i], other[j]));
        }
        lemma_sorted_unique(other, sorted, rank_order());
    }
}

/// Whether `a` stands no later than `b` in a ranking.
pub fn precedes(a: &Scored, b: &Scored) -> (out: bool)
    ensures
        out == ranks_first(*a, *b),
{
    a.score > b.score || (a.score == b.score && a.id <= b.id)
}

/// The best `top_k` of the candidates, best first: by falling score, and by
/// rising document id among equal scores. Where there are fewer candidates,
/// all of them.
pub fn rank(candidates: &Vec<Scored>, top_k: usize) -> (out: Vec<Scored>)
    ensures
        out@.len() == (if top_k < candidates.len() {
            top_k
        } else {
            candidates.len()
        }),
        out@ == ranking(candidates@).take(out@.len() as int),
        ranked(out@),
{
    let mut sorted: Vec<Scored> = Vec::new();
    let mut i: usize = 0;
    assert(candidates@.take(0) =~= Seq::<Scored>::empty());
    while i < candidates.len()
        invariant
            i <= candidates@.len(),
            sorted@.len() == i,
            ranked(sorted@),
            sorted@.to_multiset() == candidates@.take(i as int).to_multiset(),
        decreases candidates@.len() - i,
    {
        let c: Scored = candidates[i];
        let mut p: usize = 0;
        while p < sorted.len() && precedes(&sorted[p], &c)
            invariant
                p <= sorted@.len(),
                forall|q: int| 0 <= q < p ==> ranks_first(sorted@[q], c),
            decreases sorted@.len() - p,
        {
            p += 1;
        }
        proof {
            let before = sorted@;
            let after = before.insert(p as int, c);
            to_multiset_insert(before, p as int, c);
            to_multiset_build(candidates@.take(i as int), c);
            assert(candidates@.take(i + 1) =~= candidates@.take(i as int).push(c));
            assert forall|a: int, b: int| 0 <= a < b < after.len() implies ranks_first(
                after[a],
                after[b],
            ) by {
                if b < p {
                    assert(after[a] == before[a] && after[b] == before[b]);
                } else if b == p {
                    assert(after[a] == before[a]);
                } else if a < p {
                    assert(after[a] == before[a] && after[b] == before[b - 1]);
                } else if a == p {
                    assert(after[b] == before[b - 1]);
                    assert(ranks_first(c, before[p as int]));
                    if p < b - 1 {
                        assert(ranks_first(before[p as int], before[b - 1]));
                    }
                } else {
                    assert(after[a] == before[a - 1] && after[b] == before[b - 1]);
                }
            }
        }
        sorted.insert(p, c);
        i += 1;
    }
    proof {
        assert(candidates@.take(candidates@.len() as int) =~= candidates@);
        lemma_ranking(candidates@);
        assert(sorted@ == ranking(candidates@));
    }
    if top_k < sorted.len() {
        sorted.truncate(top_k);
    }
    assert(sorted@ =~= ranking(candidates@).take(sorted@.len() as int));
    sorted
}

} // verus!
