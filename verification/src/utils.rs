//! Text analysis: the tokenizer and the grouping of tokens by text.

use tantivy::tokenizer::{Language, RemoveLongFilter, SimpleTokenizer, Stemmer, TextAnalyzer};
use vstd::prelude::*;

verus! {

/// Tokens of this many bytes or more are dropped by the tokenizer.
pub const TOKEN_LENGTH_LIMIT: usize = 40;

/// The tokens that the analyzer makes of `text`: split at every character
/// that is not alphanumeric, tokens of `limit` bytes or more removed, the rest
/// stemmed as English words, in the order of the text.
pub uninterp spec fn analyzed_tokens(text: Seq<char>, limit: usize) -> Seq<Seq<char>>;

/// The texts of a vector of strings.
pub open spec fn token_views(tokens: Seq<String>) -> Seq<Seq<char>> {
    Seq::new(tokens.len(), |i: int| tokens[i]@)
}

/// The tokens of `text` as both ingest and query see them.
pub open spec fn tokens_of(text: Seq<char>) -> Seq<Seq<char>> {
    analyzed_tokens(text, TOKEN_LENGTH_LIMIT)
}

/// Runs a `TextAnalyzer` of the crate `tantivy` over `text`: its
/// `SimpleTokenizer`, then `RemoveLongFilter::limit(limit)`, then the English
/// `Stemmer`, and collects the text of each token that comes out. Trusted: the
/// tokens are a function of the text and the limit alone.
#[verifier::external_body]
fn analyze(text: &str, limit: usize) -> (out: Vec<String>)
    ensures
        token_views(out@) == analyzed_tokens(text@, limit),
{
    let mut analyzer = TextAnalyzer::builder(SimpleTokenizer::default())
        .filter(RemoveLongFilter::limit(limit))
        .filter(Stemmer::new(Language::English))
        .build();
    let mut tokens = Vec::new();
    analyzer.token_stream(text).process(&mut |token| tokens.push(token.text.clone()));
    tokens
}

/// Splits `text` into its normalized tokens, in order.
pub fn tokenize(text: &str) -> (out: Vec<String>)
    ensures
        token_views(out@) == tokens_of(text@),
{
    analyze(text, TOKEN_LENGTH_LIMIT)
}

/// How often `t` occurs in `tokens`.
pub open spec fn count_of(tokens: Seq<Seq<char>>, t: Seq<char>) -> nat
    decreases tokens.len(),
{
    if tokens.len() == 0 {
        0
    } else {
        count_of(tokens.drop_last(), t) + if tokens.last() == t {
            1nat
        } else {
            0nat
        }
    }
}

/// The distinct tokens of `tokens`, each at the place of its first occurrence.
pub open spec fn first_seen(tokens: Seq<Seq<char>>) -> Seq<Seq<char>>
    decreases tokens.len(),
{
    if tokens.len() == 0 {
        Seq::empty()
    } else if first_seen(tokens.drop_last()).contains(tokens.last()) {
        first_seen(tokens.drop_last())
    } else {
        first_seen(tokens.drop_last()).push(tokens.last())
    }
}

/// The distinct tokens of `tokens` in the order of their first occurrence,
/// each with the number of its occurrences.
pub open spec fn grouped(tokens: Seq<Seq<char>>) -> Seq<(Seq<char>, nat)> {
    Seq::new(
        first_seen(tokens).len(),
        |j: int| (first_seen(tokens)[j], count_of(tokens, first_seen(tokens)[j])),
    )
}

/// The texts and counts of a vector of groups.
pub open spec fn group_views(groups: Seq<(String, u64)>) -> Seq<(Seq<char>, nat)> {
    Seq::new(groups.len(), |j: int| (groups[j].0@, groups[j].1 as nat))
}

/// `first_seen` holds exactly the tokens that occur, each once, and no more
/// entries than there are tokens.
pub proof fn lemma_first_seen(tokens: Seq<Seq<char>>)
    ensures
        first_seen(tokens).no_duplicates(),
        first_seen(tokens).len() <= tokens.len(),
        forall|t: Seq<char>| #[trigger] first_seen(tokens).contains(t) <==> tokens.contains(t),
    decreases tokens.len(),
{
    if tokens.len() > 0 {
        let prev = tokens.drop_last();
        let last = tokens.last();
        lemma_first_seen(prev);
        assert forall|t: Seq<char>| #[trigger]
            first_seen(tokens).contains(t) <==> tokens.contains(t) by {
            if tokens.contains(t) {
                let k = choose|k: int| 0 <= k < tokens.len() && tokens[k] == t;
                if k < prev.len() {
                    assert(prev[k] == t);
                    assert(prev.contains(t));
                    assert(first_seen(prev).contains(t));
                    if !first_seen(prev).contains(last) {
                        let j = choose|j: int|
                            0 <= j < first_seen(prev).len() && first_seen(prev)[j] == t;
                        assert(first_seen(tokens)[j] == t);
                    }
                } else {
                    assert(t == last);
                    if !first_seen(prev).contains(last) {
                        assert(first_seen(tokens)[first_seen(prev).len() as int] == t);
                    }
                }
            }
            if first_seen(tokens).contains(t) {
                let j = choose|j: int|
                    0 <= j < first_seen(tokens).len() && first_seen(tokens)[j] == t;
                if j < first_seen(prev).len() {
                    assert(first_seen(prev)[j] == t);
                    assert(first_seen(prev).contains(t));
                    let k = choose|k: int| 0 <= k < prev.len() && prev[k] == t;
                    assert(tokens[k] == t);
                } else {
                    assert(t == last);
                    assert(tokens[tokens.len() - 1] == t);
                }
            }
        }
    }
}

/// A token that occurs is counted at least once, and none more often than
/// there are tokens.
pub proof fn lemma_count_of(tokens: Seq<Seq<char>>, t: Seq<char>)
    ensures
        count_of(tokens, t) <= tokens.len(),
        tokens.contains(t) <==> count_of(tokens, t) >= 1,
    decreases tokens.len(),
{
    if tokens.len() > 0 {
        let prev = tokens.drop_last();
        lemma_count_of(prev, t);
        if tokens.contains(t) {
            let k = choose|k: int| 0 <= k < tokens.len() && tokens[k] == t;
            if k < prev.len() {
                assert(prev[k] == t);
            }
        }
        if prev.contains(t) {
            let k = choose|k: int| 0 <= k < prev.len() && prev[k] == t;
            assert(tokens[k] == t);
        }
        if tokens.last() == t {
            assert(tokens[tokens.len() - 1] == t);
        }
    }
}

/// The groups of a token list name each of its tokens once, with its count.
pub proof fn lemma_grouped(tokens: Seq<Seq<char>>)
    ensures
        grouped(tokens).len() <= tokens.len(),
        forall|i: int, j: int|
            0 <= i < j < grouped(tokens).len() ==> grouped(tokens)[i].0 != grouped(tokens)[j].0,
        forall|j: int|
            0 <= j < grouped(tokens).len() ==> tokens.contains(#[trigger] grouped(tokens)[j].0)
                && grouped(tokens)[j].1 == count_of(tokens, grouped(tokens)[j].0)
                && grouped(tokens)[j].1 >= 1,
        forall|t: Seq<char>|
            tokens.contains(t) ==> exists|j: int|
                0 <= j < grouped(tokens).len() && #[trigger] grouped(tokens)[j].0 == t,
{
    lemma_first_seen(tokens);
    let fs = first_seen(tokens);
    assert forall|j: int| 0 <= j < grouped(tokens).len() implies tokens.contains(
        #[trigger] grouped(tokens)[j].0,
    ) && grouped(tokens)[j].1 >= 1 by {
        assert(fs.contains(fs[j]));
        lemma_count_of(tokens, fs[j]);
    }
    assert forall|t: Seq<char>| tokens.contains(t) implies exists|j: int|
        0 <= j < grouped(tokens).len() && #[trigger] grouped(tokens)[j].0 == t by {
        assert(fs.contains(t));
        let j = choose|j: int| 0 <= j < fs.len() && fs[j] == t;
        assert(grouped(tokens)[j].0 == t);
    }
}

/// The place of the group with the text of `token`, if there is one.
fn find_group(groups: &Vec<(String, u64)>, token: &String) -> (out: Option<usize>)
    ensures
        match out {
            Some(k) => k < groups@.len() && groups@[k as int].0@ == token@,
            None => forall|j: int| 0 <= j < groups@.len() ==> groups@[j].0@ != token@,
        },
{
    let mut j: usize = 0;
    while j < groups.len()
        invariant
            j <= groups@.len(),
            forall|m: int| 0 <= m < j ==> groups@[m].0@ != token@,
        decreases groups@.len() - j,
    {
        if groups[j].0 == *token {
            return Some(j);
        }
        j += 1;
    }
    None
}

/// Groups `tokens` by text: each distinct token once, in the order of first
/// occurrence, with the number of times it occurs.
pub fn group_by(tokens: &Vec<String>) -> (out: Vec<(String, u64)>)
    ensures
        group_views(out@) == grouped(token_views(tokens@)),
{
    let ghost tv = token_views(tokens@);
    let mut out: Vec<(String, u64)> = Vec::new();
    let mut i: usize = 0;
    while i < tokens.len()
        invariant
            i <= tokens@.len(),
            tv == token_views(tokens@),
            out@.len() == first_seen(tv.take(i as int)).len(),
            forall|j: int|
                0 <= j < out@.len() ==> (#[trigger] out@[j]).0@ == first_seen(tv.take(i as int))[j]
                    && out@[j].1 == count_of(tv.take(i as int), out@[j].0@),
        decreases tokens@.len() - i,
    {
        let ghost before = tv.take(i as int);
        let ghost after = tv.take(i + 1);
        let ghost t = tokens@[i as int]@;
        proof {
            assert(after.drop_last() =~= before);
            assert(after.last() == t);
            lemma_first_seen(before);
        }
        match find_group(&out, &tokens[i]) {
            Some(k) => {
                let count: u64 = out[k].1;
                proof {
                    lemma_count_of(before, t);
                    assert(first_seen(before)[k as int] == t);
                    assert(first_seen(before).contains(t));
                }
                out.set(k, (tokens[i].clone(), count + 1));
            },
            None => {
                proof {
                    lemma_count_of(before, t);
                    if first_seen(before).contains(t) {
                        let j = choose|j: int|
                            0 <= j < first_seen(before).len() && first_seen(before)[j] == t;
                        assert(out@[j].0@ == t);
                    }
                }
                out.push((tokens[i].clone(), 1));
            },
        }
        i += 1;
    }
    assert(tv.take(tokens@.len() as int) =~= tv);
    assert(group_views(out@) =~= grouped(tv));
    out
}

} // verus!
