//! Ranking: score every candidate against the search term, then sort the
//! candidates by score in descending order with a stable insertion sort.
//!
//! The contract of [`sort_by_ranking_score`] states that the result is a
//! permutation of the input (same multiset of strings), that it is ordered
//! by relevance (no later candidate outranks an earlier one), and that a
//! list in which no candidate has the term as a substring comes back in its
//! original order.  Tie order between equal scores is otherwise left open
//! by the reference behaviour; the insertion sort used here happens to keep
//! it stable.

use vstd::prelude::*;
use crate::score::{
    MatchScore, lemma_outranks_asymmetric, lemma_outranks_negation_transitive, outranks,
    score_gt, score_of_chars, spec_score,
};
use crate::text::{chars_of, has_prefix, has_substring, lemma_prefix_is_substring};

verus! {

broadcast use vstd::seq_lib::group_to_multiset_ensures, vstd::seq_lib::to_multiset_insert;

/// One candidate paired with its score, alive only inside a ranking call.
struct ScoredSource {
    score: MatchScore,
    source: String,
}

/// The views of a sequence of strings.
pub open spec fn views_of(strings: Seq<String>) -> Seq<Seq<char>> {
    strings.map_values(|s: String| s@)
}

/// No element ranks strictly above an earlier one: descending score order.
pub open spec fn sorted_by_relevance(term: Seq<char>, sources: Seq<Seq<char>>) -> bool {
    forall|i: int, j: int|
        0 <= i < j < sources.len() ==> !outranks(
            spec_score(term, sources[j]),
            spec_score(term, sources[i]),
        )
}

spec fn texts_of(items: Seq<ScoredSource>) -> Seq<Seq<char>> {
    items.map_values(|it: ScoredSource| it.source@)
}

spec fn scores_ok(term: Seq<char>, items: Seq<ScoredSource>) -> bool {
    forall|k: int|
        0 <= k < items.len() ==> (#[trigger] items[k]).score == spec_score(
            term,
            items[k].source@,
        )
}

spec fn all_no_match(items: Seq<ScoredSource>) -> bool {
    forall|k: int| 0 <= k < items.len() ==> (#[trigger] items[k]).score is NoMatch
}

proof fn lemma_texts_remove(items: Seq<ScoredSource>, i: int)
    requires
        0 <= i < items.len(),
    ensures
        texts_of(items.remove(i)) =~= texts_of(items).remove(i),
{
}

proof fn lemma_texts_insert(items: Seq<ScoredSource>, i: int, it: ScoredSource)
    requires
        0 <= i <= items.len(),
    ensures
        texts_of(items.insert(i, it)) =~= texts_of(items).insert(i, it.source@),
{
}

/// Sorts the provided source by the relevance of the provided search term.
///
/// `search_term` is the term (a non-empty string) to search for in `source`,
/// whose strings are all assumed non-empty; the returned vector holds the
/// same strings reordered by descending score.
pub fn sort_by_ranking_score(search_term: &String, source: Vec<String>) -> (ranked: Vec<String>)
    ensures
        ranked@.len() == source@.len(),
        views_of(ranked@).to_multiset() == views_of(source@).to_multiset(),
        sorted_by_relevance(search_term@, views_of(ranked@)),
        (forall|k: int|
            0 <= k < source@.len() ==> !has_substring(
                (#[trigger] source@[k])@,
                search_term@,
            )) ==> ranked@ == source@,
{
    let ghost term = search_term@;
    let term_chars = chars_of(search_term.as_str());

    // Pair every candidate with its score, in the original order.
    let mut scored: Vec<ScoredSource> = Vec::new();
    let mut idx: usize = 0;
    while idx < source.len()
        invariant
            term_chars@ == term,
            idx <= source@.len(),
            scored@.len() == idx,
            forall|k: int| 0 <= k < idx ==> (#[trigger] scored@[k]).source == source@[k],
            forall|k: int|
                0 <= k < idx ==> (#[trigger] scored@[k]).score == spec_score(term, source@[k]@),
        decreases source@.len() - idx,
    {
        let text = source[idx].clone();
        let source_chars = chars_of(text.as_str());
        let score = score_of_chars(&term_chars, &source_chars);
        scored.push(ScoredSource { score, source: text });
        idx += 1;
    }

    let ghost orig_items = scored@;
    proof {
        assert(texts_of(orig_items) =~= views_of(source@));
        assert(scores_ok(term, orig_items));
    }

    // Stable insertion sort, descending by score.
    let n = scored.len();
    let mut i: usize = 1;
    while i < n
        invariant
            n == scored@.len(),
            orig_items.len() == n,
            1 <= i,
            i <= n || i == 1,
            texts_of(scored@).to_multiset() == texts_of(orig_items).to_multiset(),
            scores_ok(term, scored@),
            forall|a: int, b: int|
                0 <= a < b < i ==> !outranks(scored@[b].score, scored@[a].score),
            all_no_match(orig_items) ==> scored@ == orig_items,
        decreases n - i,
    {
        let ghost before = scored@;
        let x = scored.remove(i);
        let ghost pre = scored@;
        let mut j: usize = i;
        while j > 0 && score_gt(&x.score, &scored[j - 1].score)
            invariant
                i < n,
                pre.len() == n - 1,
                scored@ == pre,
                j <= i,
                forall|t: int| j <= t < i ==> outranks(x.score, (#[trigger] pre[t]).score),
            decreases j,
        {
            j -= 1;
        }
        proof {
            // The prefix of `pre` below `i` is the sorted prefix of `before`.
            assert(forall|t: int| 0 <= t < i ==> pre[t] == before[t]);
            assert(forall|t: int| i <= t < n - 1 ==> pre[t] == before[t + 1]);
            assert(x == before[i as int]);
        }
        scored.insert(j, x);
        proof {
            let new = pre.insert(j as int, x);
            assert(scored@ == new);
            assert(forall|t: int| 0 <= t < j ==> new[t] == pre[t]);
            assert(new[j as int] == x);
            assert(forall|t: int| j < t < n ==> new[t] == pre[t - 1]);

            // Multiset of texts is preserved: remove then insert of one text.
            lemma_texts_remove(before, i as int);
            lemma_texts_insert(pre, j as int, x);
            let tb = texts_of(before);
            assert(tb[i as int] == x.source@);
            assert(tb.contains(tb[i as int]));
            assert(tb.to_multiset().count(x.source@) > 0);
            assert(tb.remove(i as int).to_multiset().insert(x.source@) =~= tb.to_multiset());
            assert(texts_of(new).to_multiset() == texts_of(orig_items).to_multiset());

            // Every item still carries the score of its own text.
            assert forall|k: int| 0 <= k < n implies (#[trigger] new[k]).score == spec_score(
                term,
                new[k].source@,
            ) by {
                if k < j {
                    assert(new[k] == before[k]);
                } else if k == j {
                    assert(new[k] == before[i as int]);
                } else if k <= i {
                    assert(new[k] == before[k - 1]);
                } else {
                    assert(new[k] == before[k]);
                }
            }

            // The sorted prefix now reaches one element further.
            assert forall|a: int, b: int| 0 <= a < b < i + 1 implies !outranks(
                new[b].score,
                new[a].score,
            ) by {
                if b < j {
                    assert(new[a] == pre[a] && new[b] == pre[b]);
                } else if b == j {
                    // new[b] is x; x does not outrank anything at or below j - 1.
                    assert(new[a] == pre[a]);
                    assert(!outranks(x.score, pre[j - 1].score));
                    if a < j - 1 {
                        assert(!outranks(pre[j - 1].score, pre[a].score));
                        lemma_outranks_negation_transitive(x.score, pre[j - 1].score, pre[a].score);
                    }
                } else {
                    // new[b] comes from pre[b - 1], a sorted element that x
                    // strictly outranked when it was passed over.
                    assert(new[b] == pre[b - 1]);
                    assert(outranks(x.score, pre[b - 1].score));
                    if a < j {
                        // a < j <= b - 1 < i: both sat sorted in pre already.
                        assert(new[a] == pre[a]);
                        assert(!outranks(pre[b - 1].score, pre[a].score));
                    } else if a == j {
                        assert(new[a] == x);
                        lemma_outranks_asymmetric(x.score, pre[b - 1].score);
                    } else {
                        assert(new[a] == pre[a - 1]);
                        assert(!outranks(pre[b - 1].score, pre[a - 1].score));
                    }
                }
            }

            // A list of nothing but non-matches is never reordered.
            if all_no_match(orig_items) {
                assert(before == orig_items);
                assert(x.score is NoMatch);
                if j < i {
                    assert(outranks(x.score, pre[j as int].score));
                    assert(false);
                }
                assert(new =~= before);
            }
        }
        i += 1;
    }

    let ghost sorted_items = scored@;

    // Keep the strings only, in sorted order.
    let mut ranked: Vec<String> = Vec::new();
    while scored.len() > 0
        invariant
            ranked@.len() + scored@.len() == sorted_items.len(),
            scored@ == sorted_items.skip(ranked@.len() as int),
            forall|k: int| 0 <= k < ranked@.len() ==> ranked@[k] == sorted_items[k].source,
        decreases scored@.len(),
    {
        let ghost r = ranked@.len() as int;
        let item = scored.remove(0);
        proof {
            assert(item == sorted_items.skip(r)[0]);
            assert(item == sorted_items[r]);
            assert(sorted_items.skip(r).remove(0) =~= sorted_items.skip(r + 1));
        }
        ranked.push(item.source);
    }

    proof {
        assert(ranked@.len() == sorted_items.len());
        assert(views_of(ranked@) =~= texts_of(sorted_items));
        assert(views_of(ranked@).to_multiset() == views_of(source@).to_multiset());

        // Descending relevance order of the string views.
        assert forall|a: int, b: int| 0 <= a < b < ranked@.len() implies !outranks(
            spec_score(term, views_of(ranked@)[b]),
            spec_score(term, views_of(ranked@)[a]),
        ) by {
            assert(views_of(ranked@)[a] == sorted_items[a].source@);
            assert(views_of(ranked@)[b] == sorted_items[b].source@);
            assert(!outranks(sorted_items[b].score, sorted_items[a].score));
        }

        // A term that no candidate has as a substring leaves the order alone.
        if forall|k: int|
            0 <= k < source@.len() ==> !has_substring((#[trigger] source@[k])@, term) {
            assert forall|k: int| 0 <= k < orig_items.len() implies (#[trigger] orig_items[k]).score
                is NoMatch by {
                assert(!has_substring(source@[k]@, term));
                if has_prefix(source@[k]@, term) {
                    lemma_prefix_is_substring(source@[k]@, term);
                }
                assert(orig_items[k].score == spec_score(term, source@[k]@));
            }
            assert(all_no_match(orig_items));
            assert(sorted_items == orig_items);
            assert(ranked@ =~= source@);
        }
    }
    ranked
}

} // verus!
