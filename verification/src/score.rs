//! The substring relevance score of one (search term, candidate) pair.
//!
//! The reference score is the rational `1 + |term| / |candidate|` for a
//! prefix match, `|term| / |candidate|` for a pure containment match, and
//! `-1` for a non-match.  Since the term is fixed within one ranking call,
//! that real-valued score is ordered exactly by the match class first
//! (prefix above containment above non-match) and, within a matching class,
//! by the candidate length (shorter candidates score strictly higher for a
//! non-empty term).  `MatchScore` records the class and the candidate
//! length, and `outranks` is that exact order.

use vstd::prelude::*;
use crate::text::{chars_of, contains_needle, has_prefix, has_substring, is_prefix};

verus! {

/// The relevance of one candidate for one search term.
#[derive(Clone, Copy, Debug, PartialEq, Eq, Structural)]
pub enum MatchScore {
    /// The candidate begins with the term; score `1 + |term| / |candidate|`.
    Prefix { source_len: usize },
    /// The candidate has the term somewhere after the start; score
    /// `|term| / |candidate|`.
    Containment { source_len: usize },
    /// The candidate does not have the term; score `-1`.
    NoMatch,
}

/// The score of `source` for the term `term`.
pub open spec fn spec_score(term: Seq<char>, source: Seq<char>) -> MatchScore {
    if has_prefix(source, term) {
        MatchScore::Prefix { source_len: source.len() as usize }
    } else if has_substring(source, term) {
        MatchScore::Containment { source_len: source.len() as usize }
    } else {
        MatchScore::NoMatch
    }
}

/// `a` ranks strictly above `b`: for a non-empty search term this holds
/// exactly when the rational score behind `a` is greater than the one
/// behind `b`.
pub open spec fn outranks(a: MatchScore, b: MatchScore) -> bool {
    match (a, b) {
        (MatchScore::Prefix { source_len: la }, MatchScore::Prefix { source_len: lb }) => la < lb,
        (MatchScore::Prefix { .. }, MatchScore::Containment { .. }) => true,
        (MatchScore::Prefix { .. }, MatchScore::NoMatch) => true,
        (MatchScore::Containment { .. }, MatchScore::Prefix { .. }) => false,
        (
            MatchScore::Containment { source_len: la },
            MatchScore::Containment { source_len: lb },
        ) => la < lb,
        (MatchScore::Containment { .. }, MatchScore::NoMatch) => true,
        (MatchScore::NoMatch, _) => false,
    }
}

/// `outranks` is a strict order: it is asymmetric ...
pub proof fn lemma_outranks_asymmetric(a: MatchScore, b: MatchScore)
    requires
        outranks(a, b),
    ensures
        !outranks(b, a),
{
}

/// ... and its negation is transitive, so "ranks no higher than" is a total
/// preorder on scores.
pub proof fn lemma_outranks_negation_transitive(a: MatchScore, b: MatchScore, c: MatchScore)
    requires
        !outranks(a, b),
        !outranks(b, c),
    ensures
        !outranks(a, c),
{
}

/// Prefix matches strictly outrank pure containment matches, which strictly
/// outrank non-matches.
pub proof fn lemma_match_class_order(
    term: Seq<char>,
    prefixed: Seq<char>,
    contained: Seq<char>,
    unmatched: Seq<char>,
)
    requires
        has_prefix(prefixed, term),
        has_substring(contained, term),
        !has_prefix(contained, term),
        !has_substring(unmatched, term),
    ensures
        outranks(spec_score(term, prefixed), spec_score(term, contained)),
        outranks(spec_score(term, contained), spec_score(term, unmatched)),
{
}

/// The score of `source` for the term held in `term`, both as character
/// vectors.
pub fn score_of_chars(term: &Vec<char>, source: &Vec<char>) -> (score: MatchScore)
    ensures
        score == spec_score(term@, source@),
{
    if is_prefix(source, term) {
        MatchScore::Prefix { source_len: source.len() }
    } else if contains_needle(source, term) {
        MatchScore::Containment { source_len: source.len() }
    } else {
        MatchScore::NoMatch
    }
}

/// The substring relevance score of `source` for `search_term`.
pub fn calculate_substring_score(search_term: &String, source: &String) -> (score: MatchScore)
    ensures
        score == spec_score(search_term@, source@),
{
    let term_chars = chars_of(search_term.as_str());
    let source_chars = chars_of(source.as_str());
    score_of_chars(&term_chars, &source_chars)
}

/// Whether `a` ranks strictly above `b`.
pub fn score_gt(a: &MatchScore, b: &MatchScore) -> (r: bool)
    ensures
        r == outranks(*a, *b),
{
    match (a, b) {
        (MatchScore::Prefix { source_len: la }, MatchScore::Prefix { source_len: lb }) => la < lb,
        (MatchScore::Prefix { .. }, _) => true,
        (MatchScore::Containment { .. }, MatchScore::Prefix { .. }) => false,
        (
            MatchScore::Containment { source_len: la },
            MatchScore::Containment { source_len: lb },
        ) => la < lb,
        (MatchScore::Containment { .. }, MatchScore::NoMatch) => true,
        (MatchScore::NoMatch, _) => false,
    }
}

} // verus!
