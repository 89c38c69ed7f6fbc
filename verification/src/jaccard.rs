//! Character-set Jaccard index of two strings, as an exact pair of integers.
//!
//! The reference value is `|I| / |U|` where `I` is the set of characters the
//! two strings share and `U` the set of characters either has, with `0` when
//! either string is empty.  Division of the two sizes is left to the caller
//! (the quotient is not representable here); [`calculate_jaccard_index`]
//! returns the pair `(|I|, |U|)`, with `(0, 0)` standing for the empty-input
//! short circuit.

use vstd::prelude::*;
use vstd::string::StrSliceExecFns;
use crate::text::chars_of;

verus! {

broadcast use vstd::seq::Seq::lemma_to_set_insert_commutes;

/// Number of distinct characters the two strings share.
pub open spec fn spec_jaccard_intersection(a: Seq<char>, b: Seq<char>) -> nat {
    a.to_set().intersect(b.to_set()).len()
}

/// Number of distinct characters at least one of the two strings has.
pub open spec fn spec_jaccard_union(a: Seq<char>, b: Seq<char>) -> nat {
    a.to_set().union(b.to_set()).len()
}

/// The Jaccard index does not depend on the order of its two arguments.
pub proof fn lemma_jaccard_symmetric(a: Seq<char>, b: Seq<char>)
    ensures
        spec_jaccard_intersection(a, b) == spec_jaccard_intersection(b, a),
        spec_jaccard_union(a, b) == spec_jaccard_union(b, a),
{
    assert(a.to_set().intersect(b.to_set()) =~= b.to_set().intersect(a.to_set()));
    assert(a.to_set().union(b.to_set()) =~= b.to_set().union(a.to_set()));
}

/// A non-empty string compared with itself has intersection equal to union,
/// and both non-empty: the index is exactly one.
pub proof fn lemma_jaccard_self(a: Seq<char>)
    requires
        a.len() > 0,
    ensures
        spec_jaccard_intersection(a, a) == spec_jaccard_union(a, a),
        spec_jaccard_union(a, a) > 0,
{
    assert(a.to_set().intersect(a.to_set()) =~= a.to_set());
    assert(a.to_set().union(a.to_set()) =~= a.to_set());
    a.lemma_cardinality_of_empty_set_is_0();
}

/// Whether `v` holds the character `c`.
fn vec_contains_char(v: &Vec<char>, c: char) -> (r: bool)
    ensures
        r == v@.contains(c),
{
    let mut i: usize = 0;
    while i < v.len()
        invariant
            i <= v@.len(),
            forall|k: int| 0 <= k < i ==> v@[k] != c,
        decreases v@.len() - i,
    {
        if v[i] == c {
            assert(v@.contains(c));
            return true;
        }
        i += 1;
    }
    false
}

/// The character-set Jaccard index of the two strings, as the pair
/// (intersection size, union size).  `(0, 0)` is returned exactly when one
/// of the inputs is empty; otherwise the union size is positive and the
/// quotient of the pair is the index.
pub fn calculate_jaccard_index(search_term: &String, source: &String) -> (r: (usize, usize))
    ensures
        search_term@.len() == 0 || source@.len() == 0 ==> r == (0usize, 0usize),
        search_term@.len() > 0 && source@.len() > 0 ==> r.0 == spec_jaccard_intersection(
            search_term@,
            source@,
        ),
        search_term@.len() > 0 && source@.len() > 0 ==> r.1 == spec_jaccard_union(
            search_term@,
            source@,
        ),
        r.0 <= r.1,
        search_term@.len() > 0 && source@.len() > 0 ==> r.1 > 0,
{
    broadcast use vstd::seq_lib::seq_to_set_is_finite;

    if search_term.as_str().unicode_len() == 0 || source.as_str().unicode_len() == 0 {
        return (0, 0);
    }
    let term_chars = chars_of(search_term.as_str());
    let source_chars = chars_of(source.as_str());
    let ghost a = search_term@.to_set();

    // Distinct characters of the term, in order of first occurrence.
    let mut term_distinct: Vec<char> = Vec::new();
    let mut i: usize = 0;
    while i < term_chars.len()
        invariant
            term_chars@ == search_term@,
            i <= term_chars@.len(),
            term_distinct@.no_duplicates(),
            term_distinct@.to_set() == term_chars@.take(i as int).to_set(),
        decreases term_chars@.len() - i,
    {
        let c = term_chars[i];
        let ghost prefix = term_chars@.take(i as int);
        proof {
            assert(term_chars@.take(i as int + 1) =~= prefix + seq![c]);
            assert((prefix + seq![c]).to_set() == prefix.to_set().insert(c));
        }
        if !vec_contains_char(&term_distinct, c) {
            proof {
                assert(term_distinct@.push(c).no_duplicates());
                assert(term_distinct@.push(c) =~= term_distinct@ + seq![c]);
                assert((term_distinct@ + seq![c]).to_set() == term_distinct@.to_set().insert(c));
            }
            term_distinct.push(c);
        } else {
            proof {
                assert(term_distinct@.to_set().contains(c));
                assert(prefix.to_set().insert(c) =~= prefix.to_set());
            }
        }
        i += 1;
    }
    proof {
        assert(term_chars@.take(term_chars@.len() as int) =~= term_chars@);
        assert(term_distinct@.to_set() == a);
    }

    // Walk the source characters once, growing the union beyond the term's
    // characters and counting the distinct source characters seen in the term.
    let mut union_distinct: Vec<char> = Vec::new();
    let mut k: usize = 0;
    while k < term_distinct.len()
        invariant
            k <= term_distinct@.len(),
            union_distinct@ == term_distinct@.take(k as int),
        decreases term_distinct@.len() - k,
    {
        let c = term_distinct[k];
        union_distinct.push(c);
        proof {
            assert(term_distinct@.take(k as int).push(c) =~= term_distinct@.take(k as int + 1));
        }
        k += 1;
    }
    proof {
        assert(term_distinct@.take(term_distinct@.len() as int) =~= term_distinct@);
    }

    let mut source_distinct: Vec<char> = Vec::new();
    let mut intersection_count: usize = 0;
    proof {
        assert(source_chars@.take(0).to_set() =~= Set::<char>::empty());
        assert(a.intersect(Set::<char>::empty()) =~= Set::<char>::empty());
        assert(a.union(Set::<char>::empty()) =~= a);
    }
    let mut s: usize = 0;
    while s < source_chars.len()
        invariant
            term_chars@ == search_term@,
            source_chars@ == source@,
            term_distinct@.to_set() == a,
            s <= source_chars@.len(),
            source_distinct@.no_duplicates(),
            source_distinct@.to_set() == source_chars@.take(s as int).to_set(),
            union_distinct@.no_duplicates(),
            union_distinct@.to_set() == a.union(source_chars@.take(s as int).to_set()),
            intersection_count as nat == a.intersect(
                source_chars@.take(s as int).to_set(),
            ).len(),
            intersection_count <= source_distinct@.len(),
        decreases source_chars@.len() - s,
    {
        let c = source_chars[s];
        let ghost prefix = source_chars@.take(s as int);
        proof {
            assert(source_chars@.take(s as int + 1) =~= prefix + seq![c]);
            assert((prefix + seq![c]).to_set() == prefix.to_set().insert(c));
        }
        if !vec_contains_char(&source_distinct, c) {
            proof {
                assert(source_distinct@.push(c).no_duplicates());
                assert(source_distinct@.push(c) =~= source_distinct@ + seq![c]);
                assert((source_distinct@ + seq![c]).to_set() == source_distinct@.to_set().insert(
                    c,
                ));
            }
            source_distinct.push(c);
            if vec_contains_char(&term_distinct, c) {
                let distinct_so_far = source_distinct.len();
                proof {
                    assert(intersection_count < distinct_so_far);
                    assert(a.contains(c));
                    assert(a.intersect(prefix.to_set().insert(c)) =~= a.intersect(
                        prefix.to_set(),
                    ).insert(c));
                    assert(!a.intersect(prefix.to_set()).contains(c));
                    assert(a.union(prefix.to_set().insert(c)) =~= a.union(prefix.to_set()));
                }
                intersection_count += 1;
            } else {
                proof {
                    assert(!a.contains(c));
                    assert(!union_distinct@.to_set().contains(c));
                    assert(union_distinct@.push(c).no_duplicates());
                    assert(union_distinct@.push(c) =~= union_distinct@ + seq![c]);
                    assert((union_distinct@ + seq![c]).to_set() == union_distinct@.to_set().insert(
                        c,
                    ));
                    assert(a.union(prefix.to_set().insert(c)) =~= a.union(
                        prefix.to_set(),
                    ).insert(c));
                    assert(a.intersect(prefix.to_set().insert(c)) =~= a.intersect(
                        prefix.to_set(),
                    ));
                }
                union_distinct.push(c);
            }
        } else {
            proof {
                assert(source_distinct@.to_set().contains(c));
                assert(prefix.to_set().insert(c) =~= prefix.to_set());
            }
        }
        s += 1;
    }

    let union_count = union_distinct.len();
    proof {
        assert(source_chars@.take(source_chars@.len() as int) =~= source_chars@);
        let b = source@.to_set();
        union_distinct@.unique_seq_to_set();
        assert(union_count as nat == a.union(b).len());
        assert(a.intersect(b).len() <= a.union(b).len()) by {
            vstd::set_lib::lemma_len_subset(a.intersect(b), a.union(b));
        }
        assert(a.union(b).len() > 0) by {
            assert(a.union(b).contains(search_term@[0]));
            if a.union(b).len() == 0 {
                assert(a.union(b) =~= Set::<char>::empty());
            }
        }
    }
    (intersection_count, union_count)
}

} // verus!
