//! Levenshtein edit distance of two strings, case-insensitive.
//!
//! Both inputs are lowercased before comparison; the distance itself counts
//! single-character insertions, deletions and substitutions, each at cost
//! one, and is computed with a single-row dynamic-programming buffer of
//! `|term| + 1` cells.  Lengths are measured in characters throughout.

use vstd::prelude::*;
use vstd::string::StrSliceExecFns;
use crate::text::chars_of;

verus! {

/// What `str::to_lowercase` returns for a string with these characters.
pub uninterp spec fn lower_of(s: Seq<char>) -> Seq<char>;

/// Relies on str::to_lowercase: the result depends on the input characters
/// alone, and an empty string stays empty.
#[verifier::external_body]
fn lowercase(s: &str) -> (r: String)
    ensures
        r@ == lower_of(s@),
        s@.len() == 0 ==> r@.len() == 0,
{
    s.to_lowercase()
}

/// The least of three costs.
pub open spec fn min3(x: nat, y: nat, z: nat) -> nat {
    if x <= y && x <= z {
        x
    } else if y <= z {
        y
    } else {
        z
    }
}

/// Minimum number of single-character insertions, deletions and
/// substitutions that turn `a` into `b`.
pub open spec fn edit_dist(a: Seq<char>, b: Seq<char>) -> nat
    decreases a.len() + b.len(),
{
    if a.len() == 0 {
        b.len()
    } else if b.len() == 0 {
        a.len()
    } else if a.last() == b.last() {
        edit_dist(a.drop_last(), b.drop_last())
    } else {
        min3(
            edit_dist(a.drop_last(), b),
            edit_dist(a, b.drop_last()),
            edit_dist(a.drop_last(), b.drop_last()),
        ) + 1
    }
}

/// The distance the scorer reports: the length of the other string when one
/// is empty, else the edit distance of the two lowercased strings.
pub open spec fn spec_edit_distance(term: Seq<char>, source: Seq<char>) -> nat {
    if term.len() == 0 {
        source.len()
    } else if source.len() == 0 {
        term.len()
    } else {
        edit_dist(lower_of(term), lower_of(source))
    }
}

/// The edit distance never exceeds the longer input's length.
pub proof fn lemma_edit_dist_bound(a: Seq<char>, b: Seq<char>)
    ensures
        a.len() <= b.len() ==> edit_dist(a, b) <= b.len(),
        b.len() <= a.len() ==> edit_dist(a, b) <= a.len(),
    decreases a.len() + b.len(),
{
    if a.len() == 0 || b.len() == 0 {
    } else {
        lemma_edit_dist_bound(a.drop_last(), b.drop_last());
        lemma_edit_dist_bound(a.drop_last(), b);
        lemma_edit_dist_bound(a, b.drop_last());
    }
}

/// A string is at distance zero from itself.
pub proof fn lemma_edit_dist_self(a: Seq<char>)
    ensures
        edit_dist(a, a) == 0,
    decreases a.len(),
{
    if a.len() > 0 {
        lemma_edit_dist_self(a.drop_last());
    }
}

/// The edit distance is symmetric in its two arguments.
pub proof fn lemma_edit_dist_symmetric(a: Seq<char>, b: Seq<char>)
    ensures
        edit_dist(a, b) == edit_dist(b, a),
    decreases a.len() + b.len(),
{
    if a.len() == 0 || b.len() == 0 {
    } else {
        lemma_edit_dist_symmetric(a.drop_last(), b.drop_last());
        lemma_edit_dist_symmetric(a.drop_last(), b);
        lemma_edit_dist_symmetric(a, b.drop_last());
    }
}

/// The reported distance is zero between any string and itself.
pub proof fn lemma_edit_distance_self(a: Seq<char>)
    ensures
        spec_edit_distance(a, a) == 0,
{
    if a.len() > 0 {
        lemma_edit_dist_self(lower_of(a));
    }
}

/// Against an empty string the reported distance is the other's length.
pub proof fn lemma_edit_distance_empty(a: Seq<char>)
    ensures
        spec_edit_distance(a, Seq::<char>::empty()) == a.len(),
        spec_edit_distance(Seq::<char>::empty(), a) == a.len(),
{
}

/// The reported distance is symmetric in its two arguments.
pub proof fn lemma_edit_distance_symmetric(a: Seq<char>, b: Seq<char>)
    ensures
        spec_edit_distance(a, b) == spec_edit_distance(b, a),
{
    if a.len() > 0 && b.len() > 0 {
        lemma_edit_dist_symmetric(lower_of(a), lower_of(b));
    }
}

proof fn lemma_take_step(a: Seq<char>, i: int)
    requires
        1 <= i <= a.len(),
    ensures
        a.take(i).drop_last() =~= a.take(i - 1),
        a.take(i).last() == a[i - 1],
        a.take(i).len() == i,
{
}

/// The edit distance of the two character vectors, by the rolling-row
/// dynamic programme.
pub fn edit_dist_chars(q: &Vec<char>, s: &Vec<char>) -> (d: usize)
    ensures
        d == edit_dist(q@, s@),
{
    let n = q.len();
    let m = s.len();
    let mut row: Vec<usize> = Vec::new();
    while row.len() <= n
        invariant
            n == q@.len(),
            row@.len() <= n + 1,
            forall|k: int| 0 <= k < row@.len() ==> row@[k] == k,
        decreases n + 1 - row@.len(),
    {
        let l = row.len();
        row.push(l);
    }
    proof {
        assert(s@.take(0) =~= Seq::<char>::empty());
        assert forall|k: int| 0 <= k <= n implies row@[k] == edit_dist(
            q@.take(k),
            s@.take(0),
        ) by {
            assert(q@.take(k).len() == k);
        }
    }

    let mut j: usize = 0;
    while j < m
        invariant
            n == q@.len(),
            m == s@.len(),
            row@.len() == n + 1,
            j <= m,
            forall|k: int| 0 <= k <= n ==> row@[k] == edit_dist(q@.take(k), s@.take(j as int)),
        decreases m - j,
    {
        j += 1;
        let mut prev = row[0];
        row[0] = j;
        proof {
            lemma_take_step(s@, j as int);
            assert(q@.take(0) =~= Seq::<char>::empty());
            assert(row@[0] == edit_dist(q@.take(0), s@.take(j as int)));
        }
        let mut i: usize = 0;
        while i < n
            invariant
                n == q@.len(),
                m == s@.len(),
                row@.len() == n + 1,
                1 <= j <= m,
                i <= n,
                prev == edit_dist(q@.take(i as int), s@.take(j - 1)),
                forall|k: int| 0 <= k <= i ==> row@[k] == edit_dist(q@.take(k), s@.take(j as int)),
                forall|k: int|
                    i < k <= n ==> row@[k] == edit_dist(q@.take(k), s@.take(j - 1)),
            decreases n - i,
        {
            i += 1;
            let cur = row[i];
            let qc = q[i - 1];
            let sc = s[j - 1];
            proof {
                lemma_take_step(q@, i as int);
                lemma_take_step(s@, j as int);
            }
            if qc == sc {
                row[i] = prev;
                proof {
                    assert(edit_dist(q@.take(i as int), s@.take(j as int)) == edit_dist(
                        q@.take(i - 1),
                        s@.take(j - 1),
                    ));
                }
            } else {
                let left = row[i - 1];
                let mut best = prev;
                if cur < best {
                    best = cur;
                }
                if left < best {
                    best = left;
                }
                proof {
                    lemma_edit_dist_bound(q@.take(i - 1), s@.take(j - 1));
                    assert(best + 1 == min3(
                        edit_dist(q@.take(i - 1), s@.take(j as int)),
                        edit_dist(q@.take(i as int), s@.take(j - 1)),
                        edit_dist(q@.take(i - 1), s@.take(j - 1)),
                    ) + 1);
                    assert(edit_dist(q@.take(i as int), s@.take(j as int)) == min3(
                        edit_dist(q@.take(i - 1), s@.take(j as int)),
                        edit_dist(q@.take(i as int), s@.take(j - 1)),
                        edit_dist(q@.take(i - 1), s@.take(j - 1)),
                    ) + 1);
                }
                row[i] = best + 1;
            }
            prev = cur;
        }
    }
    proof {
        assert(q@.take(n as int) =~= q@);
        assert(s@.take(m as int) =~= s@);
    }
    row[n]
}

/// The case-insensitive Levenshtein distance of the two strings, in
/// characters.
pub fn calculate_levenshtein_distance(search_term: &String, source: &String) -> (d: usize)
    ensures
        d == spec_edit_distance(search_term@, source@),
{
    let term_len = search_term.as_str().unicode_len();
    let source_len = source.as_str().unicode_len();
    if term_len == 0 {
        return source_len;
    }
    if source_len == 0 {
        return term_len;
    }
    let term_lower = lowercase(search_term.as_str());
    let source_lower = lowercase(source.as_str());
    if term_lower == source_lower {
        proof {
            lemma_edit_dist_self(lower_of(search_term@));
        }
        return 0;
    }
    let q = chars_of(term_lower.as_str());
    let s = chars_of(source_lower.as_str());
    edit_dist_chars(&q, &s)
}

} // verus!
