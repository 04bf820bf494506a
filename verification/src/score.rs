//! Tiered relevance scoring of an entry name against a search query: exact
//! match, substring, prefix, then a bounded edit-distance fallback. Lower
//! scores are more relevant; `None` means the name is no acceptable match.

use vstd::prelude::*;
use vstd::string::StrSliceExecFns;
use crate::edit::{
    distance_chars, edit_dist, lemma_edit_dist_nonneg, to_chars,
};

verus! {

/// The lowercase form of a string, as produced by Unicode case folding.
pub uninterp spec fn lower_of(s: Seq<char>) -> Seq<char>;

/// Relies on str::to_lowercase: the lowercase equivalent of the string,
/// a function of its characters alone.
#[verifier::external_body]
fn lowercase(s: &str) -> (r: String)
    ensures
        r@ == lower_of(s@),
{
    s.to_lowercase()
}

/// `q` occurs in `n` starting at position `i`.
pub open spec fn contains_at(n: Seq<char>, q: Seq<char>, i: int) -> bool {
    0 <= i && i + q.len() <= n.len() && n.subrange(i, i + q.len()) == q
}

/// `q` occurs somewhere in `n` as a contiguous run of characters.
pub open spec fn seq_contains(n: Seq<char>, q: Seq<char>) -> bool {
    exists|i: int| contains_at(n, q, i)
}

/// How many edits the fallback tier tolerates: half the query length,
/// with a floor of two so that very short queries do not match everything.
pub open spec fn threshold_of(q: Seq<char>) -> int {
    q.len() as int / 2 + 2
}

/// The tier cascade over already-lowercased character sequences: the first
/// tier that matches wins. An empty query matches everything with score 0.
pub open spec fn spec_score(n: Seq<char>, q: Seq<char>) -> Option<int> {
    if q.len() == 0 {
        Some(0int)
    } else if n == q {
        Some(0int)
    } else if seq_contains(n, q) {
        Some(1int)
    } else if q.is_prefix_of(n) {
        Some(2int)
    } else if edit_dist(n, q) <= threshold_of(q) {
        Some(3 + edit_dist(n, q))
    } else {
        None
    }
}

/// Equality of two character windows: `q` against `n` at offset `i`.
fn match_at(n: &Vec<char>, q: &Vec<char>, i: usize) -> (r: bool)
    requires
        i + q@.len() <= n@.len(),
    ensures
        r == contains_at(n@, q@, i as int),
{
    let n_len = n.len();
    let mut k: usize = 0;
    while k < q.len()
        invariant
            n_len == n@.len(),
            i + q@.len() <= n@.len(),
            k <= q@.len(),
            forall|m: int| 0 <= m < k ==> n@[i + m] == q@[m],
        decreases q@.len() - k,
    {
        if n[i + k] != q[k] {
            proof {
                assert(n@.subrange(i as int, i + q@.len())[k as int] == n@[i + k]);
            }
            return false;
        }
        k = k + 1;
    }
    proof {
        assert(n@.subrange(i as int, i + q@.len()) =~= q@);
    }
    true
}

/// Whether `q` occurs in `n` as a contiguous run of characters.
fn contains_chars(n: &Vec<char>, q: &Vec<char>) -> (r: bool)
    ensures
        r == seq_contains(n@, q@),
{
    if q.len() == 0 {
        proof {
            assert(n@.subrange(0, 0) =~= q@);
            assert(contains_at(n@, q@, 0));
        }
        return true;
    }
    if q.len() > n.len() {
        return false;
    }
    let last = n.len() - q.len();
    let mut i: usize = 0;
    while i <= last
        invariant
            1 <= q@.len() <= n@.len(),
            n@.len() <= usize::MAX,
            last == n@.len() - q@.len(),
            i <= last + 1,
            forall|m: int| 0 <= m < i ==> !contains_at(n@, q@, m),
        decreases last - i + 1,
    {
        if match_at(n, q, i) {
            return true;
        }
        i = i + 1;
    }
    false
}

/// Whether `n` starts with `q`.
fn prefix_chars(n: &Vec<char>, q: &Vec<char>) -> (r: bool)
    ensures
        r == q@.is_prefix_of(n@),
{
    if q.len() > n.len() {
        return false;
    }
    let r = match_at(n, q, 0);
    proof {
        if contains_at(n@, q@, 0) {
            assert(q@ =~= n@.subrange(0, q@.len() as int));
        }
        if q@.is_prefix_of(n@) {
            assert(n@.subrange(0, q@.len() as int) =~= q@);
        }
    }
    r
}

/// Character-by-character equality of two vectors.
fn eq_chars(a: &Vec<char>, b: &Vec<char>) -> (r: bool)
    ensures
        r == (a@ == b@),
{
    if a.len() != b.len() {
        return false;
    }
    let mut i: usize = 0;
    while i < a.len()
        invariant
            a@.len() == b@.len(),
            i <= a@.len(),
            forall|k: int| 0 <= k < i ==> a@[k] == b@[k],
        decreases a@.len() - i,
    {
        if a[i] != b[i] {
            return false;
        }
        i = i + 1;
    }
    proof {
        assert(a@ =~= b@);
    }
    true
}

/// The tier cascade on strings that are already lowercased: `Some(score)`
/// for a match, `None` when no tier accepts the name.
pub fn score_folded(name: &str, query: &str) -> (r: Option<usize>)
    ensures
        (match r {
            Some(v) => spec_score(name@, query@) == Some(v as int),
            None => spec_score(name@, query@) is None,
        }),
{
    let n = to_chars(name);
    let q = to_chars(query);
    if q.len() == 0 {
        return Some(0);
    }
    if eq_chars(&n, &q) {
        return Some(0);
    }
    if contains_chars(&n, &q) {
        return Some(1);
    }
    if prefix_chars(&n, &q) {
        return Some(2);
    }
    let d = distance_chars(&n, &q);
    let threshold = q.len() / 2 + 2;
    if d <= threshold {
        Some(3 + d)
    } else {
        None
    }
}

/// The relevance of a raw (not yet lowercased) name under an optional query:
/// an absent or empty query scores everything 0, otherwise both sides are
/// lowercased and run through the tier cascade.
pub open spec fn spec_relevance(name: Seq<char>, q: Option<Seq<char>>) -> Option<int> {
    match q {
        Some(qs) => if qs.len() > 0 {
            spec_score(lower_of(name), lower_of(qs))
        } else {
            Some(0int)
        },
        None => Some(0int),
    }
}

/// The view of an optional query string.
pub open spec fn query_view(sq: Option<&str>) -> Option<Seq<char>> {
    match sq {
        Some(q) => Some(q@),
        None => None,
    }
}

/// Relevance of a name under an optional query, case-insensitively:
/// `Some(score)` for a match, `None` when no tier accepts the name.
pub fn score(name: &str, search_query: Option<&str>) -> (r: Option<usize>)
    ensures
        (match r {
            Some(v) => spec_relevance(name@, query_view(search_query)) == Some(v as int),
            None => spec_relevance(name@, query_view(search_query)) is None,
        }),
{
    match search_query {
        Some(query) => {
            if !query.is_empty() {
                let name_lower = lowercase(name);
                let query_lower = lowercase(query);
                score_folded(name_lower.as_str(), query_lower.as_str())
            } else {
                Some(0)
            }
        },
        None => Some(0),
    }
}

/// A name equal to the query scores 0, whatever the fallback distance
/// would have been.
pub proof fn lemma_score_exact(n: Seq<char>, q: Seq<char>)
    requires
        n == q,
    ensures
        spec_score(n, q) == Some(0int),
{
}

/// A name that equals a live query after case folding has relevance 0,
/// whatever the fallback distance would have been.
pub proof fn lemma_relevance_exact_case_insensitive(name: Seq<char>, q: Seq<char>)
    requires
        lower_of(name) == lower_of(q),
    ensures
        spec_relevance(name, Some(q)) == Some(0int),
{
    if q.len() > 0 {
        lemma_score_exact(lower_of(name), lower_of(q));
    }
}

/// A name that contains the query but is not equal to it scores 1.
pub proof fn lemma_score_substring(n: Seq<char>, q: Seq<char>)
    requires
        q.len() > 0,
        n != q,
        seq_contains(n, q),
    ensures
        spec_score(n, q) == Some(1int),
{
}

/// A prefix of a string is also a substring of it.
pub proof fn lemma_prefix_implies_contains(n: Seq<char>, q: Seq<char>)
    requires
        q.is_prefix_of(n),
    ensures
        seq_contains(n, q),
{
    assert(n.subrange(0, q.len() as int) =~= q);
    assert(contains_at(n, q, 0));
}

/// The prefix tier fires only when the exact and substring tiers do not —
/// and since every prefix is also a substring, it never fires at all.
pub proof fn lemma_score_prefix(n: Seq<char>, q: Seq<char>)
    ensures
        spec_score(n, q) == Some(2int) ==> n != q && !seq_contains(n, q),
        spec_score(n, q) != Some(2int),
{
    lemma_edit_dist_nonneg(n, q);
    if q.len() > 0 && n != q && !seq_contains(n, q) && q.is_prefix_of(n) {
        lemma_prefix_implies_contains(n, q);
    }
}

/// A name is no match exactly when no direct tier accepts it and its edit
/// distance from the query exceeds the tolerated threshold.
pub proof fn lemma_score_no_match(n: Seq<char>, q: Seq<char>)
    ensures
        spec_score(n, q) is None <==> (q.len() > 0 && n != q && !seq_contains(n, q)
            && edit_dist(n, q) > threshold_of(q)),
{
    if q.len() > 0 && n != q && !seq_contains(n, q) && q.is_prefix_of(n) {
        lemma_prefix_implies_contains(n, q);
    }
}

} // verus!
