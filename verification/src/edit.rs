//! Levenshtein edit distance over Unicode code points, computed with a single
//! rolling vector of length `len(a)` instead of a full matrix.

use vstd::prelude::*;
use vstd::string::StrSliceExecFns;

verus! {

/// Minimum of three integers.
pub open spec fn min3(x: int, y: int, z: int) -> int {
    if x <= y && x <= z {
        x
    } else if y <= z {
        y
    } else {
        z
    }
}

/// Levenshtein edit distance between two character sequences: the least
/// number of single-character insertions, deletions and substitutions that
/// turn `a` into `b`.
pub open spec fn edit_dist(a: Seq<char>, b: Seq<char>) -> int
    decreases a.len() + b.len(),
{
    if a.len() == 0 {
        b.len() as int
    } else if b.len() == 0 {
        a.len() as int
    } else {
        let cost: int = if a.last() == b.last() {
            0
        } else {
            1
        };
        min3(
            edit_dist(a.drop_last(), b) + 1,
            edit_dist(a, b.drop_last()) + 1,
            edit_dist(a.drop_last(), b.drop_last()) + cost,
        )
    }
}

/// A string is at edit distance zero from itself.
pub proof fn lemma_edit_dist_self(a: Seq<char>)
    ensures
        edit_dist(a, a) == 0,
    decreases a.len(),
{
    if a.len() > 0 {
        lemma_edit_dist_self(a.drop_last());
        lemma_edit_dist_nonneg(a.drop_last(), a);
        lemma_edit_dist_nonneg(a, a.drop_last());
    }
}

/// Edit distance is symmetric in its two arguments.
pub proof fn lemma_edit_dist_sym(a: Seq<char>, b: Seq<char>)
    ensures
        edit_dist(a, b) == edit_dist(b, a),
    decreases a.len() + b.len(),
{
    if a.len() > 0 && b.len() > 0 {
        lemma_edit_dist_sym(a.drop_last(), b);
        lemma_edit_dist_sym(a, b.drop_last());
        lemma_edit_dist_sym(a.drop_last(), b.drop_last());
    }
}

/// Against the empty string, the edit distance is the other string's length.
pub proof fn lemma_edit_dist_empty(a: Seq<char>, b: Seq<char>)
    ensures
        edit_dist(Seq::<char>::empty(), b) == b.len(),
        edit_dist(a, Seq::<char>::empty()) == a.len(),
{
}

/// Edit distance is never negative.
pub proof fn lemma_edit_dist_nonneg(a: Seq<char>, b: Seq<char>)
    ensures
        edit_dist(a, b) >= 0,
    decreases a.len() + b.len(),
{
    if a.len() > 0 && b.len() > 0 {
        lemma_edit_dist_nonneg(a.drop_last(), b);
        lemma_edit_dist_nonneg(a, b.drop_last());
        lemma_edit_dist_nonneg(a.drop_last(), b.drop_last());
    }
}

/// Edit distance never exceeds the longer string's length.
pub proof fn lemma_edit_dist_le_max(a: Seq<char>, b: Seq<char>)
    ensures
        edit_dist(a, b) <= if a.len() <= b.len() {
            b.len() as int
        } else {
            a.len() as int
        },
    decreases a.len() + b.len(),
{
    if a.len() > 0 && b.len() > 0 {
        lemma_edit_dist_le_max(a.drop_last(), b.drop_last());
    }
}

/// The dynamic-programming recurrence on prefixes: extending both prefixes by
/// one character takes the minimum of a deletion, an insertion, and a
/// substitution (free when the new characters agree).
proof fn lemma_edit_dist_step(a: Seq<char>, b: Seq<char>, i: int, j: int)
    requires
        0 <= i < a.len(),
        0 <= j < b.len(),
    ensures
        edit_dist(a.take(i + 1), b.take(j + 1)) == min3(
            edit_dist(a.take(i), b.take(j + 1)) + 1,
            edit_dist(a.take(i + 1), b.take(j)) + 1,
            edit_dist(a.take(i), b.take(j)) + if a[i] == b[j] {
                0int
            } else {
                1int
            },
        ),
{
    assert(a.take(i + 1).drop_last() =~= a.take(i));
    assert(b.take(j + 1).drop_last() =~= b.take(j));
    assert(a.take(i + 1).last() == a[i]);
    assert(b.take(j + 1).last() == b[j]);
}

/// Collects the characters of a string slice into a vector.
pub fn to_chars(s: &str) -> (r: Vec<char>)
    ensures
        r@ == s@,
{
    let n = s.unicode_len();
    let mut r: Vec<char> = Vec::new();
    let mut i: usize = 0;
    while i < n
        invariant
            n == s@.len(),
            i <= n,
            r@ == s@.take(i as int),
        decreases n - i,
    {
        let c = s.get_char(i);
        r.push(c);
        proof {
            assert(s@.take(i + 1) =~= s@.take(i as int).push(s@[i as int]));
        }
        i = i + 1;
    }
    proof {
        assert(s@.take(n as int) =~= s@);
    }
    r
}

/// Character-by-character equality of two vectors.
fn chars_equal(a: &Vec<char>, b: &Vec<char>) -> (r: bool)
    ensures
        r == (a@ == b@),
{
    if a.len() != b.len() {
        return false;
    }
    let mut i: usize = 0;
    while i < a.len()
        invariant
            a@.len() == b@.len(),
            i <= a@.len(),
            forall|k: int| 0 <= k < i ==> a@[k] == b@[k],
        decreases a@.len() - i,
    {
        if a[i] != b[i] {
            return false;
        }
        i = i + 1;
    }
    proof {
        assert(a@ =~= b@);
    }
    true
}

/// Levenshtein distance between the character sequences of two vectors,
/// computed with one rolling vector: `cache[k]` always holds the distance
/// between the first `k + 1` characters of `a` and the prefix of `b`
/// processed so far.
pub fn distance_chars(a: &Vec<char>, b: &Vec<char>) -> (d: usize)
    ensures
        d == edit_dist(a@, b@),
{
    // Shortcut optimizations / degenerate cases.
    if chars_equal(a, b) {
        proof {
            lemma_edit_dist_self(a@);
        }
        return 0;
    }

    let length_a = a.len();
    let length_b = b.len();

    if length_a == 0 {
        return length_b;
    }
    if length_b == 0 {
        return length_a;
    }

    let mut cache: Vec<usize> = Vec::new();
    let mut k: usize = 0;
    while k < length_a
        invariant
            length_a == a@.len(),
            k <= length_a,
            cache@.len() == k,
            forall|m: int| 0 <= m < k ==> cache@[m] == m + 1,
        decreases length_a - k,
    {
        cache.push(k + 1);
        k = k + 1;
    }

    proof {
        assert forall|m: int| 0 <= m < length_a implies cache@[m] == edit_dist(
            a@.take(m + 1),
            b@.take(0),
        ) by {
            assert(b@.take(0) =~= Seq::<char>::empty());
            assert(a@.take(m + 1).len() == m + 1);
        }
    }

    let mut result: usize = 0;
    let mut index_b: usize = 0;
    while index_b < length_b
        invariant
            length_a == a@.len(),
            length_b == b@.len(),
            1 <= length_a,
            1 <= length_b,
            index_b <= length_b,
            cache@.len() == length_a,
            forall|m: int|
                0 <= m < length_a ==> cache@[m] == edit_dist(a@.take(m + 1), b@.take(index_b as int)),
            index_b > 0 ==> result == edit_dist(a@, b@.take(index_b as int)),
        decreases length_b - index_b,
    {
        let code_b = b[index_b];
        result = index_b;
        let mut distance_a = index_b;

        proof {
            assert(a@.take(0) =~= Seq::<char>::empty());
            assert(b@.take(index_b as int).len() == index_b);
        }

        let mut index_a: usize = 0;
        while index_a < length_a
            invariant
                length_a == a@.len(),
                length_b == b@.len(),
                1 <= length_a,
                index_b < length_b,
                index_a <= length_a,
                cache@.len() == length_a,
                code_b == b@[index_b as int],
                forall|m: int|
                    0 <= m < index_a ==> cache@[m] == edit_dist(
                        a@.take(m + 1),
                        b@.take(index_b + 1),
                    ),
                forall|m: int|
                    index_a <= m < length_a ==> cache@[m] == edit_dist(
                        a@.take(m + 1),
                        b@.take(index_b as int),
                    ),
                distance_a == edit_dist(a@.take(index_a as int), b@.take(index_b as int)),
                index_a == 0 ==> result == index_b,
                index_a > 0 ==> result == edit_dist(a@.take(index_a as int), b@.take(index_b + 1)),
            decreases length_a - index_a,
        {
            let ghost prev_sub = distance_a as int;
            let ghost prev_result = result as int;

            proof {
                lemma_edit_dist_le_max(a@.take(index_a as int), b@.take(index_b as int));
                lemma_edit_dist_nonneg(a@.take(index_a as int), b@.take(index_b as int));
                assert(a@.take(index_a as int).len() == index_a);
                assert(b@.take(index_b as int).len() == index_b);
            }

            let code_a = a[index_a];
            let distance_b = if code_a == code_b {
                distance_a
            } else {
                distance_a + 1
            };

            distance_a = cache[index_a];

            result = if distance_a > result {
                if distance_b > result {
                    result + 1
                } else {
                    distance_b
                }
            } else if distance_b > distance_a {
                distance_a + 1
            } else {
                distance_b
            };

            proof {
                let i = index_a as int;
                let j = index_b as int;
                lemma_edit_dist_step(a@, b@, i, j);
                let cost: int = if a@[i] == b@[j] {
                    0int
                } else {
                    1int
                };
                assert(distance_b == prev_sub + cost);
                assert(result == min3(distance_a + 1, prev_result + 1, distance_b as int));
                if index_a == 0 {
                    // The row starts one below the true value of the
                    // insertion cell, which cannot matter: the substitution
                    // term is already at most that cell's value.
                    assert(edit_dist(a@.take(0), b@.take(j)) == j);
                    assert(edit_dist(a@.take(0), b@.take(j + 1)) == j + 1);
                    assert(distance_b <= j + 1);
                    assert(result == min3(distance_a + 1, j + 2, distance_b as int));
                }
                assert(result == edit_dist(a@.take(i + 1), b@.take(j + 1)));
            }

            cache[index_a] = result;
            index_a = index_a + 1;
        }

        proof {
            assert(a@.take(length_a as int) =~= a@);
        }
        index_b = index_b + 1;
    }

    proof {
        assert(b@.take(length_b as int) =~= b@);
    }
    result
}

/// Levenshtein edit distance between two strings, over Unicode code points.
pub fn distance(a: &str, b: &str) -> (d: usize)
    ensures
        d == edit_dist(a@, b@),
{
    let ac = to_chars(a);
    let bc = to_chars(b);
    distance_chars(&ac, &bc)
}

} // verus!
