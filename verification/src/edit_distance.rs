//! Levenshtein edit distance between character sequences: the least number of
//! single-character insertions, deletions and substitutions turning one into
//! the other. The executable function fills the classic dynamic-programming
//! table row by row and is proved to compute exactly the recursive definition.

use vstd::prelude::*;

verus! {

/// The least of three naturals.
pub open spec fn min3(a: nat, b: nat, c: nat) -> nat {
    if a <= b && a <= c {
        a
    } else if b <= c {
        b
    } else {
        c
    }
}

/// Levenshtein edit distance, defined by recursion on the last characters.
pub open spec fn edit_dist(a: Seq<char>, b: Seq<char>) -> nat
    decreases a.len() + b.len(),
{
    if a.len() == 0 {
        b.len()
    } else if b.len() == 0 {
        a.len()
    } else {
        let del = edit_dist(a.drop_last(), b) + 1;
        let ins = edit_dist(a, b.drop_last()) + 1;
        let sub = edit_dist(a.drop_last(), b.drop_last()) + (if a.last() == b.last() {
            0nat
        } else {
            1nat
        });
        min3(del, ins, sub)
    }
}

/// The distance never exceeds the two lengths together.
pub proof fn lemma_edit_dist_le(a: Seq<char>, b: Seq<char>)
    ensures
        edit_dist(a, b) <= a.len() + b.len(),
    decreases a.len() + b.len(),
{
    if a.len() == 0 {
    } else if b.len() == 0 {
    } else {
        lemma_edit_dist_le(a.drop_last(), b);
        lemma_edit_dist_le(a, b.drop_last());
        lemma_edit_dist_le(a.drop_last(), b.drop_last());
    }
}

/// Computes the edit distance between two character vectors.
pub fn edit_distance(a: &Vec<char>, b: &Vec<char>) -> (d: usize)
    requires
        a@.len() + b@.len() < usize::MAX,
    ensures
        d == edit_dist(a@, b@),
{
    let m = a.len();
    let n = b.len();
    let mut prev: Vec<usize> = Vec::new();
    let mut j0: usize = 0;
    while j0 <= n
        invariant
            j0 <= n + 1,
            n == b@.len(),
            m + n < usize::MAX,
            prev@.len() == j0,
            forall|j: int| 0 <= j < j0 ==> prev@[j] == edit_dist(Seq::empty(), b@.subrange(0, j)),
        decreases n + 1 - j0,
    {
        proof {
            assert(b@.subrange(0, j0 as int).len() == j0);
        }
        prev.push(j0);
        j0 = j0 + 1;
    }
    let mut i: usize = 1;
    while i <= m
        invariant
            1 <= i <= m + 1,
            m == a@.len(),
            n == b@.len(),
            m + n < usize::MAX,
            prev@.len() == n + 1,
            forall|j: int| 0 <= j <= n ==> prev@[j] == edit_dist(
                a@.subrange(0, i - 1),
                b@.subrange(0, j),
            ),
        decreases m + 1 - i,
    {
        let mut cur: Vec<usize> = Vec::new();
        proof {
            assert(a@.subrange(0, i as int).len() == i);
            lemma_edit_dist_le(a@.subrange(0, i as int), Seq::empty());
        }
        cur.push(i);
        proof {
            assert(b@.subrange(0, 0) =~= Seq::<char>::empty());
            assert(edit_dist(a@.subrange(0, i as int), b@.subrange(0, 0)) == i);
        }
        let mut j: usize = 1;
        while j <= n
            invariant
                1 <= i <= m,
                1 <= j <= n + 1,
                m == a@.len(),
                n == b@.len(),
                m + n < usize::MAX,
                prev@.len() == n + 1,
                forall|jj: int| 0 <= jj <= n ==> prev@[jj] == edit_dist(
                    a@.subrange(0, i - 1),
                    b@.subrange(0, jj),
                ),
                cur@.len() == j,
                forall|jj: int| 0 <= jj < j ==> cur@[jj] == edit_dist(
                    a@.subrange(0, i as int),
                    b@.subrange(0, jj),
                ),
            decreases n + 1 - j,
        {
            let ghost ai = a@.subrange(0, i as int);
            let ghost bj = b@.subrange(0, j as int);
            proof {
                assert(ai.drop_last() =~= a@.subrange(0, i - 1));
                assert(bj.drop_last() =~= b@.subrange(0, j - 1));
                assert(ai.last() == a@[i - 1]);
                assert(bj.last() == b@[j - 1]);
                lemma_edit_dist_le(ai.drop_last(), bj);
                lemma_edit_dist_le(ai, bj.drop_last());
                lemma_edit_dist_le(ai.drop_last(), bj.drop_last());
            }
            let del = prev[j] + 1;
            let ins = cur[j - 1] + 1;
            let mut sub = prev[j - 1];
            if a[i - 1] != b[j - 1] {
                sub = sub + 1;
            }
            let mut best = del;
            if ins < best {
                best = ins;
            }
            if sub < best {
                best = sub;
            }
            proof {
                assert(best == edit_dist(ai, bj));
            }
            cur.push(best);
            j = j + 1;
        }
        prev = cur;
        i = i + 1;
    }
    proof {
        assert(a@.subrange(0, m as int) =~= a@);
        assert(b@.subrange(0, n as int) =~= b@);
    }
    prev[n]
}

} // verus!
