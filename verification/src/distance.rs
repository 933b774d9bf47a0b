//! Edit distance between two texts: the least number of single-character
//! insertions, deletions and substitutions that turns one into the other.

use vstd::prelude::*;

verus! {

/// The smaller of two numbers.
pub open spec fn min2(x: nat, y: nat) -> nat {
    if x <= y {
        x
    } else {
        y
    }
}

/// The smallest of three numbers.
pub open spec fn min3(x: nat, y: nat, z: nat) -> nat {
    min2(min2(x, y), z)
}

/// What it costs to put `y` where `x` stands.
pub open spec fn substitution_cost(x: char, y: char) -> nat {
    if x == y {
        0
    } else {
        1
    }
}

/// The edit distance between the first `i` characters of `a` and the first
/// `j` characters of `b`.
pub open spec fn prefix_distance(a: Seq<char>, b: Seq<char>, i: nat, j: nat) -> nat
    decreases i + j,
{
    if i == 0 {
        j
    } else if j == 0 {
        i
    } else {
        min3(
            prefix_distance(a, b, (i - 1) as nat, j) + 1,
            prefix_distance(a, b, i, (j - 1) as nat) + 1,
            prefix_distance(a, b, (i - 1) as nat, (j - 1) as nat) + substitution_cost(
                a[i - 1],
                b[j - 1],
            ),
        )
    }
}

/// The edit distance between `a` and `b`, each edit at unit cost.
pub open spec fn edit_distance(a: Seq<char>, b: Seq<char>) -> nat {
    prefix_distance(a, b, a.len(), b.len())
}

/// The distance is never more than the longer of the two lengths.
pub proof fn lemma_distance_at_most_longer(a: Seq<char>, b: Seq<char>, i: nat, j: nat)
    ensures
        prefix_distance(a, b, i, j) <= if i >= j {
            i
        } else {
            j
        },
    decreases i + j,
{
    if i > 0 && j > 0 {
        lemma_distance_at_most_longer(a, b, (i - 1) as nat, (j - 1) as nat);
    }
}

/// The distance is never less than the difference of the two lengths.
pub proof fn lemma_distance_at_least_gap(a: Seq<char>, b: Seq<char>, i: nat, j: nat)
    ensures
        prefix_distance(a, b, i, j) >= i - j,
        prefix_distance(a, b, i, j) >= j - i,
    decreases i + j,
{
    if i > 0 && j > 0 {
        lemma_distance_at_least_gap(a, b, (i - 1) as nat, j);
        lemma_distance_at_least_gap(a, b, i, (j - 1) as nat);
        lemma_distance_at_least_gap(a, b, (i - 1) as nat, (j - 1) as nat);
    }
}

/// Equal prefixes are at distance 0, and only they.
pub proof fn lemma_distance_zero(a: Seq<char>, b: Seq<char>, i: nat, j: nat)
    requires
        i <= a.len(),
        j <= b.len(),
    ensures
        prefix_distance(a, b, i, j) == 0 <==> a.subrange(0, i as int) == b.subrange(0, j as int),
    decreases i + j,
{
    if i == 0 || j == 0 {
        if i == 0 && j == 0 {
            assert(a.subrange(0, 0) =~= b.subrange(0, 0));
        } else {
            assert(a.subrange(0, i as int).len() != b.subrange(0, j as int).len());
        }
    } else {
        lemma_distance_zero(a, b, (i - 1) as nat, (j - 1) as nat);
        let x = a.subrange(0, i as int);
        let y = b.subrange(0, j as int);
        if prefix_distance(a, b, i, j) == 0 {
            assert(x =~= a.subrange(0, i - 1).push(a[i - 1]));
            assert(y =~= b.subrange(0, j - 1).push(b[j - 1]));
        }
        if x == y {
            assert(i == j) by {
                assert(x.len() == i && y.len() == j);
            }
            assert(a[i - 1] == x[i - 1]);
            assert(b[j - 1] == y[j - 1]);
            assert(a.subrange(0, i - 1) =~= x.subrange(0, i - 1));
            assert(b.subrange(0, j - 1) =~= y.subrange(0, j - 1));
        }
    }
}

/// Two texts are at distance 0 exactly when they are the same text.
pub proof fn lemma_distance_zero_iff_equal(a: Seq<char>, b: Seq<char>)
    ensures
        edit_distance(a, b) == 0 <==> a == b,
{
    lemma_distance_zero(a, b, a.len(), b.len());
    assert(a.subrange(0, a.len() as int) =~= a);
    assert(b.subrange(0, b.len() as int) =~= b);
}

/// Computes the edit distance between `a` and `b` by filling the table of
/// prefix distances row by row, keeping one row.
pub fn distance(a: &Vec<char>, b: &Vec<char>) -> (d: usize)
    ensures
        d == edit_distance(a@, b@),
{
    let n = a.len();
    let m = b.len();
    // row[j - 1] holds the distance between a[..i] and b[..j], for 1 <= j <= m.
    let mut row: Vec<usize> = Vec::new();
    let mut j: usize = 0;
    while j < m
        invariant
            j <= m,
            m == b@.len(),
            row@.len() == j,
            forall|k: int| 0 <= k < j ==> row@[k] == prefix_distance(a@, b@, 0, (k + 1) as nat),
        decreases m - j,
    {
        row.push(j + 1);
        j = j + 1;
    }
    if m == 0 {
        return n;
    }
    let mut i: usize = 0;
    while i < n
        invariant
            i <= n,
            n == a@.len(),
            m == b@.len(),
            m > 0,
            row@.len() == m,
            forall|k: int| 0 <= k < m ==> row@[k] == prefix_distance(a@, b@, i as nat, (k + 1) as nat),
        decreases n - i,
    {
        let mut diagonal: usize = i;
        let mut left: usize = i + 1;
        let mut j: usize = 0;
        while j < m
            invariant
                i < n,
                n == a@.len(),
                m == b@.len(),
                j <= m,
                row@.len() == m,
                diagonal == prefix_distance(a@, b@, i as nat, j as nat),
                left == prefix_distance(a@, b@, (i + 1) as nat, j as nat),
                forall|k: int| 0 <= k < j ==> row@[k] == prefix_distance(a@, b@, (i + 1) as nat, (k + 1) as nat),
                forall|k: int| j <= k < m ==> row@[k] == prefix_distance(a@, b@, i as nat, (k + 1) as nat),
            decreases m - j,
        {
            let up: usize = row[j];
            proof {
                lemma_distance_at_most_longer(a@, b@, i as nat, j as nat);
                lemma_distance_at_most_longer(a@, b@, (i + 1) as nat, (j + 1) as nat);
            }
            let replace: usize = if a[i] == b[j] {
                diagonal
            } else {
                diagonal + 1
            };
            let mut best: usize = replace;
            if up < best {
                best = up + 1;
            }
            if left < best {
                best = left + 1;
            }
            assert(best == prefix_distance(a@, b@, (i + 1) as nat, (j + 1) as nat));
            diagonal = up;
            left = best;
            row.set(j, best);
            j = j + 1;
        }
        i = i + 1;
    }
    row[m - 1]
}

/// The edit distance between `a` and `b` if it is at most `limit`.
pub fn distance_within(a: &Vec<char>, b: &Vec<char>, limit: usize) -> (d: Option<usize>)
    ensures
        d == if edit_distance(a@, b@) <= limit {
            Some(edit_distance(a@, b@) as usize)
        } else {
            None
        },
{
    proof {
        lemma_distance_at_least_gap(a@, b@, a@.len(), b@.len());
        lemma_distance_at_most_longer(a@, b@, a@.len(), b@.len());
    }
    let n = a.len();
    let m = b.len();
    if (n >= m && n - m > limit) || (m > n && m - n > limit) {
        return None;
    }
    let d = distance(a, b);
    if d <= limit {
        Some(d)
    } else {
        None
    }
}

} // verus!
