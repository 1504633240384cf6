use vstd::prelude::*;

verus! {

/// Minimum of three natural numbers.
pub open spec fn min3(a: nat, b: nat, c: nat) -> nat {
    if a <= b && a <= c {
        a
    } else if b <= c {
        b
    } else {
        c
    }
}

/// The edit distance between two character sequences: the least number of
/// single-character insertions, deletions and substitutions that transforms
/// one into the other, defined by the classic recurrence on last characters.
pub open spec fn edit_dist(a: Seq<char>, b: Seq<char>) -> nat
    decreases a.len() + b.len(),
{
    if a.len() == 0 {
        b.len()
    } else if b.len() == 0 {
        a.len()
    } else {
        let del = edit_dist(a.drop_last(), b) + 1;
        let ins = edit_dist(a, b.drop_last()) + 1;
        let sub = edit_dist(a.drop_last(), b.drop_last()) + (if a.last() == b.last() {
            0nat
        } else {
            1nat
        });
        min3(del, ins, sub)
    }
}

/// The distance never exceeds the length of the longer string: substituting
/// position by position and then inserting or deleting the overhang suffices.
pub proof fn lemma_edit_dist_le_max(a: Seq<char>, b: Seq<char>)
    ensures
        edit_dist(a, b) <= a.len() || edit_dist(a, b) <= b.len(),
        edit_dist(a, b) <= a.len() + b.len(),
    decreases a.len() + b.len(),
{
    if a.len() == 0 || b.len() == 0 {
    } else {
        lemma_edit_dist_le_max(a.drop_last(), b.drop_last());
    }
}

/// The distance is at least the difference of the lengths: each operation
/// changes the length by at most one.
pub proof fn lemma_edit_dist_ge_len_diff(a: Seq<char>, b: Seq<char>)
    ensures
        edit_dist(a, b) + a.len() >= b.len(),
        edit_dist(a, b) + b.len() >= a.len(),
    decreases a.len() + b.len(),
{
    if a.len() == 0 || b.len() == 0 {
    } else {
        lemma_edit_dist_ge_len_diff(a.drop_last(), b);
        lemma_edit_dist_ge_len_diff(a, b.drop_last());
        lemma_edit_dist_ge_len_diff(a.drop_last(), b.drop_last());
    }
}

/// A string is at distance zero from itself.
pub proof fn lemma_edit_dist_self(a: Seq<char>)
    ensures
        edit_dist(a, a) == 0,
    decreases a.len(),
{
    if a.len() > 0 {
        lemma_edit_dist_self(a.drop_last());
    }
}

/// The distance is zero exactly for equal strings.
pub proof fn lemma_edit_dist_zero(a: Seq<char>, b: Seq<char>)
    ensures
        edit_dist(a, b) == 0 <==> a == b,
    decreases a.len() + b.len(),
{
    if a == b {
        lemma_edit_dist_self(a);
    } else if a.len() == 0 || b.len() == 0 {
        if a.len() == 0 && b.len() == 0 {
            assert(a =~= b);
        }
    } else {
        if edit_dist(a, b) == 0 {
            let del = edit_dist(a.drop_last(), b) + 1;
            let ins = edit_dist(a, b.drop_last()) + 1;
            let sub = edit_dist(a.drop_last(), b.drop_last()) + (if a.last() == b.last() {
                0nat
            } else {
                1nat
            });
            assert(min3(del, ins, sub) == 0);
            assert(sub == 0);
            assert(a.last() == b.last());
            lemma_edit_dist_zero(a.drop_last(), b.drop_last());
            assert(a.drop_last() == b.drop_last());
            assert(a =~= a.drop_last().push(a.last()));
            assert(b =~= b.drop_last().push(b.last()));
            assert(a == b);
        }
    }
}

/// The distance is symmetric: insertions and deletions exchange roles.
pub proof fn lemma_edit_dist_symmetric(a: Seq<char>, b: Seq<char>)
    ensures
        edit_dist(a, b) == edit_dist(b, a),
    decreases a.len() + b.len(),
{
    if a.len() == 0 || b.len() == 0 {
    } else {
        lemma_edit_dist_symmetric(a.drop_last(), b);
        lemma_edit_dist_symmetric(a, b.drop_last());
        lemma_edit_dist_symmetric(a.drop_last(), b.drop_last());
    }
}

/// The triangle inequality: editing through an intermediate string is never
/// cheaper than editing directly.
pub proof fn lemma_edit_dist_triangle(a: Seq<char>, b: Seq<char>, c: Seq<char>)
    ensures
        edit_dist(a, c) <= edit_dist(a, b) + edit_dist(b, c),
    decreases a.len() + b.len() + c.len(),
{
    if b.len() == 0 {
        lemma_edit_dist_le_max(a, c);
    } else if a.len() == 0 {
        lemma_edit_dist_ge_len_diff(b, c);
    } else if c.len() == 0 {
        lemma_edit_dist_ge_len_diff(a, b);
    } else {
        let ab = edit_dist(a, b);
        let bc = edit_dist(b, c);
        if ab == edit_dist(a.drop_last(), b) + 1 {
            lemma_edit_dist_triangle(a.drop_last(), b, c);
        } else if bc == edit_dist(b, c.drop_last()) + 1 {
            lemma_edit_dist_triangle(a, b, c.drop_last());
        } else if ab == edit_dist(a, b.drop_last()) + 1 && bc == edit_dist(b.drop_last(), c)
            + 1 {
            lemma_edit_dist_triangle(a, b.drop_last(), c);
        } else if ab == edit_dist(a, b.drop_last()) + 1 {
            lemma_edit_dist_triangle(a, b.drop_last(), c.drop_last());
        } else if bc == edit_dist(b.drop_last(), c) + 1 {
            lemma_edit_dist_triangle(a.drop_last(), b.drop_last(), c);
        } else {
            lemma_edit_dist_triangle(a.drop_last(), b.drop_last(), c.drop_last());
        }
    }
}

/// Relies on strsim::levenshtein: the minimum number of single-character
/// insertions, deletions and substitutions that turns one string's characters
/// into the other's.
#[verifier::external_body]
fn strsim_levenshtein(a: &str, b: &str) -> (d: usize)
    ensures
        d == edit_dist(a@, b@),
{
    strsim::levenshtein(a, b)
}

/// The edit distance between two strings, delegated to the strsim crate.
pub fn levenshtein_metric(a: &str, b: &str) -> (d: usize)
    ensures
        d == edit_dist(a@, b@),
{
    strsim_levenshtein(a, b)
}

/// The characters of a string as a vector, in order.
pub fn chars_vec(s: &str) -> (r: Vec<char>)
    ensures
        r@ == s@,
{
    let n = s.unicode_len();
    let mut r: Vec<char> = Vec::new();
    let mut i: usize = 0;
    while i < n
        invariant
            n == s@.len(),
            i <= n,
            r@ == s@.take(i as int),
        decreases n - i,
    {
        let c = s.get_char(i);
        r.push(c);
        proof {
            assert(r@ =~= s@.take(i + 1));
        }
        i += 1;
    }
    proof {
        assert(r@ =~= s@);
    }
    r
}

/// The edit distance between two strings, computed with the Wagner-Fischer
/// dynamic-programming matrix over the strings' characters.
pub fn distance(a: &str, b: &str) -> (d: usize)
    ensures
        d == edit_dist(a@, b@),
{
    let ac = chars_vec(a);
    let bc = chars_vec(b);
    let n = ac.len();
    let m = bc.len();
    // mat[i][j] holds the distance between the length-i prefix of a and the
    // length-j prefix of b.
    let mut mat: Vec<Vec<usize>> = Vec::new();
    let mut row0: Vec<usize> = Vec::new();
    row0.push(0);
    let mut j: usize = 0;
    while j < m
        invariant
            m == b@.len(),
            b@ == bc@,
            j <= m,
            row0@.len() == j + 1,
            forall|q: int|
                0 <= q <= j ==> row0@[q] == edit_dist(Seq::<char>::empty(), b@.take(q)),
        decreases m - j,
    {
        proof {
            assert(b@.take(j + 1).len() == j + 1);
        }
        row0.push(j + 1);
        j += 1;
    }
    mat.push(row0);
    let mut i: usize = 0;
    while i < n
        invariant
            n == a@.len(),
            m == b@.len(),
            a@ == ac@,
            b@ == bc@,
            i <= n,
            mat@.len() == i + 1,
            forall|p: int, q: int|
                0 <= p <= i && 0 <= q <= m ==> #[trigger] mat@[p]@[q] == edit_dist(
                    a@.take(p),
                    b@.take(q),
                ),
            forall|p: int| 0 <= p <= i ==> #[trigger] mat@[p]@.len() == m + 1,
        decreases n - i,
    {
        let mut row: Vec<usize> = Vec::new();
        proof {
            assert(a@.take(i + 1).len() == i + 1);
            assert(b@.take(0).len() == 0);
        }
        row.push(i + 1);
        let mut j: usize = 0;
        while j < m
            invariant
                n == a@.len(),
                m == b@.len(),
                a@ == ac@,
                b@ == bc@,
                i < n,
                j <= m,
                mat@.len() == i + 1,
                forall|p: int, q: int|
                    0 <= p <= i && 0 <= q <= m ==> #[trigger] mat@[p]@[q] == edit_dist(
                        a@.take(p),
                        b@.take(q),
                    ),
                forall|p: int| 0 <= p <= i ==> #[trigger] mat@[p]@.len() == m + 1,
                row@.len() == j + 1,
                forall|q: int| 0 <= q <= j ==> row@[q] == edit_dist(a@.take(i + 1), b@.take(q)),
            decreases m - j,
        {
            let diag = mat[i][j];
            let up = mat[i][j + 1];
            let left = row[j];
            let cost: usize = if ac[i] == bc[j] {
                0
            } else {
                1
            };
            proof {
                lemma_edit_dist_le_max(a@.take(i as int), b@.take(j as int));
            }
            let mut best = diag + cost;
            if up < best {
                best = up + 1;
            }
            if left < best {
                best = left + 1;
            }
            proof {
                let ai = a@.take(i + 1);
                let bj = b@.take(j + 1);
                assert(ai.drop_last() =~= a@.take(i as int));
                assert(bj.drop_last() =~= b@.take(j as int));
                assert(ai.last() == a@[i as int]);
                assert(bj.last() == b@[j as int]);
                assert(best == edit_dist(ai, bj));
            }
            row.push(best);
            j += 1;
        }
        mat.push(row);
        i += 1;
    }
    let d = mat[n][m];
    proof {
        assert(a@.take(n as int) =~= a@);
        assert(b@.take(m as int) =~= b@);
    }
    d
}

} // verus!
