use vstd::prelude::*;

use crate::dictionary::Dictionary;
use crate::edit_distance::edit_dist;

verus! {

/// The highest edit distance at which a dictionary word still counts as a
/// correction candidate.
pub open spec fn spec_threshold() -> nat {
    2
}

/// The dictionary words at exactly distance `k` from `w`, in dictionary
/// order.
pub open spec fn class_of(dict: Seq<Seq<char>>, w: Seq<char>, k: nat) -> Seq<Seq<char>>
    decreases dict.len(),
{
    if dict.len() == 0 {
        Seq::<Seq<char>>::empty()
    } else {
        let rest = class_of(dict.drop_last(), w, k);
        if edit_dist(w, dict.last()) == k {
            rest.push(dict.last())
        } else {
            rest
        }
    }
}

/// The dictionary words whose distance to `w` lies in `lo..hi`, ordered by
/// ascending distance with dictionary order breaking ties.
pub open spec fn classes_range(dict: Seq<Seq<char>>, w: Seq<char>, lo: nat, hi: nat) -> Seq<
    Seq<char>,
>
    decreases hi - lo,
{
    if lo >= hi {
        Seq::<Seq<char>>::empty()
    } else {
        class_of(dict, w, lo) + classes_range(dict, w, lo + 1, hi)
    }
}

/// At most the first three entries of a sequence.
pub open spec fn take_up_to_3(s: Seq<Seq<char>>) -> Seq<Seq<char>> {
    if s.len() <= 3 {
        s
    } else {
        s.take(3)
    }
}

/// The ranked correction list for `w` against `dict`: the dictionary words
/// within the distance threshold, sorted by ascending distance with
/// dictionary order breaking ties, cut to the first three.
pub open spec fn suggestions_spec(dict: Seq<Seq<char>>, w: Seq<char>) -> Seq<Seq<char>> {
    take_up_to_3(classes_range(dict, w, 0, spec_threshold() + 1))
}

/// A class range grows at its top end by the next distance class.
pub proof fn lemma_classes_range_snoc(dict: Seq<Seq<char>>, w: Seq<char>, lo: nat, k: nat)
    requires
        lo <= k,
    ensures
        classes_range(dict, w, lo, k + 1) == classes_range(dict, w, lo, k) + class_of(dict, w, k),
    decreases k - lo,
{
    if lo == k {
        assert(classes_range(dict, w, lo, lo) =~= Seq::<Seq<char>>::empty());
        assert(classes_range(dict, w, lo + 1, lo + 1) =~= Seq::<Seq<char>>::empty());
        assert(classes_range(dict, w, lo, lo + 1) =~= classes_range(dict, w, lo, lo) + class_of(
            dict,
            w,
            lo,
        ));
    } else {
        lemma_classes_range_snoc(dict, w, lo + 1, k);
        assert(classes_range(dict, w, lo, k + 1) =~= classes_range(dict, w, lo, k) + class_of(
            dict,
            w,
            k,
        ));
    }
}

/// Every word of a distance class is a dictionary word at that distance.
pub proof fn lemma_class_of_props(dict: Seq<Seq<char>>, w: Seq<char>, k: nat)
    ensures
        forall|j: int|
            0 <= j < class_of(dict, w, k).len() ==> dict.contains(
                #[trigger] class_of(dict, w, k)[j],
            ) && edit_dist(w, class_of(dict, w, k)[j]) == k,
    decreases dict.len(),
{
    if dict.len() > 0 {
        lemma_class_of_props(dict.drop_last(), w, k);
        let rest = class_of(dict.drop_last(), w, k);
        assert forall|j: int| 0 <= j < rest.len() implies dict.contains(#[trigger] rest[j])
            && edit_dist(w, rest[j]) == k by {
            assert(dict.drop_last().contains(rest[j]));
            let i = choose|i: int|
                0 <= i < dict.drop_last().len() && dict.drop_last()[i] == rest[j];
            assert(dict[i] == rest[j]);
        }
        if edit_dist(w, dict.last()) == k {
            let out = rest.push(dict.last());
            assert(dict.contains(dict.last())) by {
                assert(dict[dict.len() - 1] == dict.last());
            }
            assert forall|j: int| 0 <= j < out.len() implies dict.contains(#[trigger] out[j])
                && edit_dist(w, out[j]) == k by {
                if j < rest.len() {
                    assert(out[j] == rest[j]);
                }
            }
        }
    }
}

/// Every ranked word of a class range is a dictionary word whose distance
/// lies in the range.
pub proof fn lemma_classes_range_props(dict: Seq<Seq<char>>, w: Seq<char>, lo: nat, hi: nat)
    ensures
        forall|j: int|
            0 <= j < classes_range(dict, w, lo, hi).len() ==> dict.contains(
                #[trigger] classes_range(dict, w, lo, hi)[j],
            ) && lo <= edit_dist(w, classes_range(dict, w, lo, hi)[j]) < hi,
    decreases hi - lo,
{
    if lo < hi {
        lemma_classes_range_props(dict, w, lo + 1, hi);
        lemma_class_of_props(dict, w, lo);
        let cls = class_of(dict, w, lo);
        let upper = classes_range(dict, w, lo + 1, hi);
        assert forall|j: int| 0 <= j < (cls + upper).len() implies dict.contains(
            #[trigger] (cls + upper)[j],
        ) && lo <= edit_dist(w, (cls + upper)[j]) < hi by {
            if j < cls.len() {
                assert((cls + upper)[j] == cls[j]);
            } else {
                assert((cls + upper)[j] == upper[j - cls.len()]);
            }
        }
    }
}

/// The ranked correction list for a word, assembled from the word's distance
/// to each dictionary entry: candidates whose distance lies in `lo..3`, by
/// ascending distance with dictionary order breaking ties, cut to the first
/// three.
pub(crate) fn ranked_from(
    dict: &Dictionary,
    dists: &Vec<usize>,
    lo: usize,
    Ghost(w): Ghost<Seq<char>>,
) -> (r: Vec<String>)
    requires
        lo <= 3,
        dists@.len() == dict@.len(),
        forall|i: int| 0 <= i < dists@.len() ==> dists@[i] == edit_dist(w, dict@[i]),
    ensures
        r.deep_view() == take_up_to_3(classes_range(dict@, w, lo as nat, 3)),
{
    let n = dict.len();
    let mut ranked: Vec<String> = Vec::new();
    let mut k: usize = lo;
    while k < 3
        invariant
            dists@.len() == dict@.len(),
            forall|i: int| 0 <= i < dists@.len() ==> dists@[i] == edit_dist(w, dict@[i]),
            n == dict@.len(),
            lo <= k <= 3,
            ranked.deep_view() == classes_range(dict@, w, lo as nat, k as nat),
        decreases 3 - k,
    {
        let mut i: usize = 0;
        while i < n
            invariant
                dists@.len() == dict@.len(),
                forall|q: int| 0 <= q < dists@.len() ==> dists@[q] == edit_dist(w, dict@[q]),
                n == dict@.len(),
                lo <= k < 3,
                i <= n,
                ranked.deep_view() == classes_range(dict@, w, lo as nat, k as nat) + class_of(
                    dict@.take(i as int),
                    w,
                    k as nat,
                ),
            decreases n - i,
        {
            let ghost prev = ranked.deep_view();
            if dists[i] == k {
                ranked.push(dict.word_at(i).clone());
                proof {
                    assert(ranked.deep_view() =~= prev.push(dict@[i as int]));
                }
            }
            proof {
                assert(dict@.take(i + 1).drop_last() =~= dict@.take(i as int));
                assert(dict@.take(i + 1).last() == dict@[i as int]);
                assert(ranked.deep_view() =~= classes_range(dict@, w, lo as nat, k as nat)
                    + class_of(dict@.take(i + 1), w, k as nat));
            }
            i += 1;
        }
        proof {
            assert(dict@.take(n as int) =~= dict@);
            lemma_classes_range_snoc(dict@, w, lo as nat, k as nat);
        }
        k += 1;
    }
    let limit: usize = if ranked.len() < 3 {
        ranked.len()
    } else {
        3
    };
    let mut out: Vec<String> = Vec::new();
    let mut j: usize = 0;
    while j < limit
        invariant
            limit <= ranked@.len(),
            limit <= 3,
            ranked@.len() <= 3 ==> limit == ranked@.len(),
            ranked@.len() > 3 ==> limit == 3,
            j <= limit,
            out.deep_view() == ranked.deep_view().take(j as int),
        decreases limit - j,
    {
        let ghost prev = out.deep_view();
        let next = ranked[j].clone();
        out.push(next);
        proof {
            assert(out.deep_view() =~= prev.push(ranked.deep_view()[j as int]));
            assert(out.deep_view() =~= ranked.deep_view().take(j + 1));
        }
        j += 1;
    }
    proof {
        assert(out.deep_view() =~= take_up_to_3(ranked.deep_view()));
    }
    out
}

/// The ranked correction list holds at most three entries, each a dictionary
/// word within the distance threshold.
pub proof fn lemma_suggestions_spec_props(dict: Seq<Seq<char>>, w: Seq<char>)
    ensures
        suggestions_spec(dict, w).len() <= 3,
        forall|j: int|
            0 <= j < suggestions_spec(dict, w).len() ==> dict.contains(
                #[trigger] suggestions_spec(dict, w)[j],
            ) && edit_dist(w, suggestions_spec(dict, w)[j]) <= spec_threshold(),
{
    lemma_classes_range_props(dict, w, 0, spec_threshold() + 1);
    let ranked = classes_range(dict, w, 0, spec_threshold() + 1);
    let out = suggestions_spec(dict, w);
    assert forall|j: int| 0 <= j < out.len() implies dict.contains(#[trigger] out[j])
        && edit_dist(w, out[j]) <= spec_threshold() by {
        assert(out[j] == ranked[j]);
    }
}

/// A distance class misses no word: every dictionary word at distance `k`
/// stands in the class for `k`.
pub proof fn lemma_class_of_complete(dict: Seq<Seq<char>>, w: Seq<char>, k: nat, x: Seq<char>)
    requires
        dict.contains(x),
        edit_dist(w, x) == k,
    ensures
        class_of(dict, w, k).contains(x),
    decreases dict.len(),
{
    let i = choose|i: int| 0 <= i < dict.len() && dict[i] == x;
    let rest = class_of(dict.drop_last(), w, k);
    if i < dict.len() - 1 {
        assert(dict.drop_last()[i] == x);
        lemma_class_of_complete(dict.drop_last(), w, k, x);
        let j = choose|j: int| 0 <= j < rest.len() && rest[j] == x;
        if edit_dist(w, dict.last()) == k {
            assert(rest.push(dict.last())[j] == x);
        }
    } else {
        assert(dict.last() == x);
        assert(rest.push(x)[rest.len() as int] == x);
    }
}

/// A class range misses no word: every dictionary word whose distance lies in
/// the range stands in it.
pub proof fn lemma_classes_range_complete(
    dict: Seq<Seq<char>>,
    w: Seq<char>,
    lo: nat,
    hi: nat,
    x: Seq<char>,
)
    requires
        dict.contains(x),
        lo <= edit_dist(w, x) < hi,
    ensures
        classes_range(dict, w, lo, hi).contains(x),
    decreases hi - lo,
{
    let cls = class_of(dict, w, lo);
    let rest = classes_range(dict, w, lo + 1, hi);
    if edit_dist(w, x) == lo {
        lemma_class_of_complete(dict, w, lo, x);
        let j = choose|j: int| 0 <= j < cls.len() && cls[j] == x;
        assert((cls + rest)[j] == x);
    } else {
        lemma_classes_range_complete(dict, w, lo + 1, hi, x);
        let j = choose|j: int| 0 <= j < rest.len() && rest[j] == x;
        assert((cls + rest)[cls.len() + j] == x);
    }
}

/// A class range comes out sorted: distances never decrease along it.
pub proof fn lemma_classes_range_sorted(dict: Seq<Seq<char>>, w: Seq<char>, lo: nat, hi: nat)
    ensures
        forall|i: int, j: int|
            0 <= i <= j < classes_range(dict, w, lo, hi).len() ==> edit_dist(
                w,
                #[trigger] classes_range(dict, w, lo, hi)[i],
            ) <= edit_dist(w, #[trigger] classes_range(dict, w, lo, hi)[j]),
    decreases hi - lo,
{
    if lo < hi {
        lemma_classes_range_sorted(dict, w, lo + 1, hi);
        lemma_class_of_props(dict, w, lo);
        lemma_classes_range_props(dict, w, lo + 1, hi);
        let cls = class_of(dict, w, lo);
        let rest = classes_range(dict, w, lo + 1, hi);
        let out = cls + rest;
        assert forall|i: int, j: int| 0 <= i <= j < out.len() implies edit_dist(
            w,
            #[trigger] out[i],
        ) <= edit_dist(w, #[trigger] out[j]) by {
            if i < cls.len() {
                assert(out[i] == cls[i]);
            } else {
                assert(out[i] == rest[i - cls.len()]);
            }
            if j < cls.len() {
                assert(out[j] == cls[j]);
            } else {
                assert(out[j] == rest[j - cls.len()]);
            }
        }
    }
}

/// The suggestion list is sorted by ascending distance, and when it has room
/// to spare it misses no candidate: with fewer than three entries returned,
/// every dictionary word within the threshold is among them.
pub proof fn lemma_suggestions_spec_ranked(dict: Seq<Seq<char>>, w: Seq<char>)
    ensures
        forall|i: int, j: int|
            0 <= i <= j < suggestions_spec(dict, w).len() ==> edit_dist(
                w,
                #[trigger] suggestions_spec(dict, w)[i],
            ) <= edit_dist(w, #[trigger] suggestions_spec(dict, w)[j]),
        suggestions_spec(dict, w).len() < 3 ==> forall|x: Seq<char>|
            dict.contains(x) && edit_dist(w, x) <= spec_threshold() ==> suggestions_spec(
                dict,
                w,
            ).contains(x),
{
    let ranked = classes_range(dict, w, 0, spec_threshold() + 1);
    let out = suggestions_spec(dict, w);
    lemma_classes_range_sorted(dict, w, 0, spec_threshold() + 1);
    assert forall|i: int, j: int| 0 <= i <= j < out.len() implies edit_dist(
        w,
        #[trigger] out[i],
    ) <= edit_dist(w, #[trigger] out[j]) by {
        assert(out[i] == ranked[i] && out[j] == ranked[j]);
    }
    if out.len() < 3 {
        assert(out == ranked);
        assert forall|x: Seq<char>|
            dict.contains(x) && edit_dist(w, x) <= spec_threshold() implies out.contains(x) by {
            lemma_classes_range_complete(dict, w, 0, spec_threshold() + 1, x);
        }
    }
}

/// A suggestion is never the unknown word it corrects: suggestions are
/// dictionary words, and an unknown word is absent from the dictionary,
/// both judged under the same dictionary snapshot.
pub proof fn lemma_suggestion_not_unknown(dict: Seq<Seq<char>>, w: Seq<char>)
    requires
        !dict.contains(w),
    ensures
        forall|j: int|
            0 <= j < suggestions_spec(dict, w).len() ==> #[trigger] suggestions_spec(dict, w)[j]
                != w,
{
    lemma_suggestions_spec_props(dict, w);
}

} // verus!
