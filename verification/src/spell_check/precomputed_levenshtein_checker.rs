use vstd::prelude::*;

use crate::dictionary::Dictionary;
use crate::edit_distance::{edit_dist, lemma_edit_dist_self, lemma_edit_dist_symmetric,
    levenshtein_metric};
use crate::suggest::{classes_range, ranked_from, take_up_to_3};

verus! {

/// The ranked corrections of the precomputed strategy: it knows distances
/// only between pairs of distinct dictionary words, so a word outside the
/// dictionary gets no suggestion, and a dictionary word is never suggested
/// for itself.
pub open spec fn precomputed_suggestions(dict: Seq<Seq<char>>, w: Seq<char>) -> Seq<Seq<char>> {
    if dict.contains(w) {
        take_up_to_3(classes_range(dict, w, 1, 3))
    } else {
        Seq::<Seq<char>>::empty()
    }
}

/// A strategy that computes the distance between every pair of distinct
/// dictionary words up front and answers correction queries from that table.
pub struct PrecomputedLevenshteinChecker {
    dictionary: Dictionary,
    distances: Vec<Vec<usize>>,
}

impl View for PrecomputedLevenshteinChecker {
    type V = Seq<Seq<char>>;

    closed spec fn view(&self) -> Seq<Seq<char>> {
        self.dictionary@
    }
}

impl PrecomputedLevenshteinChecker {
    #[verifier::type_invariant]
    spec fn type_inv(&self) -> bool {
        &&& self.distances@.len() == self.dictionary@.len()
        &&& forall|i: int|
            0 <= i < self.distances@.len() ==> (#[trigger] self.distances@[i])@.len()
                == self.dictionary@.len()
        &&& forall|i: int, j: int|
            0 <= i < self.distances@.len() && 0 <= j < self.distances@.len()
                ==> (#[trigger] self.distances@[i]@[j]) == edit_dist(
                self.dictionary@[i],
                self.dictionary@[j],
            )
    }

    /// A checker over the given dictionary, with the distance between each
    /// pair of dictionary words computed up front: each unordered pair once,
    /// its mirror filled in by symmetry.
    pub fn new(dictionary: Dictionary) -> (c: PrecomputedLevenshteinChecker)
        ensures
            c@ == dictionary@,
    {
        let n = dictionary.len();
        let mut distances: Vec<Vec<usize>> = Vec::new();
        let mut i: usize = 0;
        while i < n
            invariant
                n == dictionary@.len(),
                i <= n,
                distances@.len() == i,
                forall|p: int| 0 <= p < i ==> (#[trigger] distances@[p])@.len() == n,
                forall|p: int, q: int|
                    0 <= p < i && 0 <= q < n ==> (#[trigger] distances@[p]@[q]) == edit_dist(
                        dictionary@[p],
                        dictionary@[q],
                    ),
            decreases n - i,
        {
            let mut row: Vec<usize> = Vec::new();
            let mut j: usize = 0;
            while j < n
                invariant
                    n == dictionary@.len(),
                    i < n,
                    j <= n,
                    distances@.len() == i,
                    forall|p: int| 0 <= p < i ==> (#[trigger] distances@[p])@.len() == n,
                    forall|p: int, q: int|
                        0 <= p < i && 0 <= q < n ==> (#[trigger] distances@[p]@[q]) == edit_dist(
                            dictionary@[p],
                            dictionary@[q],
                        ),
                    row@.len() == j,
                    forall|q: int|
                        0 <= q < j ==> row@[q] == edit_dist(dictionary@[i as int], dictionary@[q]),
                decreases n - j,
            {
                if j == i {
                    row.push(0);
                    proof {
                        lemma_edit_dist_self(dictionary@[i as int]);
                    }
                } else if j < i {
                    let d = distances[j][i];
                    row.push(d);
                    proof {
                        lemma_edit_dist_symmetric(dictionary@[i as int], dictionary@[j as int]);
                    }
                } else {
                    let d = levenshtein_metric(
                        dictionary.word_at(i).as_str(),
                        dictionary.word_at(j).as_str(),
                    );
                    row.push(d);
                }
                j += 1;
            }
            distances.push(row);
            i += 1;
        }
        PrecomputedLevenshteinChecker { dictionary, distances }
    }

    /// Whether the word is known: exact membership in the dictionary.
    pub fn check_word(&self, word: &str) -> (r: bool)
        ensures
            r == self@.contains(word@),
    {
        self.dictionary.contains(word)
    }

    /// The ranked corrections for a word, answered from the precomputed
    /// table: for a dictionary word, the other dictionary words within the
    /// distance threshold, by ascending distance with dictionary order
    /// breaking ties, cut to the first three; for any other word, nothing.
    pub fn suggest_correction(&self, word: &str) -> (r: Vec<String>)
        ensures
            r.deep_view() == precomputed_suggestions(self@, word@),
    {
        let w = word.to_owned();
        let n = self.dictionary.len();
        let mut i: usize = 0;
        while i < n
            invariant
                n == self@.len(),
                w@ == word@,
                i <= n,
                forall|q: int| 0 <= q < i ==> self@[q] != word@,
            decreases n - i,
        {
            if *self.dictionary.word_at(i) == w {
                proof {
                    use_type_invariant(self);
                    assert(self@.contains(word@));
                }
                let row = &self.distances[i];
                let r = ranked_from(&self.dictionary, row, 1, Ghost(word@));
                return r;
            }
            i += 1;
        }
        proof {
            if self@.contains(word@) {
                let q = choose|q: int| 0 <= q < self@.len() && self@[q] == word@;
                assert(self@[q] == word@);
            }
        }
        let r: Vec<String> = Vec::new();
        proof {
            assert(r.deep_view() =~= Seq::<Seq<char>>::empty());
        }
        r
    }
}

} // verus!
