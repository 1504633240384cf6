use vstd::prelude::*;

use crate::dictionary::Dictionary;
use crate::edit_distance::{edit_dist, levenshtein_metric};
use crate::spell_check::spell_checker::SpellChecker;
use crate::suggest::{lemma_suggestions_spec_props, ranked_from, suggestions_spec};

verus! {

/// A strategy that checks membership exactly and ranks corrections by the
/// Levenshtein distance, computed afresh for every word pair.
pub struct LevenshteinChecker {
    dictionary: Dictionary,
}

impl View for LevenshteinChecker {
    type V = Seq<Seq<char>>;

    closed spec fn view(&self) -> Seq<Seq<char>> {
        self.dictionary@
    }
}

impl LevenshteinChecker {
    /// A Levenshtein checker over the given dictionary.
    pub fn new(dictionary: Dictionary) -> (c: LevenshteinChecker)
        ensures
            c@ == dictionary@,
    {
        LevenshteinChecker { dictionary }
    }
}

impl SpellChecker for LevenshteinChecker {
    open spec fn dict_set(&self) -> Set<Seq<char>> {
        Set::new(|w: Seq<char>| self@.contains(w))
    }

    open spec fn suggestions(&self, w: Seq<char>) -> Seq<Seq<char>> {
        suggestions_spec(self@, w)
    }

    proof fn lemma_suggestions_bounded(&self, w: Seq<char>) {
        lemma_suggestions_spec_props(self@, w);
    }

    fn check_word(&self, word: &str) -> (r: bool) {
        self.dictionary.contains(word)
    }

    fn suggest_correction(&self, word: &str) -> (r: Vec<String>) {
        let n = self.dictionary.len();
        let mut dists: Vec<usize> = Vec::new();
        let mut i: usize = 0;
        while i < n
            invariant
                n == self@.len(),
                i <= n,
                dists@.len() == i,
                forall|q: int| 0 <= q < i ==> dists@[q] == edit_dist(word@, self@[q]),
            decreases n - i,
        {
            let d = levenshtein_metric(word, self.dictionary.word_at(i).as_str());
            dists.push(d);
            i += 1;
        }
        ranked_from(&self.dictionary, &dists, 0, Ghost(word@))
    }
}

} // verus!
