use vstd::prelude::*;

use crate::cache::DistanceCache;
use crate::dictionary::Dictionary;
use crate::edit_distance::edit_dist;
use crate::spell_check::spell_checker::SpellChecker;
use crate::suggest::{lemma_suggestions_spec_props, ranked_from, suggestions_spec};

verus! {

/// A strategy that checks membership exactly and ranks corrections by the
/// Wagner-Fischer dynamic program, memoizing each word pair's distance in a
/// shared, lock-guarded cache. The cache pays off when the same pairs recur
/// across a correction batch.
pub struct WagnerFischerChecker {
    dictionary: Dictionary,
    cache: DistanceCache,
}

impl View for WagnerFischerChecker {
    type V = Seq<Seq<char>>;

    closed spec fn view(&self) -> Seq<Seq<char>> {
        self.dictionary@
    }
}

impl WagnerFischerChecker {
    /// A Wagner-Fischer checker over the given dictionary, with an empty
    /// cache.
    pub fn new(dictionary: Dictionary) -> (c: WagnerFischerChecker)
        ensures
            c@ == dictionary@,
    {
        WagnerFischerChecker { dictionary, cache: DistanceCache::new() }
    }

    /// The edit distance between two strings, answered from the memo table
    /// when the pair was seen before and computed into it otherwise.
    pub fn wagner_fischer(&self, s1: &str, s2: &str) -> (d: usize)
        ensures
            d == edit_dist(s1@, s2@),
    {
        self.cache.get_or_compute(s1, s2)
    }
}

impl SpellChecker for WagnerFischerChecker {
    open spec fn dict_set(&self) -> Set<Seq<char>> {
        Set::new(|w: Seq<char>| self@.contains(w))
    }

    open spec fn suggestions(&self, w: Seq<char>) -> Seq<Seq<char>> {
        suggestions_spec(self@, w)
    }

    proof fn lemma_suggestions_bounded(&self, w: Seq<char>) {
        lemma_suggestions_spec_props(self@, w);
    }

    fn check_word(&self, word: &str) -> (r: bool) {
        self.dictionary.contains(word)
    }

    fn suggest_correction(&self, word: &str) -> (r: Vec<String>) {
        let n = self.dictionary.len();
        let mut dists: Vec<usize> = Vec::new();
        let mut i: usize = 0;
        while i < n
            invariant
                n == self@.len(),
                i <= n,
                dists@.len() == i,
                forall|q: int| 0 <= q < i ==> dists@[q] == edit_dist(word@, self@[q]),
            decreases n - i,
        {
            let d = self.wagner_fischer(word, self.dictionary.word_at(i).as_str());
            dists.push(d);
            i += 1;
        }
        ranked_from(&self.dictionary, &dists, 0, Ghost(word@))
    }
}

} // verus!
