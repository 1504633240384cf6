use vstd::prelude::*;

use crate::dictionary::Dictionary;
use crate::spell_check::spell_checker::SpellChecker;

verus! {

/// The baseline strategy: exact set lookup, with no correction capability.
pub struct HashMapLookup {
    dictionary: Dictionary,
}

impl View for HashMapLookup {
    type V = Seq<Seq<char>>;

    closed spec fn view(&self) -> Seq<Seq<char>> {
        self.dictionary@
    }
}

impl HashMapLookup {
    /// A lookup checker over the given dictionary.
    pub fn new(dictionary: Dictionary) -> (c: HashMapLookup)
        ensures
            c@ == dictionary@,
    {
        HashMapLookup { dictionary }
    }
}

impl SpellChecker for HashMapLookup {
    open spec fn dict_set(&self) -> Set<Seq<char>> {
        Set::new(|w: Seq<char>| self@.contains(w))
    }

    /// This variant never proposes a correction.
    open spec fn suggestions(&self, w: Seq<char>) -> Seq<Seq<char>> {
        Seq::<Seq<char>>::empty()
    }

    proof fn lemma_suggestions_bounded(&self, w: Seq<char>) {
    }

    fn check_word(&self, word: &str) -> (r: bool) {
        self.dictionary.contains(word)
    }

    fn suggest_correction(&self, word: &str) -> (r: Vec<String>) {
        let r: Vec<String> = Vec::new();
        proof {
            assert(r.deep_view() =~= Seq::<Seq<char>>::empty());
        }
        r
    }
}

} // verus!
