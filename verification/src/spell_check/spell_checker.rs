use vstd::prelude::*;

use crate::edit_distance::edit_dist;
use crate::suggest::spec_threshold;

verus! {

/// One strategy for checking words against a dictionary and proposing
/// corrections. Membership is always exact containment in the strategy's
/// word set; the distance machinery serves only suggestion.
pub trait SpellChecker: Sized + Sync {
    /// The set of words the strategy treats as known.
    spec fn dict_set(&self) -> Set<Seq<char>>;

    /// The exact suggestion list the strategy returns for a word.
    spec fn suggestions(&self, w: Seq<char>) -> Seq<Seq<char>>;

    /// Every strategy's suggestion list is short and close: at most three
    /// entries, each a known word within the distance threshold of the input.
    proof fn lemma_suggestions_bounded(&self, w: Seq<char>)
        ensures
            self.suggestions(w).len() <= 3,
            forall|j: int|
                0 <= j < self.suggestions(w).len() ==> self.dict_set().contains(
                    #[trigger] self.suggestions(w)[j],
                ) && edit_dist(w, self.suggestions(w)[j]) <= spec_threshold(),
    ;

    /// Whether the word is known: exact membership in the strategy's set.
    fn check_word(&self, word: &str) -> (r: bool)
        ensures
            r == self.dict_set().contains(word@),
    ;

    /// The ranked corrections the strategy proposes for a word.
    fn suggest_correction(&self, word: &str) -> (r: Vec<String>)
        ensures
            r.deep_view() == self.suggestions(word@),
    ;
}

} // verus!
