use spell_check::dictionary::Dictionary;
use spell_check::edit_distance::distance;
use spell_check::spell_check::hash_map_look_up::HashMapLookup;
use spell_check::spell_check::levenshtein_checker::LevenshteinChecker;
use spell_check::spell_check::precomputed_levenshtein_checker::PrecomputedLevenshteinChecker;
use spell_check::spell_check::soundex_checker::SoundexChecker;
use spell_check::spell_check::spell_checker::SpellChecker;
use spell_check::spell_check::wagner_fischer::WagnerFischerChecker;

fn words(ws: &[&str]) -> Vec<String> {
    ws.iter().map(|w| w.to_string()).collect()
}

fn small_dictionary() -> Dictionary {
    Dictionary::new(words(&["cat", "cats", "bat", "hat"]))
}

#[test]
fn dictionary_deduplicates_and_keeps_order() {
    let d = Dictionary::new(words(&["cat", "dog", "cat", "dog", "emu"]));
    assert_eq!(d.len(), 3);
    assert_eq!(d.word_at(0), "cat");
    assert_eq!(d.word_at(1), "dog");
    assert_eq!(d.word_at(2), "emu");
    assert!(d.contains("dog"));
    assert!(!d.contains("fox"));
}

#[test]
fn hash_map_lookup_checks_membership_exactly() {
    let checker = HashMapLookup::new(small_dictionary());
    assert!(checker.check_word("cat"));
    assert!(checker.check_word("hat"));
    assert!(!checker.check_word("caat"));
    assert!(!checker.check_word(""));
}

#[test]
fn hash_map_lookup_never_suggests() {
    let checker = HashMapLookup::new(small_dictionary());
    assert!(checker.suggest_correction("caat").is_empty());
    assert!(checker.suggest_correction("cat").is_empty());
}

#[test]
fn soundex_stub_accepts_everything() {
    let checker = SoundexChecker::new();
    assert!(checker.check_word("anything"));
    assert!(checker.check_word(""));
    assert_eq!(checker.suggest_correction("word"), vec!["word".to_string()]);
}

#[test]
fn levenshtein_checker_checks_membership_exactly() {
    let checker = LevenshteinChecker::new(small_dictionary());
    assert!(checker.check_word("cat"));
    assert!(!checker.check_word("caat"));
}

#[test]
fn levenshtein_checker_ranks_cat_before_distance_two_words() {
    let checker = LevenshteinChecker::new(small_dictionary());
    let s = checker.suggest_correction("caat");
    assert_eq!(s, vec!["cat".to_string(), "cats".to_string(), "bat".to_string()]);
    assert_eq!(s[0], "cat");
    assert_eq!(distance("caat", "cat"), 1);
    assert_eq!(distance("caat", "cats"), 2);
    assert_eq!(distance("caat", "bat"), 2);
}

#[test]
fn levenshtein_checker_suggestions_are_bounded_and_close() {
    let checker = LevenshteinChecker::new(small_dictionary());
    for w in ["caat", "cat", "zzz", "ha", ""] {
        let s = checker.suggest_correction(w);
        assert!(s.len() <= 3);
        for c in &s {
            assert!(distance(w, c) <= 2);
        }
    }
}

#[test]
fn levenshtein_checker_far_word_gets_nothing() {
    let checker = LevenshteinChecker::new(small_dictionary());
    assert!(checker.suggest_correction("xylophone").is_empty());
}

#[test]
fn wagner_fischer_checker_checks_membership_exactly() {
    let checker = WagnerFischerChecker::new(small_dictionary());
    assert!(checker.check_word("bat"));
    assert!(!checker.check_word("batt"));
}

#[test]
fn wagner_fischer_method_computes_distance() {
    let checker = WagnerFischerChecker::new(small_dictionary());
    assert_eq!(checker.wagner_fischer("kitten", "sitting"), 3);
    assert_eq!(checker.wagner_fischer("kitten", "sitting"), 3);
    assert_eq!(checker.wagner_fischer("caat", "cat"), 1);
}

#[test]
fn wagner_fischer_checker_matches_levenshtein_ranking() {
    let wf = WagnerFischerChecker::new(small_dictionary());
    let lev = LevenshteinChecker::new(small_dictionary());
    for w in ["caat", "cat", "hut", "zzz"] {
        assert_eq!(wf.suggest_correction(w), lev.suggest_correction(w));
    }
}

#[test]
fn wagner_fischer_checker_suggestions_are_bounded_and_close() {
    let checker = WagnerFischerChecker::new(small_dictionary());
    for w in ["caat", "bat", "hats", ""] {
        let s = checker.suggest_correction(w);
        assert!(s.len() <= 3);
        for c in &s {
            assert!(distance(w, c) <= 2);
        }
    }
}

#[test]
fn precomputed_checker_checks_membership_exactly() {
    let checker = PrecomputedLevenshteinChecker::new(small_dictionary());
    assert!(checker.check_word("cats"));
    assert!(!checker.check_word("caat"));
}

#[test]
fn precomputed_checker_knows_only_dictionary_words() {
    let checker = PrecomputedLevenshteinChecker::new(small_dictionary());
    assert!(checker.suggest_correction("caat").is_empty());
    assert!(checker.suggest_correction("").is_empty());
}

#[test]
fn precomputed_checker_never_suggests_the_word_itself() {
    let checker = PrecomputedLevenshteinChecker::new(small_dictionary());
    let s = checker.suggest_correction("cat");
    assert_eq!(s, vec!["cats".to_string(), "bat".to_string(), "hat".to_string()]);
    assert!(!s.contains(&"cat".to_string()));
}

#[test]
fn suggestions_cut_to_three_in_dictionary_order() {
    let checker = LevenshteinChecker::new(
        Dictionary::new(words(&["aa", "ab", "ac", "ad", "ae"])),
    );
    let s = checker.suggest_correction("a");
    assert_eq!(s, vec!["aa".to_string(), "ab".to_string(), "ac".to_string()]);
}

#[test]
fn closer_words_rank_before_farther_ones() {
    let checker = LevenshteinChecker::new(
        Dictionary::new(words(&["fawn", "flaws", "flaw", "lawn"])),
    );
    let s = checker.suggest_correction("flaw");
    assert_eq!(s[0], "flaw");
    for pair in s.windows(2) {
        assert!(distance("flaw", &pair[0]) <= distance("flaw", &pair[1]));
    }
}

#[test]
fn known_dictionary_words_always_check_true() {
    let d = ["cat", "cats", "bat", "hat"];
    let hm = HashMapLookup::new(small_dictionary());
    let lev = LevenshteinChecker::new(small_dictionary());
    let wf = WagnerFischerChecker::new(small_dictionary());
    let pre = PrecomputedLevenshteinChecker::new(small_dictionary());
    for w in d {
        assert!(hm.check_word(w));
        assert!(lev.check_word(w));
        assert!(wf.check_word(w));
        assert!(pre.check_word(w));
    }
}
