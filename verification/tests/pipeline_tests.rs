use spell_check::dictionary::Dictionary;
use spell_check::pipeline::{check_unknown_words, contains_digit, filter_unknown_words,
    suggest_corrections};
use spell_check::spell_check::levenshtein_checker::LevenshteinChecker;

fn words(ws: &[&str]) -> Vec<String> {
    ws.iter().map(|w| w.to_string()).collect()
}

#[test]
fn detector_collects_unknown_words_once() {
    let checker = LevenshteinChecker::new(Dictionary::new(words(&["the", "cat"])));
    let tokens = words(&["the", "cat", "teh", "cat", "abc123", "teh"]);
    let unknown = check_unknown_words(&tokens, &checker);
    assert_eq!(unknown, words(&["teh", "abc123"]));
}

#[test]
fn detector_is_idempotent() {
    let checker = LevenshteinChecker::new(Dictionary::new(words(&["the", "cat"])));
    let tokens = words(&["teh", "cat", "teh", "dog", "dog", "the"]);
    let first = check_unknown_words(&tokens, &checker);
    let second = check_unknown_words(&tokens, &checker);
    assert_eq!(first, second);
    let first_set: std::collections::BTreeSet<String> = first.into_iter().collect();
    let second_set: std::collections::BTreeSet<String> = second.into_iter().collect();
    assert_eq!(first_set, second_set);
}

#[test]
fn contains_digit_spots_digits_anywhere() {
    assert!(contains_digit(&"abc123".to_string()));
    assert!(contains_digit(&"7abc".to_string()));
    assert!(contains_digit(&"abc9".to_string()));
    assert!(!contains_digit(&"recieve".to_string()));
    assert!(!contains_digit(&"".to_string()));
}

#[test]
fn filter_drops_tokens_with_digits() {
    let unknown = words(&["recieve", "abc123", "teh"]);
    let eligible = filter_unknown_words(&unknown);
    assert_eq!(eligible, words(&["recieve", "teh"]));
}

#[test]
fn corrections_cover_each_word_in_order() {
    let checker = LevenshteinChecker::new(
        Dictionary::new(words(&["cat", "cats", "bat", "hat"])),
    );
    let unknown = words(&["caat", "xylophone"]);
    let corrections = suggest_corrections(&unknown, &checker, 2);
    assert_eq!(corrections.len(), 2);
    assert_eq!(corrections[0], words(&["cat", "cats", "bat"]));
    assert!(corrections[1].is_empty());
}

#[test]
fn corrections_do_not_depend_on_chunk_size() {
    let checker = LevenshteinChecker::new(
        Dictionary::new(words(&["cat", "cats", "bat", "hat"])),
    );
    let unknown = words(&["caat", "batt", "zzz", "ccat", "h"]);
    let baseline = suggest_corrections(&unknown, &checker, 1);
    for chunk_size in [0, 2, 3, 100] {
        assert_eq!(suggest_corrections(&unknown, &checker, chunk_size), baseline);
    }
}

#[test]
fn zero_chunk_size_is_clamped_not_fatal() {
    let checker = LevenshteinChecker::new(Dictionary::new(words(&["cat"])));
    let unknown = words(&["caat"]);
    let corrections = suggest_corrections(&unknown, &checker, 0);
    assert_eq!(corrections.len(), 1);
    assert_eq!(corrections[0], words(&["cat"]));
}

#[test]
fn empty_inputs_flow_through() {
    let checker = LevenshteinChecker::new(Dictionary::new(words(&[])));
    let no_tokens: Vec<String> = Vec::new();
    assert!(check_unknown_words(&no_tokens, &checker).is_empty());
    assert!(filter_unknown_words(&no_tokens).is_empty());
    assert!(suggest_corrections(&no_tokens, &checker, 4).is_empty());
}
