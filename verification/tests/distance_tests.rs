use rayon::prelude::ParallelIterator;
use rayon::slice::ParallelSlice;
use spell_check::cache::DistanceCache;
use spell_check::edit_distance::{distance, levenshtein_metric};

#[test]
fn distance_classic_pair() {
    assert_eq!(distance("kitten", "sitting"), 3);
}

#[test]
fn distance_from_empty_is_length() {
    assert_eq!(distance("", "abc"), 3);
    assert_eq!(distance("abc", ""), 3);
    assert_eq!(distance("", ""), 0);
}

#[test]
fn distance_of_equal_strings_is_zero() {
    assert_eq!(distance("same", "same"), 0);
    assert_eq!(distance("a", "a"), 0);
    assert_eq!(distance("misspelling", "misspelling"), 0);
}

#[test]
fn distance_is_symmetric() {
    let pairs = [("caat", "cat"), ("flaw", "lawn"), ("teh", "the"), ("", "xyz")];
    for (a, b) in pairs {
        assert_eq!(distance(a, b), distance(b, a));
    }
}

#[test]
fn distance_satisfies_triangle_inequality() {
    let triples = [
        ("kitten", "sitting", "mitten"),
        ("cat", "caat", "cats"),
        ("", "abc", "abcd"),
        ("recieve", "receive", "the"),
    ];
    for (a, b, c) in triples {
        assert!(distance(a, c) <= distance(a, b) + distance(b, c));
    }
}

#[test]
fn distance_single_edits() {
    assert_eq!(distance("caat", "cat"), 1);
    assert_eq!(distance("cat", "cats"), 1);
    assert_eq!(distance("cat", "bat"), 1);
    assert_eq!(distance("caat", "cats"), 2);
    assert_eq!(distance("flaw", "lawn"), 2);
    assert_eq!(distance("recieve", "receive"), 2);
}

#[test]
fn levenshtein_metric_matches_distance() {
    let pairs = [("kitten", "sitting"), ("caat", "cat"), ("", "abc"), ("teh", "the")];
    for (a, b) in pairs {
        assert_eq!(levenshtein_metric(a, b), distance(a, b));
    }
}

#[test]
fn levenshtein_metric_classic_pair() {
    assert_eq!(levenshtein_metric("kitten", "sitting"), 3);
    assert_eq!(levenshtein_metric("recieve", "receive"), 2);
}

#[test]
fn cache_returns_distance_and_is_stable() {
    let cache = DistanceCache::new();
    assert_eq!(cache.get_or_compute("kitten", "sitting"), 3);
    assert_eq!(cache.get_or_compute("kitten", "sitting"), 3);
    assert_eq!(cache.get_or_compute("sitting", "kitten"), 3);
    assert_eq!(cache.get_or_compute("cat", "cat"), 0);
    assert_eq!(cache.get_or_compute("kitten", "sitting"), distance("kitten", "sitting"));
}

#[test]
fn cache_is_consistent_under_concurrent_use() {
    let cache = DistanceCache::new();
    let pairs: Vec<(&str, &str)> = (0..64)
        .map(|i| {
            if i % 2 == 0 {
                ("kitten", "sitting")
            } else {
                ("caat", "cat")
            }
        })
        .collect();
    let results: Vec<usize> = pairs
        .par_chunks(1)
        .map(|pair| cache.get_or_compute(pair[0].0, pair[0].1))
        .collect();
    for (i, d) in results.iter().enumerate() {
        if i % 2 == 0 {
            assert_eq!(*d, 3);
        } else {
            assert_eq!(*d, 1);
        }
    }
}
