use vstd::prelude::*;

use crate::dictionary::{contains_word, no_dups};
use crate::edit_distance::chars_vec;
use crate::spell_check::spell_checker::SpellChecker;

verus! {

/// Whether the character is a decimal digit.
pub open spec fn is_decimal_digit(c: char) -> bool {
    48 <= c as u32 <= 57
}

/// Whether the word holds a decimal digit anywhere.
pub open spec fn has_digit(w: Seq<char>) -> bool {
    exists|i: int| 0 <= i < w.len() && is_decimal_digit(w[i])
}

/// The tokens, in order of first occurrence, that the strategy's word set
/// does not hold, each kept once.
pub open spec fn unknown_words_spec(toks: Seq<Seq<char>>, dict: Set<Seq<char>>) -> Seq<Seq<char>>
    decreases toks.len(),
{
    if toks.len() == 0 {
        Seq::<Seq<char>>::empty()
    } else {
        let rest = unknown_words_spec(toks.drop_last(), dict);
        let t = toks.last();
        if !dict.contains(t) && !rest.contains(t) {
            rest.push(t)
        } else {
            rest
        }
    }
}

/// The words eligible for correction: those without a digit, in order.
pub open spec fn eligible_words(words: Seq<Seq<char>>) -> Seq<Seq<char>>
    decreases words.len(),
{
    if words.len() == 0 {
        Seq::<Seq<char>>::empty()
    } else {
        let rest = eligible_words(words.drop_last());
        if has_digit(words.last()) {
            rest
        } else {
            rest.push(words.last())
        }
    }
}

/// Each word's suggestion list under the strategy, in word order.
pub open spec fn all_suggestions<C: SpellChecker>(checker: &C, words: Seq<Seq<char>>) -> Seq<
    Seq<Seq<char>>,
> {
    Seq::new(words.len(), |i: int| checker.suggestions(words[i]))
}

/// Whether the word holds a decimal digit anywhere.
pub fn contains_digit(w: &String) -> (r: bool)
    ensures
        r == has_digit(w@),
{
    let cs = chars_vec(w.as_str());
    let mut i: usize = 0;
    while i < cs.len()
        invariant
            cs@ == w@,
            i <= cs@.len(),
            forall|k: int| 0 <= k < i ==> !is_decimal_digit(cs@[k]),
        decreases cs@.len() - i,
    {
        let u = cs[i] as u32;
        if 48 <= u && u <= 57 {
            return true;
        }
        i += 1;
    }
    false
}

/// Applies the strategy's membership test to every token and collects the
/// unknown ones, deduplicated, in order of first occurrence.
pub fn check_unknown_words<C: SpellChecker>(dataset_words: &Vec<String>, checker: &C) -> (unknown:
    Vec<String>)
    ensures
        unknown.deep_view() == unknown_words_spec(dataset_words.deep_view(), checker.dict_set()),
{
    let mut unknown: Vec<String> = Vec::new();
    let mut i: usize = 0;
    while i < dataset_words.len()
        invariant
            i <= dataset_words@.len(),
            unknown.deep_view() == unknown_words_spec(
                dataset_words.deep_view().take(i as int),
                checker.dict_set(),
            ),
        decreases dataset_words@.len() - i,
    {
        proof {
            assert(dataset_words.deep_view().take(i + 1).drop_last() =~= dataset_words.deep_view()
                .take(i as int));
            assert(dataset_words.deep_view().take(i + 1).last() == dataset_words.deep_view()[i as int]);
        }
        let wref = &dataset_words[i];
        let known = checker.check_word(wref.as_str());
        let dup = contains_word(&unknown, wref);
        if !known && !dup {
            let ghost prev = unknown.deep_view();
            unknown.push(wref.clone());
            proof {
                assert(unknown.deep_view() =~= prev.push(dataset_words.deep_view()[i as int]));
            }
        }
        i += 1;
    }
    proof {
        assert(dataset_words.deep_view().take(dataset_words@.len() as int)
            =~= dataset_words.deep_view());
    }
    unknown
}

/// Drops every token that holds a digit: numeric tokens are not natural-
/// language misspellings, so they leave the correction-eligible set.
pub fn filter_unknown_words(unknown_words: &Vec<String>) -> (r: Vec<String>)
    ensures
        r.deep_view() == eligible_words(unknown_words.deep_view()),
{
    let mut r: Vec<String> = Vec::new();
    let mut i: usize = 0;
    while i < unknown_words.len()
        invariant
            i <= unknown_words@.len(),
            r.deep_view() == eligible_words(unknown_words.deep_view().take(i as int)),
        decreases unknown_words@.len() - i,
    {
        proof {
            assert(unknown_words.deep_view().take(i + 1).drop_last() =~= unknown_words.deep_view()
                .take(i as int));
            assert(unknown_words.deep_view().take(i + 1).last() == unknown_words.deep_view()[i as int]);
        }
        let wref = &unknown_words[i];
        if !contains_digit(wref) {
            let ghost prev = r.deep_view();
            r.push(wref.clone());
            proof {
                assert(r.deep_view() =~= prev.push(unknown_words.deep_view()[i as int]));
            }
        }
        i += 1;
    }
    proof {
        assert(unknown_words.deep_view().take(unknown_words@.len() as int)
            =~= unknown_words.deep_view());
    }
    r
}

/// Generates each word's ranked suggestions, walking the words in chunks of
/// the given size (clamped to at least one) and flattening the chunk results
/// in order.
pub fn suggest_corrections<C: SpellChecker>(
    unknown_words_set: &Vec<String>,
    checker: &C,
    chunk_size: usize,
) -> (corrections: Vec<Vec<String>>)
    ensures
        corrections.deep_view() == all_suggestions(checker, unknown_words_set.deep_view()),
{
    let cs: usize = if chunk_size == 0 {
        1
    } else {
        chunk_size
    };
    let len = unknown_words_set.len();
    let mut corrections: Vec<Vec<String>> = Vec::new();
    let mut start: usize = 0;
    while start < len
        invariant
            cs >= 1,
            len == unknown_words_set@.len(),
            start <= len,
            corrections.deep_view() == all_suggestions(
                checker,
                unknown_words_set.deep_view().take(start as int),
            ),
        decreases len - start,
    {
        let remaining = len - start;
        let end = if remaining < cs {
            len
        } else {
            start + cs
        };
        let mut p = start;
        while p < end
            invariant
                len == unknown_words_set@.len(),
                start <= p <= end <= len,
                corrections.deep_view() == all_suggestions(
                    checker,
                    unknown_words_set.deep_view().take(p as int),
                ),
            decreases end - p,
        {
            let ghost dw = unknown_words_set.deep_view();
            let ghost prev_raw = corrections@;
            let sugg = checker.suggest_correction(unknown_words_set[p].as_str());
            corrections.push(sugg);
            proof {
                assert(sugg.deep_view() == checker.suggestions(dw[p as int]));
                assert(corrections@ == prev_raw.push(sugg));
                assert(prev_raw.len() == p) by {
                    assert(Seq::new(prev_raw.len(), |i: int| prev_raw[i].deep_view()).len()
                        == all_suggestions(checker, dw.take(p as int)).len());
                }
                assert forall|q: int| 0 <= q < p + 1 implies corrections.deep_view()[q]
                    =~= all_suggestions(checker, dw.take(p + 1))[q] by {
                    assert(dw.take(p + 1)[q] == dw[q]);
                    if q < p {
                        assert(corrections@[q] == prev_raw[q]);
                        assert(corrections.deep_view()[q] == prev_raw[q].deep_view());
                        assert(prev_raw[q].deep_view() == all_suggestions(
                            checker,
                            dw.take(p as int),
                        )[q]);
                        assert(dw.take(p as int)[q] == dw[q]);
                    } else {
                        assert(corrections@[q] == sugg);
                    }
                }
                assert(corrections.deep_view() =~~= all_suggestions(checker, dw.take(p + 1)));
            }
            p += 1;
        }
        start = end;
    }
    proof {
        assert(unknown_words_set.deep_view().take(len as int) =~= unknown_words_set.deep_view());
    }
    corrections
}

/// Detection is idempotent: over the same tokens and the same word set the
/// unknown-word computation names one sequence, so two runs return the same
/// words and in particular equal sets.
pub proof fn lemma_detect_deterministic(
    toks: Seq<Seq<char>>,
    dict: Set<Seq<char>>,
    r1: Seq<Seq<char>>,
    r2: Seq<Seq<char>>,
)
    requires
        r1 == unknown_words_spec(toks, dict),
        r2 == unknown_words_spec(toks, dict),
    ensures
        r1 == r2,
        r1.to_set() == r2.to_set(),
{
}

/// The detector partitions correctly: the unknown words are exactly the
/// tokens the word set lacks, and each appears once.
pub proof fn lemma_unknown_words_props(toks: Seq<Seq<char>>, dict: Set<Seq<char>>)
    ensures
        forall|x: Seq<char>|
            unknown_words_spec(toks, dict).contains(x) <==> toks.contains(x) && !dict.contains(x),
        no_dups(unknown_words_spec(toks, dict)),
    decreases toks.len(),
{
    if toks.len() > 0 {
        lemma_unknown_words_props(toks.drop_last(), dict);
        let rest = unknown_words_spec(toks.drop_last(), dict);
        let t = toks.last();
        assert forall|x: Seq<char>| toks.contains(x) implies toks.drop_last().contains(x) || t
            == x by {
            let i = choose|i: int| 0 <= i < toks.len() && toks[i] == x;
            if i < toks.len() - 1 {
                assert(toks.drop_last()[i] == x);
            }
        }
        assert forall|x: Seq<char>| toks.drop_last().contains(x) implies toks.contains(x) by {
            let i = choose|i: int|
                0 <= i < toks.drop_last().len() && toks.drop_last()[i] == x;
            assert(toks[i] == x);
        }
        assert(toks.contains(t)) by {
            assert(toks[toks.len() - 1] == t);
        }
        if !dict.contains(t) && !rest.contains(t) {
            let out = rest.push(t);
            assert forall|x: Seq<char>| out.contains(x) implies rest.contains(x) || t == x by {
                let i = choose|i: int| 0 <= i < out.len() && out[i] == x;
                if i < rest.len() {
                    assert(rest[i] == x);
                }
            }
            assert forall|x: Seq<char>| rest.contains(x) implies out.contains(x) by {
                let i = choose|i: int| 0 <= i < rest.len() && rest[i] == x;
                assert(out[i] == x);
            }
            assert(out.contains(t)) by {
                assert(out[out.len() - 1] == t);
            }
            assert forall|i: int, j: int| 0 <= i < j < out.len() implies out[i] != out[j] by {
                if j == out.len() - 1 {
                    assert(out[i] == rest[i]);
                    if out[i] == out[j] {
                        assert(rest.contains(out[j]));
                    }
                }
            }
        }
    }
}

/// One word's fate under the filter: it survives exactly when the input held
/// it and it is digit-free.
pub proof fn lemma_eligible_words_mem(words: Seq<Seq<char>>, x: Seq<char>)
    ensures
        eligible_words(words).contains(x) <==> words.contains(x) && !has_digit(x),
    decreases words.len(),
{
    if words.len() == 0 {
    } else {
        lemma_eligible_words_mem(words.drop_last(), x);
        let rest = eligible_words(words.drop_last());
        let t = words.last();
        assert(words.contains(x) <==> words.drop_last().contains(x) || t == x) by {
            if words.contains(x) {
                let i = choose|i: int| 0 <= i < words.len() && words[i] == x;
                if i < words.len() - 1 {
                    assert(words.drop_last()[i] == x);
                }
            }
            if words.drop_last().contains(x) {
                let i = choose|i: int|
                    0 <= i < words.drop_last().len() && words.drop_last()[i] == x;
                assert(words[i] == x);
            }
            assert(words[words.len() - 1] == t);
        }
        if !has_digit(t) {
            let out = rest.push(t);
            assert(out.contains(x) <==> rest.contains(x) || t == x) by {
                if out.contains(x) {
                    let i = choose|i: int| 0 <= i < out.len() && out[i] == x;
                    if i < rest.len() {
                        assert(rest[i] == x);
                    }
                }
                if rest.contains(x) {
                    let i = choose|i: int| 0 <= i < rest.len() && rest[i] == x;
                    assert(out[i] == x);
                }
                assert(out[out.len() - 1] == t);
            }
        }
    }
}

/// Every filtered word is a digit-free original word, and every digit-free
/// original word survives the filter.
pub proof fn lemma_eligible_words_props(words: Seq<Seq<char>>)
    ensures
        forall|x: Seq<char>|
            #[trigger] eligible_words(words).contains(x) <==> words.contains(x) && !has_digit(x),
{
    assert forall|x: Seq<char>|
        #[trigger] eligible_words(words).contains(x) <==> words.contains(x) && !has_digit(
            x,
        ) by {
        lemma_eligible_words_mem(words, x);
    }
}

} // verus!
