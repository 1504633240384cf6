use vstd::prelude::*;

verus! {

/// No word occurs twice.
pub open spec fn no_dups(s: Seq<Seq<char>>) -> bool {
    forall|i: int, j: int| 0 <= i < j < s.len() ==> s[i] != s[j]
}

/// The word sequence with every repeated occurrence removed: each word keeps
/// its first position.
pub open spec fn dedup_words(s: Seq<Seq<char>>) -> Seq<Seq<char>>
    decreases s.len(),
{
    if s.len() == 0 {
        Seq::<Seq<char>>::empty()
    } else {
        let rest = dedup_words(s.drop_last());
        if rest.contains(s.last()) {
            rest
        } else {
            rest.push(s.last())
        }
    }
}

/// Deduplication keeps exactly the words of the input.
pub proof fn lemma_dedup_membership(s: Seq<Seq<char>>, x: Seq<char>)
    ensures
        dedup_words(s).contains(x) <==> s.contains(x),
    decreases s.len(),
{
    if s.len() > 0 {
        lemma_dedup_membership(s.drop_last(), x);
        assert(s.contains(x) <==> s.drop_last().contains(x) || s.last() == x) by {
            if s.contains(x) {
                let i = choose|i: int| 0 <= i < s.len() && s[i] == x;
                if i < s.len() - 1 {
                    assert(s.drop_last()[i] == x);
                }
            }
            if s.drop_last().contains(x) {
                let i = choose|i: int| 0 <= i < s.drop_last().len() && s.drop_last()[i] == x;
                assert(s[i] == x);
            }
            if s.last() == x {
                assert(s[s.len() - 1] == x);
            }
        }
        let rest = dedup_words(s.drop_last());
        if !rest.contains(s.last()) {
            assert forall|y: Seq<char>| rest.push(s.last()).contains(y) implies rest.contains(y)
                || s.last() == y by {
                let i = choose|i: int|
                    0 <= i < rest.push(s.last()).len() && rest.push(s.last())[i] == y;
                if i < rest.len() {
                    assert(rest[i] == y);
                }
            }
            assert forall|y: Seq<char>| rest.contains(y) implies rest.push(s.last()).contains(
                y,
            ) by {
                let i = choose|i: int| 0 <= i < rest.len() && rest[i] == y;
                assert(rest.push(s.last())[i] == y);
            }
            assert(rest.push(s.last()).contains(s.last())) by {
                assert(rest.push(s.last())[rest.len() as int] == s.last());
            }
        }
    }
}

/// Deduplication leaves no repeated word.
pub proof fn lemma_dedup_no_dups(s: Seq<Seq<char>>)
    ensures
        no_dups(dedup_words(s)),
    decreases s.len(),
{
    if s.len() > 0 {
        lemma_dedup_no_dups(s.drop_last());
        let rest = dedup_words(s.drop_last());
        if !rest.contains(s.last()) {
            let out = rest.push(s.last());
            assert forall|i: int, j: int| 0 <= i < j < out.len() implies out[i] != out[j] by {
                if j == out.len() - 1 {
                    assert(!rest.contains(out[j]));
                    assert(out[i] == rest[i]);
                    if out[i] == out[j] {
                        assert(rest.contains(out[j]));
                    }
                }
            }
        }
    }
}

/// Whether one of the strings in `v` reads `w`.
pub fn contains_word(v: &Vec<String>, w: &String) -> (r: bool)
    ensures
        r == v.deep_view().contains(w@),
{
    let mut i: usize = 0;
    while i < v.len()
        invariant
            i <= v@.len(),
            forall|k: int| 0 <= k < i ==> v.deep_view()[k] != w@,
        decreases v@.len() - i,
    {
        if v[i] == *w {
            proof {
                assert(v.deep_view()[i as int] == w@);
            }
            return true;
        }
        i += 1;
    }
    proof {
        if v.deep_view().contains(w@) {
            let k = choose|k: int| 0 <= k < v.deep_view().len() && v.deep_view()[k] == w@;
            assert(v.deep_view()[k] == w@);
        }
    }
    false
}

/// A dictionary of known words: the reference set a spell checker consults.
/// The words keep the order in which they were first supplied, and no word
/// occurs twice.
pub struct Dictionary {
    words: Vec<String>,
}

impl View for Dictionary {
    type V = Seq<Seq<char>>;

    closed spec fn view(&self) -> Seq<Seq<char>> {
        self.words.deep_view()
    }
}

impl Dictionary {
    /// Holds of every dictionary value: no word occurs twice.
    #[verifier::type_invariant]
    pub open spec fn wf(&self) -> bool {
        no_dups(self@)
    }

    /// Builds the dictionary from the supplied words, keeping the first
    /// occurrence of each.
    pub fn new(words: Vec<String>) -> (d: Dictionary)
        ensures
            d@ == dedup_words(words.deep_view()),
    {
        let mut kept: Vec<String> = Vec::new();
        let mut i: usize = 0;
        while i < words.len()
            invariant
                i <= words@.len(),
                kept.deep_view() == dedup_words(words.deep_view().take(i as int)),
            decreases words@.len() - i,
        {
            proof {
                assert(words.deep_view().take(i + 1).drop_last() =~= words.deep_view().take(
                    i as int,
                ));
                assert(words.deep_view().take(i + 1).last() == words.deep_view()[i as int]);
            }
            if !contains_word(&kept, &words[i]) {
                let ghost prev = kept.deep_view();
                kept.push(words[i].clone());
                proof {
                    assert(kept.deep_view() =~= prev.push(words.deep_view()[i as int]));
                }
            }
            i += 1;
        }
        proof {
            assert(words.deep_view().take(words@.len() as int) =~= words.deep_view());
            lemma_dedup_no_dups(words.deep_view());
        }
        Dictionary { words: kept }
    }

    /// How many words the dictionary holds.
    pub fn len(&self) -> (n: usize)
        ensures
            n == self@.len(),
    {
        self.words.len()
    }

    /// The word at a position of the dictionary's iteration order.
    pub fn word_at(&self, i: usize) -> (w: &String)
        requires
            i < self@.len(),
        ensures
            w@ == self@[i as int],
    {
        &self.words[i]
    }

    /// Exact membership: whether `word` is one of the dictionary's words.
    pub fn contains(&self, word: &str) -> (r: bool)
        ensures
            r == self@.contains(word@),
    {
        let w = word.to_owned();
        contains_word(&self.words, &w)
    }
}

} // verus!
