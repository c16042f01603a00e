//! The dictionary of words that word bets may name.
use vstd::prelude::*;
use vstd::string::*;

verus! {

/// Whether `w` is made of lower-case letters only.
pub open spec fn is_word_text(w: Seq<char>) -> bool {
    forall|i: int| 0 <= i < w.len() ==> 'a' <= #[trigger] w[i] && w[i] <= 'z'
}

/// The characters of each string.
pub open spec fn texts(words: Seq<String>) -> Seq<Seq<char>> {
    words.map_values(|w: String| w@)
}

/// The words of `s` made of lower-case letters, each kept once, at its first
/// place.
pub open spec fn distinct_words(s: Seq<Seq<char>>) -> Seq<Seq<char>>
    decreases s.len(),
{
    if s.len() == 0 {
        Seq::empty()
    } else {
        let d = distinct_words(s.drop_last());
        if !is_word_text(s.last()) || d.contains(s.last()) {
            d
        } else {
            d.push(s.last())
        }
    }
}

/// A set of words, each made of lower-case letters and listed once.
pub struct Dictionary {
    pub words: Vec<String>,
}

impl Dictionary {
    pub open spec fn wf(self) -> bool {
        &&& forall|i: int|
            0 <= i < self.words@.len() ==> is_word_text(#[trigger] self.words@[i]@)
        &&& texts(self.words@).no_duplicates()
    }

    /// The dictionary of the given words that are made of lower-case letters,
    /// each kept once; any other line is left out.
    pub fn from_words(words: &Vec<String>) -> (r: Dictionary)
        ensures
            r.wf(),
            texts(r.words@) == distinct_words(texts(words@)),
    {
        let mut kept: Vec<String> = Vec::new();
        let mut i: usize = 0;
        while i < words.len()
            invariant
                i <= words@.len(),
                forall|j: int| 0 <= j < kept@.len() ==> is_word_text(#[trigger] kept@[j]@),
                texts(kept@).no_duplicates(),
                texts(kept@) == distinct_words(texts(words@).take(i as int)),
            decreases words@.len() - i,
        {
            let w = &words[i];
            proof {
                assert(texts(words@).take(i + 1).drop_last() =~= texts(words@).take(i as int));
                assert(texts(words@).take(i + 1).last() == w@);
            }
            if is_text_of_letters(w) && !contains_text(&kept, w) {
                let ghost before = texts(kept@);
                kept.push(w.clone());
                assert(texts(kept@) =~= before.push(w@));
                assert forall|a: int, b: int|
                    0 <= a < texts(kept@).len() && 0 <= b < texts(kept@).len() && a != b implies
                    texts(kept@)[a] != texts(kept@)[b] by {
                    if a == texts(kept@).len() - 1 {
                        assert(before[b] == texts(kept@)[b]);
                    } else if b == texts(kept@).len() - 1 {
                        assert(before[a] == texts(kept@)[a]);
                    }
                }
            }
            i = i + 1;
        }
        assert(texts(words@).take(words@.len() as int) =~= texts(words@));
        Dictionary { words: kept }
    }
}

/// Whether `words` holds `word`.
pub fn contains_text(words: &Vec<String>, word: &String) -> (r: bool)
    ensures
        r == texts(words@).contains(word@),
{
    let mut i: usize = 0;
    while i < words.len()
        invariant
            i <= words@.len(),
            forall|j: int| 0 <= j < i ==> words@[j]@ != word@,
        decreases words@.len() - i,
    {
        if words[i] == *word {
            assert(texts(words@)[i as int] == word@);
            return true;
        }
        i = i + 1;
    }
    assert(!texts(words@).contains(word@)) by {
        if texts(words@).contains(word@) {
            let j = choose|j: int| 0 <= j < texts(words@).len() && texts(words@)[j] == word@;
            assert(words@[j]@ == word@);
        }
    }
    false
}

/// Whether `w` is made of lower-case letters only.
pub fn is_text_of_letters(w: &String) -> (r: bool)
    ensures
        r == is_word_text(w@),
{
    let s = w.as_str();
    let n = s.unicode_len();
    let mut i: usize = 0;
    while i < n
        invariant
            i <= n,
            n == w@.len(),
            s@ == w@,
            forall|j: int| 0 <= j < i ==> 'a' <= #[trigger] w@[j] && w@[j] <= 'z',
        decreases n - i,
    {
        let c = s.get_char(i);
        if !('a' <= c && c <= 'z') {
            return false;
        }
        i = i + 1;
    }
    true
}

/// Whether the dictionary holds `word`.
pub fn has_word(dict: &Dictionary, word: &String) -> (r: bool)
    ensures
        r == texts(dict.words@).contains(word@),
{
    contains_text(&dict.words, word)
}

/// The words of at most `max_length` letters, in dictionary order.
pub fn words_with_max_length(dict: &Dictionary, max_length: usize) -> (r: Vec<String>)
    ensures
        texts(r@) == texts(dict.words@).filter(|w: Seq<char>| w.len() <= max_length),
        forall|i: int| 0 <= i < r@.len() ==> texts(dict.words@).contains(#[trigger] r@[i]@),
{
    let ghost f = |w: Seq<char>| w.len() <= max_length;
    let mut r: Vec<String> = Vec::new();
    let mut i: usize = 0;
    while i < dict.words.len()
        invariant
            i <= dict.words@.len(),
            f == (|w: Seq<char>| w.len() <= max_length),
            texts(r@) == texts(dict.words@).take(i as int).filter(f),
            forall|j: int| 0 <= j < r@.len() ==> texts(dict.words@).contains(#[trigger] r@[j]@),
        decreases dict.words@.len() - i,
    {
        let w = &dict.words[i];
        proof {
            assert(texts(dict.words@).take(i + 1) =~= texts(dict.words@).take(i as int).push(w@));
            texts(dict.words@).take(i as int).lemma_filter_push(w@, f);
            assert(texts(dict.words@)[i as int] == w@);
        }
        if w.as_str().unicode_len() <= max_length {
            r.push(w.clone());
            assert(texts(r@) =~= texts(dict.words@).take(i as int).filter(f).push(w@));
        }
        i = i + 1;
    }
    assert(texts(dict.words@).take(dict.words@.len() as int) =~= texts(dict.words@));
    r
}

} // verus!
