use vstd::prelude::*;

use crate::chars::{chars_eq, str_to_chars};

verus! {

/// A set of words that a spell checker accepts.
pub struct Dictionary {
    words: Vec<Vec<char>>,
}

impl View for Dictionary {
    type V = Set<Seq<char>>;

    closed spec fn view(&self) -> Set<Seq<char>> {
        Set::new(|w: Seq<char>| exists|i: int| 0 <= i < self.words@.len() && self.words@[i]@ == w)
    }
}

impl Dictionary {
    /// A dictionary with no words.
    pub fn new() -> (dict: Self)
        ensures
            dict@ == Set::<Seq<char>>::empty(),
    {
        let dict = Dictionary { words: Vec::new() };
        assert(dict@ =~= Set::<Seq<char>>::empty());
        dict
    }

    /// Add a word.
    pub fn add_word(&mut self, word: &str)
        ensures
            final(self)@ == old(self)@.insert(word@),
    {
        let chars = str_to_chars(word);
        self.words.push(chars);
        let ghost old_words = old(self).words@;
        assert forall|w: Seq<char>| #[trigger] self@.contains(w) == old(self)@.insert(word@).contains(
            w,
        ) by {
            if old(self)@.contains(w) {
                let i = choose|i: int| 0 <= i < old_words.len() && old_words[i]@ == w;
                assert(self.words@[i] == old_words[i]);
            }
            if w == word@ {
                assert(self.words@[old_words.len() as int]@ == w);
            }
            if self@.contains(w) {
                let i = choose|i: int| 0 <= i < self.words@.len() && self.words@[i]@ == w;
                if i < old_words.len() {
                    assert(old_words[i] == self.words@[i]);
                }
            }
        }
        assert(self@ =~= old(self)@.insert(word@));
    }

    /// Whether the dictionary holds the word.
    pub fn contains_word(&self, word: &[char]) -> (res: bool)
        ensures
            res == self@.contains(word@),
    {
        let mut i: usize = 0;
        while i < self.words.len()
            invariant
                i <= self.words@.len(),
                forall|j: int| 0 <= j < i ==> self.words@[j]@ != word@,
            decreases self.words@.len() - i,
        {
            if chars_eq(self.words[i].as_slice(), word) {
                return true;
            }
            i = i + 1;
        }
        false
    }

    /// Whether the dictionary holds the word, given as a string.
    pub fn contains_str(&self, word: &str) -> (res: bool)
        ensures
            res == self@.contains(word@),
    {
        let chars = str_to_chars(word);
        self.contains_word(chars.as_slice())
    }
}

/// A word that was added is found, and adding a word keeps every word that was there.
pub proof fn added_words_are_found(words: Set<Seq<char>>, added: Seq<char>, other: Seq<char>)
    ensures
        words.insert(added).contains(added),
        words.contains(other) ==> words.insert(added).contains(other),
{
}

} // verus!
