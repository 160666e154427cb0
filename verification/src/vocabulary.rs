//! The fixed vocabulary against which tokens are looked up.

use vstd::prelude::*;
use vstd::hash_set::StringHashSet;

verus! {

/// A set of words. Its view is the set of the words' texts.
pub struct Vocabulary {
    words: StringHashSet,
}

impl View for Vocabulary {
    type V = Set<Seq<char>>;

    closed spec fn view(&self) -> Set<Seq<char>> {
        self.words@
    }
}

impl Vocabulary {
    /// A vocabulary without words.
    pub fn new() -> (r: Self)
        ensures
            r@ == Set::<Seq<char>>::empty(),
    {
        Vocabulary { words: StringHashSet::new() }
    }

    /// The vocabulary that holds exactly the words of the list.
    pub fn from_words(words: &Vec<String>) -> (r: Self)
        ensures
            r@ == words.deep_view().to_set(),
    {
        let mut set = StringHashSet::new();
        let n: usize = words.len();
        for i in 0..n
            invariant
                n == words.len(),
                set@ == words.deep_view().take(i as int).to_set(),
        {
            proof {
                let listed = words.deep_view();
                assert(listed.take(i + 1) == listed.take(i as int).push(words[i as int]@));
                listed.take(i as int).lemma_push_to_set_commute(words[i as int]@);
            }
            set.insert(words[i].clone());
        }
        proof {
            assert(words.deep_view().take(n as int) == words.deep_view());
        }
        Vocabulary { words: set }
    }

    /// Adds a word.
    pub fn insert(&mut self, word: String)
        ensures
            final(self)@ == old(self)@.insert(word@),
    {
        self.words.insert(word);
    }

    /// Whether the vocabulary holds `word`, letter for letter.
    pub fn contains(&self, word: &str) -> (r: bool)
        ensures
            r == self@.contains(word@),
    {
        self.words.contains(word)
    }
}

} // verus!
