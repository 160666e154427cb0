//! The word store: the vocabulary lists and the attested pairs, and the
//! envelope in which the store is written out.

use vstd::prelude::*;
use vstd::string::StrSliceExecFns;
use vstd::string::StringExecFns;
use crate::attested::{strictly_sorted, AttestedSet};
use crate::text::same_text;

verus! {

/// The word store as the program works on it.
#[derive(Debug)]
pub struct Words {
    pub attested: AttestedSet,
    pub adjectives: Vec<String>,
    pub nouns: Vec<String>,
}

/// The word store as it is written out: the attested pairs as a list in
/// ascending order.
#[derive(Debug, PartialEq, Eq)]
pub struct WordsVecs {
    pub attested: Vec<(String, String)>,
    pub adjectives: Vec<String>,
    pub nouns: Vec<String>,
}

impl From<Words> for WordsVecs {
    /// Lists the attested pairs in ascending order; the vocabulary lists
    /// stay as they are.
    fn from(words: Words) -> (r: Self)
        ensures
            strictly_sorted(r.attested.deep_view()),
            r.attested.deep_view().to_set() == words.attested@,
            r.adjectives == words.adjectives,
            r.nouns == words.nouns,
    {
        WordsVecs {
            attested: words.attested.into_vec(),
            adjectives: words.adjectives,
            nouns: words.nouns,
        }
    }
}

/// What `WordsVecs::from` returns is stated by its own `ensures`, over the
/// views of the two stores, and not by a spec function.
impl vstd::std_specs::convert::FromSpecImpl<Words> for WordsVecs {
    open spec fn obeys_from_spec() -> bool {
        false
    }

    open spec fn from_spec(words: Words) -> Self {
        arbitrary()
    }
}

/// What `Words::from` returns is stated by its own `ensures`, over the
/// views of the two stores, and not by a spec function.
impl vstd::std_specs::convert::FromSpecImpl<WordsVecs> for Words {
    open spec fn obeys_from_spec() -> bool {
        false
    }

    open spec fn from_spec(words_vecs: WordsVecs) -> Self {
        arbitrary()
    }
}

impl From<WordsVecs> for Words {
    /// Gathers the listed pairs into a set; the vocabulary lists stay as
    /// they are.
    fn from(words_vecs: WordsVecs) -> (r: Self)
        ensures
            r.attested@ == words_vecs.attested.deep_view().to_set(),
            r.adjectives == words_vecs.adjectives,
            r.nouns == words_vecs.nouns,
    {
        Words {
            attested: AttestedSet::from_vec(words_vecs.attested),
            adjectives: words_vecs.adjectives,
            nouns: words_vecs.nouns,
        }
    }
}

/// What stands before the structured data in a written store.
pub const PREFIX: &'static str = "words = ";

/// Why a text was refused as a written store.
#[derive(Clone, Copy, Debug, PartialEq, Eq, Structural)]
pub enum FormatError {
    /// The text does not begin with [`PREFIX`].
    MissingPrefix,
}

/// Takes the prefix off a written store and hands back the structured data
/// behind it. A text that does not begin with the prefix is refused.
pub fn strip_prefix(text: &str) -> (r: Result<&str, FormatError>)
    ensures
        r is Ok <==> PREFIX@.is_prefix_of(text@),
        r matches Ok(body) ==> text@ == PREFIX@ + body@ && body@ == text@.skip(PREFIX@.len() as int),
{
    let text_len: usize = text.unicode_len();
    let prefix_len: usize = PREFIX.unicode_len();
    if text_len < prefix_len {
        return Err(FormatError::MissingPrefix);
    }
    let head = text.substring_char(0, prefix_len);
    if same_text(head, PREFIX) {
        let body = text.substring_char(prefix_len, text_len);
        assert(text@ == PREFIX@ + body@);
        assert(body@ == text@.skip(PREFIX@.len() as int));
        Ok(body)
    } else {
        Err(FormatError::MissingPrefix)
    }
}

/// Puts the prefix before the structured data of a store.
pub fn add_prefix(body: &str) -> (r: String)
    ensures
        r@ == PREFIX@ + body@,
{
    let mut text = PREFIX.to_owned();
    text.append(body);
    text
}

} // verus!
