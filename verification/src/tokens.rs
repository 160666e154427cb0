//! Splitting a line of text into tokens.

use vstd::prelude::*;
use crate::text::whitespace;

verus! {

/// The characters that end a token: any whitespace, and the marks
/// `. ! ? " : ;`.
pub open spec fn is_delimiter(c: char) -> bool {
    whitespace(c) || c == '.' || c == '!' || c == '?' || c == '"' || c == ':' || c == ';'
}

/// The tokens of a line: the stretches of text between delimiters, in
/// order, the delimiters themselves left out. Two delimiters in a row hold
/// an empty token between them, and a delimiter at either end of the line
/// has an empty token on its outer side.
pub open spec fn split(s: Seq<char>) -> Seq<Seq<char>>
    decreases s.len(),
{
    if s.len() == 0 {
        seq![Seq::<char>::empty()]
    } else {
        let before = split(s.drop_last());
        if is_delimiter(s.last()) {
            before.push(Seq::<char>::empty())
        } else {
            before.drop_last().push(before.last().push(s.last()))
        }
    }
}

/// The number of delimiters in a line.
pub open spec fn delimiter_count(s: Seq<char>) -> nat {
    s.filter(|c: char| is_delimiter(c)).len()
}

/// A line has one token more than it has delimiters; so every line, the
/// empty one too, has at least one token.
pub proof fn lemma_split_len(s: Seq<char>)
    ensures
        split(s).len() == delimiter_count(s) + 1,
    decreases s.len(),
{
    reveal(Seq::filter);
    if s.len() > 0 {
        lemma_split_len(s.drop_last());
    }
}

/// Computes [`is_delimiter`].
pub fn is_delimiter_char(c: char) -> (r: bool)
    ensures
        r == is_delimiter(c),
{
    c.is_whitespace() || c == '.' || c == '!' || c == '?' || c == '"' || c == ':' || c == ';'
}

/// Splits a line into its tokens.
pub fn tokenize(line: &str) -> (tokens: Vec<String>)
    ensures
        tokens.deep_view() == split(line@),
{
    let mut tokens: Vec<String> = Vec::new();
    let mut current = String::new();
    for c in it: line.chars()
        invariant
            it.seq() == line@,
            tokens.deep_view().push(current@) == split(line@.take(it.index())),
    {
        proof {
            let i = it.index();
            assert(line@.take(i + 1).drop_last() == line@.take(i));
            lemma_split_len(line@.take(i));
        }
        let ghost done = tokens.deep_view();
        let ghost word = current@;
        if is_delimiter_char(c) {
            tokens.push(current);
            current = String::new();
            assert(tokens.deep_view() == done.push(tokens@.last()@));
        } else {
            current.push(c);
            assert(done.push(current@) == done.push(word).drop_last().push(word.push(c)));
        }
    }
    proof {
        assert(line@.take(line@.len() as int) == line@);
    }
    let ghost done = tokens.deep_view();
    tokens.push(current);
    assert(tokens.deep_view() == done.push(tokens@.last()@));
    tokens
}

} // verus!
