//! The pair scanner: finds adjacent tokens that are a known adjective
//! followed by a known noun.

use vstd::prelude::*;
use crate::attested::{AttestedSet, Pair};
use crate::text::{lemma_lower_idempotent, lower, to_lower};
use crate::tokens::{lemma_split_len, split, tokenize};
use crate::vocabulary::Vocabulary;

verus! {

/// Whether the vocabulary holds a token, in lower case or as written.
pub open spec fn is_known(vocabulary: Set<Seq<char>>, token: Seq<char>) -> bool {
    vocabulary.contains(lower(token)) || vocabulary.contains(token)
}

/// The tokens of all the lines, in reading order. Every line gives at
/// least one token, so the last token of a line stands directly before the
/// first token of the next line.
pub open spec fn tokens_of(lines: Seq<Seq<char>>) -> Seq<Seq<char>>
    decreases lines.len(),
{
    if lines.len() == 0 {
        Seq::<Seq<char>>::empty()
    } else {
        tokens_of(lines.drop_last()) + split(lines.last())
    }
}

/// The form in which a matching adjective and noun are recorded: both in
/// lower case.
pub open spec fn stored(adjective: Seq<char>, noun: Seq<char>) -> Pair {
    (lower(adjective), lower(noun))
}

/// Whether the token at `i` is a known adjective and the token after it a
/// known noun.
pub open spec fn matches_at(
    tokens: Seq<Seq<char>>,
    i: int,
    adjectives: Set<Seq<char>>,
    nouns: Set<Seq<char>>,
) -> bool {
    0 <= i && i + 1 < tokens.len() && is_known(adjectives, tokens[i]) && is_known(
        nouns,
        tokens[i + 1],
    )
}

/// The pairs that a sequence of tokens attests: one for each position at
/// which a known adjective stands directly before a known noun.
pub open spec fn found_pairs(
    tokens: Seq<Seq<char>>,
    adjectives: Set<Seq<char>>,
    nouns: Set<Seq<char>>,
) -> Set<Pair> {
    Set::new(
        |p: Pair|
            exists|i: int| #[trigger]
                matches_at(tokens, i, adjectives, nouns) && p == stored(tokens[i], tokens[i + 1]),
    )
}

/// What one more token adds to the pairs found: the pair it forms with
/// the token before it, if the two match.
proof fn lemma_found_pairs_push(
    tokens: Seq<Seq<char>>,
    token: Seq<char>,
    adjectives: Set<Seq<char>>,
    nouns: Set<Seq<char>>,
)
    ensures
        found_pairs(tokens.push(token), adjectives, nouns) == if tokens.len() > 0 && is_known(
            adjectives,
            tokens.last(),
        ) && is_known(nouns, token) {
            found_pairs(tokens, adjectives, nouns).insert(stored(tokens.last(), token))
        } else {
            found_pairs(tokens, adjectives, nouns)
        },
{
    let longer = tokens.push(token);
    let before = found_pairs(tokens, adjectives, nouns);
    let after = found_pairs(longer, adjectives, nouns);
    let n = tokens.len() as int;
    assert forall|p: Pair| before.contains(p) implies after.contains(p) by {
        let i = choose|i: int| #[trigger]
            matches_at(tokens, i, adjectives, nouns) && p == stored(tokens[i], tokens[i + 1]);
        assert(matches_at(longer, i, adjectives, nouns));
    }
    assert forall|p: Pair| after.contains(p) implies before.contains(p) || (n > 0 && is_known(
        adjectives,
        tokens.last(),
    ) && is_known(nouns, token) && p == stored(tokens.last(), token)) by {
        let i = choose|i: int| #[trigger]
            matches_at(longer, i, adjectives, nouns) && p == stored(longer[i], longer[i + 1]);
        if i + 1 < n {
            assert(matches_at(tokens, i, adjectives, nouns));
        }
    }
    if n > 0 && is_known(adjectives, tokens.last()) && is_known(nouns, token) {
        assert(matches_at(longer, n - 1, adjectives, nouns));
        assert(after =~= before.insert(stored(tokens.last(), token)));
    } else {
        assert(after =~= before);
    }
}

/// Whether `word` is in lower case and is the lower-case form of a word of
/// the vocabulary.
pub open spec fn is_lower_form_in(vocabulary: Set<Seq<char>>, word: Seq<char>) -> bool {
    lower(word) == word && exists|entry: Seq<char>| #[trigger]
        vocabulary.contains(entry) && lower(entry) == word
}

/// Whether a pair is made of the vocabulary: its adjective the lower-case
/// form of a known adjective, its noun the lower-case form of a known noun.
pub open spec fn from_vocabulary(
    pair: Pair,
    adjectives: Set<Seq<char>>,
    nouns: Set<Seq<char>>,
) -> bool {
    is_lower_form_in(adjectives, pair.0) && is_lower_form_in(nouns, pair.1)
}

/// A known token, put in lower case, is the lower-case form of a word of
/// the vocabulary.
proof fn lemma_known_lower_form(vocabulary: Set<Seq<char>>, token: Seq<char>)
    requires
        is_known(vocabulary, token),
    ensures
        is_lower_form_in(vocabulary, lower(token)),
{
    lemma_lower_idempotent(token);
    if vocabulary.contains(lower(token)) {
        assert(vocabulary.contains(lower(token)) && lower(lower(token)) == lower(token));
    } else {
        assert(vocabulary.contains(token) && lower(token) == lower(token));
    }
}

/// Scanning never records a pair that is not made of the vocabulary: if
/// every pair held before the scan is made of it, so is every pair held
/// after.
pub proof fn lemma_scan_stays_in_vocabulary(
    held: Set<Pair>,
    lines: Seq<Seq<char>>,
    adjectives: Set<Seq<char>>,
    nouns: Set<Seq<char>>,
)
    requires
        forall|p: Pair| held.contains(p) ==> from_vocabulary(p, adjectives, nouns),
    ensures
        forall|p: Pair| #[trigger]
            held.union(found_pairs(tokens_of(lines), adjectives, nouns)).contains(p)
                ==> from_vocabulary(p, adjectives, nouns),
{
    let tokens = tokens_of(lines);
    assert forall|p: Pair| #[trigger]
        held.union(found_pairs(tokens, adjectives, nouns)).contains(p) implies from_vocabulary(
        p,
        adjectives,
        nouns,
    ) by {
        if !held.contains(p) {
            let i = choose|i: int| #[trigger]
                matches_at(tokens, i, adjectives, nouns) && p == stored(tokens[i], tokens[i + 1]);
            lemma_known_lower_form(adjectives, tokens[i]);
            lemma_known_lower_form(nouns, tokens[i + 1]);
        }
    }
}

/// Where every word of a vocabulary is in lower case, a word that is a
/// lower-case form in it is a word of the vocabulary itself.
pub proof fn lemma_lower_form_in_lower_vocabulary(vocabulary: Set<Seq<char>>, word: Seq<char>)
    requires
        forall|entry: Seq<char>| vocabulary.contains(entry) ==> lower(entry) == entry,
        is_lower_form_in(vocabulary, word),
    ensures
        vocabulary.contains(word),
{
}

/// The tokens of the first `k` lines stand at the start of the tokens of all
/// the lines.
proof fn lemma_tokens_of_prefix(lines: Seq<Seq<char>>, k: int)
    requires
        0 <= k <= lines.len(),
    ensures
        tokens_of(lines.take(k)).is_prefix_of(tokens_of(lines)),
    decreases lines.len(),
{
    if k == lines.len() {
        assert(lines.take(k) == lines);
    } else {
        assert(lines.drop_last().take(k) == lines.take(k));
        lemma_tokens_of_prefix(lines.drop_last(), k);
    }
}

/// Tokens are adjacent across a line end. Where the last token of a line
/// is a known adjective and the first token of the next line a known noun,
/// the pair of the two is found.
pub proof fn lemma_pair_across_lines(
    lines: Seq<Seq<char>>,
    i: int,
    adjectives: Set<Seq<char>>,
    nouns: Set<Seq<char>>,
)
    requires
        0 <= i,
        i + 1 < lines.len(),
        is_known(adjectives, split(lines[i]).last()),
        is_known(nouns, split(lines[i + 1]).first()),
    ensures
        found_pairs(tokens_of(lines), adjectives, nouns).contains(
            stored(split(lines[i]).last(), split(lines[i + 1]).first()),
        ),
{
    let ending = split(lines[i]);
    let starting = split(lines[i + 1]);
    lemma_split_len(lines[i]);
    lemma_split_len(lines[i + 1]);
    let before = tokens_of(lines.take(i));
    let both = tokens_of(lines.take(i + 2));
    assert(lines.take(i + 1).drop_last() == lines.take(i));
    assert(lines.take(i + 1).last() == lines[i]);
    assert(tokens_of(lines.take(i + 1)) == before + ending);
    assert(lines.take(i + 2).drop_last() == lines.take(i + 1));
    assert(lines.take(i + 2).last() == lines[i + 1]);
    assert(both == before + ending + starting);
    lemma_tokens_of_prefix(lines, i + 2);
    let tokens = tokens_of(lines);
    let at = before.len() + ending.len() - 1;
    assert(tokens[at] == both[at]);
    assert(tokens[at + 1] == both[at + 1]);
    assert(matches_at(tokens, at, adjectives, nouns));
}

/// Matching is blind to the case of ASCII letters. Where every word of
/// the vocabulary is in lower case, two texts whose tokens are the same
/// once put in lower case attest the same pairs.
pub proof fn lemma_scan_ignores_case(
    tokens: Seq<Seq<char>>,
    others: Seq<Seq<char>>,
    adjectives: Set<Seq<char>>,
    nouns: Set<Seq<char>>,
)
    requires
        forall|w: Seq<char>| adjectives.contains(w) ==> lower(w) == w,
        forall|w: Seq<char>| nouns.contains(w) ==> lower(w) == w,
        tokens.len() == others.len(),
        forall|i: int| 0 <= i < tokens.len() ==> lower(tokens[i]) == lower(others[i]),
    ensures
        found_pairs(tokens, adjectives, nouns) == found_pairs(others, adjectives, nouns),
{
    assert forall|i: int|
        matches_at(tokens, i, adjectives, nouns) == matches_at(others, i, adjectives, nouns) by {}
    assert forall|p: Pair|
        found_pairs(tokens, adjectives, nouns).contains(p) <==> found_pairs(
            others,
            adjectives,
            nouns,
        ).contains(p) by {
        if found_pairs(tokens, adjectives, nouns).contains(p) {
            let i = choose|i: int| #[trigger]
                matches_at(tokens, i, adjectives, nouns) && p == stored(tokens[i], tokens[i + 1]);
            assert(matches_at(others, i, adjectives, nouns));
        }
        if found_pairs(others, adjectives, nouns).contains(p) {
            let i = choose|i: int| #[trigger]
                matches_at(others, i, adjectives, nouns) && p == stored(others[i], others[i + 1]);
            assert(matches_at(tokens, i, adjectives, nouns));
        }
    }
    assert(found_pairs(tokens, adjectives, nouns) =~= found_pairs(others, adjectives, nouns));
}

/// Scans `lines` and adds to `attested` every pair they attest. Tokens are
/// matched across line ends: the last token of a line is followed by the
/// first token of the next. Nothing is removed from `attested`.
pub fn add_pairs(
    attested: &mut AttestedSet,
    lines: Vec<String>,
    adjectives: &Vocabulary,
    nouns: &Vocabulary,
)
    ensures
        final(attested)@ == old(attested)@.union(
            found_pairs(tokens_of(lines.deep_view()), adjectives@, nouns@),
        ),
{
    let ghost start = attested@;
    let ghost texts = lines.deep_view();
    let ghost mut seen: Seq<Seq<char>> = Seq::empty();
    // The lower-case form of the last token seen, if it is a known adjective.
    let mut open_adjective: Option<String> = None;
    proof {
        assert(found_pairs(seen, adjectives@, nouns@) =~= Set::<Pair>::empty());
        assert(start.union(Set::<Pair>::empty()) =~= start);
        assert(texts.take(0) =~= Seq::<Seq<char>>::empty());
    }
    let line_count: usize = lines.len();
    for i in 0..line_count
        invariant
            line_count == lines.len(),
            texts == lines.deep_view(),
            seen == tokens_of(texts.take(i as int)),
            attested@ == start.union(found_pairs(seen, adjectives@, nouns@)),
            open_adjective matches Some(a) ==> seen.len() > 0 && is_known(adjectives@, seen.last())
                && a@ == lower(seen.last()),
            open_adjective is None ==> seen.len() == 0 || !is_known(adjectives@, seen.last()),
    {
        let tokens = tokenize(lines[i].as_str());
        let ghost before_line = seen;
        let ghost words = tokens.deep_view();
        proof {
            assert(texts.take(i + 1).drop_last() == texts.take(i as int));
            assert(texts.take(i + 1).last() == lines[i as int]@);
            assert(before_line + words.take(0) == before_line);
        }
        let token_count: usize = tokens.len();
        for k in 0..token_count
            invariant
                token_count == tokens.len(),
                words == tokens.deep_view(),
                seen == before_line + words.take(k as int),
                attested@ == start.union(found_pairs(seen, adjectives@, nouns@)),
                open_adjective matches Some(a) ==> seen.len() > 0 && is_known(
                    adjectives@,
                    seen.last(),
                ) && a@ == lower(seen.last()),
                open_adjective is None ==> seen.len() == 0 || !is_known(adjectives@, seen.last()),
        {
            let token = tokens[k].as_str();
            let lowered = to_lower(token);
            proof {
                lemma_found_pairs_push(seen, token@, adjectives@, nouns@);
                assert(before_line + words.take(k + 1) == (before_line + words.take(k as int)).push(
                    token@,
                ));
            }
            if let Some(adjective) = open_adjective {
                if nouns.contains(lowered.as_str()) || nouns.contains(token) {
                    attested.insert((adjective, lowered.clone()));
                    proof {
                        let pair = stored(seen.last(), token@);
                        let found = found_pairs(seen, adjectives@, nouns@);
                        assert(start.union(found).insert(pair) =~= start.union(found.insert(pair)));
                    }
                }
            }
            open_adjective = if adjectives.contains(lowered.as_str()) || adjectives.contains(token) {
                Some(lowered)
            } else {
                None
            };
            proof {
                seen = seen.push(token@);
            }
        }
        proof {
            assert(words.take(token_count as int) == words);
        }
    }
    proof {
        assert(texts.take(line_count as int) == texts);
    }
}

} // verus!
