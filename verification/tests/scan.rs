use extract_attested::{add_pairs, AttestedSet, Vocabulary};

const ADJ: &str = "adj";
const NOUN: &str = "noun";

fn adj() -> String {
    ADJ.to_string()
}

fn noun() -> String {
    NOUN.to_string()
}

fn words(list: &[&str]) -> Vocabulary {
    Vocabulary::from_words(&list.iter().map(|w| w.to_string()).collect())
}

fn pair(adjective: &str, noun: &str) -> (String, String) {
    (adjective.to_string(), noun.to_string())
}

fn scan(lines: &[&str], adjectives: &[&str], nouns: &[&str]) -> Vec<(String, String)> {
    let mut attested = AttestedSet::new();
    add_pairs(
        &mut attested,
        lines.iter().map(|l| l.to_string()).collect(),
        &words(adjectives),
        &words(nouns),
    );
    attested.into_vec()
}

#[test]
fn add_pairs_works_on_this_singleline_example() {
    let mut attested = AttestedSet::new();

    add_pairs(
        &mut attested,
        vec![format!("{} {}", adj(), noun())],
        &Vocabulary::from_words(&vec![adj()]),
        &Vocabulary::from_words(&vec![noun()]),
    );

    assert!(attested.contains(&(adj(), noun())));
}

#[test]
fn add_pairs_works_on_this_multiline_example() {
    let mut attested = AttestedSet::new();

    add_pairs(
        &mut attested,
        vec![adj(), noun()],
        &Vocabulary::from_words(&vec![adj()]),
        &Vocabulary::from_words(&vec![noun()]),
    );

    assert!(attested.contains(&(adj(), noun())));
}

#[test]
fn capitalised_input_is_recorded_in_lower_case() {
    assert_eq!(scan(&["Adj Noun"], &["adj"], &["noun"]), vec![pair("adj", "noun")]);
}

#[test]
fn capitalised_vocabulary_matches_as_written_and_is_recorded_in_lower_case() {
    assert_eq!(scan(&["Adj Noun"], &["Adj"], &["Noun"]), vec![pair("adj", "noun")]);
}

#[test]
fn capitalised_vocabulary_does_not_match_other_casings() {
    assert_eq!(scan(&["adj noun", "ADJ NOUN"], &["Adj"], &["Noun"]), vec![]);
}

#[test]
fn adjective_and_noun_alone_on_two_lines_give_the_pair() {
    assert_eq!(scan(&["adj", "noun"], &["adj"], &["noun"]), vec![pair("adj", "noun")]);
}

#[test]
fn pair_is_found_across_a_line_end_in_running_text() {
    assert_eq!(
        scan(&["this is a very adj", "noun indeed"], &["adj"], &["noun"]),
        vec![pair("adj", "noun")]
    );
}

#[test]
fn only_the_first_token_of_the_next_line_is_looked_at() {
    assert_eq!(scan(&["adj", " noun"], &["adj"], &["noun"]), vec![]);
    assert_eq!(scan(&["adj ", "noun"], &["adj"], &["noun"]), vec![]);
    assert_eq!(scan(&["adj", "", "noun"], &["adj"], &["noun"]), vec![]);
}

#[test]
fn last_token_of_the_last_line_has_no_noun() {
    assert_eq!(scan(&["noun adj"], &["adj"], &["noun"]), vec![]);
}

#[test]
fn no_lines_give_no_pairs() {
    assert_eq!(scan(&[], &["adj"], &["noun"]), vec![]);
}

#[test]
fn tokens_must_be_adjacent() {
    assert_eq!(scan(&["adj the noun"], &["adj"], &["noun"]), vec![]);
    assert_eq!(scan(&["adj. noun"], &["adj"], &["noun"]), vec![]);
    assert_eq!(scan(&["adj  noun"], &["adj"], &["noun"]), vec![]);
}

#[test]
fn a_single_mark_between_the_two_still_gives_the_pair() {
    assert_eq!(scan(&["adj.noun"], &["adj"], &["noun"]), vec![pair("adj", "noun")]);
    assert_eq!(scan(&["\"adj\"noun\""], &["adj"], &["noun"]), vec![pair("adj", "noun")]);
}

#[test]
fn order_matters() {
    assert_eq!(scan(&["noun adj"], &["adj"], &["noun"]), vec![]);
}

#[test]
fn punctuation_inside_a_token_is_not_stripped() {
    assert_eq!(scan(&["adj noun's"], &["adj"], &["noun"]), vec![]);
    assert_eq!(scan(&["adj noun,"], &["adj"], &["noun"]), vec![]);
    assert_eq!(scan(&["(adj noun"], &["adj"], &["noun"]), vec![]);
}

#[test]
fn a_word_can_be_noun_and_then_adjective() {
    assert_eq!(
        scan(&["warm root beer"], &["warm", "root"], &["root", "beer"]),
        vec![pair("root", "beer"), pair("warm", "root")]
    );
}

#[test]
fn repeated_pairs_are_recorded_once() {
    assert_eq!(
        scan(&["adj noun adj noun", "Adj Noun"], &["adj"], &["noun"]),
        vec![pair("adj", "noun")]
    );
}

#[test]
fn scanning_only_adds() {
    let mut attested = AttestedSet::from_vec(vec![pair("old", "pair"), pair("zzz", "qqq")]);
    add_pairs(
        &mut attested,
        vec!["adj noun".to_string()],
        &words(&["adj"]),
        &words(&["noun"]),
    );
    assert_eq!(
        attested.into_vec(),
        vec![pair("adj", "noun"), pair("old", "pair"), pair("zzz", "qqq")]
    );
}

#[test]
fn every_pair_found_is_lower_case_and_from_the_vocabulary() {
    let adjectives = ["warm", "Cold", "big", "RED"];
    let nouns = ["beer", "Tea", "house", "CAR"];
    let found = scan(
        &["Warm beer! Cold Tea; BIG House: RED CAR? red car", "cold tea big", "house warm", "Beer"],
        &adjectives,
        &nouns,
    );
    assert_eq!(
        found,
        vec![
            pair("big", "house"),
            pair("cold", "tea"),
            pair("red", "car"),
            pair("warm", "beer"),
        ]
    );
    for (adjective, noun) in found {
        assert_eq!(adjective, adjective.to_ascii_lowercase());
        assert_eq!(noun, noun.to_ascii_lowercase());
        assert!(adjectives.iter().any(|a| a.to_ascii_lowercase() == adjective));
        assert!(nouns.iter().any(|n| n.to_ascii_lowercase() == noun));
    }
}

#[test]
fn only_ascii_letters_are_lower_cased() {
    assert_eq!(scan(&["Élan Vital"], &["élan"], &["vital"]), vec![]);
    assert_eq!(scan(&["Élan Vital"], &["Élan"], &["vital"]), vec![pair("Élan", "vital")]);
}

#[test]
fn vocabulary_holds_its_words_letter_for_letter() {
    let vocabulary = words(&["adj", "Noun"]);
    assert!(vocabulary.contains("adj"));
    assert!(vocabulary.contains("Noun"));
    assert!(!vocabulary.contains("noun"));
    assert!(!vocabulary.contains("Adj"));
    assert!(!vocabulary.contains(""));
}

#[test]
fn vocabulary_takes_new_words() {
    let mut vocabulary = Vocabulary::new();
    assert!(!vocabulary.contains("adj"));
    vocabulary.insert("adj".to_string());
    assert!(vocabulary.contains("adj"));
}
