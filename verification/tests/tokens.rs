use extract_attested::tokens::is_delimiter_char;
use extract_attested::tokenize;

#[test]
fn tokenize_splits_on_a_space() {
    assert_eq!(tokenize("adj noun"), vec!["adj", "noun"]);
}

#[test]
fn tokenize_gives_one_token_for_a_line_without_delimiters() {
    assert_eq!(tokenize("adjective"), vec!["adjective"]);
}

#[test]
fn tokenize_gives_one_empty_token_for_an_empty_line() {
    assert_eq!(tokenize(""), vec![""]);
}

#[test]
fn tokenize_keeps_empty_tokens_between_delimiters() {
    assert_eq!(tokenize("a. b"), vec!["a", "", "b"]);
    assert_eq!(tokenize(" a "), vec!["", "a", ""]);
    assert_eq!(tokenize("?!"), vec!["", "", ""]);
}

#[test]
fn tokenize_splits_on_each_mark() {
    assert_eq!(tokenize("a.b!c?d\"e:f;g"), vec!["a", "b", "c", "d", "e", "f", "g"]);
}

#[test]
fn tokenize_splits_on_other_whitespace() {
    assert_eq!(tokenize("a\tb\u{a0}c\u{2003}d"), vec!["a", "b", "c", "d"]);
}

#[test]
fn tokenize_does_not_split_on_other_punctuation() {
    assert_eq!(tokenize("cat's, (well-fed)"), vec!["cat's,", "(well-fed)"]);
}

#[test]
fn tokenize_agrees_with_split_of_str() {
    let lines = ["", " ", "The quick. Brown fox!", "a;;b::c", "  lead and trail  ", "tab\there"];
    for line in lines {
        let expected: Vec<String> = line
            .split(|c: char| {
                c.is_whitespace() || c == '.' || c == '!' || c == '?' || c == '"' || c == ':' || c == ';'
            })
            .map(|t| t.to_string())
            .collect();
        assert_eq!(tokenize(line), expected);
    }
}

#[test]
fn delimiters_are_whitespace_and_six_marks() {
    for c in [' ', '\t', '\n', '\u{a0}', '.', '!', '?', '"', ':', ';'] {
        assert!(is_delimiter_char(c));
    }
    for c in ['a', 'Z', '0', ',', '\'', '-', '(', ')', 'é'] {
        assert!(!is_delimiter_char(c));
    }
}
