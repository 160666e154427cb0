use extract_attested::attested::compare_pairs;
use extract_attested::text::Relation;
use extract_attested::AttestedSet;

fn pair(adjective: &str, noun: &str) -> (String, String) {
    (adjective.to_string(), noun.to_string())
}

#[test]
fn new_set_is_empty() {
    let set = AttestedSet::new();
    assert!(set.is_empty());
    assert_eq!(set.len(), 0);
    assert!(!set.contains(&pair("adj", "noun")));
}

#[test]
fn insert_reports_whether_the_pair_was_new() {
    let mut set = AttestedSet::new();
    assert!(set.insert(pair("adj", "noun")));
    assert!(!set.insert(pair("adj", "noun")));
    assert_eq!(set.len(), 1);
    assert!(!set.is_empty());
}

#[test]
fn contains_tells_held_pairs_from_others() {
    let mut set = AttestedSet::new();
    set.insert(pair("warm", "beer"));
    set.insert(pair("cold", "tea"));
    assert!(set.contains(&pair("warm", "beer")));
    assert!(set.contains(&pair("cold", "tea")));
    assert!(!set.contains(&pair("warm", "tea")));
    assert!(!set.contains(&pair("cold", "beer")));
    assert!(!set.contains(&pair("Warm", "beer")));
}

#[test]
fn into_vec_lists_by_adjective_then_noun() {
    let mut set = AttestedSet::new();
    for (a, n) in [("b", "x"), ("a", "z"), ("b", "a"), ("a", "y"), ("ab", "a"), ("a", "z")] {
        set.insert(pair(a, n));
    }
    assert_eq!(
        set.into_vec(),
        vec![pair("a", "y"), pair("a", "z"), pair("ab", "a"), pair("b", "a"), pair("b", "x")]
    );
}

#[test]
fn from_vec_drops_repeats_and_sorts() {
    let set = AttestedSet::from_vec(vec![pair("c", "d"), pair("a", "b"), pair("c", "d")]);
    assert_eq!(set.len(), 2);
    assert_eq!(set.into_vec(), vec![pair("a", "b"), pair("c", "d")]);
}

#[test]
fn from_vec_agrees_with_a_btree_set() {
    let listed = vec![
        pair("red", "car"),
        pair("Red", "car"),
        pair("blue", "sky"),
        pair("red", "Car"),
        pair("", "x"),
        pair("blue", ""),
        pair("red", "car"),
        pair("é", "e"),
    ];
    let expected: Vec<(String, String)> =
        std::collections::BTreeSet::from_iter(listed.clone()).into_iter().collect();
    assert_eq!(AttestedSet::from_vec(listed).into_vec(), expected);
}

#[test]
fn difference_keeps_what_the_other_lacks() {
    let found = AttestedSet::from_vec(vec![pair("a", "b"), pair("c", "d"), pair("e", "f")]);
    let known = AttestedSet::from_vec(vec![pair("c", "d"), pair("x", "y")]);
    assert_eq!(found.difference(&known).into_vec(), vec![pair("a", "b"), pair("e", "f")]);
}

#[test]
fn difference_with_itself_is_empty() {
    let found = AttestedSet::from_vec(vec![pair("a", "b")]);
    let known = AttestedSet::from_vec(vec![pair("a", "b")]);
    assert!(found.difference(&known).is_empty());
}

#[test]
fn compare_pairs_goes_by_adjective_first() {
    assert_eq!(compare_pairs(&pair("a", "z"), &pair("b", "a")), Relation::Before);
    assert_eq!(compare_pairs(&pair("b", "a"), &pair("a", "z")), Relation::After);
    assert_eq!(compare_pairs(&pair("a", "b"), &pair("a", "c")), Relation::Before);
    assert_eq!(compare_pairs(&pair("a", "c"), &pair("a", "b")), Relation::After);
    assert_eq!(compare_pairs(&pair("a", "b"), &pair("a", "b")), Relation::Same);
}
