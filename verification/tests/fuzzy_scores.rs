use zbus::fuzzy::{max_levenshtein, str_match, str_match_damerau, str_match_levenshtein};

#[test]
fn skim_score_of_match() {
    assert!(str_match("hello world".to_string(), "hlo".to_string()) > 0);
}

#[test]
fn skim_score_without_match_is_zero() {
    assert_eq!(str_match("abc".to_string(), "xyz".to_string()), 0);
}

#[test]
fn skim_score_of_empty_pattern_is_zero() {
    assert_eq!(str_match("abc".to_string(), String::new()), 0);
}

#[test]
fn levenshtein_values() {
    assert_eq!(str_match_levenshtein("kitten".to_string(), "sitting".to_string()), 3);
    assert_eq!(str_match_levenshtein("book".to_string(), "back".to_string()), 2);
    assert_eq!(str_match_levenshtein("same".to_string(), "same".to_string()), 0);
}

#[test]
fn damerau_counts_transposition_once() {
    assert_eq!(str_match_damerau("hannah".to_string(), "hannha".to_string()), 1);
    assert_eq!(str_match_levenshtein("hannah".to_string(), "hannha".to_string()), 2);
}

#[test]
fn max_levenshtein_over_list() {
    let others = vec!["sitting".to_string(), "kitten".to_string(), "kitchen".to_string()];
    assert_eq!(max_levenshtein(&"kitten".to_string(), &others), 3);
    assert_eq!(max_levenshtein(&"kitten".to_string(), &vec![]), 0);
}
