use zbus::text::{fields, Text};

#[test]
fn fields_split_like_str_split() {
    for s in ["a/b/c", "", "/", "a//b", "abc/", "/x", "héllo/wörld"] {
        let expected: Vec<String> = s.split('/').map(|p| p.to_string()).collect();
        assert_eq!(fields(s, '/'), expected);
    }
}

#[test]
fn fields_on_nul() {
    assert_eq!(fields("ZBX\0why\0more", '\0'), vec!["ZBX", "why", "more"]);
}

#[test]
fn text_matches_regex_from_start() {
    let mut t = Text::new("error: disk full".to_string());
    assert!(t.matches("disk".to_string()));
    assert!(!t.matches("^disk".to_string()));
    assert!(t.matches(String::new()));
    assert_eq!(t.raw(), "error: disk full");
}

#[test]
fn empty_text_matches_only_empty_patterns() {
    let mut t = Text::new(String::new());
    assert!(t.matches(String::new()));
    assert!(!t.matches("a".to_string()));
}

#[test]
fn fields_join_back_to_text() {
    for s in ["a/b/c", "", "//", "x", "a/", "/a/b//"] {
        assert_eq!(fields(s, '/').join("/"), s);
    }
}
