use modulus::paths::{is_valid_path, is_valid_segment};

#[test]
fn path_grammar_accepts_namespaced_names() {
    assert!(is_valid_path("a"));
    assert!(is_valid_path("base::input::up"));
    assert!(is_valid_path("x_1::y_2"));
    assert!(is_valid_path("snake_case_segment"));
}

#[test]
fn path_grammar_rejects_malformed_names() {
    assert!(!is_valid_path(""));
    assert!(!is_valid_path("_x"));
    assert!(!is_valid_path("x_"));
    assert!(!is_valid_path("Has::Upper"));
    assert!(!is_valid_path("a::"));
    assert!(!is_valid_path("::a"));
    assert!(!is_valid_path("a::b_::c"));
    assert!(!is_valid_path("a:::b"));
    assert!(!is_valid_path("a.b"));
}

#[test]
fn segment_check_inspects_the_given_range() {
    // the whole string
    assert!(is_valid_segment("abc", 0, 3));
    assert!(!is_valid_segment("_ab", 0, 3));
    assert!(!is_valid_segment("ab_", 0, 3));
    assert!(!is_valid_segment("abc", 1, 1));
    // a slice out of the middle
    assert!(is_valid_segment("a::bc::d", 3, 5));
    assert!(!is_valid_segment("a::B", 3, 4));
}
