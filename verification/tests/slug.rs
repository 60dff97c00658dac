use marcopolo::slug::slug;

#[test]
fn slug_basic_title() {
    assert_eq!(slug("Clean Code"), "Clean_Code");
}

#[test]
fn slug_removes_outer_underscores() {
    assert_eq!(slug("!!Refactoring!!"), "Refactoring");
}

#[test]
fn slug_handles_symbols() {
    assert_eq!(slug("C++ Primer, 5th Edition"), "C___Primer__5th_Edition");
}

#[test]
fn slug_keeps_hyphens() {
    assert_eq!(slug("Design-Patterns"), "Design-Patterns");
}

#[test]
fn slug_empty_input() {
    assert_eq!(slug(""), "");
}

#[test]
fn slug_unicode_alphanum_kept() {
    assert_eq!(slug("café"), "café");
}

#[test]
fn slug_all_separators() {
    assert_eq!(slug("a/b\\c:d"), "a_b_c_d");
}

#[test]
fn slug_single_char() {
    assert_eq!(slug("A"), "A");
    assert_eq!(slug("."), "");
}

#[test]
fn slug_is_idempotent() {
    for s in ["C++ Primer, 5th Edition", "__x__", "a--b", "  ", "日本 語!"] {
        let once = slug(s);
        assert_eq!(slug(&once), once);
    }
}

#[test]
fn slug_keeps_inner_underscores() {
    assert_eq!(slug("_a_b_"), "a_b");
}

#[test]
fn slug_shape() {
    let s = slug("?? Hello, World! --");
    assert_eq!(s, "Hello__World__--");
    assert!(!s.starts_with('_') && !s.ends_with('_'));
    assert!(s.chars().all(|c| c.is_alphanumeric() || c == '-' || c == '_'));
}
