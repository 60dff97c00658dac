use marcopolo::selection::parse_selection;

#[test]
fn select_single() {
    assert_eq!(parse_selection("1", 5), vec![0]);
}

#[test]
fn select_multiple_space() {
    assert_eq!(parse_selection("1 3 5", 5), vec![0, 2, 4]);
}

#[test]
fn select_multiple_comma() {
    assert_eq!(parse_selection("2,4", 5), vec![1, 3]);
}

#[test]
fn select_range() {
    assert_eq!(parse_selection("1-3", 5), vec![0, 1, 2]);
}

#[test]
fn select_all_a() {
    assert_eq!(parse_selection("a", 3), vec![0, 1, 2]);
}

#[test]
fn select_all_word() {
    assert_eq!(parse_selection("all", 3), vec![0, 1, 2]);
}

#[test]
fn select_out_of_range_ignored() {
    // 6 is beyond count=5 → ignored
    assert_eq!(parse_selection("1 6", 5), vec![0]);
}

#[test]
fn select_zero_ignored() {
    // 0 is not a valid 1-based index
    assert_eq!(parse_selection("0 1", 5), vec![0]);
}

#[test]
fn select_deduplication() {
    // "1 1 2" → [0, 1]
    assert_eq!(parse_selection("1 1 2", 5), vec![0, 1]);
}

#[test]
fn select_invalid_returns_empty() {
    assert!(parse_selection("foo bar", 5).is_empty());
}

#[test]
fn select_q_returns_empty() {
    // "q" is not a valid token
    assert!(parse_selection("q", 5).is_empty());
}

#[test]
fn select_all_uppercase_with_spaces() {
    assert_eq!(parse_selection("  ALL \n", 2), vec![0, 1]);
}

#[test]
fn select_all_with_zero_items() {
    assert!(parse_selection("a", 0).is_empty());
}

#[test]
fn select_range_clamped_to_count() {
    assert_eq!(parse_selection("0-9", 3), vec![0, 1, 2]);
}

#[test]
fn select_reversed_range_is_empty() {
    assert!(parse_selection("4-2", 5).is_empty());
}

#[test]
fn select_range_with_huge_end() {
    assert_eq!(parse_selection("2-18446744073709551615", 3), vec![1, 2]);
}

#[test]
fn select_number_overflowing_usize_ignored() {
    assert_eq!(parse_selection("99999999999999999999999 2", 3), vec![1]);
}

#[test]
fn select_plus_sign_accepted() {
    assert_eq!(parse_selection("+2", 3), vec![1]);
}

#[test]
fn select_minus_sign_rejected() {
    assert!(parse_selection("-2", 3).is_empty());
}

#[test]
fn select_mixed_separators_and_order_kept() {
    assert_eq!(parse_selection("3, 1-2,3 2", 5), vec![2, 0, 1]);
}

#[test]
fn select_second_dash_makes_token_invalid() {
    assert_eq!(parse_selection("1-2-3 4", 5), vec![3]);
}

#[test]
fn select_result_in_range_and_distinct() {
    let r = parse_selection("5 4 3 2 1 1 2 7-9 3-4", 5);
    assert_eq!(r, vec![4, 3, 2, 1, 0]);
    for (i, a) in r.iter().enumerate() {
        assert!(*a < 5);
        for b in r.iter().skip(i + 1) {
            assert_ne!(a, b);
        }
    }
}
