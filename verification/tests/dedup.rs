use marcopolo::dedup::{dedup_by_string_key, dedup_by_key, dedup_strings};

#[test]
fn dedup_removes_duplicates() {
    let input = vec!["a".into(), "b".into(), "a".into(), "c".into()];
    assert_eq!(
        dedup_strings(input),
        vec!["a".to_string(), "b".to_string(), "c".to_string()]
    );
}

#[test]
fn dedup_preserves_order() {
    let input = vec!["z".into(), "a".into(), "m".into(), "a".into()];
    assert_eq!(
        dedup_strings(input),
        vec!["z".to_string(), "a".to_string(), "m".to_string()]
    );
}

#[test]
fn dedup_empty_vec() {
    assert!(dedup_strings(vec![]).is_empty());
}

#[test]
fn dedup_all_duplicates() {
    let input = vec!["x".into(), "x".into(), "x".into()];
    assert_eq!(dedup_strings(input), vec!["x".to_string()]);
}

#[test]
fn dedup_by_key_basic() {
    let v = vec![("a", 1usize), ("b", 2), ("a", 3)];
    let got = dedup_by_key(v, |(k, _)| *k);
    assert_eq!(got, vec![("a", 1), ("b", 2)]);
}

#[test]
fn dedup_by_key_empty() {
    let v: Vec<(i32, i32)> = vec![];
    assert!(dedup_by_key(v, |(k, _)| *k).is_empty());
}

#[test]
fn dedup_strings_is_idempotent() {
    let once = dedup_strings(vec!["b".into(), "a".into(), "b".into(), "c".into(), "a".into()]);
    assert_eq!(once, vec!["b".to_string(), "a".to_string(), "c".to_string()]);
    assert_eq!(dedup_strings(once.clone()), once);
}

#[test]
fn dedup_by_key_keeps_first_item_per_key() {
    let v = vec![(3, 'a'), (1, 'b'), (3, 'c'), (2, 'd'), (1, 'e')];
    assert_eq!(dedup_by_key(v, |p| p.0), vec![(3, 'a'), (1, 'b'), (2, 'd')]);
}

#[test]
fn dedup_by_string_key_keeps_first_per_text() {
    let v = dedup_by_string_key(vec![("a", 1), ("b", 2), ("a", 3)], |(k, _)| k.to_string());
    assert_eq!(v, vec![("a", 1), ("b", 2)]);
    let calls = std::cell::Cell::new(0);
    let w = dedup_by_string_key(vec!["x/1", "x/2", "y/1"], |s: &&str| {
        calls.set(calls.get() + 1);
        s.split('/').next().unwrap().to_string()
    });
    assert_eq!(w, vec!["x/1", "y/1"]);
    assert_eq!(calls.get(), 3);
    assert!(dedup_by_string_key(Vec::<u8>::new(), |b| b.to_string()).is_empty());
}
