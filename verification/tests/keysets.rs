use locale_audit::keyset::KeySet;

fn owned(keys: &[&str]) -> Vec<String> {
    keys.iter().map(|key| key.to_string()).collect()
}

#[test]
fn new_set_is_empty() {
    let keys = KeySet::new();
    assert!(keys.is_empty());
    assert_eq!(keys.len(), 0);
    assert!(!keys.contains("A"));
    assert!(keys.keys().is_empty());
}

#[test]
fn insert_says_whether_the_key_is_new() {
    let mut keys = KeySet::new();
    assert!(keys.insert("A".to_string()));
    assert!(keys.insert("B".to_string()));
    assert!(!keys.insert("A".to_string()));
    assert_eq!(keys.len(), 2);
    assert!(keys.contains("A"));
    assert!(keys.contains("B"));
    assert!(!keys.contains("C"));
    assert!(!keys.is_empty());
    assert_eq!(keys.keys(), &owned(&["A", "B"]));
}

#[test]
fn contains_compares_whole_keys() {
    let mut keys = KeySet::new();
    keys.insert("Title".to_string());
    assert!(!keys.contains("Titl"));
    assert!(!keys.contains("Titles"));
    assert!(!keys.contains("title"));
    assert!(!keys.contains(""));
    assert!(keys.contains("Title"));
}

#[test]
fn empty_key_can_be_held() {
    let mut keys = KeySet::new();
    assert!(keys.insert(String::new()));
    assert!(keys.contains(""));
    assert_eq!(keys.len(), 1);
}

#[test]
fn merge_is_the_union() {
    let mut left = KeySet::from_keys(&owned(&["A", "B"]));
    let right = KeySet::from_keys(&owned(&["B", "C", "A", "D"]));
    left.merge(&right);
    assert_eq!(left.keys(), &owned(&["A", "B", "C", "D"]));
    assert_eq!(left.len(), 4);
    assert_eq!(right.len(), 4);
}

#[test]
fn merge_only_grows() {
    let mut keys = KeySet::from_keys(&owned(&["A", "B"]));
    keys.merge(&KeySet::new());
    assert_eq!(keys.keys(), &owned(&["A", "B"]));
    let mut empty = KeySet::new();
    empty.merge(&keys);
    assert_eq!(empty.keys(), &owned(&["A", "B"]));
}

#[test]
fn merge_order_does_not_change_the_set() {
    let a = KeySet::from_keys(&owned(&["A", "B"]));
    let b = KeySet::from_keys(&owned(&["C", "B"]));
    let mut first = KeySet::new();
    first.merge(&a);
    first.merge(&b);
    let mut second = KeySet::new();
    second.merge(&b);
    second.merge(&a);
    let mut x = first.keys().clone();
    let mut y = second.keys().clone();
    x.sort();
    y.sort();
    assert_eq!(x, y);
    assert_eq!(first.len(), second.len());
}

#[test]
fn from_keys_keeps_first_occurrences() {
    let keys = KeySet::from_keys(&owned(&["B", "A", "B", "C", "A"]));
    assert_eq!(keys.keys(), &owned(&["B", "A", "C"]));
    assert_eq!(keys.len(), 3);
}

#[test]
fn position_is_the_place_in_the_order() {
    let keys = KeySet::from_keys(&owned(&["B", "A", "B", "C"]));
    assert_eq!(keys.position("B"), Some(0));
    assert_eq!(keys.position("A"), Some(1));
    assert_eq!(keys.position("C"), Some(2));
    assert_eq!(keys.position("D"), None);
    assert_eq!(KeySet::new().position("A"), None);
}

#[test]
fn many_keys_are_all_found_again() {
    let mut keys = KeySet::new();
    for i in 0..5_000 {
        assert!(keys.insert(format!("Key{}", i)));
    }
    for i in 0..5_000 {
        assert!(!keys.insert(format!("Key{}", i)));
        assert_eq!(keys.position(&format!("Key{}", i)), Some(i));
    }
    assert_eq!(keys.len(), 5_000);
    assert!(!keys.contains("Key5000"));
}
