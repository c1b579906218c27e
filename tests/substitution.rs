use uint_bounds::substitution::Substitution;

#[test]
fn insert_then_get_with_suffix() {
    let mut s = Substitution::new();
    assert_eq!(s.insert("x".to_string(), "v".to_string()), None);
    assert_eq!(s.get("x_b3"), Some("v_b3".to_string()));
    assert_eq!(s.get("x"), Some("v".to_string()));
    assert_eq!(s.get("y"), None);
}

#[test]
fn insert_strips_suffix_and_overwrites() {
    let mut s = Substitution::new();
    assert_eq!(s.insert("a_b7".to_string(), "one".to_string()), None);
    assert_eq!(s.get("a"), Some("one".to_string()));
    assert_eq!(s.insert("a".to_string(), "two".to_string()), Some("one".to_string()));
    assert_eq!(s.get("a_b0"), Some("two_b0".to_string()));
}

#[test]
fn contains_key_uses_base() {
    let mut s = Substitution::new();
    s.insert("k".to_string(), "w".to_string());
    assert!(s.contains_key("k_b12"));
    assert!(s.contains_key("k"));
    assert!(!s.contains_key("q_b1"));
}

#[test]
fn only_first_suffix_is_kept() {
    let mut s = Substitution::new();
    s.insert("x".to_string(), "v".to_string());
    assert_eq!(s.get("x_b3_b4"), Some("v_b3".to_string()));
    assert_eq!(s.get("x_b"), Some("v_b".to_string()));
}
