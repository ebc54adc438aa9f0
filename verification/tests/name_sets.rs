use towny_bot::names::NameSet;

#[test]
fn insert_holds_each_name_once() {
    let mut set = NameSet::new();
    assert_eq!(set.len(), 0);
    assert!(set.first().is_none());
    assert!(set.insert("Bob".to_string()));
    assert!(!set.insert("Bob".to_string()));
    assert!(set.insert("Ann".to_string()));
    assert_eq!(set.len(), 2);
    assert!(set.contains(&"Ann".to_string()));
    assert!(!set.contains(&"ann".to_string()));
    assert_eq!(set.first(), Some("Bob".to_string()));
    assert_eq!(set.to_vec(), vec!["Bob".to_string(), "Ann".to_string()]);
}

#[test]
fn extend_is_union() {
    let mut a = NameSet::new();
    a.insert("x".to_string());
    a.insert("y".to_string());
    let mut b = NameSet::new();
    b.insert("y".to_string());
    b.insert("z".to_string());
    a.extend(&b);
    assert_eq!(a.len(), 3);
    for n in ["x", "y", "z"] {
        assert!(a.contains(&n.to_string()));
    }
}
