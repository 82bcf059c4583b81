use keyforge::settings::Settings;

#[test]
fn insert_get_and_replace() {
    let mut s = Settings::new();
    assert_eq!(s.len(), 0);
    assert_eq!(s.get("a"), None);
    s.insert(String::from("a"), String::from("1"));
    s.insert(String::from("b"), String::from("2"));
    s.insert(String::from("a"), String::from("3"));
    assert_eq!(s.len(), 2);
    assert_eq!(s.get("a").map(String::as_str), Some("3"));
    assert_eq!(s.get("b").map(String::as_str), Some("2"));
    assert!(s.contains_key("b"));
    assert!(!s.contains_key("c"));
    let names: Vec<&str> = s.entries().iter().map(|(k, _)| k.as_str()).collect();
    assert_eq!(names, vec!["a", "b"]);
}

#[test]
fn duplicate_and_compare() {
    let mut s = Settings::new();
    s.insert(String::from("a"), String::from("1"));
    s.insert(String::from("b"), String::from("2"));
    let d = s.duplicate();
    assert!(d.same_as(&s));
    let mut t = Settings::new();
    t.insert(String::from("b"), String::from("2"));
    t.insert(String::from("a"), String::from("1"));
    assert!(t.same_as(&s));
    t.insert(String::from("a"), String::from("9"));
    assert!(!t.same_as(&s));
    let mut u = Settings::new();
    u.insert(String::from("a"), String::from("1"));
    assert!(!u.same_as(&s));
    assert!(!s.same_as(&u));
}
