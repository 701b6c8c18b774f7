use locker::OrderedMap;

fn text(s: &str) -> String {
    s.to_string()
}

#[test]
fn a_new_map_is_empty() {
    let map: OrderedMap<String> = OrderedMap::new();
    assert!(map.is_empty());
    assert_eq!(map.len(), 0);
    assert!(!map.contains_key("a"));
    assert!(map.get("a").is_none());
    assert!(map.entries().is_empty());
}

#[test]
fn insert_appends_a_new_key() {
    let mut map = OrderedMap::new();
    assert_eq!(map.insert(text("b"), text("1")), None);
    assert_eq!(map.insert(text("a"), text("2")), None);
    assert_eq!(map.len(), 2);
    assert!(!map.is_empty());
    assert!(map.contains_key("a"));
    assert!(map.contains_key("b"));
    assert!(!map.contains_key("c"));
    assert_eq!(map.get("a"), Some(&text("2")));
    assert_eq!(map.get("b"), Some(&text("1")));
    assert_eq!(
        map.entries(),
        &vec![(text("b"), text("1")), (text("a"), text("2"))]
    );
}

#[test]
fn insert_replaces_the_value_of_a_present_key_in_place() {
    let mut map = OrderedMap::new();
    map.insert(text("a"), text("1"));
    map.insert(text("b"), text("2"));
    map.insert(text("c"), text("3"));
    assert_eq!(map.insert(text("b"), text("4")), Some(text("2")));
    assert_eq!(map.len(), 3);
    assert_eq!(map.get("b"), Some(&text("4")));
    assert_eq!(
        map.into_entries(),
        vec![
            (text("a"), text("1")),
            (text("b"), text("4")),
            (text("c"), text("3"))
        ]
    );
}

#[test]
fn keys_are_compared_exactly() {
    let mut map = OrderedMap::new();
    map.insert(text("Key"), text("1"));
    assert!(!map.contains_key("key"));
    assert!(!map.contains_key("Ke"));
    assert!(!map.contains_key("Key "));
    assert!(!map.contains_key(""));
    assert!(map.contains_key("Key"));
}

#[test]
fn the_empty_string_is_a_key_like_any_other() {
    let mut map = OrderedMap::new();
    map.insert(text(""), text("nothing"));
    assert!(map.contains_key(""));
    assert_eq!(map.get(""), Some(&text("nothing")));
}

#[test]
fn a_clone_holds_the_same_entries() {
    let mut map = OrderedMap::new();
    map.insert(text("a"), vec![text("x"), text("y")]);
    map.insert(text("b"), vec![]);
    let copy = map.clone();
    assert_eq!(copy.entries(), map.entries());
    assert_eq!(copy.len(), 2);
}
