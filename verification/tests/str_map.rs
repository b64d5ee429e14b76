use particle_node::str_map::StrMap;

#[test]
fn empty_map() {
    let m: StrMap<u32> = StrMap::new();
    assert_eq!(m.len(), 0);
    assert_eq!(m.get("a"), None);
    assert!(!m.contains_key("a"));
    assert_eq!(m.position("a"), None);
}

#[test]
fn insert_then_get() {
    let mut m: StrMap<u32> = StrMap::new();
    assert_eq!(m.insert("a".to_string(), 1), None);
    assert_eq!(m.insert("b".to_string(), 2), None);
    assert_eq!(m.len(), 2);
    assert_eq!(m.get("a"), Some(&1));
    assert_eq!(m.get("b"), Some(&2));
    assert_eq!(m.get("c"), None);
    assert!(m.contains_key("b"));
}

#[test]
fn insert_replaces() {
    let mut m: StrMap<u32> = StrMap::new();
    m.insert("a".to_string(), 1);
    assert_eq!(m.insert("a".to_string(), 5), Some(1));
    assert_eq!(m.len(), 1);
    assert_eq!(m.get("a"), Some(&5));
}

#[test]
fn remove_takes_entry_out() {
    let mut m: StrMap<u32> = StrMap::new();
    m.insert("a".to_string(), 1);
    m.insert("b".to_string(), 2);
    m.insert("c".to_string(), 3);
    assert_eq!(m.remove("a"), Some(1));
    assert_eq!(m.remove("a"), None);
    assert_eq!(m.len(), 2);
    assert_eq!(m.get("b"), Some(&2));
    assert_eq!(m.get("c"), Some(&3));
    assert_eq!(m.remove("zzz"), None);
    assert_eq!(m.len(), 2);
}

#[test]
fn positions_and_entries() {
    let mut m: StrMap<u32> = StrMap::new();
    m.push_new("a".to_string(), 1);
    m.push_new("b".to_string(), 2);
    m.push_new("c".to_string(), 3);
    assert_eq!(m.position("b"), Some(1));
    assert_eq!(m.key_at(2), "c");
    assert_eq!(*m.value_at(2), 3);
    m.set_value_at(1, 20);
    assert_eq!(m.get("b"), Some(&20));
    assert_eq!(m.replace_value_at(1, 21), 20);
    assert_eq!(m.get("b"), Some(&21));
    assert_eq!(m.remove_at(0), ("a".to_string(), 1));
    assert_eq!(m.len(), 2);
    assert_eq!(m.get("c"), Some(&3));
    assert_eq!(m.get("b"), Some(&21));
    assert_eq!(m.get("a"), None);
}
