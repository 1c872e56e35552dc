use marquage::collections::ObjectMap;
use marquage::data::value::Value;

fn n(x: u32) -> Value {
    Value::UnsignedIntegerNumber(x)
}

fn keys(m: &ObjectMap) -> Vec<String> {
    m.clone().into_entries().into_iter().map(|(k, _)| k).collect()
}

#[test]
fn insert_and_get() {
    let mut m = ObjectMap::new();
    assert!(m.is_empty());
    assert_eq!(m.insert("a".to_string(), n(1)), None);
    assert_eq!(m.insert("b".to_string(), n(2)), None);
    assert_eq!(m.insert("a".to_string(), n(3)), Some(n(1)));
    assert_eq!(m.len(), 2);
    assert_eq!(m.get("a"), Some(&n(3)));
    assert_eq!(m.get("z"), None);
    assert_eq!(keys(&m), vec!["a".to_string(), "b".to_string()]);
}

#[test]
fn insert_index_reports_the_place() {
    let mut m = ObjectMap::default();
    assert_eq!(m.insert_index("x".to_string(), n(1)), (0, None));
    assert_eq!(m.insert_index("y".to_string(), n(2)), (1, None));
    assert_eq!(m.insert_index("x".to_string(), n(5)), (0, Some(n(1))));
}

#[test]
fn get_mut_changes_in_place() {
    let mut m = ObjectMap::new();
    m.insert("a".to_string(), n(1));
    *m.get_mut("a").unwrap() = n(7);
    assert_eq!(m.get("a"), Some(&n(7)));
    assert!(m.get_mut("b").is_none());
}

#[test]
fn swap_remove_moves_the_last_entry() {
    let mut m = ObjectMap::from_entries(vec![
        ("a".to_string(), n(1)),
        ("b".to_string(), n(2)),
        ("c".to_string(), n(3)),
    ]);
    assert_eq!(m.swap_remove("a"), Some(n(1)));
    assert_eq!(keys(&m), vec!["c".to_string(), "b".to_string()]);
    assert_eq!(m.swap_remove("a"), None);
}

#[test]
fn truncate_split_and_clear() {
    let mut m = ObjectMap::from_entries(vec![
        ("a".to_string(), n(1)),
        ("b".to_string(), n(2)),
        ("c".to_string(), n(3)),
    ]);
    let rest = m.split_off(1);
    assert_eq!(keys(&m), vec!["a".to_string()]);
    assert_eq!(keys(&rest), vec!["b".to_string(), "c".to_string()]);
    let mut r = rest;
    r.truncate(5);
    assert_eq!(r.len(), 2);
    r.truncate(1);
    assert_eq!(keys(&r), vec!["b".to_string()]);
    r.clear();
    assert!(r.is_empty());
}

#[test]
fn from_entries_keeps_first_place_and_last_value() {
    let m = ObjectMap::from_entries(vec![
        ("a".to_string(), n(1)),
        ("b".to_string(), n(2)),
        ("a".to_string(), n(3)),
    ]);
    let entries = m.into_entries();
    assert_eq!(entries, vec![("a".to_string(), n(3)), ("b".to_string(), n(2))]);
}

#[test]
fn capacity_holds_the_entries() {
    let mut m = ObjectMap::with_capacity(4);
    assert!(m.capacity() >= 4);
    m.insert("a".to_string(), n(1));
    assert!(m.capacity() >= m.len());
}

#[test]
fn index_and_iter() {
    let mut m = ObjectMap::from_entries(vec![("a".to_string(), n(1)), ("b".to_string(), n(2))]);
    assert_eq!(m.index("b"), &n(2));
    *m.index_mut("a") = n(9);
    let seen: Vec<(String, Value)> = m.iter().into_iter().map(|(k, v)| (k.clone(), v.clone())).collect();
    assert_eq!(seen, vec![("a".to_string(), n(9)), ("b".to_string(), n(2))]);
}

#[test]
fn a_map_never_holds_a_key_twice() {
    let mut m = ObjectMap::from_entries(vec![
        ("a".to_string(), n(1)),
        ("b".to_string(), n(2)),
        ("a".to_string(), n(3)),
    ]);
    m.insert("b".to_string(), n(4));
    m.insert_index("a".to_string(), n(5));
    let keys: Vec<String> = m.iter().into_iter().map(|(k, _)| k.clone()).collect();
    assert_eq!(keys, vec!["a".to_string(), "b".to_string()]);
    let entries = m.clone().into_entries();
    assert_eq!(entries, vec![("a".to_string(), n(5)), ("b".to_string(), n(4))]);
}

#[test]
fn a_map_made_with_capacity_keeps_its_room() {
    let mut m = ObjectMap::with_capacity(8);
    assert!(m.is_empty());
    assert!(m.capacity() >= 8);
    for (i, k) in ["a", "b", "c", "d", "e", "f", "g", "h", "i"].iter().enumerate() {
        m.insert(k.to_string(), n(i as u32));
        assert!(m.capacity() >= 8);
        assert!(m.capacity() >= m.len());
    }
    m.clear();
    assert!(m.capacity() >= 8);
    assert!(ObjectMap::with_capacity(100).capacity() >= 100);
}
