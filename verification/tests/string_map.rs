use mqtt_broker::string_map::StringMap;

fn key(text: &str) -> String {
    text.to_string()
}

#[test]
fn string_map_starts_empty() {
    let map: StringMap<u32> = StringMap::new();
    assert!(map.is_empty());
    assert_eq!(0, map.len());
    assert!(!map.contains_key(&key("a")));
    assert!(map.get(&key("")).is_none());
}

#[test]
fn string_map_insert_replaces_the_value_under_a_key() {
    let mut map: StringMap<u32> = StringMap::new();
    assert_eq!(None, map.insert(key("a"), 1));
    assert_eq!(None, map.insert(key("b"), 2));
    assert_eq!(None, map.insert(key(""), 3));
    assert_eq!(3, map.len());
    assert_eq!(Some(1), map.insert(key("a"), 10));
    assert_eq!(Some(10), map.insert(key("a"), 11));
    assert_eq!(3, map.len());
    assert_eq!(Some(&11), map.get(&key("a")));
    assert_eq!(Some(&2), map.get(&key("b")));
    assert_eq!(Some(&3), map.get(&key("")));
    assert!(map.get(&key("A")).is_none());
    assert!(map.contains_key(&key("b")));
    assert!(!map.is_empty());
}

#[test]
fn string_map_remove_hands_back_the_value() {
    let mut map: StringMap<String> = StringMap::new();
    for n in 0..50u32 {
        assert!(map.insert(format!("k{}", n), format!("v{}", n)).is_none());
    }
    assert_eq!(50, map.len());
    assert_eq!(None, map.remove(&key("k50")));
    assert_eq!(50, map.len());
    for n in (0..50u32).step_by(2) {
        assert_eq!(Some(format!("v{}", n)), map.remove(&format!("k{}", n)));
        assert_eq!(None, map.remove(&format!("k{}", n)));
    }
    assert_eq!(25, map.len());
    for n in 0..50u32 {
        let held = map.get(&format!("k{}", n));
        if n % 2 == 0 {
            assert!(held.is_none());
        } else {
            assert_eq!(Some(&format!("v{}", n)), held);
        }
    }
    for n in (1..50u32).step_by(2) {
        assert_eq!(Some(format!("v{}", n)), map.remove(&format!("k{}", n)));
    }
    assert!(map.is_empty());
}
