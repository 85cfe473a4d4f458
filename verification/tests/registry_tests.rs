use way_edges::registry::{IdMap, KeyedMap};

#[test]
fn id_map_insert_get_remove() {
    let mut m: IdMap<&str> = IdMap::new();
    assert_eq!(m.len(), 0);
    m.insert(3, "c");
    m.insert(1, "a");
    m.insert(3, "C");
    assert_eq!(m.len(), 2);
    assert_eq!(m.get(&3), Some(&"C"));
    assert_eq!(m.get(&2), None);
    assert!(m.contains_key(&1));
    // order of first insertion is kept
    assert_eq!(*m.key_at(0), 3);
    assert_eq!(*m.key_at(1), 1);
    assert_eq!(m.remove(&3), Some("C"));
    assert_eq!(m.remove(&3), None);
    assert_eq!(m.len(), 1);
    assert_eq!(*m.key_at(0), 1);
    assert_eq!(m.find(&1), Some(0));
    assert_eq!(m.find(&9), None);
}

#[test]
fn id_map_value_at_mut_updates_in_place() {
    let mut m: IdMap<u32> = IdMap::new();
    m.insert(10, 1);
    m.insert(20, 2);
    *m.value_at_mut(1) += 40;
    assert_eq!(m.get(&20), Some(&42));
    assert_eq!(*m.value_at(0), 1);
}

#[test]
fn string_keys_compare_by_content() {
    let mut m: KeyedMap<String, u8> = KeyedMap::new();
    m.insert("intel_backlight".to_string(), 1);
    assert_eq!(m.get(&"intel_backlight".to_string()), Some(&1));
    m.insert(String::from("intel_backlight"), 2);
    assert_eq!(m.len(), 1);
    assert_eq!(m.get(&"intel_backlight".to_string()), Some(&2));
    assert_eq!(m.remove(&"other".to_string()), None);
}
