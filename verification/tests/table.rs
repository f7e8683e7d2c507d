use pqcdump::table::{DistinctSet, Key, Table};

#[test]
fn set_keeps_each_element_once() {
    let mut set: DistinctSet<String> = DistinctSet::new();
    for name in ["b", "a", "b"] {
        set.insert(name.to_string());
    }
    assert_eq!(set.len(), 2);
    assert_eq!(set.items(), &vec!["b".to_string(), "a".to_string()]);
    assert!(set.contains(&"a".to_string()));
    assert!(!set.contains(&"c".to_string()));
}

#[test]
fn strings_are_the_same_by_their_characters() {
    assert!("x".to_string().same(&"x".to_string()));
    assert!(!"x".to_string().same(&"X".to_string()));
}

#[test]
fn table_replaces_the_value_of_a_key() {
    let mut table: Table<String, String> = Table::new();
    table.insert("k".to_string(), "1".to_string());
    table.insert("l".to_string(), "2".to_string());
    table.insert("k".to_string(), "3".to_string());
    assert_eq!(table.len(), 2);
    assert_eq!(table.key_at(0), "k");
    assert_eq!(table.value_at(0), "3");
    assert_eq!(table.get(&"l".to_string()), Some(&"2".to_string()));
    assert_eq!(table.get(&"m".to_string()), None);
    assert!(table.contains_key(&"l".to_string()));
    assert!(!table.contains_key(&"m".to_string()));
}

#[test]
fn value_is_changed_in_place() {
    let mut table: Table<String, String> = Table::new();
    table.insert("k".to_string(), "1".to_string());
    if let Some(value) = table.get_mut(&"k".to_string()) {
        value.push('0');
    }
    assert_eq!(table.get(&"k".to_string()), Some(&"10".to_string()));
    assert!(table.get_mut(&"m".to_string()).is_none());
}
