use mcp_local_router::names::{table_of, NameTable};

#[test]
fn names_keep_their_first_place() {
    let mut table: NameTable<u32> = NameTable::new();
    table.insert("b".to_string(), 1);
    table.insert("a".to_string(), 2);
    table.insert("b".to_string(), 3);
    assert_eq!(table.len(), 2);
    assert_eq!(table.names(), vec!["b", "a"]);
    assert_eq!(table.get("b"), Some(&3));
    assert_eq!(table.get("a"), Some(&2));
    assert_eq!(table.get("c"), None);
    assert_eq!(table.name_at(1), "a");
    assert_eq!(table.value_at(0), &3);
}

#[test]
fn removal_takes_one_name_out() {
    let mut table = table_of(vec![
        ("a".to_string(), 1),
        ("b".to_string(), 2),
        ("c".to_string(), 3),
    ]);
    table.remove("b");
    table.remove("absent");
    assert_eq!(table.names(), vec!["a", "c"]);
    assert_eq!(table.get("b"), None);
    assert_eq!(table.get("c"), Some(&3));
    table.insert("b".to_string(), 4);
    assert_eq!(table.names(), vec!["a", "c", "b"]);
}

#[test]
fn later_pairs_replace_earlier_ones() {
    let table = table_of(vec![
        ("a".to_string(), 1),
        ("b".to_string(), 2),
        ("a".to_string(), 3),
    ]);
    assert_eq!(table.get("a"), Some(&3));
    assert_eq!(table.len(), 2);
}

#[test]
fn names_may_hold_any_text() {
    let mut table: NameTable<u32> = NameTable::new();
    table.insert(String::new(), 1);
    table.insert("名前".to_string(), 2);
    assert_eq!(table.get(""), Some(&1));
    assert_eq!(table.get("名前"), Some(&2));
    assert_eq!(table.get("名"), None);
}
