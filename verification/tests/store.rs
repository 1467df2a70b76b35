use gateway_proxy::links::Links;
use gateway_proxy::store::Store;
use gateway_proxy::table::Table;

fn sorted(mut list: Vec<String>) -> Vec<String> {
    list.sort();
    list
}

#[test]
fn a_table_keeps_one_value_per_key() {
    let mut table: Table<u64> = Table::new();
    assert_eq!(table.len(), 0);
    assert_eq!(table.insert("a".to_string(), 1), None);
    assert_eq!(table.insert("b".to_string(), 2), None);
    assert_eq!(table.insert("a".to_string(), 3), Some(1));
    assert_eq!(table.len(), 2);
    assert_eq!(table.get("a"), Some(&3));
    assert_eq!(table.get("b"), Some(&2));
    assert_eq!(table.get("c"), None);
}

#[test]
fn a_table_hands_back_what_it_removes() {
    let mut table: Table<u64> = Table::new();
    for (key, value) in [("a", 1), ("b", 2), ("c", 3)] {
        table.insert(key.to_string(), value);
    }
    assert_eq!(table.remove("b"), Some(2));
    assert_eq!(table.remove("b"), None);
    assert_eq!(table.len(), 2);
    assert_eq!(table.get("a"), Some(&1));
    assert_eq!(table.get("c"), Some(&3));
    let mut listed: Vec<(String, u64)> =
        (0..table.len()).map(|i| (table.key_at(i).clone(), *table.value_at(i))).collect();
    listed.sort();
    assert_eq!(listed, vec![("a".to_string(), 1), ("c".to_string(), 3)]);
}

#[test]
fn links_list_each_member_once() {
    let mut links = Links::new();
    links.add("s".to_string(), "a".to_string());
    links.add("s".to_string(), "b".to_string());
    links.add("s".to_string(), "a".to_string());
    links.add("t".to_string(), "a".to_string());
    assert_eq!(sorted(links.members("s")), vec!["a".to_string(), "b".to_string()]);
    assert_eq!(links.members("t"), vec!["a".to_string()]);
    assert!(links.members("u").is_empty());
}

#[test]
fn links_forget_members_and_sets() {
    let mut links = Links::new();
    for (set, member) in [("s", "a"), ("s", "b"), ("t", "a"), ("t", "c")] {
        links.add(set.to_string(), member.to_string());
    }
    links.remove("s", "a");
    links.remove("s", "x");
    assert_eq!(links.members("s"), vec!["b".to_string()]);
    links.remove_set("t");
    assert!(links.members("t").is_empty());
    assert_eq!(links.members("s"), vec!["b".to_string()]);
    links.remove_set("t");
    assert_eq!(links.members("s"), vec!["b".to_string()]);
}

#[test]
fn the_store_takes_keys_as_they_are_written() {
    let mut store: Store<u64> = Store::new();
    assert_eq!(store.write("channel:7:11".to_string(), 1), None);
    assert_eq!(store.peek("channel:7:11"), Some(&1));
    assert_eq!(store.peek("channel:11"), None);
    assert!(store.members("channel_keys").is_empty());
    assert_eq!(store.write("channel:7:11".to_string(), 2), Some(1));
    assert_eq!(store.erase("channel:7:11"), Some(2));
    assert_eq!(store.erase("channel:7:11"), None);
}

#[test]
fn the_store_keeps_sets_and_times_apart_from_values() {
    let mut store: Store<u64> = Store::new();
    store.link("s".to_string(), "a".to_string());
    store.link("s".to_string(), "b".to_string());
    store.unlink("s", "a");
    assert_eq!(store.members("s"), vec!["b".to_string()]);
    store.drop_set("s");
    assert!(store.members("s").is_empty());
    store.schedule("a".to_string(), "soon".to_string());
    store.schedule("a".to_string(), "later".to_string());
    store.schedule("b".to_string(), "never".to_string());
    store.unschedule("b");
    assert_eq!(store.schedule_entries(), vec![("a".to_string(), "later".to_string())]);
    assert_eq!(store.peek("a"), None);
}
