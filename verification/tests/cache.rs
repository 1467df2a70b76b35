use gateway_proxy::cache::{
    apply_delete, apply_write, clear_guild, del, del_all, del_hashmap, get, get_hashmap,
    get_members, get_members_len, plan_del_all, plan_set_all, set_all, take,
};
use gateway_proxy::store::Store;

fn sorted(mut list: Vec<String>) -> Vec<String> {
    list.sort();
    list
}

fn texts(list: &[&str]) -> Vec<String> {
    list.iter().map(|s| s.to_string()).collect()
}

#[test]
fn a_new_cache_is_empty() {
    let store: Store<u64> = Store::new();
    assert_eq!(get(&store, "guild:7"), None);
    assert_eq!(get_members(&store, "guild_keys"), Vec::<String>::new());
    assert_eq!(get_members_len(&store, "guild_keys"), 0);
    assert!(get_hashmap(&store, "expiry_keys").is_empty());
}

#[test]
fn a_write_is_read_back_and_indexed() {
    let mut store: Store<u64> = Store::new();
    gateway_proxy::cache::set(&mut store, "member:7:101", 1);
    assert_eq!(get(&store, "member:7:101"), Some(&1));
    assert_eq!(get_members(&store, "member_keys"), texts(&["member:7:101"]));
    assert_eq!(get_members(&store, "guild_keys:7"), texts(&["member:7:101"]));
    assert_eq!(get_members_len(&store, "member_keys"), 1);
}

#[test]
fn a_key_of_one_segment_is_not_indexed() {
    let mut store: Store<u64> = Store::new();
    gateway_proxy::cache::set(&mut store, "bot_user", 5);
    assert_eq!(get(&store, "bot_user"), Some(&5));
    assert_eq!(get_members_len(&store, "bot_user_keys"), 0);
}

#[test]
fn a_second_write_overwrites_and_is_listed_once() {
    let mut store: Store<u64> = Store::new();
    gateway_proxy::cache::set(&mut store, "role:7:20", 1);
    gateway_proxy::cache::set(&mut store, "role:7:20", 2);
    assert_eq!(get(&store, "role:7:20"), Some(&2));
    assert_eq!(get_members_len(&store, "role_keys"), 1);
    assert_eq!(get_members_len(&store, "guild_keys:7"), 1);
}

#[test]
fn writing_a_guild_channel_and_reading_the_short_key_agree() {
    let mut store: Store<u64> = Store::new();
    gateway_proxy::cache::set(&mut store, "channel:7:11", 42);
    assert_eq!(get(&store, "channel:11"), Some(&42));
    assert_eq!(get(&store, "channel:7:11"), None);
    assert_eq!(get_members(&store, "channel_keys"), texts(&["channel:11"]));
    assert_eq!(get_members(&store, "guild_keys:7"), texts(&["channel:11"]));
}

#[test]
fn deleting_the_long_channel_key_removes_the_short_one() {
    let mut store: Store<u64> = Store::new();
    gateway_proxy::cache::set(&mut store, "channel:7:11", 42);
    del(&mut store, "channel:7:11");
    assert_eq!(get(&store, "channel:11"), None);
    assert_eq!(get_members_len(&store, "channel_keys"), 0);
    assert_eq!(get_members_len(&store, "guild_keys:7"), 0);
}

#[test]
fn deleting_the_short_channel_key_removes_the_channel() {
    let mut store: Store<u64> = Store::new();
    gateway_proxy::cache::set(&mut store, "channel:7:11", 42);
    del(&mut store, "channel:11");
    assert_eq!(get(&store, "channel:11"), None);
    assert_eq!(get(&store, "channel:7:11"), None);
    assert_eq!(get_members_len(&store, "channel_keys"), 0);
}

#[test]
fn a_batch_of_writes_groups_the_index_sets() {
    let items = vec![
        ("channel:7:11".to_string(), 1u64),
        ("role:7:20".to_string(), 2),
        ("member:7:101".to_string(), 3),
        ("member:8:101".to_string(), 4),
        ("guild:7".to_string(), 5),
        ("bot_user".to_string(), 6),
    ];
    let plan = plan_set_all(items);
    let keys: Vec<&str> = plan.pairs.iter().map(|p| p.0.as_str()).collect();
    assert_eq!(
        keys,
        vec!["channel:11", "role:7:20", "member:7:101", "member:8:101", "guild:7", "bot_user"]
    );
    let values: Vec<u64> = plan.pairs.iter().map(|p| p.1).collect();
    assert_eq!(values, vec![1, 2, 3, 4, 5, 6]);
    let groups: Vec<(String, Vec<String>)> =
        plan.groups.iter().map(|g| (g.set.clone(), g.members.clone())).collect();
    assert_eq!(
        groups,
        vec![
            ("channel_keys".to_string(), texts(&["channel:11"])),
            ("guild_keys:7".to_string(), texts(&["channel:11", "role:7:20", "member:7:101"])),
            ("role_keys".to_string(), texts(&["role:7:20"])),
            ("member_keys".to_string(), texts(&["member:7:101", "member:8:101"])),
            ("guild_keys:8".to_string(), texts(&["member:8:101"])),
            ("guild_keys".to_string(), texts(&["guild:7"])),
        ]
    );
}

#[test]
fn a_batch_of_deletes_groups_the_index_sets() {
    let plan = plan_del_all(&texts(&["channel:7:11", "member:7:101", "bot_user"]));
    assert_eq!(plan.keys, texts(&["channel:11", "member:7:101", "bot_user"]));
    let groups: Vec<(String, Vec<String>)> =
        plan.groups.iter().map(|g| (g.set.clone(), g.members.clone())).collect();
    assert_eq!(
        groups,
        vec![
            ("channel_keys".to_string(), texts(&["channel:11"])),
            ("guild_keys:7".to_string(), texts(&["channel:11", "member:7:101"])),
            ("member_keys".to_string(), texts(&["member:7:101"])),
        ]
    );
}

#[test]
fn carrying_out_the_plans_is_writing_and_deleting() {
    let mut planned: Store<u64> = Store::new();
    let mut direct: Store<u64> = Store::new();
    let items = vec![("channel:7:11".to_string(), 1u64), ("member:7:101".to_string(), 3)];
    apply_write(&mut planned, plan_set_all(items.clone()));
    set_all(&mut direct, items);
    for key in ["channel:11", "member:7:101"] {
        assert_eq!(get(&planned, key), get(&direct, key));
    }
    for set in ["channel_keys", "member_keys", "guild_keys:7"] {
        assert_eq!(sorted(get_members(&planned, set)), sorted(get_members(&direct, set)));
    }
    apply_delete(&mut planned, &plan_del_all(&texts(&["member:7:101"])));
    assert_eq!(get(&planned, "member:7:101"), None);
    assert_eq!(get_members(&planned, "guild_keys:7"), texts(&["channel:11"]));
}

#[test]
fn an_empty_batch_changes_nothing() {
    let mut store: Store<u64> = Store::new();
    gateway_proxy::cache::set(&mut store, "role:7:20", 1);
    set_all(&mut store, Vec::new());
    del_all(&mut store, &Vec::new());
    assert_eq!(get(&store, "role:7:20"), Some(&1));
    assert_eq!(get_members_len(&store, "role_keys"), 1);
}

#[test]
fn the_later_of_two_writes_in_a_batch_stays() {
    let mut store: Store<u64> = Store::new();
    set_all(&mut store, vec![("role:7:20".to_string(), 1), ("role:7:20".to_string(), 2)]);
    assert_eq!(get(&store, "role:7:20"), Some(&2));
    assert_eq!(get_members_len(&store, "role_keys"), 1);
}

#[test]
fn the_index_set_of_a_prefix_lists_the_live_keys() {
    let mut store: Store<u64> = Store::new();
    set_all(
        &mut store,
        vec![
            ("member:7:1".to_string(), 1),
            ("member:7:2".to_string(), 2),
            ("member:8:3".to_string(), 3),
            ("role:7:4".to_string(), 4),
        ],
    );
    del(&mut store, "member:7:2");
    assert_eq!(sorted(get_members(&store, "member_keys")), texts(&["member:7:1", "member:8:3"]));
    assert_eq!(get_members(&store, "role_keys"), texts(&["role:7:4"]));
    assert_eq!(sorted(get_members(&store, "guild_keys:7")), texts(&["member:7:1", "role:7:4"]));
    del_all(&mut store, &texts(&["member:7:1", "member:8:3", "role:7:4"]));
    assert_eq!(get_members_len(&store, "member_keys"), 0);
    assert_eq!(get_members_len(&store, "role_keys"), 0);
    assert_eq!(get_members_len(&store, "guild_keys:7"), 0);
}

#[test]
fn take_hands_back_what_it_deletes() {
    let mut store: Store<u64> = Store::new();
    gateway_proxy::cache::set(&mut store, "channel:7:11", 42);
    assert_eq!(take(&mut store, "channel:7:11"), Some(42));
    assert_eq!(take(&mut store, "channel:7:11"), None);
    assert_eq!(get(&store, "channel:11"), None);
}

#[test]
fn clearing_a_guild_removes_all_that_belongs_to_it() {
    let mut store: Store<u64> = Store::new();
    set_all(
        &mut store,
        vec![
            ("channel:7:11".to_string(), 1),
            ("role:7:20".to_string(), 2),
            ("member:7:101".to_string(), 3),
            ("guild:7".to_string(), 4),
            ("member:8:101".to_string(), 5),
            ("guild:8".to_string(), 6),
        ],
    );
    assert_eq!(clear_guild(&mut store, 7), Some(4));
    for key in ["channel:11", "role:7:20", "member:7:101", "guild:7"] {
        assert_eq!(get(&store, key), None);
    }
    assert_eq!(get_members_len(&store, "guild_keys:7"), 0);
    assert_eq!(get_members_len(&store, "channel_keys"), 0);
    assert_eq!(get_members_len(&store, "role_keys"), 0);
    assert_eq!(get_members(&store, "member_keys"), texts(&["member:8:101"]));
    assert_eq!(get_members(&store, "guild_keys"), texts(&["guild:8"]));
    assert_eq!(get(&store, "member:8:101"), Some(&5));
    assert_eq!(get(&store, "guild:8"), Some(&6));
}

#[test]
fn clearing_a_guild_that_is_not_cached_changes_nothing() {
    let mut store: Store<u64> = Store::new();
    gateway_proxy::cache::set(&mut store, "guild:8", 6);
    assert_eq!(clear_guild(&mut store, 7), None);
    assert_eq!(get(&store, "guild:8"), Some(&6));
}

#[test]
fn a_hash_of_another_name_has_no_entries() {
    let mut store: Store<u64> = Store::new();
    assert!(get_hashmap(&store, "other").is_empty());
    del_hashmap(&mut store, "other", &texts(&["a"]));
    assert!(get_hashmap(&store, "expiry_keys").is_empty());
}
