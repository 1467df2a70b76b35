use gateway_proxy::config::Config;
use gateway_proxy::events::CacheConfig;
use gateway_proxy::models::SessionInfo;
use gateway_proxy::utils::{
    get_clusters, get_event_flags, get_resume_sessions, get_shards, EventType, ShardRange,
};

fn config(total: u64, start: u64, end: u64, clusters: u64) -> Config {
    Config {
        bot_token: "SECRET-REDACTED".to_string(),
        intents: 513,
        shards_total: total,
        shards_start: start,
        shards_end: end,
        clusters,
        shards_concurrency: 1,
        shards_wait: 5,
        resume: true,
        large_threshold: 250,
        activity_type: 0,
        activity_name: "".to_string(),
        status: "online".to_string(),
        state_enabled: true,
        state_member: true,
        state_member_ttl: Some(100),
        cache_update_deadline_ms: 10_000,
        member_request_delay_ms: 100,
        prometheus_host: "127.0.0.1".to_string(),
        prometheus_port: 8005,
        log_channel: 0,
    }
}

fn ranges(list: &[(u64, u64)]) -> Vec<ShardRange> {
    list.iter().map(|(from, to)| ShardRange { from: *from, to: *to }).collect()
}

fn session(id: &str, sequence: u64) -> SessionInfo {
    SessionInfo { session_id: id.to_string(), sequence }
}

#[test]
fn counts_the_owned_shards() {
    assert_eq!(get_shards(&config(16, 0, 15, 1)), 16);
    assert_eq!(get_shards(&config(16, 5, 5, 1)), 1);
    assert_eq!(get_shards(&config(16, 4, 9, 2)), 6);
}

#[test]
fn checks_the_shard_options() {
    assert!(config(16, 0, 15, 4).is_valid());
    assert!(config(16, 3, 3, 1).is_valid());
    assert!(!config(16, 0, 15, 0).is_valid());
    assert!(!config(16, 0, 15, 17).is_valid());
    assert!(!config(16, 9, 8, 1).is_valid());
    assert!(!config(16, 0, 16, 1).is_valid());
    let mut no_buckets = config(16, 0, 15, 4);
    no_buckets.shards_concurrency = 0;
    assert!(!no_buckets.is_valid());
}

#[test]
fn splits_evenly() {
    assert_eq!(get_clusters(&config(16, 0, 15, 4)), ranges(&[(0, 3), (4, 7), (8, 11), (12, 15)]));
}

#[test]
fn the_first_clusters_take_what_is_left_over() {
    assert_eq!(get_clusters(&config(10, 0, 9, 3)), ranges(&[(0, 3), (4, 6), (7, 9)]));
    assert_eq!(get_clusters(&config(32, 10, 20, 4)), ranges(&[(10, 12), (13, 15), (16, 18), (19, 20)]));
}

#[test]
fn one_cluster_takes_all_and_one_cluster_per_shard_takes_one() {
    assert_eq!(get_clusters(&config(16, 2, 9, 1)), ranges(&[(2, 9)]));
    assert_eq!(get_clusters(&config(16, 2, 4, 3)), ranges(&[(2, 2), (3, 3), (4, 4)]));
}

#[test]
fn the_split_reaches_the_end_of_the_numbers() {
    let all = config(u64::MAX, u64::MAX - 3, u64::MAX - 1, 2);
    assert_eq!(get_clusters(&all), ranges(&[(u64::MAX - 3, u64::MAX - 2), (u64::MAX - 1, u64::MAX - 1)]));
}

#[test]
fn resumes_the_stored_sessions_of_the_same_shard_count() {
    let stored = vec![("0".to_string(), session("abc", 42))];
    assert_eq!(
        get_resume_sessions(Some(4), stored, &config(4, 0, 3, 1)),
        vec![(0, session("abc", 42))]
    );
}

#[test]
fn resumes_nothing_for_another_shard_count() {
    let stored = vec![("0".to_string(), session("abc", 42))];
    assert_eq!(get_resume_sessions(Some(8), stored, &config(4, 0, 3, 1)), vec![]);
    let stored = vec![("0".to_string(), session("abc", 42))];
    assert_eq!(get_resume_sessions(None, stored, &config(4, 0, 3, 1)), vec![]);
}

#[test]
fn resumes_nothing_when_switched_off() {
    let mut off = config(4, 0, 3, 1);
    off.resume = false;
    let stored = vec![("0".to_string(), session("abc", 42))];
    assert_eq!(get_resume_sessions(Some(4), stored, &off), vec![]);
}

#[test]
fn skips_sessions_whose_key_is_no_shard() {
    let stored = vec![
        ("2".to_string(), session("two", 2)),
        ("two".to_string(), session("x", 0)),
        ("".to_string(), session("y", 0)),
        ("1".to_string(), session("one", 1)),
    ];
    assert_eq!(
        get_resume_sessions(Some(4), stored, &config(4, 0, 3, 1)),
        vec![(2, session("two", 2)), (1, session("one", 1))]
    );
}

#[test]
fn the_switches_of_the_cache_come_from_the_options() {
    assert_eq!(
        config(4, 0, 3, 1).cache(),
        CacheConfig { state_enabled: true, state_member: true, state_member_ttl: Some(100) }
    );
}

#[test]
fn always_asks_for_protocol_lifecycle_and_raw_events() {
    let mut off = config(4, 0, 3, 1);
    off.state_enabled = false;
    off.state_member = true;
    let flags = get_event_flags(&off);
    assert_eq!(
        flags,
        vec![
            EventType::GatewayHello,
            EventType::GatewayInvalidateSession,
            EventType::GatewayReconnect,
            EventType::Ready,
            EventType::Resumed,
            EventType::ShardConnected,
            EventType::ShardConnecting,
            EventType::ShardDisconnected,
            EventType::ShardIdentifying,
            EventType::ShardPayload,
            EventType::ShardReconnecting,
            EventType::ShardResuming,
            EventType::InteractionCreate,
            EventType::MessageCreate,
            EventType::ReactionAdd,
            EventType::ReactionRemove,
            EventType::ThreadCreate,
            EventType::ThreadDelete,
            EventType::ThreadUpdate,
        ]
    );
}

#[test]
fn asks_for_state_events_only_where_state_is_cached() {
    let mut state = config(4, 0, 3, 1);
    state.state_member = false;
    let flags = get_event_flags(&state);
    assert_eq!(flags.len(), 30);
    assert!(flags.contains(&EventType::GuildCreate));
    assert!(flags.contains(&EventType::UserUpdate));
    assert!(!flags.contains(&EventType::MemberAdd));
    assert!(!flags.contains(&EventType::MemberChunk));
}

#[test]
fn asks_for_member_events_only_where_members_are_cached() {
    let flags = get_event_flags(&config(4, 0, 3, 1));
    assert_eq!(flags.len(), 34);
    for kind in [
        EventType::MemberAdd,
        EventType::MemberChunk,
        EventType::MemberRemove,
        EventType::MemberUpdate,
    ] {
        assert_eq!(flags.iter().filter(|flag| **flag == kind).count(), 1);
    }
}
