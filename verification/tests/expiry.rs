use gateway_proxy::cache::{
    confirm, deadline_text, del_hashmap, expire, expire_all, expired_keys, get, get_hashmap,
    judge, run_cleanups, Expiry,
};
use gateway_proxy::models::ApiError;
use gateway_proxy::events::{CacheConfig, Event};
use gateway_proxy::models::{GuildItem, Member, User};
use gateway_proxy::projection::update;
use gateway_proxy::store::Store;
use gateway_proxy::timestamp::{FormattedDateTime, MAX_NANOS, MIN_NANOS};

fn at(nanos: i128) -> FormattedDateTime {
    FormattedDateTime::from_unix_nanos(nanos).unwrap()
}

#[test]
fn renders_the_epoch() {
    assert_eq!(at(0).format(), "1970-01-01T0:00:00.000000000");
    assert_eq!(at(0).encode(), "\"1970-01-01T0:00:00.000000000\"");
}

#[test]
fn renders_date_time_and_nanoseconds() {
    assert_eq!(at(1_546_300_800_000_000_000).format(), "2019-01-01T0:00:00.000000000");
    assert_eq!(at(1_600_000_000_123_456_789).format(), "2020-09-13T12:26:40.123456789");
    assert_eq!(at(-1).format(), "1969-12-31T23:59:59.999999999");
}

#[test]
fn renders_the_ends_of_the_range() {
    assert_eq!(at(MIN_NANOS).format(), "0-01-01T0:00:00.000000000");
    assert_eq!(at(MAX_NANOS).format(), "9999-12-31T23:59:59.999999999");
    assert_eq!(FormattedDateTime::from_unix_nanos(MIN_NANOS - 1), None);
    assert_eq!(FormattedDateTime::from_unix_nanos(MAX_NANOS + 1), None);
}

#[test]
fn reads_back_what_it_renders() {
    for nanos in [0, -1, 1, 1_600_000_000_123_456_789, MIN_NANOS, MAX_NANOS] {
        let instant = at(nanos);
        assert_eq!(FormattedDateTime::parse(&instant.format()), Some(instant));
        assert_eq!(FormattedDateTime::decode(&instant.encode()), Some(instant));
        assert_eq!(FormattedDateTime::decode(&instant.encode()).unwrap().unix_nanos(), nanos);
    }
}

#[test]
fn reads_nothing_from_what_is_no_time() {
    assert_eq!(FormattedDateTime::parse(""), None);
    assert_eq!(FormattedDateTime::parse("yesterday"), None);
    assert_eq!(FormattedDateTime::parse("2020-09-13 12:26:40"), None);
    assert_eq!(FormattedDateTime::decode("1970-01-01T0:00:00.000000000"), None);
    assert_eq!(FormattedDateTime::decode("\"1970-01-01T0:00:00.000000000"), None);
    assert_eq!(FormattedDateTime::decode("\""), None);
    assert_eq!(FormattedDateTime::decode(""), None);
    assert_eq!(FormattedDateTime::decode("\"\""), None);
}

#[test]
fn reads_nothing_from_a_text_with_an_offset_of_its_own() {
    assert_eq!(FormattedDateTime::parse("2020-09-13T12:26:40.123456789+0100"), None);
    assert_eq!(FormattedDateTime::parse("2020-09-13T12:26:40.123456789-0100"), None);
    assert_eq!(FormattedDateTime::parse("+100000-12-31T23:59:59.999999999-9959"), None);
    assert_eq!(FormattedDateTime::parse("-100000-01-01T0:00:00.000000000+9959"), None);
    assert_eq!(
        FormattedDateTime::decode("\"+100000-12-31T23:59:59.999999999-9959\""),
        None
    );
    assert!(gateway_proxy::timestamp::has_plain_time("2020-09-13T12:26:40.123456789"));
    assert!(gateway_proxy::timestamp::has_plain_time("-2020-09-13"));
    assert!(!gateway_proxy::timestamp::has_plain_time("T-"));
    assert!(!gateway_proxy::timestamp::has_plain_time("aTb+c"));
    assert!(gateway_proxy::timestamp::has_plain_time(""));
}

#[test]
fn reads_nothing_from_dates_outside_the_years_it_holds() {
    assert_eq!(FormattedDateTime::parse("+10000-01-01T0:00:00.000000000"), None);
    assert_eq!(FormattedDateTime::parse("+100000-12-31T23:59:59.999999999"), None);
    assert_eq!(FormattedDateTime::parse("-1-12-31T23:59:59.999999999"), None);
    assert_eq!(FormattedDateTime::parse("-100000-01-01T0:00:00.000000000"), None);
    assert_eq!(FormattedDateTime::parse("+999999-01-01T0:00:00.000000000"), None);
}

#[test]
fn clamps_to_the_range() {
    assert_eq!(FormattedDateTime::clamped(MAX_NANOS + 5).unix_nanos(), MAX_NANOS);
    assert_eq!(FormattedDateTime::clamped(MIN_NANOS - 5).unix_nanos(), MIN_NANOS);
    assert_eq!(FormattedDateTime::clamped(17).unix_nanos(), 17);
}

#[test]
fn adds_and_subtracts_milliseconds() {
    assert_eq!(at(0).add_millis(250).unix_nanos(), 250_000_000);
    assert_eq!(at(0).sub_millis(250).unix_nanos(), -250_000_000);
    assert_eq!(at(MAX_NANOS).add_millis(1).unix_nanos(), MAX_NANOS);
    assert_eq!(at(0).add_millis(u64::MAX).unix_nanos(), MAX_NANOS);
    assert_eq!(at(MIN_NANOS).sub_millis(1).unix_nanos(), MIN_NANOS);
    assert!(at(0).is_before(&at(1)));
    assert!(!at(1).is_before(&at(1)));
}

#[test]
fn the_clock_is_in_range() {
    let now = FormattedDateTime::now().unix_nanos();
    assert!(MIN_NANOS <= now && now <= MAX_NANOS);
    assert!(now > 1_500_000_000_000_000_000);
}

#[test]
fn a_deadline_is_the_time_to_live_after_now() {
    assert_eq!(deadline_text(&at(0), 100), Ok("\"1970-01-01T0:00:00.100000000\"".to_string()));
}

#[test]
fn expire_records_the_deadline() {
    let mut store: Store<u64> = Store::new();
    assert_eq!(expire(&mut store, "member:1:9", 100, &at(0)), Ok(()));
    assert_eq!(
        get_hashmap(&store, "expiry_keys"),
        vec![("member:1:9".to_string(), "\"1970-01-01T0:00:00.100000000\"".to_string())]
    );
    assert_eq!(expire(&mut store, "member:1:9", 200, &at(0)), Ok(()));
    assert_eq!(
        get_hashmap(&store, "expiry_keys"),
        vec![("member:1:9".to_string(), "\"1970-01-01T0:00:00.200000000\"".to_string())]
    );
}

#[test]
fn expire_all_records_each_deadline() {
    let mut store: Store<u64> = Store::new();
    let entries = vec![("a:1".to_string(), 1000u64), ("b:2".to_string(), 2000)];
    assert_eq!(expire_all(&mut store, &entries, &at(0)), Ok(()));
    let mut table = get_hashmap(&store, "expiry_keys");
    table.sort();
    assert_eq!(
        table,
        vec![
            ("a:1".to_string(), "\"1970-01-01T0:00:01.000000000\"".to_string()),
            ("b:2".to_string(), "\"1970-01-01T0:00:02.000000000\"".to_string()),
        ]
    );
    del_hashmap(&mut store, "expiry_keys", &vec!["a:1".to_string()]);
    assert_eq!(get_hashmap(&store, "expiry_keys").len(), 1);
}

#[test]
fn sorts_entries_into_due_and_unreadable() {
    let entries = vec![
        ("past".to_string(), at(99).encode()),
        ("now".to_string(), at(100).encode()),
        ("future".to_string(), at(101).encode()),
        ("broken".to_string(), "soon".to_string()),
    ];
    let report = expired_keys(&entries, &at(100));
    assert_eq!(report.expired, vec!["past".to_string()]);
    assert_eq!(report.unreadable, vec!["broken".to_string()]);
}

#[test]
fn a_member_does_not_outlive_its_time() {
    let config = CacheConfig { state_enabled: true, state_member: true, state_member_ttl: Some(100) };
    let mut store: Store<GuildItem> = Store::new();
    let member = Member {
        deaf: false,
        guild_id: 1,
        mute: false,
        nick: None,
        roles: vec![],
        user: User { avatar: None, bot: false, discriminator: "0001".to_string(), id: 9, name: "u".to_string() },
    };
    let start = at(1_600_000_000_000_000_000);
    update(&mut store, Event::MemberAdd(member), 999, &config, &start).unwrap();
    assert!(get(&store, "member:1:9").is_some());

    let early = run_cleanups(&mut store, &start.add_millis(50));
    assert!(early.expired.is_empty());
    assert!(get(&store, "member:1:9").is_some());

    let report = run_cleanups(&mut store, &start.add_millis(250));
    assert_eq!(report.expired, vec!["member:1:9".to_string()]);
    assert!(report.unreadable.is_empty());
    assert_eq!(get(&store, "member:1:9"), None);
    assert!(get_hashmap(&store, "expiry_keys").is_empty());
}

#[test]
fn a_scan_leaves_unreadable_entries_alone() {
    let mut store: Store<u64> = Store::new();
    gateway_proxy::cache::set(&mut store, "a:1", 1);
    assert_eq!(expire(&mut store, "a:1", 10, &at(0)), Ok(()));
    let report = run_cleanups(&mut store, &at(0));
    assert!(report.expired.is_empty());
    assert_eq!(get(&store, "a:1"), Some(&1));
    let report = run_cleanups(&mut store, &at(10_000_001));
    assert_eq!(report.expired, vec!["a:1".to_string()]);
    assert_eq!(get(&store, "a:1"), None);
}

#[test]
fn quotes_and_unquotes() {
    assert_eq!(gateway_proxy::timestamp::quote("abc"), "\"abc\"");
    assert_eq!(gateway_proxy::timestamp::quote(""), "\"\"");
    assert_eq!(gateway_proxy::timestamp::unquote("\"abc\""), Some("abc"));
    assert_eq!(gateway_proxy::timestamp::unquote("\"\""), Some(""));
    assert_eq!(gateway_proxy::timestamp::unquote("\""), None);
    assert_eq!(gateway_proxy::timestamp::unquote("abc"), None);
    assert_eq!(gateway_proxy::timestamp::unquote("\"abc"), None);
    assert_eq!(gateway_proxy::timestamp::unquote("abc\""), None);
    assert_eq!(gateway_proxy::timestamp::unquote("\"a\"b\""), Some("a\"b"));
}

#[test]
fn a_deadline_is_confirmed_only_if_it_reads_back() {
    let text = "\"x\"".to_string();
    assert_eq!(confirm(text.clone(), Some(at(5)), &at(5)), Ok(text.clone()));
    assert_eq!(confirm(text.clone(), Some(at(6)), &at(5)), Err(ApiError::Timestamp));
    assert_eq!(confirm(text, None, &at(5)), Err(ApiError::Timestamp));
}

#[test]
fn a_time_is_due_only_once_it_has_passed() {
    assert_eq!(judge(&Some(at(99)), &at(100)), Expiry::Due);
    assert_eq!(judge(&Some(at(100)), &at(100)), Expiry::Pending);
    assert_eq!(judge(&Some(at(101)), &at(100)), Expiry::Pending);
    assert_eq!(judge(&None, &at(100)), Expiry::Unreadable);
}
