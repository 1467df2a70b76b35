use gateway_proxy::cache::{get, get_hashmap, get_members, get_members_len};
use gateway_proxy::events::{CacheConfig, Event};
use gateway_proxy::models::{
    ApiError, CachedCurrentUser, CachedGuild, CachedMember, CachedRole, Channel, ChannelKind,
    CurrentUser, Guild, GuildChannel, GuildItem, Member, MemberUpdate, PartialGuild,
    PrivateChannel, Role, UnavailableGuild, User,
};
use gateway_proxy::cache::{plan_del_all, plan_set_all};
use gateway_proxy::projection::{execute_steps, needs, project, update, Needs, Projection, Step};
use gateway_proxy::store::Store;
use gateway_proxy::timestamp::FormattedDateTime;

const BOT: u64 = 999;

fn caching(members: bool, ttl: Option<u64>) -> CacheConfig {
    CacheConfig { state_enabled: true, state_member: members, state_member_ttl: ttl }
}

fn noon() -> FormattedDateTime {
    FormattedDateTime::from_unix_nanos(1_600_000_000_000_000_000).unwrap()
}

fn user(id: u64) -> User {
    User { avatar: None, bot: id == BOT, discriminator: "0001".to_string(), id, name: format!("user{}", id) }
}

fn member(guild: u64, id: u64) -> Member {
    Member { deaf: false, guild_id: guild, mute: false, nick: None, roles: vec![20], user: user(id) }
}

fn role(id: u64) -> Role {
    Role {
        color: 0,
        hoist: false,
        id,
        managed: false,
        mentionable: true,
        name: format!("role{}", id),
        permissions: 8,
        position: 1,
    }
}

fn channel(id: u64, kind: ChannelKind) -> GuildChannel {
    GuildChannel { guild_id: None, id, kind, name: format!("channel{}", id) }
}

fn guild(id: u64, channels: Vec<GuildChannel>, roles: Vec<Role>, members: Vec<Member>) -> Guild {
    Guild { channels, icon: None, id, members, name: "guild".to_string(), owner_id: 1, roles }
}

fn sorted(mut list: Vec<String>) -> Vec<String> {
    list.sort();
    list
}

fn texts(list: &[&str]) -> Vec<String> {
    list.iter().map(|s| s.to_string()).collect()
}

fn apply(store: &mut Store<GuildItem>, event: Event, config: &CacheConfig) -> Option<GuildItem> {
    update(store, event, BOT, config, &noon()).unwrap()
}

#[test]
fn guild_create_replaces_what_was_cached_of_the_guild() {
    let config = caching(true, None);
    let mut store: Store<GuildItem> = Store::new();
    apply(&mut store, Event::GuildCreate(guild(7, vec![], vec![], vec![member(7, 100)])), &config);
    assert!(get(&store, "member:7:100").is_some());
    assert!(get(&store, "guild:7").is_some());

    let previous = apply(
        &mut store,
        Event::GuildCreate(guild(
            7,
            vec![channel(11, ChannelKind::Text)],
            vec![role(20)],
            vec![member(7, 101)],
        )),
        &config,
    );
    assert!(matches!(previous, Some(GuildItem::Guild(_))));
    assert_eq!(
        sorted(get_members(&store, "guild_keys:7")),
        texts(&["channel:11", "member:7:101", "role:7:20"])
    );
    assert_eq!(get(&store, "member:7:100"), None);
    assert_eq!(get_members(&store, "member_keys"), texts(&["member:7:101"]));
    assert_eq!(get_members(&store, "guild_keys"), texts(&["guild:7"]));
}

#[test]
fn guild_create_caches_text_channels_with_the_guild_filled_in() {
    let config = caching(true, None);
    let mut store: Store<GuildItem> = Store::new();
    apply(
        &mut store,
        Event::GuildCreate(guild(
            7,
            vec![channel(11, ChannelKind::Text), channel(12, ChannelKind::Voice)],
            vec![],
            vec![],
        )),
        &config,
    );
    assert_eq!(
        get(&store, "channel:11"),
        Some(&GuildItem::Channel(GuildChannel {
            guild_id: Some(7),
            id: 11,
            kind: ChannelKind::Text,
            name: "channel11".to_string(),
        }))
    );
    assert_eq!(get(&store, "channel:12"), None);
    assert_eq!(get_members(&store, "channel_keys"), texts(&["channel:11"]));
}

#[test]
fn guild_create_caches_the_record_without_its_lists() {
    let config = caching(true, None);
    let mut store: Store<GuildItem> = Store::new();
    apply(
        &mut store,
        Event::GuildCreate(guild(7, vec![channel(11, ChannelKind::Text)], vec![role(20)], vec![member(7, 101)])),
        &config,
    );
    assert_eq!(
        get(&store, "guild:7"),
        Some(&GuildItem::Guild(CachedGuild {
            channels: vec![],
            icon: None,
            id: 7,
            members: vec![],
            name: "guild".to_string(),
            owner_id: 1,
            roles: vec![],
        }))
    );
    assert_eq!(
        get(&store, "role:7:20"),
        Some(&GuildItem::Role(CachedRole { id: 20, name: "role20".to_string(), permissions: 8, position: 1 }))
    );
    assert_eq!(
        get(&store, "member:7:101"),
        Some(&GuildItem::Member(CachedMember { guild_id: 7, nick: None, roles: vec![20], user_id: 101 }))
    );
}

#[test]
fn without_member_caching_only_the_bot_is_cached() {
    let config = caching(false, None);
    let mut store: Store<GuildItem> = Store::new();
    apply(
        &mut store,
        Event::GuildCreate(guild(7, vec![], vec![], vec![member(7, 101), member(7, BOT)])),
        &config,
    );
    assert_eq!(get(&store, "member:7:101"), None);
    assert!(get(&store, "member:7:999").is_some());
}

#[test]
fn guild_delete_leaves_nothing_of_the_guild() {
    let config = caching(true, None);
    let mut store: Store<GuildItem> = Store::new();
    for round in 0..3u64 {
        apply(
            &mut store,
            Event::GuildCreate(guild(
                7,
                vec![channel(11 + round, ChannelKind::Text)],
                vec![role(20 + round)],
                vec![member(7, 100 + round)],
            )),
            &config,
        );
        if round == 1 {
            apply(&mut store, Event::GuildDelete { id: 7 }, &config);
        }
    }
    let previous = apply(&mut store, Event::GuildDelete { id: 7 }, &config);
    assert!(matches!(previous, Some(GuildItem::Guild(_))));
    assert_eq!(get(&store, "guild:7"), None);
    assert_eq!(get_members_len(&store, "guild_keys:7"), 0);
    for round in 0..3u64 {
        assert_eq!(get(&store, &format!("channel:{}", 11 + round)), None);
        assert_eq!(get(&store, &format!("role:7:{}", 20 + round)), None);
        assert_eq!(get(&store, &format!("member:7:{}", 100 + round)), None);
    }
    for set in ["guild_keys", "channel_keys", "role_keys", "member_keys"] {
        assert_eq!(get_members_len(&store, set), 0);
    }
}

#[test]
fn guild_delete_leaves_other_guilds_alone() {
    let config = caching(true, None);
    let mut store: Store<GuildItem> = Store::new();
    apply(&mut store, Event::GuildCreate(guild(7, vec![], vec![role(20)], vec![])), &config);
    apply(&mut store, Event::GuildCreate(guild(8, vec![], vec![role(21)], vec![])), &config);
    apply(&mut store, Event::GuildDelete { id: 7 }, &config);
    assert!(get(&store, "role:8:21").is_some());
    assert!(get(&store, "guild:8").is_some());
    assert_eq!(get_members(&store, "role_keys"), texts(&["role:8:21"]));
}

#[test]
fn unavailable_guild_is_cleared_and_replaced_by_a_stub() {
    let config = caching(true, None);
    let mut store: Store<GuildItem> = Store::new();
    apply(&mut store, Event::GuildCreate(guild(7, vec![], vec![role(20)], vec![])), &config);
    let previous = apply(
        &mut store,
        Event::UnavailableGuild(UnavailableGuild { id: 7, unavailable: true }),
        &config,
    );
    assert!(matches!(previous, Some(GuildItem::Guild(_))));
    assert_eq!(get(&store, "role:7:20"), None);
    assert_eq!(
        get(&store, "guild:7"),
        Some(&GuildItem::Unavailable(UnavailableGuild { id: 7, unavailable: true }))
    );
    assert_eq!(get_members(&store, "guild_keys"), texts(&["guild:7"]));
}

#[test]
fn guild_update_overwrites_the_record() {
    let config = caching(true, None);
    let mut store: Store<GuildItem> = Store::new();
    apply(&mut store, Event::GuildCreate(guild(7, vec![], vec![], vec![])), &config);
    let previous = apply(
        &mut store,
        Event::GuildUpdate(PartialGuild {
            icon: Some("icon".to_string()),
            id: 7,
            name: "renamed".to_string(),
            owner_id: 2,
            roles: vec![role(20)],
        }),
        &config,
    );
    assert!(matches!(previous, Some(GuildItem::Guild(g)) if g.name == "guild"));
    assert_eq!(
        get(&store, "guild:7"),
        Some(&GuildItem::Guild(CachedGuild {
            channels: vec![],
            icon: Some("icon".to_string()),
            id: 7,
            members: vec![],
            name: "renamed".to_string(),
            owner_id: 2,
            roles: vec![role(20)],
        }))
    );
}

#[test]
fn channel_events_write_read_and_delete() {
    let config = caching(true, None);
    let mut store: Store<GuildItem> = Store::new();
    let mut text = channel(11, ChannelKind::Text);
    text.guild_id = Some(7);
    assert_eq!(apply(&mut store, Event::ChannelCreate(Channel::Guild(text)), &config), None);
    assert!(get(&store, "channel:11").is_some());

    let mut renamed = channel(11, ChannelKind::Text);
    renamed.guild_id = Some(7);
    renamed.name = "renamed".to_string();
    let previous = apply(&mut store, Event::ChannelUpdate(Channel::Guild(renamed)), &config);
    assert!(matches!(previous, Some(GuildItem::Channel(c)) if c.name == "channel11"));

    let mut gone = channel(11, ChannelKind::Text);
    gone.guild_id = Some(7);
    let previous = apply(&mut store, Event::ChannelDelete(Channel::Guild(gone)), &config);
    assert!(matches!(previous, Some(GuildItem::Channel(c)) if c.name == "renamed"));
    assert_eq!(get(&store, "channel:11"), None);
    assert_eq!(get_members_len(&store, "channel_keys"), 0);
    assert_eq!(get_members_len(&store, "guild_keys:7"), 0);
}

#[test]
fn private_channels_are_cached_under_their_own_key() {
    let config = caching(true, None);
    let mut store: Store<GuildItem> = Store::new();
    let private = PrivateChannel { id: 30, recipients: vec![user(5)] };
    apply(&mut store, Event::ChannelCreate(Channel::Private(private)), &config);
    assert!(matches!(get(&store, "channel:30"), Some(GuildItem::PrivateChannel(_))));
    assert_eq!(get_members(&store, "channel_keys"), texts(&["channel:30"]));
}

#[test]
fn groups_and_guild_channels_without_guild_are_not_cached() {
    let config = caching(true, None);
    let mut store: Store<GuildItem> = Store::new();
    apply(&mut store, Event::ChannelCreate(Channel::Group), &config);
    apply(&mut store, Event::ChannelCreate(Channel::Guild(channel(11, ChannelKind::Text))), &config);
    assert_eq!(get(&store, "channel:11"), None);
    assert_eq!(get_members_len(&store, "channel_keys"), 0);
}

#[test]
fn role_events_write_read_and_delete() {
    let config = caching(true, None);
    let mut store: Store<GuildItem> = Store::new();
    assert_eq!(apply(&mut store, Event::RoleCreate { guild_id: 7, role: role(20) }, &config), None);
    let mut changed = role(20);
    changed.permissions = 0;
    let previous = apply(&mut store, Event::RoleUpdate { guild_id: 7, role: changed }, &config);
    assert!(matches!(previous, Some(GuildItem::Role(r)) if r.permissions == 8));
    let previous = apply(&mut store, Event::RoleDelete { guild_id: 7, role_id: 20 }, &config);
    assert!(matches!(previous, Some(GuildItem::Role(r)) if r.permissions == 0));
    assert_eq!(get(&store, "role:7:20"), None);
}

#[test]
fn member_events_follow_the_member_switch() {
    let mut store: Store<GuildItem> = Store::new();
    apply(&mut store, Event::MemberAdd(member(7, 101)), &caching(false, None));
    assert_eq!(get(&store, "member:7:101"), None);
    apply(&mut store, Event::MemberAdd(member(7, 101)), &caching(true, None));
    assert!(get(&store, "member:7:101").is_some());
    let previous =
        apply(&mut store, Event::MemberRemove { guild_id: 7, user_id: 101 }, &caching(false, None));
    assert_eq!(previous, None);
    assert!(get(&store, "member:7:101").is_some());
    let previous =
        apply(&mut store, Event::MemberRemove { guild_id: 7, user_id: 101 }, &caching(true, None));
    assert!(matches!(previous, Some(GuildItem::Member(_))));
    assert_eq!(get(&store, "member:7:101"), None);
}

#[test]
fn member_update_changes_nick_and_roles_of_a_cached_member() {
    let config = caching(true, None);
    let mut store: Store<GuildItem> = Store::new();
    apply(&mut store, Event::MemberAdd(member(7, 101)), &config);
    let previous = apply(
        &mut store,
        Event::MemberUpdate(MemberUpdate {
            guild_id: 7,
            nick: Some("nick".to_string()),
            roles: vec![21, 22],
            user: user(101),
        }),
        &config,
    );
    assert_eq!(
        previous,
        Some(GuildItem::Member(CachedMember { guild_id: 7, nick: None, roles: vec![20], user_id: 101 }))
    );
    assert_eq!(
        get(&store, "member:7:101"),
        Some(&GuildItem::Member(CachedMember {
            guild_id: 7,
            nick: Some("nick".to_string()),
            roles: vec![21, 22],
            user_id: 101,
        }))
    );
}

#[test]
fn member_update_of_an_unknown_member_changes_nothing() {
    let config = caching(true, None);
    let mut store: Store<GuildItem> = Store::new();
    let previous = apply(
        &mut store,
        Event::MemberUpdate(MemberUpdate { guild_id: 7, nick: None, roles: vec![], user: user(101) }),
        &config,
    );
    assert_eq!(previous, None);
    assert_eq!(get(&store, "member:7:101"), None);
    assert_eq!(get_members_len(&store, "member_keys"), 0);
}

#[test]
fn member_chunk_writes_all_members() {
    let config = caching(true, None);
    let mut store: Store<GuildItem> = Store::new();
    apply(
        &mut store,
        Event::MemberChunk { guild_id: 7, members: vec![member(7, 1), member(7, 2), member(7, 3)] },
        &config,
    );
    assert_eq!(
        sorted(get_members(&store, "member_keys")),
        texts(&["member:7:1", "member:7:2", "member:7:3"])
    );
    assert_eq!(get_members_len(&store, "guild_keys:7"), 3);
}

#[test]
fn ready_writes_the_bot_and_the_guild_stubs() {
    let config = caching(true, None);
    let mut store: Store<GuildItem> = Store::new();
    let bot = CurrentUser {
        avatar: None,
        bot: true,
        discriminator: "0000".to_string(),
        id: BOT,
        name: "bot".to_string(),
        verified: true,
    };
    apply(
        &mut store,
        Event::Ready {
            guilds: vec![
                UnavailableGuild { id: 7, unavailable: true },
                UnavailableGuild { id: 8, unavailable: false },
            ],
            session_id: "abc".to_string(),
            user: bot,
        },
        &config,
    );
    assert_eq!(
        get(&store, "bot_user"),
        Some(&GuildItem::CurrentUser(CachedCurrentUser {
            avatar: None,
            discriminator: "0000".to_string(),
            id: BOT,
            name: "bot".to_string(),
        }))
    );
    assert_eq!(
        get(&store, "guild:8"),
        Some(&GuildItem::Unavailable(UnavailableGuild { id: 8, unavailable: false }))
    );
    assert_eq!(sorted(get_members(&store, "guild_keys")), texts(&["guild:7", "guild:8"]));
}

#[test]
fn user_update_overwrites_the_bot() {
    let config = caching(true, None);
    let mut store: Store<GuildItem> = Store::new();
    let bot = |name: &str| CurrentUser {
        avatar: None,
        bot: true,
        discriminator: "0000".to_string(),
        id: BOT,
        name: name.to_string(),
        verified: true,
    };
    assert_eq!(apply(&mut store, Event::UserUpdate(bot("old")), &config), None);
    let previous = apply(&mut store, Event::UserUpdate(bot("new")), &config);
    assert!(matches!(previous, Some(GuildItem::CurrentUser(u)) if u.name == "old"));
    assert!(matches!(get(&store, "bot_user"), Some(GuildItem::CurrentUser(u)) if u.name == "new"));
}

#[test]
fn events_that_are_only_passed_on_change_nothing() {
    let config = caching(true, Some(100));
    let mut store: Store<GuildItem> = Store::new();
    for event in [
        Event::GatewayHello(41250),
        Event::GatewayReconnect,
        Event::Resumed,
        Event::ShardConnected,
        Event::ShardPayload { bytes: vec![1, 2, 3] },
        Event::Other,
    ] {
        assert_eq!(apply(&mut store, event, &config), None);
    }
    for set in ["guild_keys", "channel_keys", "role_keys", "member_keys"] {
        assert_eq!(get_members_len(&store, set), 0);
    }
    assert!(get_hashmap(&store, "expiry_keys").is_empty());
}

#[test]
fn members_get_their_time_to_live() {
    let config = caching(true, Some(100));
    let mut store: Store<GuildItem> = Store::new();
    apply(
        &mut store,
        Event::GuildCreate(guild(7, vec![], vec![role(20)], vec![member(7, 101), member(7, 102)])),
        &config,
    );
    let mut entries = get_hashmap(&store, "expiry_keys");
    entries.sort();
    let at = noon().add_millis(100).encode();
    assert_eq!(
        entries,
        vec![("member:7:101".to_string(), at.clone()), ("member:7:102".to_string(), at)]
    );
}

#[test]
fn no_error_comes_from_a_time_that_reads_back() {
    let config = caching(true, Some(100));
    let mut store: Store<GuildItem> = Store::new();
    let result: Result<Option<GuildItem>, ApiError> =
        update(&mut store, Event::MemberAdd(member(7, 101)), BOT, &config, &noon());
    assert_eq!(result, Ok(None));
}

#[test]
fn clearing_a_guild_needs_the_members_of_its_index_set() {
    let config = caching(true, None);
    for event in [
        Event::GuildCreate(guild(7, vec![], vec![], vec![])),
        Event::GuildDelete { id: 7 },
        Event::UnavailableGuild(UnavailableGuild { id: 7, unavailable: false }),
    ] {
        assert_eq!(
            needs(&event, BOT, &config),
            Needs { members_of: Some("guild_keys:7".to_string()), value_at: None }
        );
    }
}

#[test]
fn a_member_update_needs_the_cached_member() {
    let update = || {
        Event::MemberUpdate(MemberUpdate { guild_id: 7, nick: None, roles: vec![], user: user(101) })
    };
    assert_eq!(
        needs(&update(), BOT, &caching(true, None)),
        Needs { members_of: None, value_at: Some("member:7:101".to_string()) }
    );
    assert_eq!(
        needs(&update(), BOT, &caching(false, None)),
        Needs { members_of: None, value_at: None }
    );
    assert_eq!(
        needs(&update(), 101, &caching(false, None)),
        Needs { members_of: None, value_at: Some("member:7:101".to_string()) }
    );
}

#[test]
fn other_events_need_nothing() {
    let config = caching(true, Some(100));
    for event in [
        Event::MemberAdd(member(7, 101)),
        Event::RoleDelete { guild_id: 7, role_id: 20 },
        Event::Resumed,
        Event::Other,
    ] {
        assert_eq!(needs(&event, BOT, &config), Needs { members_of: None, value_at: None });
    }
}

#[test]
fn a_guild_delete_is_projected_into_its_batches() {
    let config = caching(true, None);
    let members = texts(&["channel:11", "role:7:20"]);
    let projection = project(Event::GuildDelete { id: 7 }, BOT, &config, &noon(), &members, None);
    assert_eq!(
        projection,
        Ok(Projection {
            before: vec![Step::Delete(plan_del_all(&members))],
            previous_at: Some("guild:7".to_string()),
            after: vec![
                Step::DropSet("guild_keys:7".to_string()),
                Step::Delete(plan_del_all(&texts(&["guild:7"]))),
                Step::Write(plan_set_all(vec![])),
                Step::Expire { keys: vec![], at: "".to_string() },
            ],
        })
    );
}

#[test]
fn a_member_add_is_projected_into_a_write_and_a_time() {
    let config = caching(true, Some(100));
    let projection =
        project(Event::MemberAdd(member(7, 101)), BOT, &config, &noon(), &vec![], None);
    let cached = GuildItem::Member(CachedMember { guild_id: 7, nick: None, roles: vec![20], user_id: 101 });
    assert_eq!(
        projection,
        Ok(Projection {
            before: vec![],
            previous_at: None,
            after: vec![
                Step::Write(plan_set_all(vec![("member:7:101".to_string(), cached)])),
                Step::Expire {
                    keys: texts(&["member:7:101"]),
                    at: noon().add_millis(100).encode(),
                },
            ],
        })
    );
}

#[test]
fn a_member_update_is_projected_only_onto_a_cached_member() {
    let config = caching(true, None);
    let update = || {
        Event::MemberUpdate(MemberUpdate { guild_id: 7, nick: None, roles: vec![], user: user(101) })
    };
    let blank = project(update(), BOT, &config, &noon(), &vec![], None).unwrap();
    assert!(blank.before.is_empty() && blank.after.is_empty() && blank.previous_at.is_none());
    let role = GuildItem::Role(CachedRole { id: 1, name: "r".to_string(), permissions: 0, position: 0 });
    let blank = project(update(), BOT, &config, &noon(), &vec![], Some(&role)).unwrap();
    assert!(blank.before.is_empty() && blank.after.is_empty() && blank.previous_at.is_none());
    let cached = GuildItem::Member(CachedMember { guild_id: 9, nick: None, roles: vec![20], user_id: 101 });
    let full = project(update(), BOT, &config, &noon(), &vec![], Some(&cached)).unwrap();
    assert_eq!(full.previous_at.as_deref(), Some("member:7:101"));
    assert_eq!(full.after.len(), 2);
}

#[test]
fn carrying_out_the_batches_by_hand_is_the_update() {
    let config = caching(true, Some(100));
    let first = || Event::GuildCreate(guild(7, vec![channel(11, ChannelKind::Text)], vec![role(20)], vec![member(7, 100)]));
    let second = || Event::GuildCreate(guild(7, vec![channel(12, ChannelKind::Text)], vec![role(21)], vec![member(7, 101)]));

    let mut direct: Store<GuildItem> = Store::new();
    apply(&mut direct, first(), &config);
    let expected = apply(&mut direct, second(), &config);

    let mut by_hand: Store<GuildItem> = Store::new();
    apply(&mut by_hand, first(), &config);
    let wanted = needs(&second(), BOT, &config);
    let members = get_members(&by_hand, wanted.members_of.as_deref().unwrap());
    let projection = project(second(), BOT, &config, &noon(), &members, None).unwrap();
    execute_steps(&mut by_hand, projection.before);
    let previous = match get(&by_hand, projection.previous_at.as_deref().unwrap()) {
        Some(GuildItem::Guild(record)) => Some(record.name.clone()),
        _ => None,
    };
    execute_steps(&mut by_hand, projection.after);

    assert!(matches!(expected, Some(GuildItem::Guild(record)) if Some(record.name.clone()) == previous));
    for key in ["channel:11", "channel:12", "role:7:20", "role:7:21", "member:7:100", "member:7:101", "guild:7"] {
        assert_eq!(get(&by_hand, key), get(&direct, key));
    }
    for set in ["guild_keys", "guild_keys:7", "channel_keys", "role_keys", "member_keys"] {
        assert_eq!(sorted(get_members(&by_hand, set)), sorted(get_members(&direct, set)));
    }
    let mut left = get_hashmap(&by_hand, "expiry_keys");
    let mut right = get_hashmap(&direct, "expiry_keys");
    left.sort();
    right.sort();
    assert_eq!(left, right);
}
