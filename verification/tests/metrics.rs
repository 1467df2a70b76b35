use gateway_proxy::metrics::{run_jobs, serve, Reply, Sample};
use gateway_proxy::models::{
    CachedCurrentUser, CachedGuild, CachedMember, CachedRole, CachedUser, ChannelKind,
    CurrentUser, Guild, GuildChannel, IntermediateMember, Member, PartialMember, Role, ShardInfo,
    Stage, StatusInfo, SessionInfo, ToCached, User,
};
use gateway_proxy::status::Dump;
use gateway_proxy::timestamp::FormattedDateTime;

fn shard(id: u64, stage: Stage, latency: Option<u64>) -> ShardInfo {
    ShardInfo { id, stage, latency, since_ack: latency, session_id: None, seq: id * 10 }
}

fn user(id: u64) -> User {
    User {
        avatar: Some("a".to_string()),
        bot: false,
        discriminator: "0001".to_string(),
        id,
        name: "user".to_string(),
    }
}

#[test]
fn answers_the_metrics_and_the_health_check() {
    assert_eq!(serve("GET", "/metrics"), Reply::Metrics);
    assert_eq!(serve("GET", "/healthcheck"), Reply::Healthcheck);
    assert_eq!(Reply::Metrics.status(), 200);
    assert_eq!(Reply::Healthcheck.status(), 200);
    assert_eq!(gateway_proxy::metrics::HEALTHCHECK_BODY, "{\"status\":\"OK\"}");
}

#[test]
fn answers_nothing_else() {
    assert_eq!(serve("POST", "/metrics"), Reply::NotFound);
    assert_eq!(serve("get", "/healthcheck"), Reply::NotFound);
    assert_eq!(serve("GET", "/"), Reply::NotFound);
    assert_eq!(serve("GET", "/metrics/"), Reply::NotFound);
    assert_eq!(serve("", ""), Reply::NotFound);
    assert_eq!(Reply::NotFound.status(), 404);
}

#[test]
fn samples_the_stages_and_latencies() {
    let shards = vec![
        shard(0, Stage::Connected, Some(40)),
        shard(1, Stage::Connected, None),
        shard(2, Stage::Resuming, Some(55)),
        shard(3, Stage::Disconnected, None),
    ];
    assert_eq!(
        run_jobs(&shards),
        Sample {
            shards: 4,
            connected: 2,
            disconnected: 1,
            handshaking: 0,
            identifying: 0,
            resuming: 1,
            latencies: vec![
                ("0".to_string(), 40),
                ("1".to_string(), 0),
                ("2".to_string(), 55),
                ("3".to_string(), 0),
            ],
        }
    );
}

#[test]
fn samples_no_shards() {
    let sample = run_jobs(&Vec::new());
    assert_eq!(sample.shards, 0);
    assert_eq!(sample.connected + sample.disconnected + sample.handshaking, 0);
    assert!(sample.latencies.is_empty());
}

#[test]
fn names_the_stages() {
    assert_eq!(Stage::Connected.name(), "Connected");
    assert_eq!(Stage::Disconnected.name(), "Disconnected");
    assert_eq!(Stage::Handshaking.name(), "Handshaking");
    assert_eq!(Stage::Identifying.name(), "Identifying");
    assert_eq!(Stage::Resuming.name(), "Resuming");
}

#[test]
fn dumps_the_statuses_in_the_order_of_the_shards() {
    let now = FormattedDateTime::from_unix_nanos(1_000_000_000).unwrap();
    let shards = vec![
        ShardInfo {
            id: 2,
            stage: Stage::Connected,
            latency: Some(40),
            since_ack: Some(500),
            session_id: Some("two".to_string()),
            seq: 7,
        },
        ShardInfo {
            id: 0,
            stage: Stage::Identifying,
            latency: None,
            since_ack: None,
            session_id: None,
            seq: 0,
        },
        ShardInfo {
            id: 1,
            stage: Stage::Resuming,
            latency: Some(9),
            since_ack: Some(0),
            session_id: Some("one".to_string()),
            seq: 3,
        },
    ];
    let at = |nanos: i128| FormattedDateTime::from_unix_nanos(nanos).unwrap();
    assert_eq!(
        gateway_proxy::status::run_jobs(&shards, &now),
        Dump {
            statuses: vec![
                StatusInfo {
                    shard: 0,
                    status: "Identifying".to_string(),
                    latency: 0,
                    last_ack: at(1_000_000_000),
                },
                StatusInfo {
                    shard: 1,
                    status: "Resuming".to_string(),
                    latency: 9,
                    last_ack: at(1_000_000_000),
                },
                StatusInfo {
                    shard: 2,
                    status: "Connected".to_string(),
                    latency: 40,
                    last_ack: at(500_000_000),
                },
            ],
            sessions: vec![
                ("2".to_string(), SessionInfo { session_id: "two".to_string(), sequence: 7 }),
                ("0".to_string(), SessionInfo { session_id: "".to_string(), sequence: 0 }),
                ("1".to_string(), SessionInfo { session_id: "one".to_string(), sequence: 3 }),
            ],
        }
    );
}

#[test]
fn shards_of_one_number_keep_their_order() {
    let now = FormattedDateTime::from_unix_nanos(0).unwrap();
    let shards = vec![
        shard(1, Stage::Connected, Some(1)),
        shard(0, Stage::Connected, Some(2)),
        shard(1, Stage::Resuming, Some(3)),
        shard(0, Stage::Resuming, Some(4)),
    ];
    let dump = gateway_proxy::status::run_jobs(&shards, &now);
    let order: Vec<(u64, u64)> = dump.statuses.iter().map(|s| (s.shard, s.latency)).collect();
    assert_eq!(order, vec![(0, 2), (0, 4), (1, 1), (1, 3)]);
}

#[test]
fn the_cached_forms_keep_what_the_cache_needs() {
    let role = Role {
        color: 5,
        hoist: true,
        id: 20,
        managed: false,
        mentionable: true,
        name: "role".to_string(),
        permissions: 8,
        position: 3,
    };
    assert_eq!(
        role.to_cached(),
        CachedRole { id: 20, name: "role".to_string(), permissions: 8, position: 3 }
    );
    assert_eq!(
        user(5).to_cached(),
        CachedUser {
            avatar: Some("a".to_string()),
            bot: false,
            discriminator: "0001".to_string(),
            id: 5,
            name: "user".to_string(),
        }
    );
    let bot = CurrentUser {
        avatar: None,
        bot: true,
        discriminator: "0000".to_string(),
        id: 1,
        name: "bot".to_string(),
        verified: true,
    };
    assert_eq!(
        bot.to_cached(),
        CachedCurrentUser { avatar: None, discriminator: "0000".to_string(), id: 1, name: "bot".to_string() }
    );
    let member = Member {
        deaf: true,
        guild_id: 7,
        mute: false,
        nick: Some("nick".to_string()),
        roles: vec![20, 21],
        user: user(5),
    };
    assert_eq!(
        member.to_cached(),
        CachedMember { guild_id: 7, nick: Some("nick".to_string()), roles: vec![20, 21], user_id: 5 }
    );
    let partial = PartialMember { deaf: false, mute: false, nick: None, roles: vec![20] };
    assert_eq!(partial.to_cached(), IntermediateMember { nick: None, roles: vec![20] });
    assert_eq!(
        partial.to_cached().into_member(7, 5),
        CachedMember { guild_id: 7, nick: None, roles: vec![20], user_id: 5 }
    );
}

#[test]
fn the_cached_form_of_a_guild_keeps_its_lists() {
    let channel = GuildChannel {
        guild_id: Some(7),
        id: 11,
        kind: ChannelKind::Text,
        name: "general".to_string(),
    };
    let member = Member { deaf: false, guild_id: 7, mute: false, nick: None, roles: vec![], user: user(5) };
    let role = Role {
        color: 0,
        hoist: false,
        id: 20,
        managed: false,
        mentionable: false,
        name: "role".to_string(),
        permissions: 0,
        position: 0,
    };
    let guild = Guild {
        channels: vec![channel],
        icon: Some("icon".to_string()),
        id: 7,
        members: vec![member],
        name: "guild".to_string(),
        owner_id: 1,
        roles: vec![role],
    };
    let cached: CachedGuild = guild.to_cached();
    assert_eq!(cached.channels, guild.channels);
    assert_eq!(cached.members, guild.members);
    assert_eq!(cached.roles, guild.roles);
    assert_eq!(cached.icon, guild.icon);
    assert_eq!((cached.id, cached.owner_id), (7, 1));
    assert_eq!(cached.name, "guild");
}
