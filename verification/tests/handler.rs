use gateway_proxy::config::Config;
use gateway_proxy::events::Event;
use gateway_proxy::handler::{
    find_owner, incoming, outgoing, publish, Announcement, Dispatch, Outgoing, Publication,
};
use gateway_proxy::models::{
    CurrentUser, DeliveryInfo, DeliveryOpcode, Guild, PayloadInfo,
};
use gateway_proxy::utils::{get_clusters, ShardRange};

fn config(total: u64, start: u64, end: u64, clusters: u64) -> Config {
    Config {
        bot_token: "SECRET-REDACTED".to_string(),
        intents: 513,
        shards_total: total,
        shards_start: start,
        shards_end: end,
        clusters,
        shards_concurrency: 1,
        shards_wait: 5,
        resume: true,
        large_threshold: 250,
        activity_type: 0,
        activity_name: "".to_string(),
        status: "online".to_string(),
        state_enabled: true,
        state_member: true,
        state_member_ttl: None,
        cache_update_deadline_ms: 10_000,
        member_request_delay_ms: 100,
        prometheus_host: "127.0.0.1".to_string(),
        prometheus_port: 8005,
        log_channel: 0,
    }
}

fn quiet() -> Outgoing {
    Outgoing { log: None, announcement: None, shard_event: None, member_request: None, raw: false }
}

fn lifecycle(name: &str, log: &str, color: Option<usize>) -> Outgoing {
    Outgoing {
        log: Some(log.to_string()),
        announcement: color.map(|color| Announcement { color, message: format!("[Shard 3] {}", name) }),
        shard_event: Some(name.to_string()),
        member_request: None,
        raw: false,
    }
}

#[test]
fn a_reconnect_goes_to_the_cluster_that_owns_the_shard() {
    let ranges = get_clusters(&config(8, 0, 7, 2));
    let delivery = DeliveryInfo { op: DeliveryOpcode::Reconnect, shard: 3, data: None };
    assert_eq!(incoming(delivery, &ranges), Dispatch::Reconnect { cluster: 0, shard: 3 });
    let delivery = DeliveryInfo { op: DeliveryOpcode::Reconnect, shard: 4, data: None };
    assert_eq!(incoming(delivery, &ranges), Dispatch::Reconnect { cluster: 1, shard: 4 });
}

#[test]
fn a_send_carries_its_data() {
    let ranges = get_clusters(&config(8, 0, 7, 2));
    let delivery =
        DeliveryInfo { op: DeliveryOpcode::Send, shard: 7, data: Some("{\"op\":4}".to_string()) };
    assert_eq!(
        incoming(delivery, &ranges),
        Dispatch::Send { cluster: 1, shard: 7, data: "{\"op\":4}".to_string() }
    );
}

#[test]
fn a_send_without_data_carries_the_empty_value() {
    let ranges = get_clusters(&config(8, 0, 7, 2));
    let delivery = DeliveryInfo { op: DeliveryOpcode::Send, shard: 0, data: None };
    assert_eq!(
        incoming(delivery, &ranges),
        Dispatch::Send { cluster: 0, shard: 0, data: "null".to_string() }
    );
}

#[test]
fn a_command_for_a_shard_that_is_not_owned_is_dropped() {
    let ranges = get_clusters(&config(16, 4, 11, 2));
    for shard in [0, 3, 12, 15, 16, u64::MAX] {
        let delivery = DeliveryInfo { op: DeliveryOpcode::Send, shard, data: None };
        assert_eq!(incoming(delivery, &ranges), Dispatch::Drop { shard });
        let delivery = DeliveryInfo { op: DeliveryOpcode::Reconnect, shard, data: None };
        assert_eq!(incoming(delivery, &ranges), Dispatch::Drop { shard });
    }
}

#[test]
fn every_owned_shard_has_one_owner() {
    let ranges = get_clusters(&config(64, 5, 41, 7));
    for shard in 0..64u64 {
        let owners = ranges.iter().filter(|range| range.contains(shard)).count();
        assert_eq!(owners, if (5..=41).contains(&shard) { 1 } else { 0 });
        let found = find_owner(&ranges, shard);
        assert_eq!(found.is_some(), (5..=41).contains(&shard));
        if let Some(cluster) = found {
            assert!(ranges[cluster].contains(shard));
        }
    }
}

#[test]
fn the_first_owner_wins() {
    let ranges = vec![ShardRange { from: 0, to: 5 }, ShardRange { from: 3, to: 9 }];
    assert_eq!(find_owner(&ranges, 4), Some(0));
    assert_eq!(find_owner(&ranges, 6), Some(1));
    assert_eq!(find_owner(&ranges, 10), None);
    assert_eq!(find_owner(&Vec::new(), 0), None);
}

#[test]
fn a_payload_with_a_name_is_published_under_it() {
    let payload = PayloadInfo {
        op: 0,
        t: Some("MESSAGE_CREATE".to_string()),
        d: "{\"id\":\"1\"}".to_string(),
    };
    assert_eq!(
        publish(5, payload),
        Some(Publication {
            exchange: "gateway".to_string(),
            routing_key: "MESSAGE_CREATE".to_string(),
            shard_label: "5".to_string(),
            payload: PayloadInfo {
                op: 0,
                t: Some("MESSAGE_CREATE".to_string()),
                d: "{\"id\":\"1\"}".to_string(),
            },
        })
    );
}

#[test]
fn a_payload_without_a_name_is_dropped() {
    let payload = PayloadInfo { op: 11, t: None, d: "null".to_string() };
    assert_eq!(publish(5, payload), None);
}

#[test]
fn protocol_events_are_logged() {
    assert_eq!(
        outgoing(3, &Event::GatewayHello(41250), &None),
        Outgoing { log: Some("[Shard 3] Hello (heartbeat interval: 41250)".to_string()), ..quiet() }
    );
    assert_eq!(
        outgoing(3, &Event::GatewayInvalidateSession(true), &None),
        Outgoing { log: Some("[Shard 3] Invalid Session (resumable: true)".to_string()), ..quiet() }
    );
    assert_eq!(
        outgoing(3, &Event::GatewayInvalidateSession(false), &None),
        Outgoing { log: Some("[Shard 3] Invalid Session (resumable: false)".to_string()), ..quiet() }
    );
    assert_eq!(outgoing(3, &Event::GatewayReconnect, &None), quiet());
}

#[test]
fn ready_and_resumed_are_logged_counted_and_announced() {
    let ready = Event::Ready {
        guilds: vec![],
        session_id: "abc".to_string(),
        user: CurrentUser {
            avatar: None,
            bot: true,
            discriminator: "0000".to_string(),
            id: 1,
            name: "bot".to_string(),
            verified: true,
        },
    };
    assert_eq!(
        outgoing(3, &ready, &None),
        lifecycle("Ready", "[Shard 3] Ready (session: abc)", Some(0x1F8B4C))
    );
    assert_eq!(
        outgoing(3, &Event::Resumed, &Some("abc".to_string())),
        lifecycle("Resumed", "[Shard 3] Resumed (session: abc)", Some(0x1E90FF))
    );
    assert_eq!(
        outgoing(3, &Event::Resumed, &None),
        lifecycle("Resumed", "[Shard 3] Resumed", Some(0x1E90FF))
    );
}

#[test]
fn connection_events_are_logged_and_counted() {
    assert_eq!(
        outgoing(3, &Event::ShardConnected, &None),
        lifecycle("Connected", "[Shard 3] Connected", Some(0x1F8B4C))
    );
    assert_eq!(
        outgoing(3, &Event::ShardConnecting { gateway: "wss://gateway.discord.gg".to_string() }, &None),
        lifecycle("Connecting", "[Shard 3] Connecting (url: wss://gateway.discord.gg)", None)
    );
    assert_eq!(
        outgoing(3, &Event::ShardIdentifying, &None),
        lifecycle("Identifying", "[Shard 3] Identifying", None)
    );
    assert_eq!(
        outgoing(3, &Event::ShardReconnecting, &None),
        lifecycle("Reconnecting", "[Shard 3] Reconnecting", None)
    );
    assert_eq!(
        outgoing(3, &Event::ShardResuming { seq: 42 }, &None),
        lifecycle("Resuming", "[Shard 3] Resuming (sequence: 42)", None)
    );
}

#[test]
fn a_disconnect_names_code_and_reason_as_far_as_it_has_them() {
    assert_eq!(
        outgoing(3, &Event::ShardDisconnected { code: None, reason: Some("x".to_string()) }, &None),
        lifecycle("Disconnected", "[Shard 3] Disconnected", Some(0xE74C3C))
    );
    assert_eq!(
        outgoing(3, &Event::ShardDisconnected { code: Some(4000), reason: None }, &None),
        lifecycle("Disconnected", "[Shard 3] Disconnected (code: 4000)", Some(0xE74C3C))
    );
    assert_eq!(
        outgoing(3, &Event::ShardDisconnected { code: Some(4000), reason: Some("".to_string()) }, &None),
        lifecycle("Disconnected", "[Shard 3] Disconnected (code: 4000)", Some(0xE74C3C))
    );
    assert_eq!(
        outgoing(
            3,
            &Event::ShardDisconnected { code: Some(1006), reason: Some("gone".to_string()) },
            &None
        ),
        lifecycle("Disconnected", "[Shard 3] Disconnected (code: 1006, reason: gone)", Some(0xE74C3C))
    );
}

#[test]
fn a_new_guild_asks_for_its_members() {
    let guild = Guild {
        channels: vec![],
        icon: None,
        id: 7,
        members: vec![],
        name: "guild".to_string(),
        owner_id: 1,
        roles: vec![],
    };
    assert_eq!(
        outgoing(3, &Event::GuildCreate(guild), &None),
        Outgoing { member_request: Some((7, 3)), ..quiet() }
    );
}

#[test]
fn a_raw_payload_is_marked_for_publishing() {
    assert_eq!(
        outgoing(5, &Event::ShardPayload { bytes: b"{\"op\":0}".to_vec() }, &None),
        Outgoing { raw: true, ..quiet() }
    );
}

#[test]
fn other_events_have_no_consequence_here() {
    assert_eq!(outgoing(3, &Event::GuildDelete { id: 7 }, &None), quiet());
    assert_eq!(outgoing(3, &Event::Other, &None), quiet());
}

#[test]
fn an_announcement_becomes_a_rich_embed() {
    let embed = gateway_proxy::handler::log_discord(
        0x1F8B4C,
        "[Shard 3] Ready".to_string(),
        "2021-08-01T12:00:00+00:00".to_string(),
    );
    assert_eq!(
        embed,
        gateway_proxy::handler::Embed {
            color: 0x1F8B4C,
            kind: "rich".to_string(),
            timestamp: "2021-08-01T12:00:00+00:00".to_string(),
            title: "[Shard 3] Ready".to_string(),
        }
    );
}
