//! Names and intervals shared by the whole proxy.

use vstd::prelude::*;

verus! {

/// Broker exchange that decoded gateway events are published to.
pub const EXCHANGE: &'static str = "gateway";

/// Broker queue that replies are expected on.
pub const QUEUE_RECV: &'static str = "gateway.recv";

/// Broker queue that commands for the shards are consumed from.
pub const QUEUE_SEND: &'static str = "gateway.send";

/// Milliseconds between two samples of the metrics.
pub const METRICS_DUMP_INTERVAL: usize = 1000;

/// Milliseconds between two dumps of the shard status and session tables.
pub const CACHE_DUMP_INTERVAL: usize = 1000;

/// Milliseconds between two scans of the expiry table.
pub const CACHE_CLEANUP_INTERVAL: usize = 1000;

/// Capacity of the channel that carries member requests to their pacer.
pub const MEMBER_REQUEST_CAPACITY: usize = 10000;

/// Embed colours of the lifecycle announcements.
pub const CONNECT_COLOR: usize = 0x1F8B4C;

pub const DISCONNECT_COLOR: usize = 0xE74C3C;

pub const READY_COLOR: usize = 0x1F8B4C;

pub const RESUME_COLOR: usize = 0x1E90FF;

/// The character that separates the segments of a cache key.
pub const KEY_SEPARATOR: char = ':';

/// First segment of the keys of each kind of cached entity.
pub const GUILD_KEY: &'static str = "guild";

pub const CHANNEL_KEY: &'static str = "channel";

pub const MESSAGE_KEY: &'static str = "message";

pub const ROLE_KEY: &'static str = "role";

pub const MEMBER_KEY: &'static str = "member";

/// Suffix that turns a first segment into the name of its index set.
pub const KEYS_SUFFIX: &'static str = "_keys";

/// Key of the bot's own user record.
pub const BOT_USER_KEY: &'static str = "bot_user";

/// Name of the hash that maps a key to the time at which it expires.
pub const EXPIRY_KEYS: &'static str = "expiry_keys";

/// Key of the session table.
pub const SESSIONS_KEY: &'static str = "gateway_sessions";

/// Key of the shard status table.
pub const STATUSES_KEY: &'static str = "gateway_statuses";

/// Key of the shard count that the session table was written for.
pub const SHARDS_KEY: &'static str = "gateway_shards";

/// Key reserved for a liveness marker.
pub const STARTED_KEY: &'static str = "gateway_started";

} // verus!
