//! The options that the proxy recognises.

use vstd::prelude::*;
use crate::events::CacheConfig;

verus! {

/// The options of one proxy process.
#[derive(Debug, PartialEq, Eq)]
pub struct Config {
    /// The credential of the bot.
    pub bot_token: String,
    /// The bitfield of the event categories that the gateway sends.
    pub intents: u64,
    /// The number of shards of the whole bot.
    pub shards_total: u64,
    /// The first shard that this process owns.
    pub shards_start: u64,
    /// The last shard that this process owns.
    pub shards_end: u64,
    /// The number of clusters that the owned shards are split across.
    pub clusters: u64,
    /// The number of admission buckets; one means a single queue.
    pub shards_concurrency: u64,
    /// Seconds between two admissions of one bucket.
    pub shards_wait: u64,
    /// Whether a restart tries to resume the stored sessions.
    pub resume: bool,
    /// The member count above which the gateway withholds the member list.
    pub large_threshold: u64,
    pub activity_type: u8,
    pub activity_name: String,
    pub status: String,
    pub state_enabled: bool,
    pub state_member: bool,
    /// Milliseconds after which a cached member expires, if members expire.
    pub state_member_ttl: Option<u64>,
    /// Milliseconds that one cache update may take.
    pub cache_update_deadline_ms: u64,
    /// Milliseconds between two member requests.
    pub member_request_delay_ms: u64,
    pub prometheus_host: String,
    pub prometheus_port: u64,
    /// The channel that lifecycle announcements are posted to.
    pub log_channel: u64,
}

impl Config {
    /// Whether the owned shards can be counted: there is at least one, and
    /// their number fits the machine's numbers.
    pub open spec fn counts(&self) -> bool {
        self.shards_start <= self.shards_end && self.shards_end - self.shards_start < u64::MAX
    }

    /// Whether the owned shards can be split into the clusters: there is at
    /// least one owned shard, the last one is not the last number, and there
    /// are between one cluster and one cluster per shard.
    pub open spec fn splits(&self) -> bool {
        &&& self.shards_start <= self.shards_end
        &&& self.shards_end < u64::MAX
        &&& 1 <= self.clusters
        &&& self.clusters <= self.shards_end - self.shards_start + 1
    }

    /// Whether the shard options describe a process that can run: the owned
    /// shards can be split, all of them lie below the total, and there is at
    /// least one admission bucket.
    pub open spec fn valid(&self) -> bool {
        &&& self.splits()
        &&& self.shards_end < self.shards_total
        &&& 1 <= self.shards_concurrency
    }

    /// Checks the shard options.
    pub fn is_valid(&self) -> (valid: bool)
        ensures
            valid == self.valid(),
    {
        self.shards_start <= self.shards_end && self.shards_end < self.shards_total
            && 1 <= self.clusters && self.clusters - 1 <= self.shards_end - self.shards_start
            && 1 <= self.shards_concurrency
    }

    /// The switches of the state cache.
    pub fn cache(&self) -> (cache: CacheConfig)
        ensures
            cache == (CacheConfig {
                state_enabled: self.state_enabled,
                state_member: self.state_member,
                state_member_ttl: self.state_member_ttl,
            }),
    {
        CacheConfig {
            state_enabled: self.state_enabled,
            state_member: self.state_member,
            state_member_ttl: self.state_member_ttl,
        }
    }
}

} // verus!
