//! How the owned shards are split into clusters, and which sessions a
//! restart resumes.

use vstd::prelude::*;
use crate::config::Config;
use crate::keys::{numeral_value, parse_decimal};
use crate::models::SessionInfo;

verus! {

/// The number of shards that this process owns.
pub open spec fn owned(config: Config) -> int {
    config.shards_end - config.shards_start + 1
}

/// The number of shards that this process owns.
pub fn get_shards(config: &Config) -> (shards: u64)
    requires
        config.counts(),
    ensures
        shards == owned(*config),
{
    config.shards_end - config.shards_start + 1
}

/// A run of shards, both ends included.
#[derive(Clone, Copy, Debug, PartialEq, Eq)]
pub struct ShardRange {
    pub from: u64,
    pub to: u64,
}

impl ShardRange {
    /// Whether the range holds `shard`.
    pub open spec fn holds(self, shard: u64) -> bool {
        self.from <= shard <= self.to
    }

    /// Whether the range holds `shard`.
    pub fn contains(&self, shard: u64) -> (found: bool)
        ensures
            found == self.holds(shard),
    {
        self.from <= shard && shard <= self.to
    }
}

/// The smaller of two numbers.
pub open spec fn least(a: int, b: int) -> int {
    if a <= b {
        a
    } else {
        b
    }
}

/// The first shard of cluster `i`: every cluster gets the same share of the
/// owned shards, and each of the first clusters one of those left over.
pub open spec fn cluster_start(config: Config, i: int) -> int {
    let base = owned(config) / (config.clusters as int);
    let extra = owned(config) % (config.clusters as int);
    config.shards_start + i * base + least(i, extra)
}

/// Whether `ranges` is the split of the owned shards into clusters.
pub open spec fn is_partition(config: Config, ranges: Seq<ShardRange>) -> bool {
    &&& ranges.len() == config.clusters
    &&& forall|i: int|
        0 <= i < ranges.len() ==> (#[trigger] ranges[i]).from == cluster_start(config, i)
            && ranges[i].to == cluster_start(config, i + 1) - 1
}

/// Splits the owned shards into one run per cluster: the runs follow each
/// other without gap from the first owned shard to the last, and the first
/// `owned % clusters` of them are one shard longer than the rest.
pub fn get_clusters(config: &Config) -> (ranges: Vec<ShardRange>)
    requires
        config.splits(),
    ensures
        is_partition(*config, ranges@),
        forall|i: int| 0 <= i < ranges.len() ==> (#[trigger] ranges[i]).from <= ranges[i].to,
        cluster_start(*config, 0) == config.shards_start,
        cluster_start(*config, config.clusters as int) == config.shards_end + 1,
{
    let shards = get_shards(config);
    let base = shards / config.clusters;
    let extra = shards % config.clusters;
    let mut ranges: Vec<ShardRange> = Vec::new();
    let mut last_index = config.shards_start;
    let mut i: u64 = 0;
    proof {
        lemma_cluster_bounds(*config, 0);
        lemma_cluster_bounds(*config, config.clusters as int);
    }
    while i < config.clusters
        invariant
            config.splits(),
            i <= config.clusters,
            shards == owned(*config),
            base == owned(*config) / (config.clusters as int),
            extra == owned(*config) % (config.clusters as int),
            ranges.len() == i,
            last_index == cluster_start(*config, i as int),
            forall|j: int|
                0 <= j < i ==> (#[trigger] ranges[j]).from == cluster_start(*config, j)
                    && ranges[j].to == cluster_start(*config, j + 1) - 1 && ranges[j].from
                    <= ranges[j].to,
        decreases config.clusters - i,
    {
        proof {
            lemma_cluster_bounds(*config, i as int);
            lemma_cluster_bounds(*config, i as int + 1);
            lemma_cluster_step(*config, i as int);
        }
        let index = if i < extra {
            last_index + base
        } else {
            last_index + base - 1
        };
        ranges.push(ShardRange { from: last_index, to: index });
        last_index = index + 1;
        i = i + 1;
    }
    ranges
}

/// From one cluster to the next the start moves on by the cluster's share.
pub proof fn lemma_cluster_step(config: Config, i: int)
    requires
        config.splits(),
        0 <= i < config.clusters,
    ensures
        cluster_start(config, i + 1) - cluster_start(config, i) == owned(config) / (
        config.clusters as int) + (if i < owned(config) % (config.clusters as int) {
            1int
        } else {
            0int
        }),
        cluster_start(config, i + 1) > cluster_start(config, i),
{
    let base = owned(config) / (config.clusters as int);
    let extra = owned(config) % (config.clusters as int);
    assert((i + 1) * base == i * base + base) by (nonlinear_arith);
    assert(base >= 1) by (nonlinear_arith)
        requires
            base == owned(config) / (config.clusters as int),
            1 <= config.clusters <= owned(config),
    ;
}

/// The clusters start inside the owned shards, and the one past the last
/// starts right behind them.
pub proof fn lemma_cluster_bounds(config: Config, i: int)
    requires
        config.splits(),
        0 <= i <= config.clusters,
    ensures
        config.shards_start <= cluster_start(config, i) <= config.shards_end + 1,
        i == 0 ==> cluster_start(config, i) == config.shards_start,
        i == config.clusters ==> cluster_start(config, i) == config.shards_end + 1,
        i < config.clusters ==> cluster_start(config, i) <= config.shards_end,
{
    let n = owned(config);
    let c = config.clusters as int;
    let base = n / c;
    let extra = n % c;
    assert(n == c * base + extra && 0 <= extra < c) by (nonlinear_arith)
        requires
            base == n / c,
            extra == n % c,
            c >= 1,
    ;
    assert(0 <= i * base <= c * base) by (nonlinear_arith)
        requires
            0 <= i <= c,
            base >= 0,
    ;
    assert(base >= 0) by (nonlinear_arith)
        requires
            base == n / c,
            n >= 0,
            c >= 1,
    ;
    if i < c {
        assert(i * base + base <= c * base) by (nonlinear_arith)
            requires
                0 <= i < c,
                base >= 0,
        ;
        assert(base >= 1) by (nonlinear_arith)
            requires
                base == n / c,
                1 <= c <= n,
        ;
    }
}

/// A later cluster starts behind an earlier one.
pub proof fn lemma_cluster_monotone(config: Config, i: int, j: int)
    requires
        config.splits(),
        0 <= i < j <= config.clusters,
    ensures
        cluster_start(config, i) < cluster_start(config, j),
    decreases j - i,
{
    lemma_cluster_step(config, j - 1);
    if i < j - 1 {
        lemma_cluster_monotone(config, i, j - 1);
    }
}

/// The cluster that owns `shard`, looked for from cluster `i` on.
pub proof fn lemma_owner_from(config: Config, shard: int, i: int) -> (k: int)
    requires
        config.splits(),
        0 <= i < config.clusters,
        cluster_start(config, i) <= shard <= config.shards_end,
    ensures
        i <= k < config.clusters,
        cluster_start(config, k) <= shard < cluster_start(config, k + 1),
    decreases config.clusters - i,
{
    if shard < cluster_start(config, i + 1) {
        i
    } else {
        lemma_cluster_bounds(config, i + 1);
        lemma_owner_from(config, shard, i + 1)
    }
}

/// Every owned shard belongs to exactly one cluster, and a shard that is not
/// owned belongs to none.
pub proof fn lemma_one_owner(config: Config, ranges: Seq<ShardRange>, shard: u64)
    requires
        config.splits(),
        is_partition(config, ranges),
    ensures
        config.shards_start <= shard <= config.shards_end ==> exists|i: int|
            0 <= i < ranges.len() && (#[trigger] ranges[i]).holds(shard) && forall|j: int|
                0 <= j < ranges.len() && j != i ==> !(#[trigger] ranges[j]).holds(shard),
        !(config.shards_start <= shard <= config.shards_end) ==> forall|j: int|
            0 <= j < ranges.len() ==> !(#[trigger] ranges[j]).holds(shard),
{
    lemma_cluster_bounds(config, 0);
    if config.shards_start <= shard <= config.shards_end {
        let k = lemma_owner_from(config, shard as int, 0);
        assert(ranges[k].holds(shard));
        assert forall|j: int| 0 <= j < ranges.len() && j != k implies !(#[trigger] ranges[j]).holds(
            shard,
        ) by {
            if j < k {
                if j + 1 < k {
                    lemma_cluster_monotone(config, j + 1, k);
                }
            } else {
                if k + 1 < j {
                    lemma_cluster_monotone(config, k + 1, j);
                }
            }
        }
    } else {
        assert forall|j: int| 0 <= j < ranges.len() implies !(#[trigger] ranges[j]).holds(
            shard,
        ) by {
            lemma_cluster_bounds(config, j);
            lemma_cluster_bounds(config, j + 1);
        }
    }
}

/// Whether a restart resumes the stored sessions: resuming is switched on
/// and the sessions were stored for the number of shards that is configured.
pub open spec fn resumes(stored_shards: Option<u64>, config: Config) -> bool {
    config.resume && (match stored_shards {
        Some(shards) => shards,
        None => 0,
    }) == config.shards_total
}

/// The sessions among `stored` whose key is the number of a shard, each with
/// that number, in their order.
pub open spec fn readable_sessions(stored: Seq<(String, SessionInfo)>) -> Seq<(u64, SessionInfo)>
    decreases stored.len(),
{
    if stored.len() == 0 {
        Seq::empty()
    } else {
        let front = readable_sessions(stored.drop_last());
        match numeral_value(stored.last().0@) {
            Some(shard) => if shard <= u64::MAX {
                front.push((shard as u64, stored.last().1))
            } else {
                front
            },
            None => front,
        }
    }
}

/// Decides which sessions a restart resumes. `stored_shards` is the shard
/// count found in the cache and `stored` the session table found there,
/// keyed by the shard's number; nothing is resumed unless resuming is
/// switched on and the table was stored for the configured number of shards.
pub fn get_resume_sessions(
    stored_shards: Option<u64>,
    stored: Vec<(String, SessionInfo)>,
    config: &Config,
) -> (sessions: Vec<(u64, SessionInfo)>)
    ensures
        sessions@ == (if resumes(stored_shards, *config) {
            readable_sessions(stored@)
        } else {
            Seq::empty()
        }),
{
    let mut sessions: Vec<(u64, SessionInfo)> = Vec::new();
    let shards = match stored_shards {
        Some(shards) => shards,
        None => 0,
    };
    if shards != config.shards_total || !config.resume {
        return sessions;
    }
    for entry in it: stored.into_iter()
        invariant
            it.seq() == stored@,
            sessions@ == readable_sessions(stored@.take(it.index() as int)),
    {
        let ghost i = it.index() as int;
        proof {
            assert(stored@.take(i + 1).drop_last() =~= stored@.take(i));
            assert(stored@.take(i + 1).last() == entry);
        }
        let (key, session) = entry;
        match parse_decimal(key.as_str()) {
            Some(shard) => {
                sessions.push((shard, session));
            },
            None => {},
        }
    }
    proof {
        assert(stored@.take(stored@.len() as int) =~= stored@);
    }
    sessions
}

/// The kinds of event that a shard can be asked to hand on.
#[derive(Clone, Copy, Debug, PartialEq, Eq)]
pub enum EventType {
    ChannelCreate,
    ChannelDelete,
    ChannelUpdate,
    GatewayHello,
    GatewayInvalidateSession,
    GatewayReconnect,
    GuildCreate,
    GuildDelete,
    GuildUpdate,
    InteractionCreate,
    MemberAdd,
    MemberChunk,
    MemberRemove,
    MemberUpdate,
    MessageCreate,
    ReactionAdd,
    ReactionRemove,
    Ready,
    Resumed,
    RoleCreate,
    RoleDelete,
    RoleUpdate,
    ShardConnected,
    ShardConnecting,
    ShardDisconnected,
    ShardIdentifying,
    ShardPayload,
    ShardReconnecting,
    ShardResuming,
    ThreadCreate,
    ThreadDelete,
    ThreadUpdate,
    UnavailableGuild,
    UserUpdate,
}

/// The events that change the cached state of guilds, channels, roles and
/// of the bot's user.
pub open spec fn affects_state(kind: EventType) -> bool {
    kind is ChannelCreate || kind is ChannelDelete || kind is ChannelUpdate || kind is GuildCreate
        || kind is GuildDelete || kind is GuildUpdate || kind is RoleCreate || kind is RoleDelete
        || kind is RoleUpdate || kind is UnavailableGuild || kind is UserUpdate
}

/// The events that change the cached members.
pub open spec fn affects_members(kind: EventType) -> bool {
    kind is MemberAdd || kind is MemberChunk || kind is MemberRemove || kind is MemberUpdate
}

/// Whether a shard is asked to hand on the events of kind `kind`: those that
/// change cached state only where state is cached, those that change members
/// only where members are cached too, and every other kind always.
pub open spec fn subscribed(kind: EventType, config: Config) -> bool {
    if affects_state(kind) {
        config.state_enabled
    } else if affects_members(kind) {
        config.state_enabled && config.state_member
    } else {
        true
    }
}

/// The number of kinds of event.
pub const EVENT_TYPES: u8 = 34;

/// The kinds of event in the order in which they are listed; a number past
/// the last stands for the last.
pub open spec fn kind_at(place: int) -> EventType {
    if place == 0 {
        EventType::GatewayHello
    }     else if place == 1 {
        EventType::GatewayInvalidateSession
    }     else if place == 2 {
        EventType::GatewayReconnect
    }     else if place == 3 {
        EventType::Ready
    }     else if place == 4 {
        EventType::Resumed
    }     else if place == 5 {
        EventType::ShardConnected
    }     else if place == 6 {
        EventType::ShardConnecting
    }     else if place == 7 {
        EventType::ShardDisconnected
    }     else if place == 8 {
        EventType::ShardIdentifying
    }     else if place == 9 {
        EventType::ShardPayload
    }     else if place == 10 {
        EventType::ShardReconnecting
    }     else if place == 11 {
        EventType::ShardResuming
    }     else if place == 12 {
        EventType::InteractionCreate
    }     else if place == 13 {
        EventType::MessageCreate
    }     else if place == 14 {
        EventType::ReactionAdd
    }     else if place == 15 {
        EventType::ReactionRemove
    }     else if place == 16 {
        EventType::ThreadCreate
    }     else if place == 17 {
        EventType::ThreadDelete
    }     else if place == 18 {
        EventType::ThreadUpdate
    }     else if place == 19 {
        EventType::ChannelCreate
    }     else if place == 20 {
        EventType::ChannelDelete
    }     else if place == 21 {
        EventType::ChannelUpdate
    }     else if place == 22 {
        EventType::GuildCreate
    }     else if place == 23 {
        EventType::GuildDelete
    }     else if place == 24 {
        EventType::GuildUpdate
    }     else if place == 25 {
        EventType::RoleCreate
    }     else if place == 26 {
        EventType::RoleDelete
    }     else if place == 27 {
        EventType::RoleUpdate
    }     else if place == 28 {
        EventType::UnavailableGuild
    }     else if place == 29 {
        EventType::UserUpdate
    }     else if place == 30 {
        EventType::MemberAdd
    }     else if place == 31 {
        EventType::MemberChunk
    }     else if place == 32 {
        EventType::MemberRemove
    } else {
        EventType::MemberUpdate
    }
}

/// The place of a kind of event in the list.
pub open spec fn place_of(kind: EventType) -> int {
    match kind {
        EventType::GatewayHello => 0,
        EventType::GatewayInvalidateSession => 1,
        EventType::GatewayReconnect => 2,
        EventType::Ready => 3,
        EventType::Resumed => 4,
        EventType::ShardConnected => 5,
        EventType::ShardConnecting => 6,
        EventType::ShardDisconnected => 7,
        EventType::ShardIdentifying => 8,
        EventType::ShardPayload => 9,
        EventType::ShardReconnecting => 10,
        EventType::ShardResuming => 11,
        EventType::InteractionCreate => 12,
        EventType::MessageCreate => 13,
        EventType::ReactionAdd => 14,
        EventType::ReactionRemove => 15,
        EventType::ThreadCreate => 16,
        EventType::ThreadDelete => 17,
        EventType::ThreadUpdate => 18,
        EventType::ChannelCreate => 19,
        EventType::ChannelDelete => 20,
        EventType::ChannelUpdate => 21,
        EventType::GuildCreate => 22,
        EventType::GuildDelete => 23,
        EventType::GuildUpdate => 24,
        EventType::RoleCreate => 25,
        EventType::RoleDelete => 26,
        EventType::RoleUpdate => 27,
        EventType::UnavailableGuild => 28,
        EventType::UserUpdate => 29,
        EventType::MemberAdd => 30,
        EventType::MemberChunk => 31,
        EventType::MemberRemove => 32,
        EventType::MemberUpdate => 33,
    }
}

fn event_type_at(place: u8) -> (kind: EventType)
    ensures
        kind == kind_at(place as int),
{
    if place == 0 {
        EventType::GatewayHello
    }     else if place == 1 {
        EventType::GatewayInvalidateSession
    }     else if place == 2 {
        EventType::GatewayReconnect
    }     else if place == 3 {
        EventType::Ready
    }     else if place == 4 {
        EventType::Resumed
    }     else if place == 5 {
        EventType::ShardConnected
    }     else if place == 6 {
        EventType::ShardConnecting
    }     else if place == 7 {
        EventType::ShardDisconnected
    }     else if place == 8 {
        EventType::ShardIdentifying
    }     else if place == 9 {
        EventType::ShardPayload
    }     else if place == 10 {
        EventType::ShardReconnecting
    }     else if place == 11 {
        EventType::ShardResuming
    }     else if place == 12 {
        EventType::InteractionCreate
    }     else if place == 13 {
        EventType::MessageCreate
    }     else if place == 14 {
        EventType::ReactionAdd
    }     else if place == 15 {
        EventType::ReactionRemove
    }     else if place == 16 {
        EventType::ThreadCreate
    }     else if place == 17 {
        EventType::ThreadDelete
    }     else if place == 18 {
        EventType::ThreadUpdate
    }     else if place == 19 {
        EventType::ChannelCreate
    }     else if place == 20 {
        EventType::ChannelDelete
    }     else if place == 21 {
        EventType::ChannelUpdate
    }     else if place == 22 {
        EventType::GuildCreate
    }     else if place == 23 {
        EventType::GuildDelete
    }     else if place == 24 {
        EventType::GuildUpdate
    }     else if place == 25 {
        EventType::RoleCreate
    }     else if place == 26 {
        EventType::RoleDelete
    }     else if place == 27 {
        EventType::RoleUpdate
    }     else if place == 28 {
        EventType::UnavailableGuild
    }     else if place == 29 {
        EventType::UserUpdate
    }     else if place == 30 {
        EventType::MemberAdd
    }     else if place == 31 {
        EventType::MemberChunk
    }     else if place == 32 {
        EventType::MemberRemove
    } else {
        EventType::MemberUpdate
    }
}

fn is_subscribed(kind: EventType, config: &Config) -> (on: bool)
    ensures
        on == subscribed(kind, *config),
{
    match kind {
        EventType::ChannelCreate
        | EventType::ChannelDelete
        | EventType::ChannelUpdate
        | EventType::GuildCreate
        | EventType::GuildDelete
        | EventType::GuildUpdate
        | EventType::RoleCreate
        | EventType::RoleDelete
        | EventType::RoleUpdate
        | EventType::UnavailableGuild
        | EventType::UserUpdate => config.state_enabled,
        EventType::MemberAdd
        | EventType::MemberChunk
        | EventType::MemberRemove
        | EventType::MemberUpdate => config.state_enabled && config.state_member,
        _ => true,
    }
}

/// The subscribed kinds among the first `n` of the list, in their order.
pub open spec fn listed(config: Config, n: int) -> Seq<EventType>
    decreases n,
{
    if n <= 0 {
        Seq::empty()
    } else {
        let front = listed(config, n - 1);
        if subscribed(kind_at(n - 1), config) {
            front.push(kind_at(n - 1))
        } else {
            front
        }
    }
}

/// Every kind has its place in the list, and no other kind has that place.
pub proof fn lemma_places(kind: EventType)
    ensures
        0 <= place_of(kind) < EVENT_TYPES,
        kind_at(place_of(kind)) == kind,
{
}

/// What is listed comes from a place before `n`, in rising order of places.
proof fn lemma_listed(config: Config, n: int)
    requires
        0 <= n <= EVENT_TYPES,
    ensures
        forall|k: int|
            0 <= k < listed(config, n).len() ==> 0 <= place_of(#[trigger] listed(config, n)[k]) < n
                && subscribed(listed(config, n)[k], config),
        forall|k: int, l: int|
            0 <= k < l < listed(config, n).len() ==> place_of(listed(config, n)[k]) < place_of(
                listed(config, n)[l],
            ),
        forall|kind: EventType|
            place_of(kind) < n && subscribed(kind, config) ==> listed(config, n).contains(kind),
    decreases n,
{
    if n > 0 {
        lemma_listed(config, n - 1);
        let front = listed(config, n - 1);
        let all = listed(config, n);
        let last = kind_at(n - 1);
        assert(place_of(last) == n - 1) by {
            lemma_place_back(n - 1);
        }
        assert forall|kind: EventType|
            place_of(kind) < n && subscribed(kind, config) implies all.contains(kind) by {
            lemma_places(kind);
            if place_of(kind) < n - 1 {
                assert(front.contains(kind));
                let k = choose|k: int| 0 <= k < front.len() && front[k] == kind;
                assert(all[k] == kind);
            } else {
                assert(kind == last);
                assert(all[all.len() - 1] == kind);
            }
        }
    }
}

/// The kind at a place of the list has that place.
proof fn lemma_place_back(place: int)
    requires
        0 <= place < EVENT_TYPES,
    ensures
        place_of(kind_at(place)) == place,
{
}

/// The kinds of event that the shards are asked to hand on: each subscribed
/// kind once, in the order of the list.
pub fn get_event_flags(config: &Config) -> (flags: Vec<EventType>)
    ensures
        flags@ == listed(*config, EVENT_TYPES as int),
        forall|kind: EventType| flags@.contains(kind) <==> subscribed(kind, *config),
        flags@.no_duplicates(),
{
    let mut flags: Vec<EventType> = Vec::new();
    let mut place: u8 = 0;
    while place < EVENT_TYPES
        invariant
            place <= EVENT_TYPES,
            flags@ == listed(*config, place as int),
        decreases EVENT_TYPES - place,
    {
        let kind = event_type_at(place);
        if is_subscribed(kind, config) {
            flags.push(kind);
        }
        place = place + 1;
    }
    proof {
        lemma_listed(*config, EVENT_TYPES as int);
        assert forall|kind: EventType| flags@.contains(kind) <==> subscribed(kind, *config) by {
            lemma_places(kind);
            if flags@.contains(kind) {
                let k = choose|k: int| 0 <= k < flags@.len() && flags@[k] == kind;
                assert(subscribed(flags@[k], *config));
            }
        }
    }
    flags
}

} // verus!
