//! The gateway events that the proxy acts on.

use vstd::prelude::*;
use crate::models::{
    Channel, CurrentUser, Guild, Member, MemberUpdate, PartialGuild, Role, UnavailableGuild,
};

verus! {

/// One event of a shard.
#[derive(Debug, PartialEq, Eq)]
pub enum Event {
    ChannelCreate(Channel),
    ChannelDelete(Channel),
    ChannelUpdate(Channel),
    /// The gateway greets the shard; the number is the heartbeat interval.
    GatewayHello(u64),
    /// The gateway ends the session; the flag says whether it can be resumed.
    GatewayInvalidateSession(bool),
    GatewayReconnect,
    GuildCreate(Guild),
    GuildDelete { id: u64 },
    GuildUpdate(PartialGuild),
    MemberAdd(Member),
    MemberChunk { guild_id: u64, members: Vec<Member> },
    MemberRemove { guild_id: u64, user_id: u64 },
    MemberUpdate(MemberUpdate),
    Ready { guilds: Vec<UnavailableGuild>, session_id: String, user: CurrentUser },
    Resumed,
    RoleCreate { guild_id: u64, role: Role },
    RoleDelete { guild_id: u64, role_id: u64 },
    RoleUpdate { guild_id: u64, role: Role },
    ShardConnected,
    ShardConnecting { gateway: String },
    ShardDisconnected { code: Option<u16>, reason: Option<String> },
    ShardIdentifying,
    /// A payload as it came from the gateway.
    ShardPayload { bytes: Vec<u8> },
    ShardReconnecting,
    ShardResuming { seq: u64 },
    /// A guild became unavailable; the stub is cached in its place.
    UnavailableGuild(UnavailableGuild),
    UserUpdate(CurrentUser),
    /// Any event that the proxy only passes on.
    Other,
}

/// The switches of the state cache.
#[derive(Clone, Copy, Debug, PartialEq, Eq)]
pub struct CacheConfig {
    /// Whether state is cached at all.
    pub state_enabled: bool,
    /// Whether members are cached. The bot's own member is cached in any
    /// case.
    pub state_member: bool,
    /// Milliseconds after which a cached member expires, if members expire.
    pub state_member_ttl: Option<u64>,
}

} // verus!
