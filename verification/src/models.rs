//! The data that crosses the proxy: gateway entities, their cached forms, and
//! the records of the broker and of the status tables.

use vstd::prelude::*;
use crate::timestamp::FormattedDateTime;

verus! {

/// A user as the gateway describes it.
#[derive(Debug, PartialEq, Eq)]
pub struct User {
    pub avatar: Option<String>,
    pub bot: bool,
    pub discriminator: String,
    pub id: u64,
    pub name: String,
}

/// What `User` holds.
pub struct UserView {
    pub avatar: Option<Seq<char>>,
    pub bot: bool,
    pub discriminator: Seq<char>,
    pub id: u64,
    pub name: Seq<char>,
}

impl DeepView for User {
    type V = UserView;

    open spec fn deep_view(&self) -> UserView {
        UserView {
            avatar: self.avatar.deep_view(),
            bot: self.bot,
            discriminator: self.discriminator.deep_view(),
            id: self.id,
            name: self.name.deep_view(),
        }
    }
}

/// The bot's own user as the gateway describes it.
#[derive(Debug, PartialEq, Eq)]
pub struct CurrentUser {
    pub avatar: Option<String>,
    pub bot: bool,
    pub discriminator: String,
    pub id: u64,
    pub name: String,
    pub verified: bool,
}

/// A role as the gateway describes it.
#[derive(Debug, PartialEq, Eq)]
pub struct Role {
    pub color: u32,
    pub hoist: bool,
    pub id: u64,
    pub managed: bool,
    pub mentionable: bool,
    pub name: String,
    pub permissions: u64,
    pub position: i64,
}

/// What `Role` holds.
pub struct RoleView {
    pub color: u32,
    pub hoist: bool,
    pub id: u64,
    pub managed: bool,
    pub mentionable: bool,
    pub name: Seq<char>,
    pub permissions: u64,
    pub position: i64,
}

impl DeepView for Role {
    type V = RoleView;

    open spec fn deep_view(&self) -> RoleView {
        RoleView {
            color: self.color,
            hoist: self.hoist,
            id: self.id,
            managed: self.managed,
            mentionable: self.mentionable,
            name: self.name.deep_view(),
            permissions: self.permissions,
            position: self.position,
        }
    }
}

/// A guild member as the gateway describes it.
#[derive(Debug, PartialEq, Eq)]
pub struct Member {
    pub deaf: bool,
    pub guild_id: u64,
    pub mute: bool,
    pub nick: Option<String>,
    pub roles: Vec<u64>,
    pub user: User,
}

/// What `Member` holds.
pub struct MemberView {
    pub deaf: bool,
    pub guild_id: u64,
    pub mute: bool,
    pub nick: Option<Seq<char>>,
    pub roles: Seq<u64>,
    pub user: UserView,
}

impl DeepView for Member {
    type V = MemberView;

    open spec fn deep_view(&self) -> MemberView {
        MemberView {
            deaf: self.deaf,
            guild_id: self.guild_id,
            mute: self.mute,
            nick: self.nick.deep_view(),
            roles: self.roles.deep_view(),
            user: self.user.deep_view(),
        }
    }
}

/// A member as it comes with a message: without guild and user.
#[derive(Debug, PartialEq, Eq)]
pub struct PartialMember {
    pub deaf: bool,
    pub mute: bool,
    pub nick: Option<String>,
    pub roles: Vec<u64>,
}

/// The kinds of channel that a guild has.
#[derive(Clone, Copy, Debug, PartialEq, Eq)]
pub enum ChannelKind {
    Category,
    NewsThread,
    PrivateThread,
    PublicThread,
    Stage,
    Text,
    Voice,
}

/// A channel of a guild.
#[derive(Debug, PartialEq, Eq)]
pub struct GuildChannel {
    pub guild_id: Option<u64>,
    pub id: u64,
    pub kind: ChannelKind,
    pub name: String,
}

/// What `GuildChannel` holds.
pub struct GuildChannelView {
    pub guild_id: Option<u64>,
    pub id: u64,
    pub kind: ChannelKind,
    pub name: Seq<char>,
}

impl DeepView for GuildChannel {
    type V = GuildChannelView;

    open spec fn deep_view(&self) -> GuildChannelView {
        GuildChannelView {
            guild_id: self.guild_id,
            id: self.id,
            kind: self.kind,
            name: self.name.deep_view(),
        }
    }
}

/// A channel between the bot and one user.
#[derive(Debug, PartialEq, Eq)]
pub struct PrivateChannel {
    pub id: u64,
    pub recipients: Vec<User>,
}

/// What `PrivateChannel` holds.
pub struct PrivateChannelView {
    pub id: u64,
    pub recipients: Seq<UserView>,
}

impl DeepView for PrivateChannel {
    type V = PrivateChannelView;

    open spec fn deep_view(&self) -> PrivateChannelView {
        PrivateChannelView {
            id: self.id,
            recipients: self.recipients.deep_view(),
        }
    }
}

/// A channel of any kind; a group has nothing that is cached.
#[derive(Debug, PartialEq, Eq)]
pub enum Channel {
    Group,
    Guild(GuildChannel),
    Private(PrivateChannel),
}

/// A guild as the gateway describes it when the bot joins or connects.
#[derive(Debug, PartialEq, Eq)]
pub struct Guild {
    pub channels: Vec<GuildChannel>,
    pub icon: Option<String>,
    pub id: u64,
    pub members: Vec<Member>,
    pub name: String,
    pub owner_id: u64,
    pub roles: Vec<Role>,
}

/// A guild as the gateway describes it when its settings change.
#[derive(Debug, PartialEq, Eq)]
pub struct PartialGuild {
    pub icon: Option<String>,
    pub id: u64,
    pub name: String,
    pub owner_id: u64,
    pub roles: Vec<Role>,
}

/// The stub of a guild that the gateway cannot describe yet.
#[derive(Clone, Copy, Debug, PartialEq, Eq)]
pub struct UnavailableGuild {
    pub id: u64,
    pub unavailable: bool,
}

/// The changed fields of a member.
#[derive(Debug, PartialEq, Eq)]
pub struct MemberUpdate {
    pub guild_id: u64,
    pub nick: Option<String>,
    pub roles: Vec<u64>,
    pub user: User,
}

/// A guild as the cache holds it.
#[derive(Debug, PartialEq, Eq)]
pub struct CachedGuild {
    pub channels: Vec<GuildChannel>,
    pub icon: Option<String>,
    pub id: u64,
    pub members: Vec<Member>,
    pub name: String,
    pub owner_id: u64,
    pub roles: Vec<Role>,
}

/// What `CachedGuild` holds.
pub struct CachedGuildView {
    pub channels: Seq<GuildChannelView>,
    pub icon: Option<Seq<char>>,
    pub id: u64,
    pub members: Seq<MemberView>,
    pub name: Seq<char>,
    pub owner_id: u64,
    pub roles: Seq<RoleView>,
}

impl DeepView for CachedGuild {
    type V = CachedGuildView;

    open spec fn deep_view(&self) -> CachedGuildView {
        CachedGuildView {
            channels: self.channels.deep_view(),
            icon: self.icon.deep_view(),
            id: self.id,
            members: self.members.deep_view(),
            name: self.name.deep_view(),
            owner_id: self.owner_id,
            roles: self.roles.deep_view(),
        }
    }
}

/// The bot's own user as the cache holds it.
#[derive(Debug, PartialEq, Eq)]
pub struct CachedCurrentUser {
    pub avatar: Option<String>,
    pub discriminator: String,
    pub id: u64,
    pub name: String,
}

/// What `CachedCurrentUser` holds.
pub struct CachedCurrentUserView {
    pub avatar: Option<Seq<char>>,
    pub discriminator: Seq<char>,
    pub id: u64,
    pub name: Seq<char>,
}

impl DeepView for CachedCurrentUser {
    type V = CachedCurrentUserView;

    open spec fn deep_view(&self) -> CachedCurrentUserView {
        CachedCurrentUserView {
            avatar: self.avatar.deep_view(),
            discriminator: self.discriminator.deep_view(),
            id: self.id,
            name: self.name.deep_view(),
        }
    }
}

/// A user as the cache holds it.
#[derive(Debug, PartialEq, Eq)]
pub struct CachedUser {
    pub avatar: Option<String>,
    pub bot: bool,
    pub discriminator: String,
    pub id: u64,
    pub name: String,
}

/// What `CachedUser` holds.
pub struct CachedUserView {
    pub avatar: Option<Seq<char>>,
    pub bot: bool,
    pub discriminator: Seq<char>,
    pub id: u64,
    pub name: Seq<char>,
}

impl DeepView for CachedUser {
    type V = CachedUserView;

    open spec fn deep_view(&self) -> CachedUserView {
        CachedUserView {
            avatar: self.avatar.deep_view(),
            bot: self.bot,
            discriminator: self.discriminator.deep_view(),
            id: self.id,
            name: self.name.deep_view(),
        }
    }
}

/// A member as the cache holds it.
#[derive(Debug, PartialEq, Eq)]
pub struct CachedMember {
    pub guild_id: u64,
    pub nick: Option<String>,
    pub roles: Vec<u64>,
    pub user_id: u64,
}

/// What `CachedMember` holds.
pub struct CachedMemberView {
    pub guild_id: u64,
    pub nick: Option<Seq<char>>,
    pub roles: Seq<u64>,
    pub user_id: u64,
}

impl DeepView for CachedMember {
    type V = CachedMemberView;

    open spec fn deep_view(&self) -> CachedMemberView {
        CachedMemberView {
            guild_id: self.guild_id,
            nick: self.nick.deep_view(),
            roles: self.roles.deep_view(),
            user_id: self.user_id,
        }
    }
}

/// What is known of a member before its guild and user are.
#[derive(Debug, PartialEq, Eq)]
pub struct IntermediateMember {
    pub nick: Option<String>,
    pub roles: Vec<u64>,
}

/// What `IntermediateMember` holds.
pub struct IntermediateMemberView {
    pub nick: Option<Seq<char>>,
    pub roles: Seq<u64>,
}

impl DeepView for IntermediateMember {
    type V = IntermediateMemberView;

    open spec fn deep_view(&self) -> IntermediateMemberView {
        IntermediateMemberView {
            nick: self.nick.deep_view(),
            roles: self.roles.deep_view(),
        }
    }
}

impl IntermediateMember {
    /// The cached member of `guild_id` and `user_id` with this nick and
    /// these roles.
    pub fn into_member(self, guild_id: u64, user_id: u64) -> (member: CachedMember)
        ensures
            member.deep_view() == (CachedMemberView {
                guild_id,
                nick: self.nick.deep_view(),
                roles: self.roles.deep_view(),
                user_id,
            }),
    {
        CachedMember { guild_id, nick: self.nick, roles: self.roles, user_id }
    }
}

/// A role as the cache holds it.
#[derive(Debug, PartialEq, Eq)]
pub struct CachedRole {
    pub id: u64,
    pub name: String,
    pub permissions: u64,
    pub position: i64,
}

/// What `CachedRole` holds.
pub struct CachedRoleView {
    pub id: u64,
    pub name: Seq<char>,
    pub permissions: u64,
    pub position: i64,
}

impl DeepView for CachedRole {
    type V = CachedRoleView;

    open spec fn deep_view(&self) -> CachedRoleView {
        CachedRoleView {
            id: self.id,
            name: self.name.deep_view(),
            permissions: self.permissions,
            position: self.position,
        }
    }
}

/// A value of the cache.
#[derive(Debug, PartialEq, Eq)]
pub enum GuildItem {
    Channel(GuildChannel),
    CurrentUser(CachedCurrentUser),
    Guild(CachedGuild),
    Member(CachedMember),
    PrivateChannel(PrivateChannel),
    Role(CachedRole),
    Unavailable(UnavailableGuild),
}

/// What a value of the cache holds.
pub enum GuildItemView {
    Channel(GuildChannelView),
    CurrentUser(CachedCurrentUserView),
    Guild(CachedGuildView),
    Member(CachedMemberView),
    PrivateChannel(PrivateChannelView),
    Role(CachedRoleView),
    Unavailable(UnavailableGuild),
}

impl DeepView for GuildItem {
    type V = GuildItemView;

    open spec fn deep_view(&self) -> GuildItemView {
        match self {
            GuildItem::Channel(channel) => GuildItemView::Channel(channel.deep_view()),
            GuildItem::CurrentUser(user) => GuildItemView::CurrentUser(user.deep_view()),
            GuildItem::Guild(guild) => GuildItemView::Guild(guild.deep_view()),
            GuildItem::Member(member) => GuildItemView::Member(member.deep_view()),
            GuildItem::PrivateChannel(channel) => GuildItemView::PrivateChannel(channel.deep_view()),
            GuildItem::Role(role) => GuildItemView::Role(role.deep_view()),
            GuildItem::Unavailable(stub) => GuildItemView::Unavailable(*stub),
        }
    }
}

/// A value that can be copied field by field.
pub trait Duplicate: DeepView + Sized {
    /// A copy that holds the same as the value.
    fn duplicate(&self) -> (copy: Self)
        ensures
            copy.deep_view() == self.deep_view(),
    ;
}

/// A copy of an optional text.
pub fn duplicate_text(text: &Option<String>) -> (copy: Option<String>)
    ensures
        copy.deep_view() == text.deep_view(),
{
    match text {
        Some(t) => Some(t.clone()),
        None => None,
    }
}

/// A copy of a list of numbers.
pub fn duplicate_ids(ids: &Vec<u64>) -> (copy: Vec<u64>)
    ensures
        copy.deep_view() == ids.deep_view(),
{
    let mut copy: Vec<u64> = Vec::new();
    let mut i: usize = 0;
    while i < ids.len()
        invariant
            i <= ids.len(),
            copy.len() == i,
            forall|j: int| 0 <= j < i ==> copy[j] == ids[j],
        decreases ids.len() - i,
    {
        copy.push(ids[i]);
        i = i + 1;
    }
    proof {
        assert(copy.deep_view() =~= ids.deep_view());
    }
    copy
}

/// A copy of a list of values.
pub fn duplicate_all<T: Duplicate>(items: &Vec<T>) -> (copy: Vec<T>)
    ensures
        copy.deep_view() == items.deep_view(),
{
    let mut copy: Vec<T> = Vec::new();
    let mut i: usize = 0;
    while i < items.len()
        invariant
            i <= items.len(),
            copy.len() == i,
            forall|j: int| 0 <= j < i ==> (#[trigger] copy[j]).deep_view() == items[j].deep_view(),
        decreases items.len() - i,
    {
        copy.push(items[i].duplicate());
        i = i + 1;
    }
    proof {
        assert(copy.deep_view() =~= items.deep_view());
    }
    copy
}

impl Duplicate for User {
    fn duplicate(&self) -> (copy: Self) {
        User {
            avatar: duplicate_text(&self.avatar),
            bot: self.bot,
            discriminator: self.discriminator.clone(),
            id: self.id,
            name: self.name.clone(),
        }
    }
}

impl Duplicate for Role {
    fn duplicate(&self) -> (copy: Self) {
        Role {
            color: self.color,
            hoist: self.hoist,
            id: self.id,
            managed: self.managed,
            mentionable: self.mentionable,
            name: self.name.clone(),
            permissions: self.permissions,
            position: self.position,
        }
    }
}

impl Duplicate for Member {
    fn duplicate(&self) -> (copy: Self) {
        Member {
            deaf: self.deaf,
            guild_id: self.guild_id,
            mute: self.mute,
            nick: duplicate_text(&self.nick),
            roles: duplicate_ids(&self.roles),
            user: self.user.duplicate(),
        }
    }
}

impl Duplicate for GuildChannel {
    fn duplicate(&self) -> (copy: Self) {
        GuildChannel {
            guild_id: self.guild_id,
            id: self.id,
            kind: self.kind,
            name: self.name.clone(),
        }
    }
}

/// A gateway entity that has a cached form.
pub trait ToCached {
    /// The cached form.
    type Kind: DeepView;

    /// What the cached form of the entity holds.
    spec fn cached_form(&self) -> <Self::Kind as DeepView>::V;

    /// The cached form of the entity.
    fn to_cached(&self) -> (cached: Self::Kind)
        ensures
            cached.deep_view() == self.cached_form(),
    ;
}

impl ToCached for Guild {
    type Kind = CachedGuild;

    open spec fn cached_form(&self) -> CachedGuildView {
        CachedGuildView {
            channels: self.channels.deep_view(),
            icon: self.icon.deep_view(),
            id: self.id,
            members: self.members.deep_view(),
            name: self.name@,
            owner_id: self.owner_id,
            roles: self.roles.deep_view(),
        }
    }

    fn to_cached(&self) -> (cached: CachedGuild) {
        CachedGuild {
            channels: duplicate_all(&self.channels),
            icon: duplicate_text(&self.icon),
            id: self.id,
            members: duplicate_all(&self.members),
            name: self.name.clone(),
            owner_id: self.owner_id,
            roles: duplicate_all(&self.roles),
        }
    }
}

impl ToCached for CurrentUser {
    type Kind = CachedCurrentUser;

    open spec fn cached_form(&self) -> CachedCurrentUserView {
        self.cached_view()
    }

    fn to_cached(&self) -> (cached: CachedCurrentUser) {
        CachedCurrentUser {
            avatar: duplicate_text(&self.avatar),
            discriminator: self.discriminator.clone(),
            id: self.id,
            name: self.name.clone(),
        }
    }
}

impl ToCached for Role {
    type Kind = CachedRole;

    open spec fn cached_form(&self) -> CachedRoleView {
        self.cached_view()
    }

    fn to_cached(&self) -> (cached: CachedRole) {
        CachedRole {
            id: self.id,
            name: self.name.clone(),
            permissions: self.permissions,
            position: self.position,
        }
    }
}

impl ToCached for Member {
    type Kind = CachedMember;

    open spec fn cached_form(&self) -> CachedMemberView {
        self.cached_view()
    }

    fn to_cached(&self) -> (cached: CachedMember) {
        CachedMember {
            guild_id: self.guild_id,
            nick: duplicate_text(&self.nick),
            roles: duplicate_ids(&self.roles),
            user_id: self.user.id,
        }
    }
}

impl ToCached for PartialMember {
    type Kind = IntermediateMember;

    open spec fn cached_form(&self) -> IntermediateMemberView {
        IntermediateMemberView { nick: self.nick.deep_view(), roles: self.roles.deep_view() }
    }

    fn to_cached(&self) -> (cached: IntermediateMember) {
        IntermediateMember { nick: duplicate_text(&self.nick), roles: duplicate_ids(&self.roles) }
    }
}

impl ToCached for User {
    type Kind = CachedUser;

    open spec fn cached_form(&self) -> CachedUserView {
        CachedUserView {
            avatar: self.avatar.deep_view(),
            bot: self.bot,
            discriminator: self.discriminator@,
            id: self.id,
            name: self.name@,
        }
    }

    fn to_cached(&self) -> (cached: CachedUser) {
        CachedUser {
            avatar: duplicate_text(&self.avatar),
            bot: self.bot,
            discriminator: self.discriminator.clone(),
            id: self.id,
            name: self.name.clone(),
        }
    }
}

impl Guild {
    /// The guild record that is cached when the guild is created: its
    /// channels, roles and members are cached under keys of their own, so
    /// the record lists none.
    pub open spec fn record(self) -> CachedGuildView {
        CachedGuildView {
            channels: Seq::empty(),
            icon: self.icon.deep_view(),
            id: self.id,
            members: Seq::empty(),
            name: self.name@,
            owner_id: self.owner_id,
            roles: Seq::empty(),
        }
    }
}

impl PartialGuild {
    /// The guild record that is cached when the guild's settings change: it
    /// lists the roles, and neither channels nor members.
    pub open spec fn record(self) -> CachedGuildView {
        CachedGuildView {
            channels: Seq::empty(),
            icon: self.icon.deep_view(),
            id: self.id,
            members: Seq::empty(),
            name: self.name@,
            owner_id: self.owner_id,
            roles: self.roles.deep_view(),
        }
    }

    /// Turns the guild into its record.
    pub fn into_record(self) -> (record: CachedGuild)
        ensures
            record.deep_view() == self.record(),
    {
        let record = CachedGuild {
            channels: Vec::new(),
            icon: self.icon,
            id: self.id,
            members: Vec::new(),
            name: self.name,
            owner_id: self.owner_id,
            roles: self.roles,
        };
        proof {
            assert(record.channels.deep_view() =~= Seq::<GuildChannelView>::empty());
            assert(record.members.deep_view() =~= Seq::<MemberView>::empty());
        }
        record
    }
}

impl Role {
    /// What the cached form holds.
    pub open spec fn cached_view(self) -> CachedRoleView {
        CachedRoleView {
            id: self.id,
            name: self.name@,
            permissions: self.permissions,
            position: self.position,
        }
    }

    /// Turns the role into its cached form.
    pub fn into_cached(self) -> (cached: CachedRole)
        ensures
            cached.deep_view() == self.cached_view(),
    {
        CachedRole {
            id: self.id,
            name: self.name,
            permissions: self.permissions,
            position: self.position,
        }
    }
}

impl Member {
    /// What the cached form holds.
    pub open spec fn cached_view(self) -> CachedMemberView {
        CachedMemberView {
            guild_id: self.guild_id,
            nick: self.nick.deep_view(),
            roles: self.roles.deep_view(),
            user_id: self.user.id,
        }
    }

    /// Turns the member into its cached form.
    pub fn into_cached(self) -> (cached: CachedMember)
        ensures
            cached.deep_view() == self.cached_view(),
    {
        CachedMember {
            guild_id: self.guild_id,
            nick: self.nick,
            roles: self.roles,
            user_id: self.user.id,
        }
    }
}

impl CurrentUser {
    /// What the cached form holds.
    pub open spec fn cached_view(self) -> CachedCurrentUserView {
        CachedCurrentUserView {
            avatar: self.avatar.deep_view(),
            discriminator: self.discriminator@,
            id: self.id,
            name: self.name@,
        }
    }

    /// Turns the bot's user into its cached form.
    pub fn into_cached(self) -> (cached: CachedCurrentUser)
        ensures
            cached.deep_view() == self.cached_view(),
    {
        CachedCurrentUser {
            avatar: self.avatar,
            discriminator: self.discriminator,
            id: self.id,
            name: self.name,
        }
    }
}

impl MemberUpdate {
    /// The member `existing` with the changed fields taken over: nick, roles
    /// and user change, the guild stays.
    pub open spec fn merged(self, existing: CachedMemberView) -> CachedMemberView {
        CachedMemberView {
            guild_id: existing.guild_id,
            nick: self.nick.deep_view(),
            roles: self.roles.deep_view(),
            user_id: self.user.id,
        }
    }

    /// Takes the changed fields over into `existing`.
    pub fn merge(self, existing: &CachedMember) -> (member: CachedMember)
        ensures
            member.deep_view() == self.merged(existing.deep_view()),
    {
        CachedMember {
            guild_id: existing.guild_id,
            nick: self.nick,
            roles: self.roles,
            user_id: self.user.id,
        }
    }
}

/// The stage of a shard's connection.
#[derive(Clone, Copy, Debug, PartialEq, Eq)]
pub enum Stage {
    Connected,
    Disconnected,
    Handshaking,
    Identifying,
    Resuming,
}

impl Stage {
    /// The name under which the stage is reported.
    pub open spec fn name_spec(self) -> Seq<char> {
        match self {
            Stage::Connected => "Connected"@,
            Stage::Disconnected => "Disconnected"@,
            Stage::Handshaking => "Handshaking"@,
            Stage::Identifying => "Identifying"@,
            Stage::Resuming => "Resuming"@,
        }
    }

    /// The name under which the stage is reported.
    pub fn name(&self) -> (name: &'static str)
        ensures
            name@ == self.name_spec(),
    {
        match self {
            Stage::Connected => "Connected",
            Stage::Disconnected => "Disconnected",
            Stage::Handshaking => "Handshaking",
            Stage::Identifying => "Identifying",
            Stage::Resuming => "Resuming",
        }
    }
}

/// What a cluster reports of one shard.
#[derive(Debug, PartialEq, Eq)]
pub struct ShardInfo {
    pub id: u64,
    pub stage: Stage,
    /// The latest heartbeat latency in milliseconds, once there is one.
    pub latency: Option<u64>,
    /// Milliseconds since the last heartbeat was acknowledged, once one was.
    pub since_ack: Option<u64>,
    pub session_id: Option<String>,
    pub seq: u64,
}

/// The session of one shard, as the session table keeps it.
#[derive(Debug, PartialEq, Eq)]
pub struct SessionInfo {
    pub session_id: String,
    pub sequence: u64,
}

/// What a `SessionInfo` holds.
pub struct SessionInfoView {
    pub session_id: Seq<char>,
    pub sequence: u64,
}

impl DeepView for SessionInfo {
    type V = SessionInfoView;

    open spec fn deep_view(&self) -> SessionInfoView {
        SessionInfoView { session_id: self.session_id@, sequence: self.sequence }
    }
}

/// The status of one shard, as the status table keeps it.
#[derive(Debug, PartialEq, Eq)]
pub struct StatusInfo {
    pub shard: u64,
    pub status: String,
    /// The latest heartbeat latency in milliseconds.
    pub latency: u64,
    /// When the last heartbeat was acknowledged.
    pub last_ack: FormattedDateTime,
}

/// What a `StatusInfo` holds; the time is in nanoseconds since the Unix
/// epoch.
pub struct StatusInfoView {
    pub shard: u64,
    pub status: Seq<char>,
    pub latency: u64,
    pub last_ack: int,
}

impl DeepView for StatusInfo {
    type V = StatusInfoView;

    open spec fn deep_view(&self) -> StatusInfoView {
        StatusInfoView {
            shard: self.shard,
            status: self.status@,
            latency: self.latency,
            last_ack: self.last_ack@,
        }
    }
}

/// A gateway payload as it is published: operation code, event name and
/// data. The data is carried as the JSON text it came as.
#[derive(Debug, PartialEq, Eq)]
pub struct PayloadInfo {
    pub op: u8,
    pub t: Option<String>,
    pub d: String,
}

/// What a command from the broker asks for.
#[derive(Clone, Copy, Debug, PartialEq, Eq)]
pub enum DeliveryOpcode {
    Send,
    Reconnect,
}

/// A command from the broker for one shard. The data is carried as the JSON
/// text it came as.
#[derive(Debug, PartialEq, Eq)]
pub struct DeliveryInfo {
    pub op: DeliveryOpcode,
    pub shard: u64,
    pub data: Option<String>,
}

/// What can go wrong in the proxy. The variants for the services around it
/// carry the service's own description of the failure.
#[derive(Debug, PartialEq, Eq)]
pub enum ApiError {
    Empty,
    Timestamp,
    SimdJson(String),
    Redis(String),
    Var(String),
    ParseInt(String),
    Lapin(String),
    ClusterStart(String),
    LargeThreshold(String),
    Hyper(String),
    HyperHttp(String),
    AddrParse(String),
    Prometheus(String),
    Io(String),
}

pub type ApiResult<T> = Result<T, ApiError>;

} // verus!
