//! The projection of gateway events into the cache.

use vstd::prelude::*;
use crate::cache::{
    all_at, apply_delete, apply_write, cleared, cleared_record, deadline_text, get_members,
    item_views, lemma_del_all_shape, plan_del_all, plan_set_all, schedule_all, sound, DeletePlan,
    WritePlan,
};
use crate::constants::BOT_USER_KEY;
use crate::events::{CacheConfig, Event};
use crate::keys::{
    canonical, channel_key, channel_key_spec, decimal, guild_index, guild_index_spec, guild_key,
    guild_key_spec, member_key, member_key_spec, option_text, plan_key, private_channel_key,
    private_channel_key_spec, role_key, role_key_spec, texts,
};
use crate::models::{
    ApiError, CachedGuild, Channel, ChannelKind, Guild, GuildChannel,
    GuildChannelView, GuildItem, GuildItemView, Member, MemberView, Role, RoleView,
    UnavailableGuild,
};
use crate::store::{stored_under, Store, StoreView};
use crate::timestamp::{encoded, later, FormattedDateTime};

verus! {

/// A list of keys with the values written at them.
pub type Items = Seq<(Seq<char>, GuildItemView)>;

/// A guild's channel as it is cached: with the guild's id filled in.
pub open spec fn stamped(guild: u64, channel: GuildChannel) -> GuildChannelView {
    GuildChannelView {
        guild_id: Some(guild),
        id: channel.id,
        kind: channel.kind,
        name: channel.name@,
    }
}

/// The cache entries of a guild's channels: the text channels, each under
/// its key and with the guild's id filled in.
pub open spec fn channel_items(guild: u64, channels: Seq<GuildChannel>) -> Items
    decreases channels.len(),
{
    if channels.len() == 0 {
        Seq::empty()
    } else {
        let front = channel_items(guild, channels.drop_last());
        let channel = channels.last();
        if channel.kind == ChannelKind::Text {
            front.push(
                (
                    channel_key_spec(guild, channel.id),
                    GuildItemView::Channel(stamped(guild, channel)),
                ),
            )
        } else {
            front
        }
    }
}

/// The cache entries of a guild's roles.
pub open spec fn role_items(guild: u64, roles: Seq<Role>) -> Items
    decreases roles.len(),
{
    if roles.len() == 0 {
        Seq::empty()
    } else {
        role_items(guild, roles.drop_last()).push(
            (
                role_key_spec(guild, roles.last().id),
                GuildItemView::Role(roles.last().cached_view()),
            ),
        )
    }
}

/// The cache entries of a guild's members: all of them where `all` holds,
/// else only the member that is the bot.
pub open spec fn member_items(guild: u64, members: Seq<Member>, all: bool, bot_id: u64) -> Items
    decreases members.len(),
{
    if members.len() == 0 {
        Seq::empty()
    } else {
        let front = member_items(guild, members.drop_last(), all, bot_id);
        let member = members.last();
        if all || member.user.id == bot_id {
            front.push(
                (
                    member_key_spec(guild, member.user.id),
                    GuildItemView::Member(member.cached_view()),
                ),
            )
        } else {
            front
        }
    }
}

/// The keys of a guild's members.
pub open spec fn member_keys(guild: u64, members: Seq<Member>) -> Seq<Seq<char>> {
    Seq::new(members.len(), |i: int| member_key_spec(guild, members[i].user.id))
}

/// The cache entries of a new guild: its text channels, its roles, its
/// members and, last, its own record.
pub open spec fn guild_items(guild: Guild, config: CacheConfig, bot_id: u64) -> Items {
    channel_items(guild.id, guild.channels@) + role_items(guild.id, guild.roles@) + member_items(
        guild.id,
        guild.members@,
        config.state_member,
        bot_id,
    ) + seq![(guild_key_spec(guild.id), GuildItemView::Guild(guild.record()))]
}

/// The cache entries of the guild stubs that come with a session.
pub open spec fn stub_items(guilds: Seq<UnavailableGuild>) -> Items {
    Seq::new(
        guilds.len(),
        |i: int| (guild_key_spec(guilds[i].id), GuildItemView::Unavailable(guilds[i])),
    )
}

/// The key at which a channel is written, if it is one that is cached.
pub open spec fn channel_slot(channel: Channel) -> Option<Seq<char>> {
    match channel {
        Channel::Private(c) => Some(private_channel_key_spec(c.id)),
        Channel::Guild(c) => match c.guild_id {
            Some(guild) => Some(channel_key_spec(guild, c.id)),
            None => None,
        },
        Channel::Group => None,
    }
}

/// The value that is cached for a channel.
pub open spec fn channel_value(channel: Channel) -> GuildItemView {
    match channel {
        Channel::Private(c) => GuildItemView::PrivateChannel(c.deep_view()),
        Channel::Guild(c) => GuildItemView::Channel(c.deep_view()),
        Channel::Group => arbitrary(),
    }
}

/// The time to live that an event gives to the members it writes.
pub open spec fn deadline_of(event: Event, bot_id: u64, config: CacheConfig) -> Option<u64> {
    match event {
        Event::GuildCreate(_) | Event::MemberAdd(_) | Event::MemberChunk { .. } => if config.state_member {
            config.state_member_ttl
        } else {
            None
        },
        Event::MemberUpdate(update) => if config.state_member || update.user.id == bot_id {
            config.state_member_ttl
        } else {
            None
        },
        _ => None,
    }
}

/// `view` with the expiry time `at` for each of `keys`, where there is one.
pub open spec fn with_expiry(
    view: StoreView<GuildItemView>,
    keys: Seq<Seq<char>>,
    at: Option<Seq<char>>,
) -> StoreView<GuildItemView> {
    match at {
        Some(text) => view.expire_all(all_at(keys, text)),
        None => view,
    }
}

/// What the cache holds after an event. `at` is the expiry time of the
/// members that the event writes, where they expire.
pub open spec fn projected(
    view: StoreView<GuildItemView>,
    event: Event,
    bot_id: u64,
    config: CacheConfig,
    at: Option<Seq<char>>,
) -> StoreView<GuildItemView> {
    match event {
        Event::ChannelCreate(channel) | Event::ChannelUpdate(channel) => match channel_slot(
            channel,
        ) {
            Some(key) => view.set(key, channel_value(channel)),
            None => view,
        },
        Event::ChannelDelete(channel) => match channel_slot(channel) {
            Some(key) => view.del(key),
            None => view,
        },
        Event::GuildCreate(guild) => with_expiry(
            cleared(view, guild.id).set_all(guild_items(guild, config, bot_id)),
            member_keys(guild.id, guild.members@),
            at,
        ),
        Event::GuildDelete { id } => cleared(view, id),
        Event::GuildUpdate(guild) => view.set(
            guild_key_spec(guild.id),
            GuildItemView::Guild(guild.record()),
        ),
        Event::MemberAdd(member) => if config.state_member {
            with_expiry(
                view.set(
                    member_key_spec(member.guild_id, member.user.id),
                    GuildItemView::Member(member.cached_view()),
                ),
                seq![member_key_spec(member.guild_id, member.user.id)],
                at,
            )
        } else {
            view
        },
        Event::MemberRemove { guild_id, user_id } => if config.state_member {
            view.del(member_key_spec(guild_id, user_id))
        } else {
            view
        },
        Event::MemberUpdate(update) => {
            let key = member_key_spec(update.guild_id, update.user.id);
            if config.state_member || update.user.id == bot_id {
                match view.get(key) {
                    Some(GuildItemView::Member(existing)) => with_expiry(
                        view.set(key, GuildItemView::Member(update.merged(existing))),
                        seq![key],
                        at,
                    ),
                    _ => view,
                }
            } else {
                view
            }
        },
        Event::MemberChunk { guild_id, members } => if config.state_member {
            with_expiry(
                view.set_all(member_items(guild_id, members@, true, bot_id)),
                member_keys(guild_id, members@),
                at,
            )
        } else {
            view
        },
        Event::Ready { guilds, session_id, user } => view.set(
            BOT_USER_KEY@,
            GuildItemView::CurrentUser(user.cached_view()),
        ).set_all(stub_items(guilds@)),
        Event::RoleCreate { guild_id, role } | Event::RoleUpdate { guild_id, role } => view.set(
            role_key_spec(guild_id, role.id),
            GuildItemView::Role(role.cached_view()),
        ),
        Event::RoleDelete { guild_id, role_id } => view.del(role_key_spec(guild_id, role_id)),
        Event::UnavailableGuild(stub) => cleared(view, stub.id).set(
            guild_key_spec(stub.id),
            GuildItemView::Unavailable(stub),
        ),
        Event::UserUpdate(user) => view.set(
            BOT_USER_KEY@,
            GuildItemView::CurrentUser(user.cached_view()),
        ),
        _ => view,
    }
}

/// The value that an event displaces: what the cache held where the event
/// deletes or overwrites.
pub open spec fn displaced(
    view: StoreView<GuildItemView>,
    event: Event,
    bot_id: u64,
    config: CacheConfig,
) -> Option<GuildItemView> {
    match event {
        Event::ChannelDelete(channel) | Event::ChannelUpdate(channel) => match channel_slot(
            channel,
        ) {
            Some(key) => view.get(canonical(key)),
            None => None,
        },
        Event::GuildCreate(guild) => cleared_record(view, guild.id),
        Event::GuildDelete { id } => cleared_record(view, id),
        Event::UnavailableGuild(stub) => cleared_record(view, stub.id),
        Event::GuildUpdate(guild) => view.get(guild_key_spec(guild.id)),
        Event::MemberRemove { guild_id, user_id } => if config.state_member {
            view.get(member_key_spec(guild_id, user_id))
        } else {
            None
        },
        Event::MemberUpdate(update) => if config.state_member || update.user.id == bot_id {
            match view.get(member_key_spec(update.guild_id, update.user.id)) {
                Some(GuildItemView::Member(existing)) => Some(GuildItemView::Member(existing)),
                _ => None,
            }
        } else {
            None
        },
        Event::RoleDelete { guild_id, role_id } => view.get(role_key_spec(guild_id, role_id)),
        Event::RoleUpdate { guild_id, role } => view.get(role_key_spec(guild_id, role.id)),
        Event::UserUpdate(_) => view.get(BOT_USER_KEY@),
        _ => None,
    }
}

/// The expiry time that an event gives to the members it writes, as the
/// cache stores it.
pub open spec fn expiry_text(event: Event, bot_id: u64, config: CacheConfig, now: int) -> Option<
    Seq<char>,
> {
    match deadline_of(event, bot_id, config) {
        Some(ttl) => Some(encoded(later(now, ttl as int))),
        None => None,
    }
}

proof fn lemma_item_views_push(items: Seq<(String, GuildItem)>, key: String, value: GuildItem)
    ensures
        item_views(items.push((key, value))) == item_views(items).push((key@, value.deep_view())),
{
    assert(item_views(items.push((key, value))) =~= item_views(items).push(
        (key@, value.deep_view()),
    ));
}

fn push_channels(items: &mut Vec<(String, GuildItem)>, guild: u64, channels: Vec<GuildChannel>)
    ensures
        item_views(final(items)@) == item_views(old(items)@) + channel_items(guild, channels@),
{
    let ghost start = item_views(items@);
    proof {
        assert(start + channel_items(guild, channels@.take(0)) =~= start);
    }
    for channel in it: channels.into_iter()
        invariant
            it.seq() == channels@,
            item_views(items@) == start + channel_items(guild, channels@.take(it.index() as int)),
    {
        let ghost i = it.index() as int;
        proof {
            assert(channels@.take(i + 1).drop_last() =~= channels@.take(i));
            assert(channels@.take(i + 1).last() == channel);
        }
        match channel.kind {
            ChannelKind::Text => {
                let key = channel_key(guild, channel.id);
                let value = GuildItem::Channel(
                    GuildChannel {
                        guild_id: Some(guild),
                        id: channel.id,
                        kind: channel.kind,
                        name: channel.name,
                    },
                );
                proof {
                    lemma_item_views_push(items@, key, value);
                    let front = channel_items(guild, channels@.take(i));
                    assert((start + front).push((key@, value.deep_view())) =~= start + front.push(
                        (key@, value.deep_view()),
                    ));
                }
                items.push((key, value));
            },
            _ => {},
        }
    }
    proof {
        assert(channels@.take(channels@.len() as int) =~= channels@);
    }
}

fn push_roles(items: &mut Vec<(String, GuildItem)>, guild: u64, roles: Vec<Role>)
    ensures
        item_views(final(items)@) == item_views(old(items)@) + role_items(guild, roles@),
{
    let ghost start = item_views(items@);
    proof {
        assert(start + role_items(guild, roles@.take(0)) =~= start);
    }
    for role in it: roles.into_iter()
        invariant
            it.seq() == roles@,
            item_views(items@) == start + role_items(guild, roles@.take(it.index() as int)),
    {
        let ghost i = it.index() as int;
        proof {
            assert(roles@.take(i + 1).drop_last() =~= roles@.take(i));
            assert(roles@.take(i + 1).last() == role);
        }
        let key = role_key(guild, role.id);
        let value = GuildItem::Role(role.into_cached());
        proof {
            lemma_item_views_push(items@, key, value);
            let front = role_items(guild, roles@.take(i));
            assert((start + front).push((key@, value.deep_view())) =~= start + front.push(
                (key@, value.deep_view()),
            ));
        }
        items.push((key, value));
    }
    proof {
        assert(roles@.take(roles@.len() as int) =~= roles@);
    }
}

fn push_members(
    items: &mut Vec<(String, GuildItem)>,
    guild: u64,
    members: Vec<Member>,
    all: bool,
    bot_id: u64,
)
    ensures
        item_views(final(items)@) == item_views(old(items)@) + member_items(
            guild,
            members@,
            all,
            bot_id,
        ),
{
    let ghost start = item_views(items@);
    proof {
        assert(start + member_items(guild, members@.take(0), all, bot_id) =~= start);
    }
    for member in it: members.into_iter()
        invariant
            it.seq() == members@,
            item_views(items@) == start + member_items(
                guild,
                members@.take(it.index() as int),
                all,
                bot_id,
            ),
    {
        let ghost i = it.index() as int;
        proof {
            assert(members@.take(i + 1).drop_last() =~= members@.take(i));
            assert(members@.take(i + 1).last() == member);
        }
        if all || member.user.id == bot_id {
            let key = member_key(guild, member.user.id);
            let value = GuildItem::Member(member.into_cached());
            proof {
                lemma_item_views_push(items@, key, value);
                let front = member_items(guild, members@.take(i), all, bot_id);
                assert((start + front).push((key@, value.deep_view())) =~= start + front.push(
                    (key@, value.deep_view()),
                ));
            }
            items.push((key, value));
        }
    }
    proof {
        assert(members@.take(members@.len() as int) =~= members@);
    }
}

fn keys_of_members(guild: u64, members: &Vec<Member>) -> (keys: Vec<String>)
    ensures
        texts(keys@) == member_keys(guild, members@),
{
    let mut keys: Vec<String> = Vec::new();
    let mut i: usize = 0;
    while i < members.len()
        invariant
            i <= members.len(),
            keys.len() == i,
            forall|j: int| 0 <= j < i ==> (#[trigger] keys[j])@ == member_key_spec(
                guild,
                members[j].user.id,
            ),
        decreases members.len() - i,
    {
        keys.push(member_key(guild, members[i].user.id));
        i = i + 1;
    }
    proof {
        assert(texts(keys@) =~= member_keys(guild, members@));
    }
    keys
}

fn stubs_of(guilds: Vec<UnavailableGuild>) -> (items: Vec<(String, GuildItem)>)
    ensures
        item_views(items@) == stub_items(guilds@),
{
    let mut items: Vec<(String, GuildItem)> = Vec::new();
    let mut i: usize = 0;
    while i < guilds.len()
        invariant
            i <= guilds.len(),
            items.len() == i,
            forall|j: int|
                0 <= j < i ==> ((#[trigger] items[j]).0@, items[j].1.deep_view()) == stub_items(
                    guilds@,
                )[j],
        decreases guilds.len() - i,
    {
        items.push((guild_key(guilds[i].id), GuildItem::Unavailable(guilds[i])));
        i = i + 1;
    }
    proof {
        assert(item_views(items@) =~= stub_items(guilds@));
    }
    items
}

fn ttl_of(event: &Event, bot_id: u64, config: &CacheConfig) -> (ttl: Option<u64>)
    ensures
        ttl == deadline_of(*event, bot_id, *config),
{
    match event {
        Event::GuildCreate(_) | Event::MemberAdd(_) | Event::MemberChunk { .. } => {
            if config.state_member {
                config.state_member_ttl
            } else {
                None
            }
        },
        Event::MemberUpdate(update) => {
            if config.state_member || update.user.id == bot_id {
                config.state_member_ttl
            } else {
                None
            }
        },
        _ => None,
    }
}

/// One batch of commands to the cache.
#[derive(Debug, PartialEq, Eq)]
pub enum Step {
    /// Write the pairs and add their keys to the index sets.
    Write(WritePlan<GuildItem>),
    /// Delete the keys and take them off the index sets.
    Delete(DeletePlan),
    /// Delete an index set itself.
    DropSet(String),
    /// Record the expiry time `at` for each of `keys`.
    Expire { keys: Vec<String>, at: String },
}

/// What the cache holds after one batch.
pub open spec fn step_applied(view: StoreView<GuildItemView>, step: Step) -> StoreView<
    GuildItemView,
> {
    match step {
        Step::Write(plan) => plan.apply(view),
        Step::Delete(plan) => plan.apply(view),
        Step::DropSet(set) => view.drop_set(set@),
        Step::Expire { keys, at } => view.expire_all(all_at(texts(keys@), at@)),
    }
}

/// What the cache holds after a list of batches, one after the other.
pub open spec fn steps_applied(view: StoreView<GuildItemView>, steps: Seq<Step>) -> StoreView<
    GuildItemView,
>
    decreases steps.len(),
{
    if steps.len() == 0 {
        view
    } else {
        step_applied(steps_applied(view, steps.drop_last()), steps.last())
    }
}

/// What an event asks of the cache: the batches to carry out before the
/// displaced value is read, the key at which it is read, and the batches to
/// carry out after.
#[derive(Debug, PartialEq, Eq)]
pub struct Projection {
    pub before: Vec<Step>,
    pub previous_at: Option<String>,
    pub after: Vec<Step>,
}

/// The cache after a projection, and the value that the projection displaces.
pub open spec fn outcome(view: StoreView<GuildItemView>, projection: Projection) -> (
    StoreView<GuildItemView>,
    Option<GuildItemView>,
) {
    let middle = steps_applied(view, projection.before@);
    (
        steps_applied(middle, projection.after@),
        match projection.previous_at {
            Some(key) => middle.get(key@),
            None => None,
        },
    )
}

/// `view` without the value under `key`.
pub open spec fn unwritten(view: StoreView<GuildItemView>, key: Seq<char>) -> StoreView<
    GuildItemView,
> {
    StoreView { values: view.values.remove(key), index: view.index, expiry: view.expiry }
}

/// Whether the batches after the read overwrite or delete the value that is
/// read: it makes no difference to them whether the value is still there.
pub open spec fn absorbed(projection: Projection) -> bool {
    projection.previous_at matches Some(key) ==> forall|view: StoreView<GuildItemView>| #[trigger]
        steps_applied(unwritten(view, key@), projection.after@) == steps_applied(
            view,
            projection.after@,
        )
}

/// Carries out a list of batches on the cache in memory.
pub fn execute_steps(store: &mut Store<GuildItem>, steps: Vec<Step>)
    ensures
        final(store)@ == steps_applied(old(store)@, steps@),
{
    for step in it: steps.into_iter()
        invariant
            it.seq() == steps@,
            store@ == steps_applied(old(store)@, steps@.take(it.index() as int)),
    {
        let ghost i = it.index() as int;
        proof {
            assert(steps@.take(i + 1).drop_last() =~= steps@.take(i));
            assert(steps@.take(i + 1).last() == step);
        }
        match step {
            Step::Write(plan) => apply_write(store, plan),
            Step::Delete(plan) => apply_delete(store, &plan),
            Step::DropSet(set) => store.drop_set(set.as_str()),
            Step::Expire { keys, at } => schedule_all(store, &keys, &at),
        }
    }
    proof {
        assert(steps@.take(steps@.len() as int) =~= steps@);
    }
}

/// Carries out a projection on the cache in memory and hands back the value
/// that it displaces.
fn execute(store: &mut Store<GuildItem>, projection: Projection) -> (previous: Option<
    GuildItem,
>)
    requires
        absorbed(projection),
    ensures
        final(store)@ == outcome(old(store)@, projection).0,
        previous.deep_view() == outcome(old(store)@, projection).1,
{
    let Projection { before, previous_at, after } = projection;
    execute_steps(store, before);
    let ghost middle = store@;
    let previous = match &previous_at {
        Some(key) => {
            let previous = store.erase(key.as_str());
            proof {
                assert(store@ == unwritten(middle, key@));
            }
            previous
        },
        None => None,
    };
    execute_steps(store, after);
    previous
}

/// The index set whose members an event needs to know.
pub open spec fn needed_members(event: Event) -> Option<Seq<char>> {
    match event {
        Event::GuildCreate(guild) => Some(guild_index_spec(decimal(guild.id as nat))),
        Event::GuildDelete { id } => Some(guild_index_spec(decimal(id as nat))),
        Event::UnavailableGuild(stub) => Some(guild_index_spec(decimal(stub.id as nat))),
        _ => None,
    }
}

/// The key whose value an event needs to know.
pub open spec fn needed_value(event: Event, bot_id: u64, config: CacheConfig) -> Option<
    Seq<char>,
> {
    match event {
        Event::MemberUpdate(update) => if config.state_member || update.user.id == bot_id {
            Some(member_key_spec(update.guild_id, update.user.id))
        } else {
            None
        },
        _ => None,
    }
}

/// What an event needs to know of the cache before it can be projected.
#[derive(Debug, PartialEq, Eq)]
pub struct Needs {
    /// The index set whose members are needed.
    pub members_of: Option<String>,
    /// The key whose value is needed.
    pub value_at: Option<String>,
}

/// Says what an event needs to know of the cache: the members of a guild's
/// index set where the guild is cleared, the cached member where a member
/// changes.
pub fn needs(event: &Event, bot_id: u64, config: &CacheConfig) -> (wanted: Needs)
    ensures
        option_text(wanted.members_of) == needed_members(*event),
        option_text(wanted.value_at) == needed_value(*event, bot_id, *config),
{
    match event {
        Event::GuildCreate(guild) => Needs {
            members_of: Some(guild_index(guild.id)),
            value_at: None,
        },
        Event::GuildDelete { id } => Needs { members_of: Some(guild_index(*id)), value_at: None },
        Event::UnavailableGuild(stub) => Needs {
            members_of: Some(guild_index(stub.id)),
            value_at: None,
        },
        Event::MemberUpdate(update) => {
            if config.state_member || update.user.id == bot_id {
                Needs {
                    members_of: None,
                    value_at: Some(member_key(update.guild_id, update.user.id)),
                }
            } else {
                Needs { members_of: None, value_at: None }
            }
        },
        _ => Needs { members_of: None, value_at: None },
    }
}

/// Whether `members` and `existing` are what the event needs to know of the
/// cache `view`.
pub open spec fn answered(
    view: StoreView<GuildItemView>,
    event: Event,
    bot_id: u64,
    config: CacheConfig,
    members: Seq<Seq<char>>,
    existing: Option<GuildItemView>,
) -> bool {
    &&& needed_members(event) matches Some(set) ==> members.to_set() == view.members(set)
    &&& needed_value(event, bot_id, config) matches Some(key) ==> existing == view.get(key)
}

/// Whether a projection does to every cache what the event does to it, given
/// what the event needed to know of that cache.
pub open spec fn realizes(
    projection: Projection,
    event: Event,
    bot_id: u64,
    config: CacheConfig,
    at: Option<Seq<char>>,
    members: Seq<Seq<char>>,
    existing: Option<GuildItemView>,
) -> bool {
    &&& absorbed(projection)
    &&& forall|view: StoreView<GuildItemView>|
        #![trigger outcome(view, projection)]
        answered(view, event, bot_id, config, members, existing) ==> outcome(view, projection) == (
            projected(view, event, bot_id, config, at),
            displaced(view, event, bot_id, config),
        )
}

proof fn lemma_steps_0(view: StoreView<GuildItemView>)
    ensures
        steps_applied(view, Seq::<Step>::empty()) == view,
{
}

proof fn lemma_steps_1(view: StoreView<GuildItemView>, a: Step)
    ensures
        steps_applied(view, seq![a]) == step_applied(view, a),
{
    assert(seq![a].drop_last() =~= Seq::<Step>::empty());
    assert(seq![a].last() == a);
    assert(steps_applied(view, seq![a].drop_last()) == view);
}

proof fn lemma_steps_2(view: StoreView<GuildItemView>, a: Step, b: Step)
    ensures
        steps_applied(view, seq![a, b]) == step_applied(step_applied(view, a), b),
{
    assert(seq![a, b].drop_last() =~= seq![a]);
    lemma_steps_1(view, a);
}

proof fn lemma_steps_3(view: StoreView<GuildItemView>, a: Step, b: Step, c: Step)
    ensures
        steps_applied(view, seq![a, b, c]) == step_applied(
            step_applied(step_applied(view, a), b),
            c,
        ),
{
    assert(seq![a, b, c].drop_last() =~= seq![a, b]);
    lemma_steps_2(view, a, b);
}

proof fn lemma_steps_4(view: StoreView<GuildItemView>, a: Step, b: Step, c: Step, d: Step)
    ensures
        steps_applied(view, seq![a, b, c, d]) == step_applied(
            step_applied(step_applied(step_applied(view, a), b), c),
            d,
        ),
{
    assert(seq![a, b, c, d].drop_last() =~= seq![a, b, c]);
    lemma_steps_3(view, a, b, c);
}

/// Writing one item is a batch of one.
proof fn lemma_set_all_one(view: StoreView<GuildItemView>, key: Seq<char>, value: GuildItemView)
    ensures
        view.set_all(seq![(key, value)]) == view.set(key, value),
{
    let items = seq![(key, value)];
    assert(items.drop_last() =~= Seq::<(Seq<char>, GuildItemView)>::empty());
    assert(view.set_all(items.drop_last()) == view);
}

/// Deleting one key is a batch of one.
proof fn lemma_del_all_one(view: StoreView<GuildItemView>, key: Seq<char>)
    ensures
        view.del_all(seq![key]) == view.del(key),
{
    let one = seq![key];
    assert forall|k: Seq<char>| #[trigger] one.to_set().contains(k) <==> set![key].contains(k) by {
        if one.to_set().contains(k) {
            assert(one.contains(k));
        }
        if k == key {
            assert(one[0] == k);
            assert(one.contains(k));
        }
    }
    assert(one.to_set() =~= set![key]);
}

/// It makes no difference to a write whether the value it overwrites is
/// still there.
proof fn lemma_unwritten_set(view: StoreView<GuildItemView>, key: Seq<char>, value: GuildItemView)
    ensures
        unwritten(view, canonical(key)).set(key, value) == view.set(key, value),
{
    assert(unwritten(view, canonical(key)).set(key, value).values =~= view.set(key, value).values);
}

/// It makes no difference to a delete whether the value it deletes is still
/// there.
proof fn lemma_unwritten_del(view: StoreView<GuildItemView>, key: Seq<char>)
    ensures
        unwritten(view, canonical(key)).del(key) == view.del(key),
{
    assert(stored_under(set![key]).contains(canonical(key)));
    assert(unwritten(view, canonical(key)).del(key).values =~= view.del(key).values);
}

fn write_step(items: Vec<(String, GuildItem)>) -> (step: Step)
    ensures
        forall|view: StoreView<GuildItemView>| #[trigger]
            step_applied(view, step) == view.set_all(item_views(items@)),
{
    Step::Write(plan_set_all(items))
}

fn write_one(key: String, value: GuildItem) -> (step: Step)
    ensures
        forall|view: StoreView<GuildItemView>| #[trigger]
            step_applied(view, step) == view.set(key@, value.deep_view()),
{
    let mut items: Vec<(String, GuildItem)> = Vec::new();
    items.push((key, value));
    proof {
        assert(item_views(items@) =~= seq![(key@, value.deep_view())]);
        assert forall|view: StoreView<GuildItemView>|
            view.set_all(item_views(items@)) == view.set(key@, value.deep_view()) by {
            lemma_set_all_one(view, key@, value.deep_view());
        }
    }
    write_step(items)
}

fn delete_step(keys: &Vec<String>) -> (step: Step)
    ensures
        forall|view: StoreView<GuildItemView>| #[trigger]
            step_applied(view, step) == view.del_all(texts(keys@)),
{
    let plan = plan_del_all(keys);
    proof {
        assert forall|view: StoreView<GuildItemView>| #[trigger]
            plan.apply(view) == view.del_all(texts(keys@)) by {
            lemma_del_all_shape(view, texts(keys@));
            assert(plan.apply(view).values =~= view.del_all(texts(keys@)).values);
            assert(plan.apply(view).index =~= view.del_all(texts(keys@)).index);
        }
    }
    Step::Delete(plan)
}

fn delete_one(key: &String) -> (step: Step)
    ensures
        forall|view: StoreView<GuildItemView>| #[trigger] step_applied(view, step) == view.del(key@),
{
    let mut keys: Vec<String> = Vec::new();
    keys.push(key.clone());
    proof {
        assert(texts(keys@) =~= seq![key@]);
        assert forall|view: StoreView<GuildItemView>| view.del_all(texts(keys@)) == view.del(
            key@,
        ) by {
            lemma_del_all_one(view, key@);
        }
    }
    delete_step(&keys)
}

fn expire_step(keys: Vec<String>, at: &Option<String>) -> (step: Step)
    ensures
        forall|view: StoreView<GuildItemView>| #[trigger]
            step_applied(view, step) == with_expiry(view, texts(keys@), option_text(*at)),
{
    match at {
        Some(text) => Step::Expire { keys, at: text.clone() },
        None => {
            let none: Vec<String> = Vec::new();
            proof {
                assert(all_at(texts(none@), Seq::<char>::empty()).len() == 0);
            }
            Step::Expire { keys: none, at: String::new() }
        },
    }
}

fn no_steps() -> (steps: Vec<Step>)
    ensures
        steps@ == Seq::<Step>::empty(),
{
    Vec::new()
}

fn steps_1(a: Step) -> (steps: Vec<Step>)
    ensures
        steps@ == seq![a],
{
    let mut steps: Vec<Step> = Vec::new();
    steps.push(a);
    proof {
        assert(steps@ =~= seq![a]);
    }
    steps
}

fn steps_2(a: Step, b: Step) -> (steps: Vec<Step>)
    ensures
        steps@ == seq![a, b],
{
    let mut steps: Vec<Step> = Vec::new();
    steps.push(a);
    steps.push(b);
    proof {
        assert(steps@ =~= seq![a, b]);
    }
    steps
}

fn steps_3(a: Step, b: Step, c: Step) -> (steps: Vec<Step>)
    ensures
        steps@ == seq![a, b, c],
{
    let mut steps: Vec<Step> = Vec::new();
    steps.push(a);
    steps.push(b);
    steps.push(c);
    proof {
        assert(steps@ =~= seq![a, b, c]);
    }
    steps
}

fn steps_4(a: Step, b: Step, c: Step, d: Step) -> (steps: Vec<Step>)
    ensures
        steps@ == seq![a, b, c, d],
{
    let mut steps: Vec<Step> = Vec::new();
    steps.push(a);
    steps.push(b);
    steps.push(c);
    steps.push(d);
    proof {
        assert(steps@ =~= seq![a, b, c, d]);
    }
    steps
}

/// A projection that changes nothing.
fn nothing() -> (projection: Projection)
    ensures
        absorbed(projection),
        forall|view: StoreView<GuildItemView>| #[trigger]
            outcome(view, projection) == (view, None::<GuildItemView>),
{
    Projection { before: no_steps(), previous_at: None, after: no_steps() }
}

/// A projection that writes one value, and hands back the value it
/// overwrites where `keep` holds.
fn overwrite(key: String, value: GuildItem, keep: bool) -> (projection: Projection)
    ensures
        absorbed(projection),
        forall|view: StoreView<GuildItemView>| #[trigger]
            outcome(view, projection) == (
                view.set(key@, value.deep_view()),
                if keep {
                    view.get(canonical(key@))
                } else {
                    None
                },
            ),
{
    let previous_at = if keep {
        Some(plan_key(key.as_str()).key)
    } else {
        None
    };
    let ghost text = key@;
    let ghost held = value.deep_view();
    let step = write_one(key, value);
    let projection = Projection { before: no_steps(), previous_at, after: steps_1(step) };
    proof {
        assert forall|view: StoreView<GuildItemView>| #[trigger]
            steps_applied(view, projection.after@) == view.set(text, held) by {
            lemma_steps_1(view, step);
        }
        assert forall|view: StoreView<GuildItemView>| #[trigger]
            outcome(view, projection) == (
                view.set(text, held),
                if keep {
                    view.get(canonical(text))
                } else {
                    None
                },
            ) by {
            lemma_steps_0(view);
        }
        if keep {
            assert forall|view: StoreView<GuildItemView>| #[trigger]
                steps_applied(unwritten(view, canonical(text)), projection.after@) == steps_applied(
                    view,
                    projection.after@,
                ) by {
                lemma_unwritten_set(view, text, held);
            }
        }
    }
    projection
}

/// A projection that deletes one key and hands back its value.
fn remove(key: String) -> (projection: Projection)
    ensures
        absorbed(projection),
        forall|view: StoreView<GuildItemView>| #[trigger]
            outcome(view, projection) == (view.del(key@), view.get(canonical(key@))),
{
    let previous_at = Some(plan_key(key.as_str()).key);
    let step = delete_one(&key);
    let projection = Projection { before: no_steps(), previous_at, after: steps_1(step) };
    proof {
        assert forall|view: StoreView<GuildItemView>| #[trigger]
            steps_applied(view, projection.after@) == view.del(key@) by {
            lemma_steps_1(view, step);
        }
        assert forall|view: StoreView<GuildItemView>| #[trigger]
            outcome(view, projection) == (view.del(key@), view.get(canonical(key@))) by {
            lemma_steps_0(view);
        }
        assert forall|view: StoreView<GuildItemView>| #[trigger]
            steps_applied(unwritten(view, canonical(key@)), projection.after@) == steps_applied(
                view,
                projection.after@,
            ) by {
            lemma_unwritten_del(view, key@);
        }
    }
    projection
}

/// A projection that writes a batch of values and gives `keys` the expiry
/// time `at`, where there is one.
fn write_and_expire(
    items: Vec<(String, GuildItem)>,
    keys: Vec<String>,
    at: &Option<String>,
) -> (projection: Projection)
    ensures
        absorbed(projection),
        forall|view: StoreView<GuildItemView>| #[trigger]
            outcome(view, projection) == (
                with_expiry(view.set_all(item_views(items@)), texts(keys@), option_text(*at)),
                None::<GuildItemView>,
            ),
{
    let write = write_step(items);
    let expire = expire_step(keys, at);
    let projection = Projection {
        before: no_steps(),
        previous_at: None,
        after: steps_2(write, expire),
    };
    proof {
        assert forall|view: StoreView<GuildItemView>| #[trigger]
            outcome(view, projection) == (
                with_expiry(view.set_all(item_views(items@)), texts(keys@), option_text(*at)),
                None::<GuildItemView>,
            ) by {
            lemma_steps_0(view);
            lemma_steps_2(view, write, expire);
        }
    }
    projection
}

/// A projection that clears a guild, then writes a batch of values and
/// gives `keys` the expiry time `at`, where there is one. `members` are the
/// members of the guild's index set.
fn clear_then(
    guild: u64,
    members: &Vec<String>,
    items: Vec<(String, GuildItem)>,
    keys: Vec<String>,
    at: &Option<String>,
) -> (projection: Projection)
    ensures
        absorbed(projection),
        forall|view: StoreView<GuildItemView>|
            #![trigger outcome(view, projection)]
            texts(members@).to_set() == view.members(guild_index_spec(decimal(guild as nat)))
                ==> outcome(view, projection) == (
                with_expiry(
                    cleared(view, guild).set_all(item_views(items@)),
                    texts(keys@),
                    option_text(*at),
                ),
                cleared_record(view, guild),
            ),
{
    let first = delete_step(members);
    let index = guild_index(guild);
    let key = guild_key(guild);
    let own = delete_one(&key);
    let write = write_step(items);
    let expire = expire_step(keys, at);
    let ghost name = index@;
    let drop = Step::DropSet(index);
    let projection = Projection {
        before: steps_1(first),
        previous_at: Some(key),
        after: steps_4(drop, own, write, expire),
    };
    proof {
        crate::keys::lemma_guild_key(guild);
        let own_key = guild_key_spec(guild);
        assert forall|view: StoreView<GuildItemView>|
            #![trigger outcome(view, projection)]
            texts(members@).to_set() == view.members(name) implies outcome(view, projection) == (
            with_expiry(
                cleared(view, guild).set_all(item_views(items@)),
                texts(keys@),
                option_text(*at),
            ),
            cleared_record(view, guild),
        ) by {
            lemma_steps_1(view, first);
            let middle = view.del_all(texts(members@));
            assert(middle == view.del_keys(view.members(name)));
            lemma_steps_4(middle, drop, own, write, expire);
        }
        assert forall|view: StoreView<GuildItemView>| #[trigger]
            steps_applied(unwritten(view, own_key), projection.after@) == steps_applied(
                view,
                projection.after@,
            ) by {
            lemma_steps_4(view, drop, own, write, expire);
            lemma_steps_4(unwritten(view, own_key), drop, own, write, expire);
            assert(unwritten(view, own_key).drop_set(name) == unwritten(
                view.drop_set(name),
                own_key,
            ));
            lemma_unwritten_del(view.drop_set(name), own_key);
        }
    }
    projection
}

fn no_items() -> (items: Vec<(String, GuildItem)>)
    ensures
        item_views(items@) == Seq::<(Seq<char>, GuildItemView)>::empty(),
{
    let items: Vec<(String, GuildItem)> = Vec::new();
    proof {
        assert(item_views(items@) =~= Seq::<(Seq<char>, GuildItemView)>::empty());
    }
    items
}

fn one_item(key: String, value: GuildItem) -> (items: Vec<(String, GuildItem)>)
    ensures
        item_views(items@) == seq![(key@, value.deep_view())],
{
    let mut items: Vec<(String, GuildItem)> = Vec::new();
    items.push((key, value));
    proof {
        assert(item_views(items@) =~= seq![(key@, value.deep_view())]);
    }
    items
}

fn one_key(key: String) -> (keys: Vec<String>)
    ensures
        texts(keys@) == seq![key@],
{
    let mut keys: Vec<String> = Vec::new();
    keys.push(key);
    proof {
        assert(texts(keys@) =~= seq![key@]);
    }
    keys
}

fn no_keys() -> (keys: Vec<String>)
    ensures
        texts(keys@) == Seq::<Seq<char>>::empty(),
{
    let keys: Vec<String> = Vec::new();
    proof {
        assert(texts(keys@) =~= Seq::<Seq<char>>::empty());
    }
    keys
}

fn project_channel_write(
    channel: Channel,
    keep: bool,
    Ghost(event): Ghost<Event>,
    Ghost(bot_id): Ghost<u64>,
    Ghost(config): Ghost<CacheConfig>,
    Ghost(members): Ghost<Seq<Seq<char>>>,
    Ghost(existing): Ghost<Option<GuildItemView>>,
) -> (projection: Projection)
    requires
        event == (if keep {
            Event::ChannelUpdate(channel)
        } else {
            Event::ChannelCreate(channel)
        }),
    ensures
        realizes(projection, event, bot_id, config, None, members, existing),
{
    match channel {
        Channel::Private(c) => {
            let key = private_channel_key(c.id);
            overwrite(key, GuildItem::PrivateChannel(c), keep)
        },
        Channel::Guild(c) => match c.guild_id {
            Some(guild) => {
                let key = channel_key(guild, c.id);
                overwrite(key, GuildItem::Channel(c), keep)
            },
            None => nothing(),
        },
        Channel::Group => nothing(),
    }
}

fn project_channel_delete(
    channel: Channel,
    Ghost(bot_id): Ghost<u64>,
    Ghost(config): Ghost<CacheConfig>,
    Ghost(members): Ghost<Seq<Seq<char>>>,
    Ghost(existing): Ghost<Option<GuildItemView>>,
) -> (projection: Projection)
    ensures
        realizes(projection, Event::ChannelDelete(channel), bot_id, config, None, members, existing),
{
    match channel {
        Channel::Private(c) => remove(private_channel_key(c.id)),
        Channel::Guild(c) => match c.guild_id {
            Some(guild) => remove(channel_key(guild, c.id)),
            None => nothing(),
        },
        Channel::Group => nothing(),
    }
}

fn project_guild_create(
    guild: Guild,
    bot_id: u64,
    config: &CacheConfig,
    at: &Option<String>,
    members: &Vec<String>,
    Ghost(existing): Ghost<Option<GuildItemView>>,
) -> (projection: Projection)
    ensures
        realizes(
            projection,
            Event::GuildCreate(guild),
            bot_id,
            *config,
            option_text(*at),
            texts(members@),
            existing,
        ),
{
    let ghost whole = guild;
    let Guild { channels, icon, id, members: joined, name, owner_id, roles } = guild;
    let keys = keys_of_members(id, &joined);
    let mut items = no_items();
    push_channels(&mut items, id, channels);
    push_roles(&mut items, id, roles);
    push_members(&mut items, id, joined, config.state_member, bot_id);
    let record = CachedGuild {
        channels: Vec::new(),
        icon,
        id,
        members: Vec::new(),
        name,
        owner_id,
        roles: Vec::new(),
    };
    let key = guild_key(id);
    let value = GuildItem::Guild(record);
    proof {
        assert(record.channels.deep_view() =~= Seq::<GuildChannelView>::empty());
        assert(record.members.deep_view() =~= Seq::<MemberView>::empty());
        assert(record.roles.deep_view() =~= Seq::<RoleView>::empty());
        assert(record.deep_view() == whole.record());
        lemma_item_views_push(items@, key, value);
        assert(item_views(items@.push((key, value))) =~= guild_items(whole, *config, bot_id));
    }
    items.push((key, value));
    clear_then(id, members, items, keys, at)
}

fn project_guild_delete(
    id: u64,
    members: &Vec<String>,
    Ghost(bot_id): Ghost<u64>,
    Ghost(config): Ghost<CacheConfig>,
    Ghost(existing): Ghost<Option<GuildItemView>>,
) -> (projection: Projection)
    ensures
        realizes(
            projection,
            Event::GuildDelete { id },
            bot_id,
            config,
            None,
            texts(members@),
            existing,
        ),
{
    clear_then(id, members, no_items(), no_keys(), &None)
}

fn project_unavailable(
    unavailable: UnavailableGuild,
    members: &Vec<String>,
    Ghost(bot_id): Ghost<u64>,
    Ghost(config): Ghost<CacheConfig>,
    Ghost(existing): Ghost<Option<GuildItemView>>,
) -> (projection: Projection)
    ensures
        realizes(
            projection,
            Event::UnavailableGuild(unavailable),
            bot_id,
            config,
            None,
            texts(members@),
            existing,
        ),
{
    let id = unavailable.id;
    let stub = GuildItem::Unavailable(unavailable);
    let items = one_item(guild_key(id), stub);
    proof {
        assert forall|view: StoreView<GuildItemView>|
            view.set_all(item_views(items@)) == view.set(guild_key_spec(id), stub.deep_view()) by {
            lemma_set_all_one(view, guild_key_spec(id), stub.deep_view());
        }
    }
    clear_then(id, members, items, no_keys(), &None)
}

fn project_member_add(
    member: Member,
    config: &CacheConfig,
    at: &Option<String>,
    Ghost(bot_id): Ghost<u64>,
    Ghost(members): Ghost<Seq<Seq<char>>>,
    Ghost(existing): Ghost<Option<GuildItemView>>,
) -> (projection: Projection)
    ensures
        realizes(
            projection,
            Event::MemberAdd(member),
            bot_id,
            *config,
            option_text(*at),
            members,
            existing,
        ),
{
    if !config.state_member {
        return nothing();
    }
    let key = member_key(member.guild_id, member.user.id);
    let keys = one_key(key.clone());
    let value = GuildItem::Member(member.into_cached());
    let items = one_item(key, value);
    proof {
        assert forall|view: StoreView<GuildItemView>|
            view.set_all(item_views(items@)) == view.set(key@, value.deep_view()) by {
            lemma_set_all_one(view, key@, value.deep_view());
        }
    }
    write_and_expire(items, keys, at)
}

fn project_member_update(
    update: crate::models::MemberUpdate,
    bot_id: u64,
    config: &CacheConfig,
    at: &Option<String>,
    existing: Option<&GuildItem>,
    Ghost(members): Ghost<Seq<Seq<char>>>,
) -> (projection: Projection)
    ensures
        realizes(
            projection,
            Event::MemberUpdate(update),
            bot_id,
            *config,
            option_text(*at),
            members,
            existing.deep_view(),
        ),
{
    if !(config.state_member || update.user.id == bot_id) {
        return nothing();
    }
    let key = member_key(update.guild_id, update.user.id);
    proof {
        crate::keys::lemma_member_key(update.guild_id, update.user.id);
    }
    match existing {
        Some(GuildItem::Member(cached)) => {
            let previous_at = Some(key.clone());
            let keys = one_key(key.clone());
            let value = GuildItem::Member(update.merge(cached));
            let write = write_one(key, value);
            let expire = expire_step(keys, at);
            let projection = Projection {
                before: no_steps(),
                previous_at,
                after: steps_2(write, expire),
            };
            proof {
                let text = key@;
                assert forall|view: StoreView<GuildItemView>|
                    #![trigger outcome(view, projection)]
                    existing.deep_view() == view.get(text) implies outcome(view, projection) == (
                    projected(
                        view,
                        Event::MemberUpdate(update),
                        bot_id,
                        *config,
                        option_text(*at),
                    ),
                    displaced(view, Event::MemberUpdate(update), bot_id, *config),
                ) by {
                    lemma_steps_0(view);
                    lemma_steps_2(view, write, expire);
                }
                assert forall|view: StoreView<GuildItemView>| #[trigger]
                    steps_applied(unwritten(view, text), projection.after@) == steps_applied(
                        view,
                        projection.after@,
                    ) by {
                    lemma_steps_2(view, write, expire);
                    lemma_steps_2(unwritten(view, text), write, expire);
                    lemma_unwritten_set(view, text, value.deep_view());
                }
            }
            projection
        },
        _ => nothing(),
    }
}

fn project_member_chunk(
    guild_id: u64,
    joined: Vec<Member>,
    bot_id: u64,
    config: &CacheConfig,
    at: &Option<String>,
    Ghost(members): Ghost<Seq<Seq<char>>>,
    Ghost(existing): Ghost<Option<GuildItemView>>,
) -> (projection: Projection)
    ensures
        realizes(
            projection,
            Event::MemberChunk { guild_id, members: joined },
            bot_id,
            *config,
            option_text(*at),
            members,
            existing,
        ),
{
    if !config.state_member {
        return nothing();
    }
    let keys = keys_of_members(guild_id, &joined);
    let mut items = no_items();
    push_members(&mut items, guild_id, joined, true, bot_id);
    proof {
        assert(item_views(items@) =~= member_items(guild_id, joined@, true, bot_id));
    }
    write_and_expire(items, keys, at)
}

fn project_ready(
    guilds: Vec<UnavailableGuild>,
    session_id: String,
    user: crate::models::CurrentUser,
    Ghost(bot_id): Ghost<u64>,
    Ghost(config): Ghost<CacheConfig>,
    Ghost(members): Ghost<Seq<Seq<char>>>,
    Ghost(existing): Ghost<Option<GuildItemView>>,
) -> (projection: Projection)
    ensures
        realizes(
            projection,
            Event::Ready { guilds, session_id, user },
            bot_id,
            config,
            None,
            members,
            existing,
        ),
{
    let own = write_one(String::from_str(BOT_USER_KEY), GuildItem::CurrentUser(user.into_cached()));
    let stubs = write_step(stubs_of(guilds));
    let projection = Projection {
        before: no_steps(),
        previous_at: None,
        after: steps_2(own, stubs),
    };
    proof {
        assert forall|view: StoreView<GuildItemView>|
            #![trigger outcome(view, projection)]
            outcome(view, projection) == (
                projected(view, Event::Ready { guilds, session_id, user }, bot_id, config, None),
                None::<GuildItemView>,
            ) by {
            lemma_steps_0(view);
            lemma_steps_2(view, own, stubs);
        }
    }
    projection
}

fn project_role_write(
    guild_id: u64,
    role: Role,
    keep: bool,
    Ghost(event): Ghost<Event>,
    Ghost(bot_id): Ghost<u64>,
    Ghost(config): Ghost<CacheConfig>,
    Ghost(members): Ghost<Seq<Seq<char>>>,
    Ghost(existing): Ghost<Option<GuildItemView>>,
) -> (projection: Projection)
    requires
        event == (if keep {
            Event::RoleUpdate { guild_id, role }
        } else {
            Event::RoleCreate { guild_id, role }
        }),
    ensures
        realizes(projection, event, bot_id, config, None, members, existing),
{
    proof {
        crate::keys::lemma_role_key(guild_id, role.id);
    }
    overwrite(role_key(guild_id, role.id), GuildItem::Role(role.into_cached()), keep)
}

/// Turns an event into what it asks of the cache. `now` is the time from
/// which members live on, where they expire; `members` are the members of
/// the index set that `needs` names for the event, and `existing` is the
/// value under the key that it names. An event that sets an expiry time is
/// refused unless the time can be read back from its stored form.
pub fn project(
    event: Event,
    bot_id: u64,
    config: &CacheConfig,
    now: &FormattedDateTime,
    members: &Vec<String>,
    existing: Option<&GuildItem>,
) -> (result: Result<Projection, ApiError>)
    ensures
        match result {
            Ok(projection) => {
                &&& deadline_of(event, bot_id, *config) matches Some(ttl) ==> sound(
                    later(now@, ttl as int),
                )
                &&& realizes(
                    projection,
                    event,
                    bot_id,
                    *config,
                    expiry_text(event, bot_id, *config, now@),
                    texts(members@),
                    existing.deep_view(),
                )
            },
            Err(e) => {
                &&& e == ApiError::Timestamp
                &&& deadline_of(event, bot_id, *config) matches Some(ttl) && !sound(
                    later(now@, ttl as int),
                )
            },
        },
{
    let at: Option<String> = match ttl_of(&event, bot_id, config) {
        Some(ttl) => match deadline_text(now, ttl) {
            Ok(text) => Some(text),
            Err(e) => {
                return Err(e);
            },
        },
        None => None,
    };
    assert(option_text(at) == expiry_text(event, bot_id, *config, now@));
    let ghost listed = texts(members@);
    let ghost held = existing.deep_view();
    let ghost whole = event;
    let projection = match event {
        Event::ChannelCreate(channel) => project_channel_write(
            channel,
            false,
            Ghost(whole),
            Ghost(bot_id),
            Ghost(*config),
            Ghost(listed),
            Ghost(held),
        ),
        Event::ChannelUpdate(channel) => project_channel_write(
            channel,
            true,
            Ghost(whole),
            Ghost(bot_id),
            Ghost(*config),
            Ghost(listed),
            Ghost(held),
        ),
        Event::ChannelDelete(channel) => project_channel_delete(
            channel,
            Ghost(bot_id),
            Ghost(*config),
            Ghost(listed),
            Ghost(held),
        ),
        Event::GuildCreate(guild) => project_guild_create(
            guild,
            bot_id,
            config,
            &at,
            members,
            Ghost(held),
        ),
        Event::GuildDelete { id } => project_guild_delete(
            id,
            members,
            Ghost(bot_id),
            Ghost(*config),
            Ghost(held),
        ),
        Event::GuildUpdate(guild) => {
            proof {
                crate::keys::lemma_guild_key(guild.id);
            }
            overwrite(guild_key(guild.id), GuildItem::Guild(guild.into_record()), true)
        },
        Event::MemberAdd(member) => project_member_add(
            member,
            config,
            &at,
            Ghost(bot_id),
            Ghost(listed),
            Ghost(held),
        ),
        Event::MemberRemove { guild_id, user_id } => {
            if config.state_member {
                proof {
                    crate::keys::lemma_member_key(guild_id, user_id);
                }
                remove(member_key(guild_id, user_id))
            } else {
                nothing()
            }
        },
        Event::MemberUpdate(update) => project_member_update(
            update,
            bot_id,
            config,
            &at,
            existing,
            Ghost(listed),
        ),
        Event::MemberChunk { guild_id, members: joined } => project_member_chunk(
            guild_id,
            joined,
            bot_id,
            config,
            &at,
            Ghost(listed),
            Ghost(held),
        ),
        Event::Ready { guilds, session_id, user } => project_ready(
            guilds,
            session_id,
            user,
            Ghost(bot_id),
            Ghost(*config),
            Ghost(listed),
            Ghost(held),
        ),
        Event::RoleCreate { guild_id, role } => project_role_write(
            guild_id,
            role,
            false,
            Ghost(whole),
            Ghost(bot_id),
            Ghost(*config),
            Ghost(listed),
            Ghost(held),
        ),
        Event::RoleUpdate { guild_id, role } => project_role_write(
            guild_id,
            role,
            true,
            Ghost(whole),
            Ghost(bot_id),
            Ghost(*config),
            Ghost(listed),
            Ghost(held),
        ),
        Event::RoleDelete { guild_id, role_id } => {
            proof {
                crate::keys::lemma_role_key(guild_id, role_id);
            }
            remove(role_key(guild_id, role_id))
        },
        Event::UnavailableGuild(stub) => project_unavailable(
            stub,
            members,
            Ghost(bot_id),
            Ghost(*config),
            Ghost(held),
        ),
        Event::UserUpdate(user) => {
            proof {
                reveal_strlit("bot_user");
                crate::keys::lemma_plain_key(BOT_USER_KEY@);
            }
            overwrite(
                String::from_str(BOT_USER_KEY),
                GuildItem::CurrentUser(user.into_cached()),
                true,
            )
        },
        _ => nothing(),
    };
    Ok(projection)
}

/// Applies one event to the cache in memory and hands back the value that
/// the event displaces. `now` is the time from which members live on, where
/// they expire; an event that sets such a time changes nothing unless the
/// time can be read back from its stored form.
pub fn update(
    store: &mut Store<GuildItem>,
    event: Event,
    bot_id: u64,
    config: &CacheConfig,
    now: &FormattedDateTime,
) -> (result: Result<Option<GuildItem>, ApiError>)
    ensures
        match result {
            Ok(previous) => {
                &&& deadline_of(event, bot_id, *config) matches Some(ttl) ==> sound(
                    later(now@, ttl as int),
                )
                &&& final(store)@ == projected(
                    old(store)@,
                    event,
                    bot_id,
                    *config,
                    expiry_text(event, bot_id, *config, now@),
                )
                &&& previous.deep_view() == displaced(old(store)@, event, bot_id, *config)
            },
            Err(e) => {
                &&& e == ApiError::Timestamp
                &&& deadline_of(event, bot_id, *config) matches Some(ttl) && !sound(
                    later(now@, ttl as int),
                )
                &&& final(store)@ == old(store)@
            },
        },
{
    let wanted = needs(&event, bot_id, config);
    let members = match &wanted.members_of {
        Some(set) => get_members(store, set.as_str()),
        None => Vec::new(),
    };
    let projection = {
        let existing = match &wanted.value_at {
            Some(key) => store.peek(key.as_str()),
            None => None,
        };
        project(event, bot_id, config, now, &members, existing)
    };
    match projection {
        Ok(projection) => {
            proof {
                assert(answered(
                    old(store)@,
                    event,
                    bot_id,
                    *config,
                    texts(members@),
                    match needed_value(event, bot_id, *config) {
                        Some(key) => old(store)@.get(key),
                        None => None,
                    },
                ));
            }
            Ok(execute(store, projection))
        },
        Err(e) => Err(e),
    }
}

} // verus!
