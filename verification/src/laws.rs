//! What holds of the cache whatever is written to it: the index sets follow
//! the values, a guild leaves nothing behind, a channel has one key, and a
//! key does not outlive its time.

use vstd::prelude::*;
use crate::cache::{all_at, cleared, expired, is_due, sound, swept};
use crate::events::{CacheConfig, Event};
use crate::models::GuildItemView;
use crate::projection::{
    channel_items, guild_items, member_items, projected, role_items, with_expiry,
};
use crate::keys::{
    canonical, channel_key_spec, decimal, group_index, guild_index_spec, guild_key_spec,
    lemma_canonical, lemma_index_names, prefix_index, prefix_index_spec, private_channel_key_spec,
    split,
};
use crate::store::{index_of, index_of_all, indexes, stored_under, StoreView};
use crate::timestamp::{encoded, later, NANOS_PER_MILLI};

verus! {

/// Whether the index sets are in step with the values: every value lies
/// under a canonical key; an index set of first segments lists exactly the
/// live keys with that first segment; and every live key with an owner is
/// listed in its owner's set.
pub open spec fn indexed<V>(view: StoreView<V>) -> bool {
    &&& forall|key: Seq<char>| #[trigger] view.values.dom().contains(key) ==> canonical(key) == key
    &&& forall|name: Seq<char>, key: Seq<char>|
        !name.contains(':') ==> (#[trigger] view.index.contains((name, key))
            <==> view.values.dom().contains(key) && prefix_index(key) == Some(name))
    &&& forall|key: Seq<char>| #[trigger]
        view.values.dom().contains(key) && group_index(key) is Some ==> view.index.contains(
            (group_index(key).unwrap(), key),
        )
}

/// An empty cache is in step.
pub proof fn lemma_empty_indexed<V>()
    ensures
        indexed(StoreView::<V>::empty()),
{
}

/// A write keeps the index sets in step.
pub proof fn lemma_set_keeps_index<V>(view: StoreView<V>, key: Seq<char>, value: V)
    requires
        indexed(view),
    ensures
        indexed(view.set(key, value)),
{
    let after = view.set(key, value);
    let stored = canonical(key);
    lemma_canonical(key);
    lemma_index_names(key);
    assert forall|k: Seq<char>| #[trigger] after.values.dom().contains(k) implies canonical(k)
        == k by {
        if k != stored {
            assert(view.values.dom().contains(k));
        }
    }
    assert forall|name: Seq<char>, k: Seq<char>| !name.contains(':') implies (
    #[trigger] after.index.contains((name, k)) <==> after.values.dom().contains(k) && prefix_index(
        k,
    ) == Some(name)) by {
        if after.index.contains((name, k)) {
            if !view.index.contains((name, k)) {
                assert(indexes(key, (name, k)));
            }
        }
        if after.values.dom().contains(k) && prefix_index(k) == Some(name) {
            if view.values.dom().contains(k) {
                assert(view.index.contains((name, k)));
            } else {
                assert(indexes(key, (name, k)));
                assert(index_of(key).contains((name, k)));
            }
        }
    }
    assert forall|k: Seq<char>| #[trigger]
        after.values.dom().contains(k) && group_index(k) is Some implies after.index.contains(
        (group_index(k).unwrap(), k),
    ) by {
        if view.values.dom().contains(k) {
            assert(view.index.contains((group_index(k).unwrap(), k)));
        } else {
            assert(k == stored);
            assert(stored == key);
            assert(indexes(key, (group_index(k).unwrap(), k)));
            assert(index_of(key).contains((group_index(k).unwrap(), k)));
        }
    }
}

/// A batch of writes keeps the index sets in step.
pub proof fn lemma_set_all_keeps_index<V>(view: StoreView<V>, items: Seq<(Seq<char>, V)>)
    requires
        indexed(view),
    ensures
        indexed(view.set_all(items)),
    decreases items.len(),
{
    if items.len() > 0 {
        lemma_set_all_keeps_index(view, items.drop_last());
        lemma_set_keeps_index(view.set_all(items.drop_last()), items.last().0, items.last().1);
    }
}

/// Deletes keep the index sets in step.
pub proof fn lemma_del_keeps_index<V>(view: StoreView<V>, keys: Set<Seq<char>>)
    requires
        indexed(view),
    ensures
        indexed(view.del_keys(keys)),
{
    let after = view.del_keys(keys);
    assert forall|name: Seq<char>, k: Seq<char>| !name.contains(':') implies (
    #[trigger] after.index.contains((name, k)) <==> after.values.dom().contains(k) && prefix_index(
        k,
    ) == Some(name)) by {
        if after.index.contains((name, k)) {
            assert(view.index.contains((name, k)));
            if stored_under(keys).contains(k) {
                let key = choose|key: Seq<char>| keys.contains(key) && canonical(key) == k;
                lemma_canonical(key);
                assert(indexes(key, (name, k)));
                assert(index_of_all(keys).contains((name, k)));
            }
        }
        if after.values.dom().contains(k) && prefix_index(k) == Some(name) {
            assert(view.index.contains((name, k)));
            if index_of_all(keys).contains((name, k)) {
                let key = choose|key: Seq<char>| keys.contains(key) && indexes(key, (name, k));
                assert(stored_under(keys).contains(k));
            }
        }
    }
    assert forall|k: Seq<char>| #[trigger]
        after.values.dom().contains(k) && group_index(k) is Some implies after.index.contains(
        (group_index(k).unwrap(), k),
    ) by {
        let pair = (group_index(k).unwrap(), k);
        assert(view.index.contains(pair));
        if index_of_all(keys).contains(pair) {
            let key = choose|key: Seq<char>| keys.contains(key) && indexes(key, pair);
            assert(stored_under(keys).contains(k));
        }
    }
}

/// Expiry times touch neither values nor index sets.
pub proof fn lemma_expire_all_frame<V>(view: StoreView<V>, entries: Seq<(Seq<char>, Seq<char>)>)
    ensures
        view.expire_all(entries).values == view.values,
        view.expire_all(entries).index == view.index,
    decreases entries.len(),
{
    if entries.len() > 0 {
        lemma_expire_all_frame(view, entries.drop_last());
    }
}

/// Clearing a guild leaves nothing of it: its record is gone, its index set
/// is gone, and so is every value that the set listed.
pub proof fn lemma_guild_cleared<V>(view: StoreView<V>, guild: u64)
    ensures
        cleared(view, guild).get(guild_key_spec(guild)) is None,
        cleared(view, guild).members(guild_index_spec(decimal(guild as nat))) == Set::<
            Seq<char>,
        >::empty(),
        forall|key: Seq<char>|
            view.members(guild_index_spec(decimal(guild as nat))).contains(key) ==> cleared(
                view,
                guild,
            ).get(canonical(key)) is None,
{
    let name = guild_index_spec(decimal(guild as nat));
    let listed = view.members(name);
    let first = view.del_keys(listed);
    let second = first.drop_set(name);
    let after = second.del(guild_key_spec(guild));
    crate::keys::lemma_guild_key(guild);
    assert(stored_under(set![guild_key_spec(guild)]).contains(guild_key_spec(guild)));
    assert(after.members(name) =~= Set::<Seq<char>>::empty());
    assert forall|key: Seq<char>| listed.contains(key) implies after.get(canonical(key))
        is None by {
        assert(stored_under(listed).contains(canonical(key)));
    }
}

/// In a cache that is in step, clearing a guild also removes every value
/// whose key names the guild as its owner, and the cache stays in step.
pub proof fn lemma_guild_cleared_indexed<V>(view: StoreView<V>, guild: u64)
    requires
        indexed(view),
    ensures
        indexed(cleared(view, guild)),
        forall|key: Seq<char>|
            group_index(key) == Some(guild_index_spec(decimal(guild as nat))) ==> cleared(
                view,
                guild,
            ).get(key) is None,
{
    let name = guild_index_spec(decimal(guild as nat));
    let listed = view.members(name);
    let first = view.del_keys(listed);
    let second = first.drop_set(name);
    let after = second.del(guild_key_spec(guild));
    lemma_del_keeps_index(view, listed);
    assert forall|key: Seq<char>| group_index(key) == Some(name) implies !first.values.dom().contains(
        key,
    ) by {
        if view.values.dom().contains(key) {
            assert(view.index.contains((name, key)));
            assert(listed.contains(key));
            assert(stored_under(listed).contains(key));
        }
    }
    assert(name.contains(':')) by {
        crate::keys::lemma_key_prefixes();
        crate::keys::lemma_suffix_plain();
        assert(name[(crate::constants::GUILD_KEY@.len() + crate::constants::KEYS_SUFFIX@.len()) as int]
            == ':');
    }
    assert(indexed(second)) by {
        assert forall|n: Seq<char>, k: Seq<char>| !n.contains(':') implies (
        #[trigger] second.index.contains((n, k)) <==> second.values.dom().contains(k)
            && prefix_index(k) == Some(n)) by {
            assert(first.index.contains((n, k)) <==> first.values.dom().contains(k) && prefix_index(
                k,
            ) == Some(n));
        }
        assert forall|k: Seq<char>| #[trigger]
            second.values.dom().contains(k) && group_index(k) is Some implies second.index.contains(
            (group_index(k).unwrap(), k),
        ) by {
            assert(first.index.contains((group_index(k).unwrap(), k)));
        }
    }
    lemma_del_keeps_index(second, set![guild_key_spec(guild)]);
}

/// An event keeps the index sets in step.
pub proof fn lemma_projected_keeps_index(
    view: StoreView<GuildItemView>,
    event: Event,
    bot_id: u64,
    config: CacheConfig,
    at: Option<Seq<char>>,
)
    requires
        indexed(view),
    ensures
        indexed(projected(view, event, bot_id, config, at)),
{
    let after = projected(view, event, bot_id, config, at);
    match event {
        Event::ChannelCreate(channel) | Event::ChannelUpdate(channel) => {
            match crate::projection::channel_slot(channel) {
                Some(key) => lemma_set_keeps_index(
                    view,
                    key,
                    crate::projection::channel_value(channel),
                ),
                None => {},
            }
        },
        Event::ChannelDelete(channel) => {
            match crate::projection::channel_slot(channel) {
                Some(key) => lemma_del_keeps_index(view, set![key]),
                None => {},
            }
        },
        Event::GuildCreate(guild) => {
            lemma_guild_cleared_indexed(view, guild.id);
            let items = crate::projection::guild_items(guild, config, bot_id);
            lemma_set_all_keeps_index(cleared(view, guild.id), items);
            lemma_with_expiry_keeps_index(
                cleared(view, guild.id).set_all(items),
                crate::projection::member_keys(guild.id, guild.members@),
                at,
            );
        },
        Event::GuildDelete { id } => {
            lemma_guild_cleared_indexed(view, id);
        },
        Event::GuildUpdate(guild) => {
            lemma_set_keeps_index(view, guild_key_spec(guild.id), GuildItemView::Guild(guild.record()));
        },
        Event::MemberAdd(member) => {
            if config.state_member {
                let key = crate::keys::member_key_spec(member.guild_id, member.user.id);
                let value = GuildItemView::Member(member.cached_view());
                lemma_set_keeps_index(view, key, value);
                lemma_with_expiry_keeps_index(view.set(key, value), seq![key], at);
            }
        },
        Event::MemberRemove { guild_id, user_id } => {
            if config.state_member {
                lemma_del_keeps_index(view, set![crate::keys::member_key_spec(guild_id, user_id)]);
            }
        },
        Event::MemberUpdate(update) => {
            let key = crate::keys::member_key_spec(update.guild_id, update.user.id);
            if config.state_member || update.user.id == bot_id {
                match view.get(key) {
                    Some(GuildItemView::Member(existing)) => {
                        let value = GuildItemView::Member(update.merged(existing));
                        lemma_set_keeps_index(view, key, value);
                        lemma_with_expiry_keeps_index(view.set(key, value), seq![key], at);
                    },
                    _ => {},
                }
            }
        },
        Event::MemberChunk { guild_id, members } => {
            if config.state_member {
                let items = crate::projection::member_items(guild_id, members@, true, bot_id);
                lemma_set_all_keeps_index(view, items);
                lemma_with_expiry_keeps_index(
                    view.set_all(items),
                    crate::projection::member_keys(guild_id, members@),
                    at,
                );
            }
        },
        Event::Ready { guilds, session_id, user } => {
            let value = GuildItemView::CurrentUser(user.cached_view());
            lemma_set_keeps_index(view, crate::constants::BOT_USER_KEY@, value);
            lemma_set_all_keeps_index(
                view.set(crate::constants::BOT_USER_KEY@, value),
                crate::projection::stub_items(guilds@),
            );
        },
        Event::RoleCreate { guild_id, role } | Event::RoleUpdate { guild_id, role } => {
            lemma_set_keeps_index(
                view,
                crate::keys::role_key_spec(guild_id, role.id),
                GuildItemView::Role(role.cached_view()),
            );
        },
        Event::RoleDelete { guild_id, role_id } => {
            lemma_del_keeps_index(view, set![crate::keys::role_key_spec(guild_id, role_id)]);
        },
        Event::UnavailableGuild(stub) => {
            lemma_guild_cleared_indexed(view, stub.id);
            lemma_set_keeps_index(
                cleared(view, stub.id),
                guild_key_spec(stub.id),
                GuildItemView::Unavailable(stub),
            );
        },
        Event::UserUpdate(user) => {
            lemma_set_keeps_index(
                view,
                crate::constants::BOT_USER_KEY@,
                GuildItemView::CurrentUser(user.cached_view()),
            );
        },
        _ => {},
    }
}

/// Expiry times keep the index sets in step.
pub proof fn lemma_with_expiry_keeps_index(
    view: StoreView<GuildItemView>,
    keys: Seq<Seq<char>>,
    at: Option<Seq<char>>,
)
    requires
        indexed(view),
    ensures
        indexed(with_expiry(view, keys, at)),
{
    match at {
        Some(text) => lemma_expire_all_frame(view, all_at(keys, text)),
        None => {},
    }
}

/// One scan of the expiry table keeps the index sets in step.
pub proof fn lemma_swept_keeps_index<V>(view: StoreView<V>, now: int)
    requires
        indexed(view),
    ensures
        indexed(swept(view, now)),
{
    lemma_del_keeps_index(view, expired(view, now));
}

/// The index set of a first segment lists exactly the live keys of two
/// segments or more that start with it.
pub proof fn lemma_prefix_index_exact<V>(view: StoreView<V>, prefix: Seq<char>)
    requires
        indexed(view),
        !prefix.contains(':'),
    ensures
        view.members(prefix_index_spec(prefix)) == Set::new(
            |key: Seq<char>|
                view.values.dom().contains(key) && split(key, ':').len() > 1 && split(key, ':')[0]
                    == prefix,
        ),
{
    let name = prefix_index_spec(prefix);
    let live = Set::new(
        |key: Seq<char>|
            view.values.dom().contains(key) && split(key, ':').len() > 1 && split(key, ':')[0]
                == prefix,
    );
    crate::keys::lemma_suffix_plain();
    assert forall|i: int| 0 <= i < name.len() implies name[i] != ':' by {
        if i < prefix.len() {
            assert(prefix.contains(prefix[i]));
        } else {
            assert(crate::constants::KEYS_SUFFIX@.contains(
                crate::constants::KEYS_SUFFIX@[i - prefix.len() as int],
            ));
        }
    }
    assert(!name.contains(':'));
    assert forall|key: Seq<char>| #[trigger] view.members(name).contains(key) <==> live.contains(
        key,
    ) by {
        assert(view.index.contains((name, key)) <==> view.values.dom().contains(key)
            && prefix_index(key) == Some(name));
        if prefix_index(key) == Some(name) {
            crate::keys::lemma_prefix_index_injective(split(key, ':')[0], prefix);
        }
    }
    assert(view.members(name) =~= live);
}

/// A guild's channel has one key: what is written at the key with the guild
/// is read at the key without it, a delete at either key removes it, and in
/// a cache that is in step nothing is ever stored at the key with the guild.
pub proof fn lemma_channel_one_key<V>(view: StoreView<V>, guild: u64, channel: u64, value: V)
    ensures
        view.set(channel_key_spec(guild, channel), value).get(private_channel_key_spec(channel))
            == Some(value),
        view.del(channel_key_spec(guild, channel)).get(private_channel_key_spec(channel)) is None,
        view.del(private_channel_key_spec(channel)).get(private_channel_key_spec(channel)) is None,
        indexed(view) ==> view.get(channel_key_spec(guild, channel)) is None,
{
    crate::keys::lemma_channel_key(guild, channel);
    crate::keys::lemma_private_channel_key(channel);
    let long = channel_key_spec(guild, channel);
    let short = private_channel_key_spec(channel);
    assert(stored_under(set![long]).contains(short));
    assert(stored_under(set![short]).contains(short));
    crate::keys::lemma_decimal_plain(guild as nat);
    assert(long.len() > short.len());
    assert(canonical(long) != long);
}

/// A key does not outlive its time: once a key is written and given a time
/// to live, a scan of the expiry table after that time finds neither the
/// value nor the expiry entry.
pub proof fn lemma_expiry_round_trip<V>(
    view: StoreView<V>,
    key: Seq<char>,
    value: V,
    ttl: u64,
    set_at: int,
    scanned_at: int,
)
    requires
        sound(later(set_at, ttl as int)),
        scanned_at > set_at + ttl * NANOS_PER_MILLI,
    ensures
        ({
            let written = view.set(key, value);
            let timed = written.expire_all(seq![(key, encoded(later(set_at, ttl as int)))]);
            let after = swept(timed, scanned_at);
            after.get(canonical(key)) is None && !after.expiry.dom().contains(key)
        }),
{
    let written = view.set(key, value);
    let entries = seq![(key, encoded(later(set_at, ttl as int)))];
    let timed = written.expire_all(entries);
    assert(entries.drop_last() =~= Seq::<(Seq<char>, Seq<char>)>::empty());
    assert(written.expire_all(entries.drop_last()) == written);
    assert(timed.expiry[key] == encoded(later(set_at, ttl as int)));
    assert(is_due(timed.expiry[key], scanned_at));
    assert(expired(timed, scanned_at).contains(key));
    assert(stored_under(expired(timed, scanned_at)).contains(canonical(key)));
}

/// What the cache holds after a run of events, each with the expiry time
/// that it gives to the members it writes.
pub open spec fn replayed(
    view: StoreView<GuildItemView>,
    steps: Seq<(Event, Option<Seq<char>>)>,
    bot_id: u64,
    config: CacheConfig,
) -> StoreView<GuildItemView>
    decreases steps.len(),
{
    if steps.len() == 0 {
        view
    } else {
        projected(
            replayed(view, steps.drop_last(), bot_id, config),
            steps.last().0,
            bot_id,
            config,
            steps.last().1,
        )
    }
}

/// Whatever events are applied to a cache that is in step, it stays in step.
pub proof fn lemma_replayed_keeps_index(
    view: StoreView<GuildItemView>,
    steps: Seq<(Event, Option<Seq<char>>)>,
    bot_id: u64,
    config: CacheConfig,
)
    requires
        indexed(view),
    ensures
        indexed(replayed(view, steps, bot_id, config)),
    decreases steps.len(),
{
    if steps.len() > 0 {
        lemma_replayed_keeps_index(view, steps.drop_last(), bot_id, config);
        lemma_projected_keeps_index(
            replayed(view, steps.drop_last(), bot_id, config),
            steps.last().0,
            bot_id,
            config,
            steps.last().1,
        );
    }
}

/// Whatever events are applied to an empty cache, the index set of a first
/// segment lists exactly the live keys of two segments or more that start
/// with it.
pub proof fn lemma_index_sets_follow(
    steps: Seq<(Event, Option<Seq<char>>)>,
    bot_id: u64,
    config: CacheConfig,
    prefix: Seq<char>,
)
    requires
        !prefix.contains(':'),
    ensures
        ({
            let view = replayed(StoreView::empty(), steps, bot_id, config);
            view.members(prefix_index_spec(prefix)) == Set::new(
                |key: Seq<char>|
                    view.values.dom().contains(key) && split(key, ':').len() > 1 && split(
                        key,
                        ':',
                    )[0] == prefix,
            )
        }),
{
    lemma_empty_indexed::<GuildItemView>();
    lemma_replayed_keeps_index(StoreView::empty(), steps, bot_id, config);
    lemma_prefix_index_exact(replayed(StoreView::empty(), steps, bot_id, config), prefix);
}

/// Whether a list of items writes at `key`.
pub open spec fn writes_at(items: Seq<(Seq<char>, GuildItemView)>, key: Seq<char>) -> bool {
    exists|j: int| 0 <= j < items.len() && (#[trigger] items[j]).0 == key
}

/// Whether the key `key` belongs to the guild `guild`: it is the guild's own
/// key, or it names the guild as its owner.
pub open spec fn belongs_to(key: Seq<char>, guild: u64) -> bool {
    key == guild_key_spec(guild) || group_index(key) == Some(
        guild_index_spec(decimal(guild as nat)),
    )
}

proof fn lemma_channel_items_belong(guild: u64, channels: Seq<crate::models::GuildChannel>)
    ensures
        forall|j: int|
            0 <= j < channel_items(guild, channels).len() ==> belongs_to(
                (#[trigger] channel_items(guild, channels)[j]).0,
                guild,
            ),
    decreases channels.len(),
{
    if channels.len() > 0 {
        lemma_channel_items_belong(guild, channels.drop_last());
        crate::keys::lemma_channel_key(guild, channels.last().id);
        let front = channel_items(guild, channels.drop_last());
        let all = channel_items(guild, channels);
        assert forall|j: int| 0 <= j < all.len() implies belongs_to((#[trigger] all[j]).0, guild) by {
            if j < front.len() {
                assert(all[j] == front[j]);
            }
        }
    }
}

proof fn lemma_role_items_belong(guild: u64, roles: Seq<crate::models::Role>)
    ensures
        forall|j: int|
            0 <= j < role_items(guild, roles).len() ==> belongs_to(
                (#[trigger] role_items(guild, roles)[j]).0,
                guild,
            ),
    decreases roles.len(),
{
    if roles.len() > 0 {
        lemma_role_items_belong(guild, roles.drop_last());
        crate::keys::lemma_role_key(guild, roles.last().id);
        let front = role_items(guild, roles.drop_last());
        let all = role_items(guild, roles);
        assert forall|j: int| 0 <= j < all.len() implies belongs_to((#[trigger] all[j]).0, guild) by {
            if j < front.len() {
                assert(all[j] == front[j]);
            }
        }
    }
}

proof fn lemma_member_items_belong(
    guild: u64,
    members: Seq<crate::models::Member>,
    all: bool,
    bot_id: u64,
)
    ensures
        forall|j: int|
            0 <= j < member_items(guild, members, all, bot_id).len() ==> belongs_to(
                (#[trigger] member_items(guild, members, all, bot_id)[j]).0,
                guild,
            ),
    decreases members.len(),
{
    if members.len() > 0 {
        lemma_member_items_belong(guild, members.drop_last(), all, bot_id);
        crate::keys::lemma_member_key(guild, members.last().user.id);
        let front = member_items(guild, members.drop_last(), all, bot_id);
        let whole = member_items(guild, members, all, bot_id);
        assert forall|j: int| 0 <= j < whole.len() implies belongs_to(
            (#[trigger] whole[j]).0,
            guild,
        ) by {
            if j < front.len() {
                assert(whole[j] == front[j]);
            }
        }
    }
}

/// Everything that a new guild writes belongs to the guild.
pub proof fn lemma_guild_items_belong(
    guild: crate::models::Guild,
    config: CacheConfig,
    bot_id: u64,
    key: Seq<char>,
)
    requires
        writes_at(guild_items(guild, config, bot_id), key),
    ensures
        belongs_to(key, guild.id),
{
    let items = guild_items(guild, config, bot_id);
    let j = choose|j: int| 0 <= j < items.len() && (#[trigger] items[j]).0 == key;
    let channels = channel_items(guild.id, guild.channels@);
    let roles = role_items(guild.id, guild.roles@);
    let members = member_items(guild.id, guild.members@, config.state_member, bot_id);
    lemma_channel_items_belong(guild.id, guild.channels@);
    lemma_role_items_belong(guild.id, guild.roles@);
    lemma_member_items_belong(guild.id, guild.members@, config.state_member, bot_id);
    if j < channels.len() {
        assert(items[j] == channels[j]);
    } else if j < channels.len() + roles.len() {
        assert(items[j] == roles[j - channels.len()]);
    } else if j < channels.len() + roles.len() + members.len() {
        assert(items[j] == members[j - channels.len() - roles.len()]);
    }
}

/// What is live after a batch of writes was live before or was written, and
/// what was written is live and listed in its index sets.
pub proof fn lemma_set_all_live<V>(view: StoreView<V>, items: Seq<(Seq<char>, V)>)
    ensures
        forall|stored: Seq<char>| #[trigger]
            view.set_all(items).values.dom().contains(stored) <==> view.values.dom().contains(
                stored,
            ) || exists|j: int| 0 <= j < items.len() && canonical((#[trigger] items[j]).0) == stored,
        forall|pair: (Seq<char>, Seq<char>)| #[trigger]
            view.set_all(items).index.contains(pair) <==> view.index.contains(pair) || exists|
                j: int,
            |
                0 <= j < items.len() && indexes((#[trigger] items[j]).0, pair),
    decreases items.len(),
{
    if items.len() > 0 {
        let front = items.drop_last();
        lemma_set_all_live(view, front);
        let before = view.set_all(front);
        let after = view.set_all(items);
        assert forall|stored: Seq<char>| #[trigger]
            after.values.dom().contains(stored) <==> view.values.dom().contains(stored) || exists|
                j: int,
            |
                0 <= j < items.len() && canonical((#[trigger] items[j]).0) == stored by {
            if after.values.dom().contains(stored) {
                if before.values.dom().contains(stored) {
                    if !view.values.dom().contains(stored) {
                        let j = choose|j: int|
                            0 <= j < front.len() && canonical((#[trigger] front[j]).0) == stored;
                        assert(items[j] == front[j]);
                    }
                } else {
                    assert(canonical(items[items.len() - 1].0) == stored);
                }
            }
            if exists|j: int| 0 <= j < items.len() && canonical((#[trigger] items[j]).0) == stored {
                let j = choose|j: int|
                    0 <= j < items.len() && canonical((#[trigger] items[j]).0) == stored;
                if j < front.len() {
                    assert(front[j] == items[j]);
                }
            }
        }
        assert forall|pair: (Seq<char>, Seq<char>)| #[trigger]
            after.index.contains(pair) <==> view.index.contains(pair) || exists|j: int|
                0 <= j < items.len() && indexes((#[trigger] items[j]).0, pair) by {
            if after.index.contains(pair) {
                if before.index.contains(pair) {
                    if !view.index.contains(pair) {
                        let j = choose|j: int|
                            0 <= j < front.len() && indexes((#[trigger] front[j]).0, pair);
                        assert(items[j] == front[j]);
                    }
                } else {
                    assert(index_of(items.last().0).contains(pair));
                    assert(indexes(items[items.len() - 1].0, pair));
                }
            }
            if exists|j: int| 0 <= j < items.len() && indexes((#[trigger] items[j]).0, pair) {
                let j = choose|j: int| 0 <= j < items.len() && indexes((#[trigger] items[j]).0, pair);
                if j < front.len() {
                    assert(front[j] == items[j]);
                } else {
                    assert(index_of(items.last().0).contains(pair));
                }
            }
        }
    }
}

/// Whether every event of `steps` creates or deletes the guild `guild`.
pub open spec fn guild_steps(steps: Seq<(Event, Option<Seq<char>>)>, guild: u64) -> bool {
    forall|i: int|
        0 <= i < steps.len() ==> match (#[trigger] steps[i]).0 {
            Event::GuildCreate(g) => g.id == guild,
            Event::GuildDelete { id } => id == guild,
            _ => false,
        }
}

/// Whether one of the events of `steps` is the creation of a guild that
/// writes at `key`.
pub open spec fn ever_written(
    steps: Seq<(Event, Option<Seq<char>>)>,
    bot_id: u64,
    config: CacheConfig,
    key: Seq<char>,
) -> bool {
    exists|i: int|
        0 <= i < steps.len() && match (#[trigger] steps[i]).0 {
            Event::GuildCreate(g) => writes_at(guild_items(g, config, bot_id), key),
            _ => false,
        }
}

/// Whether the value that was written at `key`, if it is still live, can be
/// found from the guild `guild`: under the guild's own key, or in the
/// guild's index set.
pub open spec fn reachable(view: StoreView<GuildItemView>, guild: u64, key: Seq<char>) -> bool {
    view.values.dom().contains(canonical(key)) ==> canonical(key) == guild_key_spec(guild)
        || view.index.contains((guild_index_spec(decimal(guild as nat)), canonical(key)))
}

/// While a guild is created and deleted, in whatever order, everything that
/// was ever written for it stays reachable from it.
pub proof fn lemma_guild_trace(
    view: StoreView<GuildItemView>,
    steps: Seq<(Event, Option<Seq<char>>)>,
    guild: u64,
    bot_id: u64,
    config: CacheConfig,
)
    requires
        indexed(view),
        guild_steps(steps, guild),
    ensures
        indexed(replayed(view, steps, bot_id, config)),
        forall|key: Seq<char>|
            ever_written(steps, bot_id, config, key) ==> reachable(
                replayed(view, steps, bot_id, config),
                guild,
                key,
            ),
    decreases steps.len(),
{
    lemma_replayed_keeps_index(view, steps, bot_id, config);
    if steps.len() > 0 {
        let front = steps.drop_last();
        assert(guild_steps(front, guild)) by {
            assert forall|i: int| 0 <= i < front.len() implies match (#[trigger] front[i]).0 {
                Event::GuildCreate(g) => g.id == guild,
                Event::GuildDelete { id } => id == guild,
                _ => false,
            } by {
                assert(front[i] == steps[i]);
            }
        }
        lemma_guild_trace(view, front, guild, bot_id, config);
        let before = replayed(view, front, bot_id, config);
        let after = replayed(view, steps, bot_id, config);
        let name = guild_index_spec(decimal(guild as nat));
        let last = steps[steps.len() - 1];
        assert(last == steps.last());
        let swept = cleared(before, guild);
        lemma_guild_cleared(before, guild);
        lemma_guild_cleared_indexed(before, guild);
        crate::keys::lemma_guild_key(guild);
        assert forall|key: Seq<char>| ever_written(steps, bot_id, config, key) implies reachable(
            after,
            guild,
            key,
        ) by {
            let stored = canonical(key);
            lemma_canonical(key);
            let i = choose|i: int|
                0 <= i < steps.len() && match (#[trigger] steps[i]).0 {
                    Event::GuildCreate(g) => writes_at(guild_items(g, config, bot_id), key),
                    _ => false,
                };
            if i < front.len() {
                assert(front[i] == steps[i]);
                assert(ever_written(front, bot_id, config, key));
                assert(reachable(before, guild, key));
                if before.values.dom().contains(stored) && stored != guild_key_spec(guild) {
                    assert(before.members(name).contains(stored));
                    assert(swept.get(canonical(stored)) is None);
                }
            }
            match last.0 {
                Event::GuildCreate(g) => {
                    let items = guild_items(g, config, bot_id);
                    let written = swept.set_all(items);
                    lemma_set_all_live(swept, items);
                    match last.1 {
                        Some(text) => lemma_expire_all_frame(
                            written,
                            all_at(crate::projection::member_keys(g.id, g.members@), text),
                        ),
                        None => {},
                    }
                    if after.values.dom().contains(stored) && stored != guild_key_spec(guild) {
                        assert(written.values.dom().contains(stored));
                        if i < front.len() {
                            assert(!swept.values.dom().contains(stored));
                        }
                        let j = choose|j: int|
                            0 <= j < items.len() && canonical((#[trigger] items[j]).0) == stored;
                        lemma_guild_items_belong(g, config, bot_id, items[j].0);
                        lemma_canonical(items[j].0);
                        assert(indexes(items[j].0, (name, stored)));
                        assert(written.index.contains((name, stored)));
                    }
                },
                Event::GuildDelete { id } => {
                    assert(i < front.len());
                },
                _ => {},
            }
        }
    }
}

/// A guild leaves nothing behind: after any run of creations and deletions
/// of one guild that ends with a deletion, the guild's record is gone, its
/// index set is gone, and so is every value that any of the creations wrote.
pub proof fn lemma_guild_leaves_nothing(
    view: StoreView<GuildItemView>,
    steps: Seq<(Event, Option<Seq<char>>)>,
    guild: u64,
    bot_id: u64,
    config: CacheConfig,
)
    requires
        indexed(view),
        guild_steps(steps, guild),
        steps.len() > 0,
        steps.last().0 is GuildDelete,
    ensures
        replayed(view, steps, bot_id, config).get(guild_key_spec(guild)) is None,
        replayed(view, steps, bot_id, config).members(guild_index_spec(decimal(guild as nat)))
            == Set::<Seq<char>>::empty(),
        forall|key: Seq<char>|
            ever_written(steps, bot_id, config, key) ==> replayed(
                view,
                steps,
                bot_id,
                config,
            ).get(canonical(key)) is None,
{
    let front = steps.drop_last();
    assert(guild_steps(front, guild)) by {
        assert forall|i: int| 0 <= i < front.len() implies match (#[trigger] front[i]).0 {
            Event::GuildCreate(g) => g.id == guild,
            Event::GuildDelete { id } => id == guild,
            _ => false,
        } by {
            assert(front[i] == steps[i]);
        }
    }
    lemma_guild_trace(view, front, guild, bot_id, config);
    let before = replayed(view, front, bot_id, config);
    let after = replayed(view, steps, bot_id, config);
    let name = guild_index_spec(decimal(guild as nat));
    assert(steps[steps.len() - 1] == steps.last());
    assert(after == cleared(before, guild));
    lemma_guild_cleared(before, guild);
    crate::keys::lemma_guild_key(guild);
    assert forall|key: Seq<char>| ever_written(steps, bot_id, config, key) implies after.get(
        canonical(key),
    ) is None by {
        let stored = canonical(key);
        lemma_canonical(key);
        let i = choose|i: int|
            0 <= i < steps.len() && match (#[trigger] steps[i]).0 {
                Event::GuildCreate(g) => writes_at(guild_items(g, config, bot_id), key),
                _ => false,
            };
        assert(i < front.len());
        assert(front[i] == steps[i]);
        assert(ever_written(front, bot_id, config, key));
        assert(reachable(before, guild, key));
        if before.values.dom().contains(stored) && stored != guild_key_spec(guild) {
            assert(before.members(name).contains(stored));
            assert(after.get(canonical(stored)) is None);
        }
    }
}

} // verus!
