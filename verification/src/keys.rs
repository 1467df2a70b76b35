//! Cache keys: their segments, their canonical form and the index sets they
//! belong to.

use vstd::prelude::*;
use crate::constants::{CHANNEL_KEY, GUILD_KEY, KEYS_SUFFIX, MEMBER_KEY, MESSAGE_KEY, ROLE_KEY};

verus! {

/// The segments of `s`: the pieces between the occurrences of `sep`.
/// A text without `sep` has one segment, itself.
pub open spec fn split(s: Seq<char>, sep: char) -> Seq<Seq<char>>
    decreases s.len(),
{
    if s.len() == 0 {
        seq![Seq::<char>::empty()]
    } else {
        let before = split(s.drop_last(), sep);
        if s.last() == sep {
            before.push(Seq::<char>::empty())
        } else {
            before.drop_last().push(before.last().push(s.last()))
        }
    }
}

/// The texts that a vector of strings holds.
pub open spec fn texts(v: Seq<String>) -> Seq<Seq<char>> {
    Seq::new(v.len(), |i: int| v[i]@)
}

pub proof fn lemma_split_nonempty(s: Seq<char>, sep: char)
    ensures
        split(s, sep).len() >= 1,
    decreases s.len(),
{
    if s.len() > 0 {
        lemma_split_nonempty(s.drop_last(), sep);
    }
}

/// Splits a key into its segments.
pub fn get_keys(key: &str) -> (parts: Vec<String>)
    ensures
        texts(parts@) == split(key@, ':'),
        parts.len() >= 1,
{
    let n = key.unicode_len();
    let mut parts: Vec<String> = Vec::new();
    let mut start: usize = 0;
    let mut i: usize = 0;
    proof {
        assert(key@.take(0) =~= Seq::<char>::empty());
    }
    while i < n
        invariant
            n == key@.len(),
            start <= i <= n,
            texts(parts@).push(key@.subrange(start as int, i as int)) == split(key@.take(i as int), ':'),
        decreases n - i,
    {
        let c = key.get_char(i);
        proof {
            let prefix = key@.take(i as int + 1);
            assert(prefix.drop_last() =~= key@.take(i as int));
            assert(prefix.last() == c);
        }
        if c == ':' {
            let part = key.substring_char(start, i);
            let ghost before = texts(parts@);
            parts.push(String::from_str(part));
            proof {
                assert(texts(parts@) =~= before.push(key@.subrange(start as int, i as int)));
                assert(key@.subrange(i as int + 1, i as int + 1) =~= Seq::<char>::empty());
            }
            start = i + 1;
        } else {
            proof {
                let whole = texts(parts@).push(key@.subrange(start as int, i as int));
                assert(whole.drop_last() =~= texts(parts@));
                assert(key@.subrange(start as int, i as int + 1) =~= key@.subrange(
                    start as int,
                    i as int,
                ).push(c));
            }
        }
        i = i + 1;
    }
    let part = key.substring_char(start, n);
    let ghost before = texts(parts@);
    parts.push(String::from_str(part));
    proof {
        assert(texts(parts@) =~= before.push(key@.subrange(start as int, n as int)));
        assert(key@.take(n as int) =~= key@);
    }
    parts
}

/// Splitting at a separator splits both sides on their own.
pub proof fn lemma_split_concat(a: Seq<char>, b: Seq<char>, sep: char)
    ensures
        split(a + seq![sep] + b, sep) == split(a, sep) + split(b, sep),
    decreases b.len(),
{
    let whole = a + seq![sep] + b;
    lemma_split_nonempty(b, sep);
    if b.len() == 0 {
        assert(whole.drop_last() =~= a);
        assert(split(a, sep).push(Seq::<char>::empty()) =~= split(a, sep) + split(b, sep));
    } else {
        assert(whole.drop_last() =~= a + seq![sep] + b.drop_last());
        lemma_split_concat(a, b.drop_last(), sep);
        lemma_split_nonempty(b.drop_last(), sep);
        let left = split(a, sep);
        let right = split(b.drop_last(), sep);
        assert((left + right).last() == right.last());
        if b.last() == sep {
            assert((left + right).push(Seq::<char>::empty()) =~= left + right.push(
                Seq::<char>::empty(),
            ));
        } else {
            assert((left + right).drop_last() =~= left + right.drop_last());
            assert((left + right.drop_last()).push(right.last().push(b.last())) =~= left
                + right.drop_last().push(right.last().push(b.last())));
        }
    }
}

/// A text without the separator is its own single segment.
pub proof fn lemma_split_plain(a: Seq<char>, sep: char)
    requires
        !a.contains(sep),
    ensures
        split(a, sep) == seq![a],
    decreases a.len(),
{
    if a.len() == 0 {
        assert(a =~= Seq::<char>::empty());
    } else {
        let shorter = a.drop_last();
        assert forall|i: int| 0 <= i < shorter.len() implies shorter[i] != sep by {
            assert(a.contains(a[i]));
        }
        lemma_split_plain(shorter, sep);
        assert(a.contains(a.last()));
        assert(shorter.push(a.last()) =~= a);
        assert(seq![shorter].drop_last().push(a) =~= seq![a]);
    }
}

/// No segment holds the separator.
pub proof fn lemma_split_segments_plain(s: Seq<char>, sep: char)
    ensures
        forall|i: int| 0 <= i < split(s, sep).len() ==> !(#[trigger] split(s, sep)[i]).contains(sep),
    decreases s.len(),
{
    if s.len() > 0 {
        lemma_split_segments_plain(s.drop_last(), sep);
        lemma_split_nonempty(s.drop_last(), sep);
        let before = split(s.drop_last(), sep);
        if s.last() != sep {
            let grown = before.last().push(s.last());
            assert forall|j: int| 0 <= j < grown.len() implies grown[j] != sep by {
                if j < before.last().len() {
                    assert(before.last().contains(before.last()[j]));
                }
            }
        }
    }
}

/// The decimal digit that stands for `d`.
pub open spec fn digit(d: nat) -> char {
    if d == 0 {
        '0'
    } else if d == 1 {
        '1'
    } else if d == 2 {
        '2'
    } else if d == 3 {
        '3'
    } else if d == 4 {
        '4'
    } else if d == 5 {
        '5'
    } else if d == 6 {
        '6'
    } else if d == 7 {
        '7'
    } else if d == 8 {
        '8'
    } else {
        '9'
    }
}

/// The decimal numeral of `n`, without sign or leading zeros.
pub open spec fn decimal(n: nat) -> Seq<char>
    decreases n,
{
    if n < 10 {
        seq![digit(n)]
    } else {
        decimal(n / 10).push(digit(n % 10))
    }
}

/// A numeral is not empty and holds no separator.
pub proof fn lemma_decimal_plain(n: nat)
    ensures
        decimal(n).len() >= 1,
        !decimal(n).contains(':'),
    decreases n,
{
    if n >= 10 {
        lemma_decimal_plain(n / 10);
        let front = decimal(n / 10);
        assert forall|i: int| 0 <= i < decimal(n).len() implies decimal(n)[i] != ':' by {
            if i < front.len() {
                assert(front.contains(front[i]));
            }
        }
    }
}

/// Different numbers have different numerals.
pub proof fn lemma_decimal_injective(a: nat, b: nat)
    requires
        decimal(a) == decimal(b),
    ensures
        a == b,
    decreases a,
{
    lemma_decimal_plain(a / 10);
    lemma_decimal_plain(b / 10);
    if a < 10 && b < 10 {
        assert(decimal(a)[0] == digit(a));
        assert(decimal(b)[0] == digit(b));
    } else if a >= 10 && b >= 10 {
        assert(decimal(a).drop_last() =~= decimal(a / 10));
        assert(decimal(b).drop_last() =~= decimal(b / 10));
        assert(decimal(a).last() == digit(a % 10));
        assert(decimal(b).last() == digit(b % 10));
        lemma_decimal_injective(a / 10, b / 10);
        assert(a % 10 == b % 10);
    } else {
        if a < 10 {
            assert(decimal(a).len() == 1);
            assert(decimal(b).len() == decimal(b / 10).len() + 1);
        } else {
            assert(decimal(b).len() == 1);
            assert(decimal(a).len() == decimal(a / 10).len() + 1);
        }
    }
}

fn digit_text(d: u64) -> (r: &'static str)
    requires
        d < 10,
    ensures
        r@ == seq![digit(d as nat)],
{
    proof {
        reveal_strlit("0");
        reveal_strlit("1");
        reveal_strlit("2");
        reveal_strlit("3");
        reveal_strlit("4");
        reveal_strlit("5");
        reveal_strlit("6");
        reveal_strlit("7");
        reveal_strlit("8");
        reveal_strlit("9");
    }
    let r = if d == 0 {
        "0"
    } else if d == 1 {
        "1"
    } else if d == 2 {
        "2"
    } else if d == 3 {
        "3"
    } else if d == 4 {
        "4"
    } else if d == 5 {
        "5"
    } else if d == 6 {
        "6"
    } else if d == 7 {
        "7"
    } else if d == 8 {
        "8"
    } else {
        "9"
    };
    assert(r@ =~= seq![digit(d as nat)]);
    r
}

/// Appends the decimal numeral of `n` to `text`.
pub fn push_decimal(text: String, n: u64) -> (out: String)
    ensures
        out@ == text@ + decimal(n as nat),
    decreases n,
{
    if n < 10 {
        let out = text.concat(digit_text(n));
        out
    } else {
        let front = push_decimal(text, n / 10);
        let out = front.concat(digit_text(n % 10));
        proof {
            assert(out@ =~= text@ + decimal(n as nat));
        }
        out
    }
}

/// The decimal numeral of `n` as a string.
pub fn decimal_string(n: u64) -> (out: String)
    ensures
        out@ == decimal(n as nat),
{
    let out = push_decimal(String::new(), n);
    proof {
        assert(out@ =~= decimal(n as nat));
    }
    out
}

/// `guild:<guild>`
pub open spec fn guild_key_spec(guild: u64) -> Seq<char> {
    GUILD_KEY@ + seq![':'] + decimal(guild as nat)
}

/// `channel:<guild>:<channel>`
pub open spec fn channel_key_spec(guild: u64, channel: u64) -> Seq<char> {
    CHANNEL_KEY@ + seq![':'] + decimal(guild as nat) + seq![':'] + decimal(channel as nat)
}

/// `channel:<channel>`
pub open spec fn private_channel_key_spec(channel: u64) -> Seq<char> {
    CHANNEL_KEY@ + seq![':'] + decimal(channel as nat)
}

/// `role:<guild>:<role>`
pub open spec fn role_key_spec(guild: u64, role: u64) -> Seq<char> {
    ROLE_KEY@ + seq![':'] + decimal(guild as nat) + seq![':'] + decimal(role as nat)
}

/// `member:<guild>:<user>`
pub open spec fn member_key_spec(guild: u64, user: u64) -> Seq<char> {
    MEMBER_KEY@ + seq![':'] + decimal(guild as nat) + seq![':'] + decimal(user as nat)
}

/// `<prefix>_keys`: the index set of all live keys whose first segment is
/// `prefix`.
pub open spec fn prefix_index_spec(prefix: Seq<char>) -> Seq<char> {
    prefix + KEYS_SUFFIX@
}

/// `guild_keys:<guild>`: the index set of the keys that belong to a guild.
pub open spec fn guild_index_spec(guild: Seq<char>) -> Seq<char> {
    GUILD_KEY@ + KEYS_SUFFIX@ + seq![':'] + guild
}

/// `channel_keys:<channel>`: the index set of the keys that belong to a
/// channel.
pub open spec fn channel_index_spec(channel: Seq<char>) -> Seq<char> {
    CHANNEL_KEY@ + KEYS_SUFFIX@ + seq![':'] + channel
}

/// The key under which a value written at `key` is stored: a channel key of
/// more than two segments loses its second one, every other key is kept.
pub open spec fn canonical(key: Seq<char>) -> Seq<char> {
    let parts = split(key, ':');
    if parts.len() > 2 && parts[0] == CHANNEL_KEY@ {
        parts[0] + seq![':'] + parts[2]
    } else {
        key
    }
}

/// The index set of the first segment, for a key of two segments or more.
pub open spec fn prefix_index(key: Seq<char>) -> Option<Seq<char>> {
    let parts = split(key, ':');
    if parts.len() > 1 {
        Some(prefix_index_spec(parts[0]))
    } else {
        None
    }
}

/// The index set of the owner, for a key of three segments or more: that of
/// the channel for a message, that of the guild for everything else.
pub open spec fn group_index(key: Seq<char>) -> Option<Seq<char>> {
    let parts = split(key, ':');
    if parts.len() > 2 {
        if parts[0] != MESSAGE_KEY@ {
            Some(guild_index_spec(parts[1]))
        } else {
            Some(channel_index_spec(parts[1]))
        }
    } else {
        None
    }
}

fn with_number(prefix: &str, n: u64) -> (out: String)
    ensures
        out@ == prefix@ + seq![':'] + decimal(n as nat),
{
    proof {
        reveal_strlit(":");
    }
    let head = String::from_str(prefix).concat(":");
    assert(head@ =~= prefix@ + seq![':']);
    push_decimal(head, n)
}

fn with_numbers(prefix: &str, a: u64, b: u64) -> (out: String)
    ensures
        out@ == prefix@ + seq![':'] + decimal(a as nat) + seq![':'] + decimal(b as nat),
{
    proof {
        reveal_strlit(":");
    }
    let head = with_number(prefix, a).concat(":");
    assert(head@ =~= prefix@ + seq![':'] + decimal(a as nat) + seq![':']);
    push_decimal(head, b)
}

pub fn guild_key(guild: u64) -> (key: String)
    ensures
        key@ == guild_key_spec(guild),
{
    with_number(GUILD_KEY, guild)
}

pub fn channel_key(guild: u64, channel: u64) -> (key: String)
    ensures
        key@ == channel_key_spec(guild, channel),
{
    with_numbers(CHANNEL_KEY, guild, channel)
}

pub fn private_channel_key(channel: u64) -> (key: String)
    ensures
        key@ == private_channel_key_spec(channel),
{
    with_number(CHANNEL_KEY, channel)
}

pub fn role_key(guild: u64, role: u64) -> (key: String)
    ensures
        key@ == role_key_spec(guild, role),
{
    with_numbers(ROLE_KEY, guild, role)
}

pub fn member_key(guild: u64, user: u64) -> (key: String)
    ensures
        key@ == member_key_spec(guild, user),
{
    with_numbers(MEMBER_KEY, guild, user)
}

/// The name of the index set that collects the keys of one guild.
pub fn guild_index(guild: u64) -> (name: String)
    ensures
        name@ == guild_index_spec(decimal(guild as nat)),
{
    proof {
        reveal_strlit(":");
    }
    let head = String::from_str(GUILD_KEY).concat(KEYS_SUFFIX).concat(":");
    assert(head@ =~= GUILD_KEY@ + KEYS_SUFFIX@ + seq![':']);
    push_decimal(head, guild)
}

/// Where a write or a delete of one key goes.
#[derive(Debug, PartialEq, Eq)]
pub struct KeyPlan {
    /// The key that holds the value.
    pub key: String,
    /// The index set of the key's first segment, if it has one.
    pub prefix_index: Option<String>,
    /// The index set of the key's owner, if it has one.
    pub group_index: Option<String>,
}

/// The text of an optional string.
pub open spec fn option_text(o: Option<String>) -> Option<Seq<char>> {
    match o {
        Some(s) => Some(s@),
        None => None,
    }
}

/// Applies the key rule that writes and deletes share: the canonical key and
/// the index sets that follow it.
pub fn plan_key(key: &str) -> (plan: KeyPlan)
    ensures
        plan.key@ == canonical(key@),
        option_text(plan.prefix_index) == prefix_index(key@),
        option_text(plan.group_index) == group_index(key@),
{
    proof {
        reveal_strlit(":");
    }
    let parts = get_keys(key);
    assert(forall|i: int| 0 <= i < parts.len() ==> parts[i]@ == #[trigger] texts(parts@)[i]);
    let channel = String::from_str(CHANNEL_KEY);
    let message = String::from_str(MESSAGE_KEY);
    let stored = if parts.len() > 2 && parts[0] == channel {
        let stored = parts[0].clone().concat(":").concat(parts[2].as_str());
        assert(stored@ =~= canonical(key@));
        stored
    } else {
        String::from_str(key)
    };
    let prefix_index = if parts.len() > 1 {
        Some(parts[0].clone().concat(KEYS_SUFFIX))
    } else {
        None
    };
    let group_index = if parts.len() > 2 {
        let head = if parts[0] != message {
            String::from_str(GUILD_KEY)
        } else {
            String::from_str(CHANNEL_KEY)
        };
        let name = head.concat(KEYS_SUFFIX).concat(":").concat(parts[1].as_str());
        assert(name@ =~= group_index(key@).unwrap());
        Some(name)
    } else {
        None
    };
    KeyPlan { key: stored, prefix_index, group_index }
}

/// The first segments of the keys hold no separator, and only messages
/// start with the message segment.
pub proof fn lemma_key_prefixes()
    ensures
        !GUILD_KEY@.contains(':'),
        !CHANNEL_KEY@.contains(':'),
        !ROLE_KEY@.contains(':'),
        !MEMBER_KEY@.contains(':'),
        !MESSAGE_KEY@.contains(':'),
        GUILD_KEY@ != CHANNEL_KEY@,
        ROLE_KEY@ != CHANNEL_KEY@,
        MEMBER_KEY@ != CHANNEL_KEY@,
        GUILD_KEY@ != MESSAGE_KEY@,
        CHANNEL_KEY@ != MESSAGE_KEY@,
        ROLE_KEY@ != MESSAGE_KEY@,
        MEMBER_KEY@ != MESSAGE_KEY@,
        GUILD_KEY@ != ROLE_KEY@,
        GUILD_KEY@ != MEMBER_KEY@,
        ROLE_KEY@ != MEMBER_KEY@,
{
    reveal_strlit("guild");
    reveal_strlit("channel");
    reveal_strlit("role");
    reveal_strlit("member");
    reveal_strlit("message");
    assert(GUILD_KEY@.len() == 5);
    assert(CHANNEL_KEY@.len() == 7);
    assert(ROLE_KEY@.len() == 4);
    assert(MEMBER_KEY@.len() == 6);
    assert(MESSAGE_KEY@.len() == 7);
    assert(CHANNEL_KEY@[0] == 'c');
    assert(MESSAGE_KEY@[0] == 'm');
}

/// Two texts without separator, joined by one, are two segments.
pub proof fn lemma_two_segments(a: Seq<char>, b: Seq<char>)
    requires
        !a.contains(':'),
        !b.contains(':'),
    ensures
        split(a + seq![':'] + b, ':') == seq![a, b],
{
    lemma_split_concat(a, b, ':');
    lemma_split_plain(a, ':');
    lemma_split_plain(b, ':');
    assert(seq![a] + seq![b] =~= seq![a, b]);
}

/// Three texts without separator, joined by two, are three segments.
pub proof fn lemma_three_segments(a: Seq<char>, b: Seq<char>, c: Seq<char>)
    requires
        !a.contains(':'),
        !b.contains(':'),
        !c.contains(':'),
    ensures
        split(a + seq![':'] + b + seq![':'] + c, ':') == seq![a, b, c],
{
    lemma_two_segments(a, b);
    lemma_split_concat(a + seq![':'] + b, c, ':');
    lemma_split_plain(c, ':');
    assert(seq![a, b] + seq![c] =~= seq![a, b, c]);
}

/// A guild key is stored as it is, in the index set of all guilds.
pub proof fn lemma_guild_key(guild: u64)
    ensures
        split(guild_key_spec(guild), ':') == seq![GUILD_KEY@, decimal(guild as nat)],
        canonical(guild_key_spec(guild)) == guild_key_spec(guild),
        prefix_index(guild_key_spec(guild)) == Some(prefix_index_spec(GUILD_KEY@)),
        group_index(guild_key_spec(guild)) is None,
{
    lemma_key_prefixes();
    lemma_decimal_plain(guild as nat);
    lemma_two_segments(GUILD_KEY@, decimal(guild as nat));
}

/// The key of a private channel is stored as it is, in the index set of all
/// channels.
pub proof fn lemma_private_channel_key(channel: u64)
    ensures
        split(private_channel_key_spec(channel), ':') == seq![CHANNEL_KEY@, decimal(channel as nat)],
        canonical(private_channel_key_spec(channel)) == private_channel_key_spec(channel),
        prefix_index(private_channel_key_spec(channel)) == Some(prefix_index_spec(CHANNEL_KEY@)),
        group_index(private_channel_key_spec(channel)) is None,
{
    lemma_key_prefixes();
    lemma_decimal_plain(channel as nat);
    lemma_two_segments(CHANNEL_KEY@, decimal(channel as nat));
}

/// The key of a guild's channel is stored without the guild, in the index
/// sets of all channels and of the guild.
pub proof fn lemma_channel_key(guild: u64, channel: u64)
    ensures
        split(channel_key_spec(guild, channel), ':') == seq![
            CHANNEL_KEY@,
            decimal(guild as nat),
            decimal(channel as nat),
        ],
        canonical(channel_key_spec(guild, channel)) == private_channel_key_spec(channel),
        prefix_index(channel_key_spec(guild, channel)) == Some(prefix_index_spec(CHANNEL_KEY@)),
        group_index(channel_key_spec(guild, channel)) == Some(
            guild_index_spec(decimal(guild as nat)),
        ),
{
    lemma_key_prefixes();
    lemma_decimal_plain(guild as nat);
    lemma_decimal_plain(channel as nat);
    lemma_three_segments(CHANNEL_KEY@, decimal(guild as nat), decimal(channel as nat));
}

/// A role key is stored as it is, in the index sets of all roles and of the
/// guild.
pub proof fn lemma_role_key(guild: u64, role: u64)
    ensures
        split(role_key_spec(guild, role), ':') == seq![
            ROLE_KEY@,
            decimal(guild as nat),
            decimal(role as nat),
        ],
        canonical(role_key_spec(guild, role)) == role_key_spec(guild, role),
        prefix_index(role_key_spec(guild, role)) == Some(prefix_index_spec(ROLE_KEY@)),
        group_index(role_key_spec(guild, role)) == Some(guild_index_spec(decimal(guild as nat))),
{
    lemma_key_prefixes();
    lemma_decimal_plain(guild as nat);
    lemma_decimal_plain(role as nat);
    lemma_three_segments(ROLE_KEY@, decimal(guild as nat), decimal(role as nat));
}

/// A member key is stored as it is, in the index sets of all members and of
/// the guild.
pub proof fn lemma_member_key(guild: u64, user: u64)
    ensures
        split(member_key_spec(guild, user), ':') == seq![
            MEMBER_KEY@,
            decimal(guild as nat),
            decimal(user as nat),
        ],
        canonical(member_key_spec(guild, user)) == member_key_spec(guild, user),
        prefix_index(member_key_spec(guild, user)) == Some(prefix_index_spec(MEMBER_KEY@)),
        group_index(member_key_spec(guild, user)) == Some(guild_index_spec(decimal(guild as nat))),
{
    lemma_key_prefixes();
    lemma_decimal_plain(guild as nat);
    lemma_decimal_plain(user as nat);
    lemma_three_segments(MEMBER_KEY@, decimal(guild as nat), decimal(user as nat));
}

/// A key of one segment is stored as it is and listed nowhere.
pub proof fn lemma_plain_key(key: Seq<char>)
    requires
        !key.contains(':'),
    ensures
        canonical(key) == key,
        prefix_index(key) is None,
        group_index(key) is None,
{
    lemma_split_plain(key, ':');
}

/// The suffix of the index sets holds no separator.
pub proof fn lemma_suffix_plain()
    ensures
        !KEYS_SUFFIX@.contains(':'),
        KEYS_SUFFIX@.len() == 5,
{
    reveal_strlit("_keys");
}

/// A canonical key stays as it is when it is made canonical again, and it is
/// listed under the same first segment as the key it comes from. A key that
/// was shortened has two segments and no owner.
pub proof fn lemma_canonical(key: Seq<char>)
    ensures
        canonical(canonical(key)) == canonical(key),
        prefix_index(canonical(key)) == prefix_index(key),
        canonical(key) != key ==> group_index(canonical(key)) is None,
{
    let parts = split(key, ':');
    lemma_split_segments_plain(key, ':');
    if parts.len() > 2 && parts[0] == CHANNEL_KEY@ {
        assert(!parts[0].contains(':'));
        assert(!parts[2].contains(':'));
        lemma_two_segments(parts[0], parts[2]);
    }
}

/// The name of an owner's index set holds a separator; the name of a first
/// segment's index set holds none.
pub proof fn lemma_index_names(key: Seq<char>)
    ensures
        group_index(key) matches Some(name) ==> name.contains(':'),
        prefix_index(key) matches Some(name) ==> !name.contains(':'),
{
    let parts = split(key, ':');
    lemma_split_segments_plain(key, ':');
    lemma_suffix_plain();
    if parts.len() > 2 {
        let name = group_index(key).unwrap();
        let head = if parts[0] != MESSAGE_KEY@ {
            GUILD_KEY@
        } else {
            CHANNEL_KEY@
        };
        assert(name[(head.len() + KEYS_SUFFIX@.len()) as int] == ':');
    }
    if parts.len() > 1 {
        let name = prefix_index(key).unwrap();
        assert(!parts[0].contains(':'));
        assert forall|i: int| 0 <= i < name.len() implies name[i] != ':' by {
            if i < parts[0].len() {
                assert(parts[0].contains(parts[0][i]));
            } else {
                assert(KEYS_SUFFIX@.contains(KEYS_SUFFIX@[i - parts[0].len() as int]));
            }
        }
    }
}

/// Two first segments with the same index set are the same.
pub proof fn lemma_prefix_index_injective(a: Seq<char>, b: Seq<char>)
    requires
        prefix_index_spec(a) == prefix_index_spec(b),
    ensures
        a == b,
{
    let left = prefix_index_spec(a);
    let right = prefix_index_spec(b);
    assert(left.len() == right.len());
    assert(a.len() == b.len());
    assert forall|i: int| 0 <= i < a.len() implies a[i] == b[i] by {
        assert(left[i] == a[i]);
        assert(right[i] == b[i]);
    }
    assert(a =~= b);
}

/// Whether two texts are the same.
pub fn same_text(a: &str, b: &str) -> (same: bool)
    ensures
        same == (a@ == b@),
{
    String::from_str(a) == String::from_str(b)
}

/// The number that a decimal digit stands for.
pub open spec fn digit_value(c: char) -> Option<nat> {
    if c == '0' {
        Some(0)
    } else if c == '1' {
        Some(1)
    } else if c == '2' {
        Some(2)
    } else if c == '3' {
        Some(3)
    } else if c == '4' {
        Some(4)
    } else if c == '5' {
        Some(5)
    } else if c == '6' {
        Some(6)
    } else if c == '7' {
        Some(7)
    } else if c == '8' {
        Some(8)
    } else if c == '9' {
        Some(9)
    } else {
        None
    }
}

/// The number that a text of decimal digits stands for; leading zeros
/// count for nothing. A text with anything but digits stands for none, and
/// so does the empty text.
pub open spec fn numeral_value(text: Seq<char>) -> Option<nat>
    decreases text.len(),
{
    if text.len() == 0 {
        None
    } else if text.len() == 1 {
        digit_value(text[0])
    } else {
        match (numeral_value(text.drop_last()), digit_value(text.last())) {
            (Some(front), Some(last)) => Some(front * 10 + last),
            _ => None,
        }
    }
}

/// A numeral stands for its number.
pub proof fn lemma_numeral_value(n: nat)
    ensures
        numeral_value(decimal(n)) == Some(n),
    decreases n,
{
    if n >= 10 {
        lemma_numeral_value(n / 10);
        lemma_decimal_plain(n / 10);
        assert(decimal(n).drop_last() =~= decimal(n / 10));
        assert(decimal(n).last() == digit(n % 10));
    } else {
        assert(decimal(n)[0] == digit(n));
    }
}

fn digit_of(c: char) -> (value: Option<u64>)
    ensures
        match value {
            Some(v) => digit_value(c) == Some(v as nat),
            None => digit_value(c) is None,
        },
{
    if c == '0' {
        Some(0)
    } else if c == '1' {
        Some(1)
    } else if c == '2' {
        Some(2)
    } else if c == '3' {
        Some(3)
    } else if c == '4' {
        Some(4)
    } else if c == '5' {
        Some(5)
    } else if c == '6' {
        Some(6)
    } else if c == '7' {
        Some(7)
    } else if c == '8' {
        Some(8)
    } else if c == '9' {
        Some(9)
    } else {
        None
    }
}

/// A text of digits never stands for less than a shorter start of it.
proof fn lemma_numeral_grows(text: Seq<char>, n: int)
    requires
        1 <= n <= text.len(),
        numeral_value(text.take(n)) is Some,
        numeral_value(text) is Some,
    ensures
        numeral_value(text.take(n)).unwrap() <= numeral_value(text).unwrap(),
    decreases text.len() - n,
{
    if n < text.len() {
        assert(text.take(n + 1).drop_last() =~= text.take(n));
        lemma_numeral_digits(text, n + 1);
        lemma_numeral_grows(text, n + 1);
    } else {
        assert(text.take(n) =~= text);
    }
}

/// Every start of a text of digits is a text of digits.
proof fn lemma_numeral_digits(text: Seq<char>, n: int)
    requires
        1 <= n <= text.len(),
        numeral_value(text) is Some,
    ensures
        numeral_value(text.take(n)) is Some,
    decreases text.len() - n,
{
    if n < text.len() {
        lemma_numeral_digits(text, n + 1);
        assert(text.take(n + 1).drop_last() =~= text.take(n));
    } else {
        assert(text.take(n) =~= text);
    }
}

/// Reads a number from a text of decimal digits.
pub fn parse_decimal(text: &str) -> (value: Option<u64>)
    ensures
        match value {
            Some(v) => numeral_value(text@) == Some(v as nat),
            None => match numeral_value(text@) {
                Some(v) => v > u64::MAX,
                None => true,
            },
        },
{
    let n = text.unicode_len();
    if n == 0 {
        return None;
    }
    let mut value: u64 = match digit_of(text.get_char(0)) {
        Some(v) => v,
        None => {
            proof {
                lemma_not_numeral(text@, 0);
            }
            return None;
        },
    };
    proof {
        assert(text@.take(1).len() == 1);
    }
    let mut i: usize = 1;
    while i < n
        invariant
            1 <= i <= n,
            n == text@.len(),
            numeral_value(text@.take(i as int)) == Some(value as nat),
        decreases n - i,
    {
        proof {
            assert(text@.take(i + 1).drop_last() =~= text@.take(i as int));
            assert(text@.take(i + 1).last() == text@[i as int]);
        }
        let d = match digit_of(text.get_char(i)) {
            Some(d) => d,
            None => {
                proof {
                    lemma_not_numeral(text@, i as int);
                }
                return None;
            },
        };
        let next = match value.checked_mul(10) {
            Some(tens) => tens.checked_add(d),
            None => None,
        };
        match next {
            Some(v) => {
                value = v;
            },
            None => {
                proof {
                    if numeral_value(text@) is Some {
                        lemma_numeral_digits(text@, i + 1);
                        lemma_numeral_grows(text@, i + 1);
                    }
                }
                return None;
            },
        }
        i = i + 1;
    }
    proof {
        assert(text@.take(n as int) =~= text@);
    }
    Some(value)
}

/// A text with a character that is no digit stands for no number.
proof fn lemma_not_numeral(text: Seq<char>, i: int)
    requires
        0 <= i < text.len(),
        digit_value(text[i]) is None,
    ensures
        numeral_value(text) is None,
    decreases text.len(),
{
    if text.len() > 1 {
        if i < text.len() - 1 {
            lemma_not_numeral(text.drop_last(), i);
        }
    }
}

} // verus!
