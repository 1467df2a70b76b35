//! What the proxy does with an event of a shard, and with a command from the
//! broker.

use vstd::prelude::*;
use crate::constants::{CONNECT_COLOR, DISCONNECT_COLOR, EXCHANGE, READY_COLOR, RESUME_COLOR};
use crate::events::Event;
use crate::keys::{decimal, decimal_string, push_decimal};
use crate::models::{DeliveryInfo, DeliveryOpcode, PayloadInfo};
use crate::utils::ShardRange;

verus! {

/// A lifecycle announcement for the log channel.
#[derive(Debug, PartialEq, Eq)]
pub struct Announcement {
    pub color: usize,
    pub message: String,
}

/// What follows from one event of a shard, besides the update of the cache.
#[derive(Debug, PartialEq, Eq)]
pub struct Outgoing {
    /// The line for the log.
    pub log: Option<String>,
    /// The announcement for the log channel.
    pub announcement: Option<Announcement>,
    /// The label under which the event is counted as a shard event.
    pub shard_event: Option<String>,
    /// The guild whose members are to be requested, and the shard to ask.
    pub member_request: Option<(u64, u64)>,
    /// Whether the event is a raw payload, to be decoded and published.
    pub raw: bool,
}

/// What an `Outgoing` holds.
pub struct OutgoingView {
    pub log: Option<Seq<char>>,
    pub announcement: Option<(usize, Seq<char>)>,
    pub shard_event: Option<Seq<char>>,
    pub member_request: Option<(u64, u64)>,
    pub raw: bool,
}

impl DeepView for Outgoing {
    type V = OutgoingView;

    open spec fn deep_view(&self) -> OutgoingView {
        OutgoingView {
            log: self.log.deep_view(),
            announcement: match self.announcement {
                Some(a) => Some((a.color, a.message@)),
                None => None,
            },
            shard_event: self.shard_event.deep_view(),
            member_request: self.member_request,
            raw: self.raw,
        }
    }
}

/// `[Shard <shard>] <tail>`
pub open spec fn line(shard: u64, tail: Seq<char>) -> Seq<char> {
    "[Shard "@ + decimal(shard as nat) + "] "@ + tail
}

/// `<name> (<label>: <value>)`
pub open spec fn with_detail(name: Seq<char>, label: Seq<char>, value: Seq<char>) -> Seq<char> {
    name + " ("@ + label + ": "@ + value + ")"@
}

/// `true` or `false`
pub open spec fn flag_text(flag: bool) -> Seq<char> {
    if flag {
        "true"@
    } else {
        "false"@
    }
}

/// Nothing follows.
pub open spec fn silent() -> OutgoingView {
    OutgoingView { log: None, announcement: None, shard_event: None, member_request: None, raw: false }
}

/// A logged and counted lifecycle event, announced where `color` is given.
pub open spec fn lifecycle(shard: u64, name: Seq<char>, log_tail: Seq<char>, color: Option<usize>) -> OutgoingView {
    OutgoingView {
        log: Some(line(shard, log_tail)),
        announcement: match color {
            Some(c) => Some((c, line(shard, name))),
            None => None,
        },
        shard_event: Some(name),
        member_request: None,
        raw: false,
    }
}

/// The tail of the log line of a disconnect.
pub open spec fn disconnect_tail(code: Option<u16>, reason: Option<String>) -> Seq<char> {
    match code {
        Some(c) => match reason {
            Some(r) => if r@.len() > 0 {
                "Disconnected"@ + " ("@ + "code"@ + ": "@ + decimal(c as nat) + ", reason: "@ + r@
                    + ")"@
            } else {
                with_detail("Disconnected"@, "code"@, decimal(c as nat))
            },
            None => with_detail("Disconnected"@, "code"@, decimal(c as nat)),
        },
        None => "Disconnected"@,
    }
}

/// What follows from the event `event` of the shard `shard`. `session` is
/// the shard's session as far as it is known; only a resume names it.
pub open spec fn outgoing_spec(shard: u64, event: Event, session: Option<String>) -> OutgoingView {
    match event {
        Event::GatewayHello(interval) => OutgoingView {
            log: Some(
                line(shard, with_detail("Hello"@, "heartbeat interval"@, decimal(interval as nat))),
            ),
            ..silent()
        },
        Event::GatewayInvalidateSession(resumable) => OutgoingView {
            log: Some(line(shard, with_detail("Invalid Session"@, "resumable"@, flag_text(resumable)))),
            ..silent()
        },
        Event::GuildCreate(guild) => OutgoingView {
            member_request: Some((guild.id, shard)),
            ..silent()
        },
        Event::Ready { guilds, session_id, user } => lifecycle(
            shard,
            "Ready"@,
            with_detail("Ready"@, "session"@, session_id@),
            Some(READY_COLOR),
        ),
        Event::Resumed => lifecycle(
            shard,
            "Resumed"@,
            match session {
                Some(id) => with_detail("Resumed"@, "session"@, id@),
                None => "Resumed"@,
            },
            Some(RESUME_COLOR),
        ),
        Event::ShardConnected => lifecycle(shard, "Connected"@, "Connected"@, Some(CONNECT_COLOR)),
        Event::ShardConnecting { gateway } => lifecycle(
            shard,
            "Connecting"@,
            with_detail("Connecting"@, "url"@, gateway@),
            None,
        ),
        Event::ShardDisconnected { code, reason } => lifecycle(
            shard,
            "Disconnected"@,
            disconnect_tail(code, reason),
            Some(DISCONNECT_COLOR),
        ),
        Event::ShardIdentifying => lifecycle(shard, "Identifying"@, "Identifying"@, None),
        Event::ShardReconnecting => lifecycle(shard, "Reconnecting"@, "Reconnecting"@, None),
        Event::ShardResuming { seq } => lifecycle(
            shard,
            "Resuming"@,
            with_detail("Resuming"@, "sequence"@, decimal(seq as nat)),
            None,
        ),
        Event::ShardPayload { bytes } => OutgoingView { raw: true, ..silent() },
        _ => silent(),
    }
}

fn shard_line(shard: u64, tail: &str) -> (text: String)
    ensures
        text@ == line(shard, tail@),
{
    let text = push_decimal(String::from_str("[Shard "), shard).concat("] ").concat(tail);
    proof {
        assert(text@ =~= line(shard, tail@));
    }
    text
}

fn detail(name: &str, label: &str, value: &str) -> (text: String)
    ensures
        text@ == with_detail(name@, label@, value@),
{
    let text = String::from_str(name).concat(" (").concat(label).concat(": ").concat(value).concat(
        ")",
    );
    proof {
        assert(text@ =~= with_detail(name@, label@, value@));
    }
    text
}

fn quiet() -> (out: Outgoing)
    ensures
        out.deep_view() == silent(),
{
    Outgoing { log: None, announcement: None, shard_event: None, member_request: None, raw: false }
}

fn lifecycle_of(shard: u64, name: &str, log_tail: &str, color: Option<usize>) -> (out: Outgoing)
    ensures
        out.deep_view() == lifecycle(shard, name@, log_tail@, color),
{
    let announcement = match color {
        Some(c) => Some(Announcement { color: c, message: shard_line(shard, name) }),
        None => None,
    };
    Outgoing {
        log: Some(shard_line(shard, log_tail)),
        announcement,
        shard_event: Some(String::from_str(name)),
        member_request: None,
        raw: false,
    }
}

fn disconnect_text(code: &Option<u16>, reason: &Option<String>) -> (text: String)
    ensures
        text@ == disconnect_tail(*code, *reason),
{
    match code {
        Some(c) => {
            let number = decimal_string(*c as u64);
            let plain = match reason {
                Some(r) => r.as_str().unicode_len() == 0,
                None => true,
            };
            if plain {
                detail("Disconnected", "code", number.as_str())
            } else {
                let r = match reason {
                    Some(r) => r.as_str(),
                    None => "",
                };
                let text = String::from_str("Disconnected").concat(" (").concat("code").concat(
                    ": ",
                ).concat(number.as_str()).concat(", reason: ").concat(r).concat(")");
                proof {
                    assert(text@ =~= disconnect_tail(*code, *reason));
                }
                text
            }
        },
        None => String::from_str("Disconnected"),
    }
}

/// Decides what follows from one event of a shard, besides the update of the
/// cache: the line for the log, the announcement, the counter, the member
/// request, and whether a raw payload is to be published.
pub fn outgoing(shard: u64, event: &Event, session: &Option<String>) -> (out: Outgoing)
    ensures
        out.deep_view() == outgoing_spec(shard, *event, *session),
{
    match event {
        Event::GatewayHello(interval) => {
            let number = decimal_string(*interval);
            let tail = detail("Hello", "heartbeat interval", number.as_str());
            Outgoing {
                log: Some(shard_line(shard, tail.as_str())),
                announcement: None,
                shard_event: None,
                member_request: None,
                raw: false,
            }
        },
        Event::GatewayInvalidateSession(resumable) => {
            let flag = if *resumable {
                "true"
            } else {
                "false"
            };
            let tail = detail("Invalid Session", "resumable", flag);
            Outgoing {
                log: Some(shard_line(shard, tail.as_str())),
                announcement: None,
                shard_event: None,
                member_request: None,
                raw: false,
            }
        },
        Event::GuildCreate(guild) => Outgoing {
            log: None,
            announcement: None,
            shard_event: None,
            member_request: Some((guild.id, shard)),
            raw: false,
        },
        Event::Ready { guilds, session_id, user } => {
            let tail = detail("Ready", "session", session_id.as_str());
            lifecycle_of(shard, "Ready", tail.as_str(), Some(READY_COLOR))
        },
        Event::Resumed => {
            let tail = match session {
                Some(id) => detail("Resumed", "session", id.as_str()),
                None => String::from_str("Resumed"),
            };
            lifecycle_of(shard, "Resumed", tail.as_str(), Some(RESUME_COLOR))
        },
        Event::ShardConnected => lifecycle_of(shard, "Connected", "Connected", Some(CONNECT_COLOR)),
        Event::ShardConnecting { gateway } => {
            let tail = detail("Connecting", "url", gateway.as_str());
            lifecycle_of(shard, "Connecting", tail.as_str(), None)
        },
        Event::ShardDisconnected { code, reason } => {
            let tail = disconnect_text(code, reason);
            lifecycle_of(shard, "Disconnected", tail.as_str(), Some(DISCONNECT_COLOR))
        },
        Event::ShardIdentifying => lifecycle_of(shard, "Identifying", "Identifying", None),
        Event::ShardReconnecting => lifecycle_of(shard, "Reconnecting", "Reconnecting", None),
        Event::ShardResuming { seq } => {
            let number = decimal_string(*seq);
            let tail = detail("Resuming", "sequence", number.as_str());
            lifecycle_of(shard, "Resuming", tail.as_str(), None)
        },
        Event::ShardPayload { bytes } => Outgoing {
            log: None,
            announcement: None,
            shard_event: None,
            member_request: None,
            raw: true,
        },
        _ => quiet(),
    }
}

/// The kind of embed that an announcement is posted as.
pub const EMBED_KIND: &'static str = "rich";

/// An announcement as it is posted to the log channel: an embed with a
/// colour, a title and the time of posting, and nothing else.
#[derive(Debug, PartialEq, Eq)]
pub struct Embed {
    pub color: u32,
    pub kind: String,
    pub timestamp: String,
    pub title: String,
}

/// Builds the embed of an announcement. `timestamp` is the time of posting
/// as the channel wants it written; of the colour the low 32 bits count.
pub fn log_discord(color: usize, message: String, timestamp: String) -> (embed: Embed)
    ensures
        embed.color == (color as int) % 0x1_0000_0000,
        embed.kind@ == EMBED_KIND@,
        embed.timestamp == timestamp,
        embed.title == message,
{
    let low: u64 = (color as u64) % 0x1_0000_0000;
    Embed { color: low as u32, kind: String::from_str(EMBED_KIND), timestamp, title: message }
}

/// A payload on its way to the broker.
#[derive(Debug, PartialEq, Eq)]
pub struct Publication {
    /// The exchange to publish to.
    pub exchange: String,
    /// The routing key: the name of the event.
    pub routing_key: String,
    /// The label of the shard under which the event is counted.
    pub shard_label: String,
    /// The payload to encode as the message body.
    pub payload: PayloadInfo,
}

/// Decides whether a decoded payload of the shard `shard` is published: one
/// that names its event goes to the exchange under that name, and is counted
/// under the name and the shard; one that names none is dropped.
pub fn publish(shard: u64, payload: PayloadInfo) -> (publication: Option<Publication>)
    ensures
        match publication {
            Some(p) => {
                &&& payload.t matches Some(kind)
                &&& p.exchange@ == EXCHANGE@
                &&& p.routing_key@ == kind@
                &&& p.shard_label@ == decimal(shard as nat)
                &&& p.payload == payload
            },
            None => payload.t is None,
        },
{
    let routing_key = match &payload.t {
        Some(kind) => Some(kind.clone()),
        None => None,
    };
    match routing_key {
        Some(key) => Some(
            Publication {
                exchange: String::from_str(EXCHANGE),
                routing_key: key,
                shard_label: decimal_string(shard),
                payload,
            },
        ),
        None => None,
    }
}

/// What is done with a command from the broker.
#[derive(Debug, PartialEq, Eq)]
pub enum Dispatch {
    /// The cluster `cluster` sends `data` to the gateway through `shard`.
    Send { cluster: usize, shard: u64, data: String },
    /// The cluster `cluster` shuts `shard` down, so that it reconnects.
    Reconnect { cluster: usize, shard: u64 },
    /// No cluster owns `shard`: the command is dropped with a warning.
    Drop { shard: u64 },
}

/// The first cluster that owns `shard`.
pub fn find_owner(ranges: &Vec<ShardRange>, shard: u64) -> (found: Option<usize>)
    ensures
        match found {
            Some(i) => i < ranges.len() && ranges[i as int].holds(shard) && forall|j: int|
                0 <= j < i ==> !(#[trigger] ranges[j]).holds(shard),
            None => forall|j: int| 0 <= j < ranges.len() ==> !(#[trigger] ranges[j]).holds(shard),
        },
{
    let mut i: usize = 0;
    while i < ranges.len()
        invariant
            i <= ranges.len(),
            forall|j: int| 0 <= j < i ==> !(#[trigger] ranges[j]).holds(shard),
        decreases ranges.len() - i,
    {
        if ranges[i].contains(shard) {
            return Some(i);
        }
        i = i + 1;
    }
    None
}

/// The data that a command without data sends: the empty JSON value.
pub const NO_DATA: &'static str = "null";

/// Routes a command from the broker: to the first cluster that owns its
/// shard, where it is sent on or turned into a shutdown; a command for a
/// shard that no cluster owns is dropped.
pub fn incoming(delivery: DeliveryInfo, ranges: &Vec<ShardRange>) -> (dispatch: Dispatch)
    ensures
        match dispatch {
            Dispatch::Send { cluster, shard, data } => {
                &&& delivery.op == DeliveryOpcode::Send
                &&& shard == delivery.shard
                &&& cluster < ranges.len() && ranges[cluster as int].holds(shard)
                &&& forall|j: int| 0 <= j < cluster ==> !(#[trigger] ranges[j]).holds(shard)
                &&& data@ == (match delivery.data {
                    Some(d) => d@,
                    None => NO_DATA@,
                })
            },
            Dispatch::Reconnect { cluster, shard } => {
                &&& delivery.op == DeliveryOpcode::Reconnect
                &&& shard == delivery.shard
                &&& cluster < ranges.len() && ranges[cluster as int].holds(shard)
                &&& forall|j: int| 0 <= j < cluster ==> !(#[trigger] ranges[j]).holds(shard)
            },
            Dispatch::Drop { shard } => {
                &&& shard == delivery.shard
                &&& forall|j: int| 0 <= j < ranges.len() ==> !(#[trigger] ranges[j]).holds(shard)
            },
        },
{
    match find_owner(ranges, delivery.shard) {
        Some(cluster) => match delivery.op {
            DeliveryOpcode::Send => {
                let data = match delivery.data {
                    Some(d) => d,
                    None => String::from_str(NO_DATA),
                };
                Dispatch::Send { cluster, shard: delivery.shard, data }
            },
            DeliveryOpcode::Reconnect => Dispatch::Reconnect { cluster, shard: delivery.shard },
        },
        None => Dispatch::Drop { shard: delivery.shard },
    }
}

} // verus!
