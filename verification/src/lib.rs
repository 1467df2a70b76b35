//! The decisions of a sharded gateway proxy.
//!
//! The proxy keeps a number of shard connections to a chat gateway, passes
//! their events on to a message broker, routes commands from the broker back
//! to the shards, and mirrors the state it sees into a cache that other
//! services read. This crate holds what the proxy decides, verified with
//! Verus; connecting, sending and waiting are left to the program around it.
//!
//! * [`keys`]: cache keys, their segments and canonical form, and the index
//!   sets that a key belongs to.
//! * [`store`], [`table`], [`links`]: the cache as a value (values, index sets
//!   and expiry times) and an executable form of it in memory.
//! * [`cache`]: batched writes and deletes that keep the index sets in step,
//!   times to live, and the scan that removes what has expired.
//! * [`projection`]: what each gateway event does to the cache, as batches
//!   that any cache can carry out.
//! * [`laws`]: what holds of the cache whatever events arrive.
//! * [`queue`]: the pacing of shard admissions, with one bucket or several.
//! * [`utils`]: the split of the owned shards into clusters, the sessions to
//!   resume, and the event kinds to subscribe to.
//! * [`handler`]: what follows from an event of a shard, and where a command
//!   from the broker goes.
//! * [`status`], [`metrics`]: the status and session tables, the gauges, and
//!   the answers of the metrics endpoint.
//! * [`timestamp`]: points in time, rendered and read back by the `time`
//!   crate.
//! * [`models`], [`events`], [`config`], [`constants`]: the data.
//!
//! Where the design leaves a choice, the crate takes these: private channels
//! are cached; a cached member holds guild, nick, roles and user id, and an
//! update of a member changes nick, roles and user id; expiry is kept in a
//! table of its own that a scan sweeps; users other than the bot have no key
//! of their own; and a new guild asks for its members.

pub mod cache;
pub mod config;
pub mod constants;
pub mod events;
pub mod handler;
pub mod keys;
pub mod laws;
pub mod links;
pub mod metrics;
pub mod models;
pub mod projection;
pub mod queue;
pub mod status;
pub mod store;
pub mod table;
pub mod timestamp;
pub mod utils;
