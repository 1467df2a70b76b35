//! What the metrics endpoint answers, and what one sample of the shards
//! reports.

use vstd::prelude::*;
use crate::keys::{decimal, decimal_string, same_text};
use crate::models::{ShardInfo, Stage};

verus! {

/// The method that the endpoint answers.
pub const METHOD_GET: &'static str = "GET";

/// The path of the metrics.
pub const METRICS_PATH: &'static str = "/metrics";

/// The path of the health check.
pub const HEALTHCHECK_PATH: &'static str = "/healthcheck";

/// The body of the health check.
pub const HEALTHCHECK_BODY: &'static str = "{\"status\":\"OK\"}";

/// The content type of the health check.
pub const JSON_CONTENT_TYPE: &'static str = "application/json";

/// What the endpoint answers to one request.
#[derive(Clone, Copy, Debug, PartialEq, Eq)]
pub enum Reply {
    /// Status 200 with the metrics in text exposition.
    Metrics,
    /// Status 200 with `HEALTHCHECK_BODY` as `JSON_CONTENT_TYPE`.
    Healthcheck,
    /// Status 404 without body.
    NotFound,
}

impl Reply {
    /// The status code of the answer.
    pub fn status(&self) -> (code: u16)
        ensures
            code == (if *self is NotFound {
                404int
            } else {
                200int
            }),
    {
        match self {
            Reply::NotFound => 404,
            _ => 200,
        }
    }
}

/// The answer to a request with the method `method` for the path `path`.
pub open spec fn served(method: Seq<char>, path: Seq<char>) -> Reply {
    if method == METHOD_GET@ && path == METRICS_PATH@ {
        Reply::Metrics
    } else if method == METHOD_GET@ && path == HEALTHCHECK_PATH@ {
        Reply::Healthcheck
    } else {
        Reply::NotFound
    }
}

/// Decides the answer to one request: the metrics and the health check are
/// answered to `GET`, everything else is not found.
pub fn serve(method: &str, path: &str) -> (reply: Reply)
    ensures
        reply == served(method@, path@),
{
    let get = same_text(method, METHOD_GET);
    if get && same_text(path, METRICS_PATH) {
        Reply::Metrics
    } else if get && same_text(path, HEALTHCHECK_PATH) {
        Reply::Healthcheck
    } else {
        Reply::NotFound
    }
}

/// The number of shards among `shards` that are in the stage `stage`.
pub open spec fn count_stage(shards: Seq<ShardInfo>, stage: Stage) -> nat
    decreases shards.len(),
{
    if shards.len() == 0 {
        0
    } else {
        count_stage(shards.drop_last(), stage) + (if shards.last().stage == stage {
            1nat
        } else {
            0nat
        })
    }
}

/// The gauges of one sample of the shards.
#[derive(Debug, PartialEq, Eq)]
pub struct Sample {
    /// The number of shards.
    pub shards: u64,
    pub connected: u64,
    pub disconnected: u64,
    pub handshaking: u64,
    pub identifying: u64,
    pub resuming: u64,
    /// The label and the latest latency of each shard, in milliseconds; a
    /// shard without latency reports zero.
    pub latencies: Vec<(String, u64)>,
}

/// The latency that a shard reports.
pub open spec fn reported_latency(shard: ShardInfo) -> u64 {
    match shard.latency {
        Some(latency) => latency,
        None => 0,
    }
}

/// Takes one sample of the shards: how many there are, how many are in each
/// stage, and the latest latency of each.
pub fn run_jobs(shards: &Vec<ShardInfo>) -> (sample: Sample)
    ensures
        sample.shards == shards.len(),
        sample.connected == count_stage(shards@, Stage::Connected),
        sample.disconnected == count_stage(shards@, Stage::Disconnected),
        sample.handshaking == count_stage(shards@, Stage::Handshaking),
        sample.identifying == count_stage(shards@, Stage::Identifying),
        sample.resuming == count_stage(shards@, Stage::Resuming),
        sample.latencies.len() == shards.len(),
        forall|i: int|
            0 <= i < shards.len() ==> (#[trigger] sample.latencies[i]).0@ == decimal(
                shards[i].id as nat,
            ) && sample.latencies[i].1 == reported_latency(shards[i]),
{
    let mut sample = Sample {
        shards: shards.len() as u64,
        connected: 0,
        disconnected: 0,
        handshaking: 0,
        identifying: 0,
        resuming: 0,
        latencies: Vec::new(),
    };
    let mut i: usize = 0;
    while i < shards.len()
        invariant
            i <= shards.len(),
            sample.shards == shards.len(),
            sample.connected == count_stage(shards@.take(i as int), Stage::Connected),
            sample.disconnected == count_stage(shards@.take(i as int), Stage::Disconnected),
            sample.handshaking == count_stage(shards@.take(i as int), Stage::Handshaking),
            sample.identifying == count_stage(shards@.take(i as int), Stage::Identifying),
            sample.resuming == count_stage(shards@.take(i as int), Stage::Resuming),
            sample.connected + sample.disconnected + sample.handshaking + sample.identifying
                + sample.resuming == i,
            sample.latencies.len() == i,
            forall|j: int|
                0 <= j < i ==> (#[trigger] sample.latencies[j]).0@ == decimal(shards[j].id as nat)
                    && sample.latencies[j].1 == reported_latency(shards[j]),
        decreases shards.len() - i,
    {
        proof {
            assert(shards@.take(i + 1).drop_last() =~= shards@.take(i as int));
            assert(shards@.take(i + 1).last() == shards@[i as int]);
        }
        let latency = match shards[i].latency {
            Some(latency) => latency,
            None => 0,
        };
        sample.latencies.push((decimal_string(shards[i].id), latency));
        match shards[i].stage {
            Stage::Connected => {
                sample.connected = sample.connected + 1;
            },
            Stage::Disconnected => {
                sample.disconnected = sample.disconnected + 1;
            },
            Stage::Handshaking => {
                sample.handshaking = sample.handshaking + 1;
            },
            Stage::Identifying => {
                sample.identifying = sample.identifying + 1;
            },
            Stage::Resuming => {
                sample.resuming = sample.resuming + 1;
            },
        }
        i = i + 1;
    }
    proof {
        assert(shards@.take(shards@.len() as int) =~= shards@);
    }
    sample
}

} // verus!
