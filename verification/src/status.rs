//! The tables that report the shards to the other services: the status of
//! each shard, in the order of the shards, and the session of each.

use vstd::prelude::*;
use vstd::seq_lib::{to_multiset_build, to_multiset_insert};
use crate::keys::{decimal, decimal_string};
use crate::models::{SessionInfo, SessionInfoView, ShardInfo, StatusInfo, StatusInfoView};
use crate::timestamp::{earlier, FormattedDateTime};

verus! {

/// The two tables of one dump.
#[derive(Debug, PartialEq, Eq)]
pub struct Dump {
    /// The status of each shard, in rising order of the shards.
    pub statuses: Vec<StatusInfo>,
    /// The session of each shard under the shard's number, in the order in
    /// which the shards were reported.
    pub sessions: Vec<(String, SessionInfo)>,
}

/// The status that is reported of a shard at `now`: a shard without latency
/// reports zero, and one without acknowledged heartbeat reports `now`.
pub open spec fn status_of(shard: ShardInfo, now: int) -> StatusInfoView {
    StatusInfoView {
        shard: shard.id,
        status: shard.stage.name_spec(),
        latency: match shard.latency {
            Some(latency) => latency,
            None => 0,
        },
        last_ack: match shard.since_ack {
            Some(millis) => earlier(now, millis as int),
            None => now,
        },
    }
}

/// The session that is reported of a shard, under the shard's number: a
/// shard without session reports an empty one.
pub open spec fn session_of(shard: ShardInfo) -> (Seq<char>, SessionInfoView) {
    (
        decimal(shard.id as nat),
        SessionInfoView {
            session_id: match shard.session_id {
                Some(id) => id@,
                None => Seq::empty(),
            },
            sequence: shard.seq,
        },
    )
}

/// The statuses of a list of shards, in the order of the list.
pub open spec fn statuses_of(shards: Seq<ShardInfo>, now: int) -> Seq<StatusInfoView> {
    Seq::new(shards.len(), |i: int| status_of(shards[i], now))
}

/// What a list of statuses holds.
pub open spec fn status_views(statuses: Seq<StatusInfo>) -> Seq<StatusInfoView> {
    Seq::new(statuses.len(), |i: int| statuses[i].deep_view())
}

/// Whether the statuses are in rising order of the shards.
pub open spec fn sorted_by_shard(statuses: Seq<StatusInfoView>) -> bool {
    forall|a: int, b: int| 0 <= a < b < statuses.len() ==> statuses[a].shard <= statuses[b].shard
}

/// Collects what the clusters report of their shards at `now` into the two
/// tables: the statuses, sorted by shard, and the sessions.
pub fn run_jobs(shards: &Vec<ShardInfo>, now: &FormattedDateTime) -> (dump: Dump)
    ensures
        sorted_by_shard(status_views(dump.statuses@)),
        status_views(dump.statuses@).to_multiset() == statuses_of(shards@, now@).to_multiset(),
        dump.sessions.len() == shards.len(),
        forall|i: int|
            0 <= i < shards.len() ==> ((#[trigger] dump.sessions[i]).0@, dump.sessions[i].1.deep_view())
                == session_of(shards[i]),
{
    let mut statuses: Vec<StatusInfo> = Vec::new();
    let mut sessions: Vec<(String, SessionInfo)> = Vec::new();
    let ghost all = statuses_of(shards@, now@);
    proof {
        assert(status_views(statuses@) =~= all.take(0));
    }
    let mut i: usize = 0;
    while i < shards.len()
        invariant
            i <= shards.len(),
            all == statuses_of(shards@, now@),
            sorted_by_shard(status_views(statuses@)),
            status_views(statuses@).to_multiset() == all.take(i as int).to_multiset(),
            statuses.len() == i,
            sessions.len() == i,
            forall|j: int|
                0 <= j < i ==> ((#[trigger] sessions[j]).0@, sessions[j].1.deep_view())
                    == session_of(shards[j]),
        decreases shards.len() - i,
    {
        let shard = &shards[i];
        let status = StatusInfo {
            shard: shard.id,
            status: String::from_str(shard.stage.name()),
            latency: match shard.latency {
                Some(latency) => latency,
                None => 0,
            },
            last_ack: match shard.since_ack {
                Some(millis) => now.sub_millis(millis),
                None => *now,
            },
        };
        assert(status.deep_view() == all[i as int]);
        let mut place: usize = 0;
        while place < statuses.len() && statuses[place].shard <= status.shard
            invariant
                place <= statuses.len(),
                forall|k: int| 0 <= k < place ==> (#[trigger] statuses[k]).shard <= status.shard,
            decreases statuses.len() - place,
        {
            place = place + 1;
        }
        let ghost before = status_views(statuses@);
        statuses.insert(place, status);
        proof {
            let after = status_views(statuses@);
            assert(after =~= before.insert(place as int, all[i as int]));
            to_multiset_insert(before, place as int, all[i as int]);
            assert(all.take(i + 1) =~= all.take(i as int).push(all[i as int]));
            to_multiset_build(all.take(i as int), all[i as int]);
            assert forall|a: int, b: int| 0 <= a < b < after.len() implies after[a].shard
                <= after[b].shard by {
                if b < place {
                    assert(after[a] == before[a] && after[b] == before[b]);
                } else if b == place {
                    assert(after[a] == before[a]);
                } else if a < place {
                    assert(after[a] == before[a] && after[b] == before[b - 1]);
                } else if a == place {
                    assert(after[b] == before[b - 1]);
                    assert(before[place as int].shard <= before[b - 1].shard);
                } else {
                    assert(after[a] == before[a - 1] && after[b] == before[b - 1]);
                }
            }
        }
        let session_id = match &shard.session_id {
            Some(id) => id.clone(),
            None => String::new(),
        };
        sessions.push(
            (decimal_string(shard.id), SessionInfo { session_id, sequence: shard.seq }),
        );
        i = i + 1;
    }
    proof {
        assert(all.take(shards@.len() as int) =~= all);
    }
    Dump { statuses, sessions }
}

} // verus!
