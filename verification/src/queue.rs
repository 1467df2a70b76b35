//! The admission queue: it paces the identify calls of the shards. Times are
//! counted in milliseconds on whatever clock the caller keeps.

use vstd::prelude::*;
use vstd::set_lib::{lemma_int_range, lemma_len_subset, lemma_map_size, set_int_range};
use vstd::relations::injective_on;
use crate::config::Config;

verus! {

/// The later of two times.
pub open spec fn latest(a: u64, b: u64) -> u64 {
    if a >= b {
        a
    } else {
        b
    }
}

/// The time `wait` after `at`, or the end of the clock where that lies
/// beyond it.
pub open spec fn after_wait(at: u64, wait: u64) -> u64 {
    if at + wait > u64::MAX {
        u64::MAX
    } else {
        (at + wait) as u64
    }
}

/// One queue: it admits one request, then none for `wait` milliseconds.
#[derive(Clone, Copy, Debug, PartialEq, Eq)]
pub struct LocalQueue {
    /// Milliseconds between two admissions.
    pub wait: u64,
    /// The time from which the next request is admitted.
    pub next_free: u64,
}

impl LocalQueue {
    /// The time at which a request that arrives at `now` is admitted.
    pub open spec fn admits_at(self, now: u64) -> u64 {
        latest(now, self.next_free)
    }

    /// The queue after a request that arrived at `now`.
    pub open spec fn closed_after(self, now: u64) -> LocalQueue {
        LocalQueue { wait: self.wait, next_free: after_wait(self.admits_at(now), self.wait) }
    }

    /// A queue that admits its first request at once.
    pub fn new(duration: u64) -> (queue: Self)
        ensures
            queue == (LocalQueue { wait: duration, next_free: 0 }),
    {
        LocalQueue { wait: duration, next_free: 0 }
    }

    /// Admits a request that arrives at `now`: hands back the time at which
    /// it may go on, and keeps the queue closed for `wait` after that.
    pub fn request(&mut self, now: u64) -> (at: u64)
        ensures
            at == old(self).admits_at(now),
            *final(self) == old(self).closed_after(now),
    {
        let at = if now >= self.next_free {
            now
        } else {
            self.next_free
        };
        self.next_free = match at.checked_add(self.wait) {
            Some(next) => next,
            None => u64::MAX,
        };
        at
    }
}

/// The times at which a queue admits the requests that arrive at `arrivals`,
/// in their order.
pub open spec fn admissions(queue: LocalQueue, arrivals: Seq<u64>) -> Seq<u64>
    decreases arrivals.len(),
{
    if arrivals.len() == 0 {
        Seq::empty()
    } else {
        seq![queue.admits_at(arrivals[0])] + admissions(
            queue.closed_after(arrivals[0]),
            arrivals.drop_first(),
        )
    }
}

/// Every request gets its time.
pub proof fn lemma_admissions_len(queue: LocalQueue, arrivals: Seq<u64>)
    ensures
        admissions(queue, arrivals).len() == arrivals.len(),
    decreases arrivals.len(),
{
    if arrivals.len() > 0 {
        lemma_admissions_len(queue.closed_after(arrivals[0]), arrivals.drop_first());
    }
}

/// Two admissions in a row lie at least `wait` apart, as long as the clock
/// does not run out; and the second is not held back longer than that, nor
/// longer than its own arrival.
pub proof fn lemma_paced(queue: LocalQueue, arrivals: Seq<u64>, i: int)
    requires
        0 <= i,
        i + 1 < arrivals.len(),
    ensures
        admissions(queue, arrivals).len() == arrivals.len(),
        admissions(queue, arrivals)[i] + queue.wait <= u64::MAX ==> admissions(
            queue,
            arrivals,
        )[i + 1] == latest(
            arrivals[i + 1],
            (admissions(queue, arrivals)[i] + queue.wait) as u64,
        ),
        admissions(queue, arrivals)[i] + queue.wait <= u64::MAX ==> admissions(
            queue,
            arrivals,
        )[i + 1] >= admissions(queue, arrivals)[i] + queue.wait,
    decreases i,
{
    lemma_admissions_len(queue, arrivals);
    let rest = arrivals.drop_first();
    let next = queue.closed_after(arrivals[0]);
    lemma_admissions_len(next, rest);
    if i == 0 {
        let later = rest.drop_first();
        lemma_admissions_len(next.closed_after(rest[0]), later);
        assert(admissions(queue, arrivals)[1] == admissions(next, rest)[0]);
        assert(rest[0] == arrivals[1]);
    } else {
        lemma_paced(next, rest, i - 1);
        assert(admissions(queue, arrivals)[i] == admissions(next, rest)[i - 1]);
        assert(admissions(queue, arrivals)[i + 1] == admissions(next, rest)[i]);
        assert(rest[i] == arrivals[i + 1]);
    }
}

/// Several queues side by side: a shard waits in the queue of its number
/// modulo the number of queues.
#[derive(Debug, PartialEq, Eq)]
pub struct LargeBotQueue {
    pub buckets: Vec<LocalQueue>,
}

/// The queue in which the shard `shard_id` waits, among `buckets` queues.
pub open spec fn bucket_of(shard_id: u64, buckets: int) -> int {
    shard_id as int % buckets
}

impl LargeBotQueue {
    /// `buckets` queues that each admit their first request at once.
    pub fn new(buckets: usize, duration: u64) -> (queue: Self)
        ensures
            queue.buckets.len() == buckets,
            forall|b: int|
                0 <= b < buckets ==> #[trigger] queue.buckets[b] == (LocalQueue {
                    wait: duration,
                    next_free: 0,
                }),
    {
        let mut queues: Vec<LocalQueue> = Vec::new();
        let mut b: usize = 0;
        while b < buckets
            invariant
                b <= buckets,
                queues.len() == b,
                forall|k: int|
                    0 <= k < b ==> #[trigger] queues[k] == (LocalQueue {
                        wait: duration,
                        next_free: 0,
                    }),
            decreases buckets - b,
        {
            queues.push(LocalQueue::new(duration));
            b = b + 1;
        }
        LargeBotQueue { buckets: queues }
    }

    /// Admits a request of the shard `shard_id` that arrives at `now`, in
    /// the shard's own queue; the other queues stay as they are.
    pub fn request(&mut self, shard_id: u64, now: u64) -> (at: u64)
        requires
            old(self).buckets.len() > 0,
        ensures
            at == old(self).buckets[bucket_of(shard_id, old(self).buckets.len() as int)].admits_at(
                now,
            ),
            final(self).buckets@ == stepped(old(self).buckets@, shard_id, now),
    {
        let bucket = (shard_id % (self.buckets.len() as u64)) as usize;
        let at = self.buckets[bucket].request(now);
        proof {
            assert(self.buckets@ =~= stepped(old(self).buckets@, shard_id, now));
        }
        at
    }
}

/// The queues after a request of the shard `shard_id` that arrived at `now`.
pub open spec fn stepped(buckets: Seq<LocalQueue>, shard_id: u64, now: u64) -> Seq<LocalQueue> {
    let b = bucket_of(shard_id, buckets.len() as int);
    buckets.update(b, buckets[b].closed_after(now))
}

/// The times at which the queues admit `requests`, each a shard and the time
/// at which it arrives, in their order.
pub open spec fn bucket_admissions(buckets: Seq<LocalQueue>, requests: Seq<(u64, u64)>) -> Seq<
    u64,
>
    decreases requests.len(),
{
    if requests.len() == 0 {
        Seq::empty()
    } else {
        let b = bucket_of(requests[0].0, buckets.len() as int);
        seq![buckets[b].admits_at(requests[0].1)] + bucket_admissions(
            stepped(buckets, requests[0].0, requests[0].1),
            requests.drop_first(),
        )
    }
}

/// Whether every queue waits `wait` between two admissions.
pub open spec fn all_wait(buckets: Seq<LocalQueue>, wait: u64) -> bool {
    forall|b: int| 0 <= b < buckets.len() ==> (#[trigger] buckets[b]).wait == wait
}

proof fn lemma_bucket_admissions_len(buckets: Seq<LocalQueue>, requests: Seq<(u64, u64)>)
    ensures
        bucket_admissions(buckets, requests).len() == requests.len(),
    decreases requests.len(),
{
    if requests.len() > 0 {
        lemma_bucket_admissions_len(
            stepped(buckets, requests[0].0, requests[0].1),
            requests.drop_first(),
        );
    }
}

proof fn lemma_not_before(
    buckets: Seq<LocalQueue>,
    requests: Seq<(u64, u64)>,
    b: int,
    floor: u64,
    j: int,
)
    requires
        0 <= b < buckets.len(),
        buckets[b].next_free >= floor,
        0 <= j < requests.len(),
        bucket_of(requests[j].0, buckets.len() as int) == b,
    ensures
        bucket_admissions(buckets, requests).len() == requests.len(),
        bucket_admissions(buckets, requests)[j] >= floor,
    decreases j,
{
    lemma_bucket_admissions_len(buckets, requests);
    let next = stepped(buckets, requests[0].0, requests[0].1);
    let rest = requests.drop_first();
    lemma_bucket_admissions_len(next, rest);
    if j > 0 {
        assert(rest[j - 1] == requests[j]);
        lemma_not_before(next, rest, b, floor, j - 1);
        assert(bucket_admissions(buckets, requests)[j] == bucket_admissions(next, rest)[j - 1]);
    }
}

/// Two admissions of one queue lie at least `wait` apart, as long as the
/// clock does not run out.
pub proof fn lemma_bucket_paced(
    buckets: Seq<LocalQueue>,
    requests: Seq<(u64, u64)>,
    wait: u64,
    i: int,
    j: int,
)
    requires
        buckets.len() > 0,
        all_wait(buckets, wait),
        0 <= i < j < requests.len(),
        bucket_of(requests[i].0, buckets.len() as int) == bucket_of(
            requests[j].0,
            buckets.len() as int,
        ),
        bucket_admissions(buckets, requests)[i] + wait <= u64::MAX,
    ensures
        bucket_admissions(buckets, requests).len() == requests.len(),
        bucket_admissions(buckets, requests)[j] >= bucket_admissions(buckets, requests)[i] + wait,
    decreases i,
{
    lemma_bucket_admissions_len(buckets, requests);
    let next = stepped(buckets, requests[0].0, requests[0].1);
    let rest = requests.drop_first();
    lemma_bucket_admissions_len(next, rest);
    let times = bucket_admissions(buckets, requests);
    assert(rest[j - 1] == requests[j]);
    assert(times[j] == bucket_admissions(next, rest)[j - 1]);
    let b = bucket_of(requests[i].0, buckets.len() as int);
    if i == 0 {
        lemma_not_before(next, rest, b, (times[0] + wait) as u64, j - 1);
    } else {
        assert(rest[i - 1] == requests[i]);
        assert(times[i] == bucket_admissions(next, rest)[i - 1]);
        assert(all_wait(next, wait));
        lemma_bucket_paced(next, rest, wait, i - 1, j - 1);
    }
}

/// The requests that are admitted in the window of length `wait` that
/// starts at `from`.
pub open spec fn admitted_in(times: Seq<u64>, from: int, wait: u64) -> Set<int> {
    Set::new(|i: int| 0 <= i < times.len() && from <= times[i] < from + wait)
}

/// In any window of length `wait`, no more requests are admitted than there
/// are queues, as long as the clock does not run out.
pub proof fn lemma_window(
    buckets: Seq<LocalQueue>,
    requests: Seq<(u64, u64)>,
    wait: u64,
    from: int,
)
    requires
        buckets.len() > 0,
        all_wait(buckets, wait),
        forall|i: int|
            0 <= i < requests.len() ==> #[trigger] bucket_admissions(buckets, requests)[i] + wait
                <= u64::MAX,
    ensures
        admitted_in(bucket_admissions(buckets, requests), from, wait).finite(),
        admitted_in(bucket_admissions(buckets, requests), from, wait).len() <= buckets.len(),
{
    let times = bucket_admissions(buckets, requests);
    lemma_bucket_admissions_len(buckets, requests);
    let inside = admitted_in(times, from, wait);
    let count = buckets.len() as int;
    let bucket = |i: int| bucket_of(requests[i].0, count);
    lemma_int_range(0, times.len() as int);
    assert(inside.subset_of(set_int_range(0, times.len() as int)));
    lemma_len_subset(inside, set_int_range(0, times.len() as int));
    assert(injective_on(bucket, inside)) by {
        assert forall|i: int, j: int|
            inside.contains(i) && inside.contains(j) && #[trigger] bucket(i) == #[trigger] bucket(
                j,
            ) implies i == j by {
            if i < j {
                lemma_bucket_paced(buckets, requests, wait, i, j);
            } else if j < i {
                lemma_bucket_paced(buckets, requests, wait, j, i);
            }
        }
    }
    let used = inside.map(bucket);
    lemma_map_size(inside, used, bucket);
    lemma_int_range(0, count);
    assert(used.subset_of(set_int_range(0, count))) by {
        assert forall|b: int| used.contains(b) implies set_int_range(0, count).contains(b) by {
            let i = choose|i: int| inside.contains(i) && bucket(i) == b;
            assert(0 <= requests[i].0 as int % count < count);
        }
    }
    lemma_len_subset(used, set_int_range(0, count));
}

/// The admission queue of a process: one queue, or several side by side.
#[derive(Debug, PartialEq, Eq)]
pub enum Queue {
    Local(LocalQueue),
    Large(LargeBotQueue),
}

/// Milliseconds in a second.
pub const MILLIS_PER_SECOND: u64 = 1000;

/// The wait that is configured, in milliseconds.
pub open spec fn configured_wait(config: Config) -> u64 {
    if config.shards_wait * MILLIS_PER_SECOND > u64::MAX {
        u64::MAX
    } else {
        (config.shards_wait * MILLIS_PER_SECOND) as u64
    }
}

/// The admission queue that is configured: a single queue for a concurrency
/// of one, else one queue per unit of concurrency.
pub fn get_queue(config: &Config) -> (queue: Queue)
    requires
        config.shards_concurrency <= usize::MAX,
    ensures
        match queue {
            Queue::Local(q) => config.shards_concurrency == 1 && q == (LocalQueue {
                wait: configured_wait(*config),
                next_free: 0,
            }),
            Queue::Large(q) => config.shards_concurrency != 1 && q.buckets.len()
                == config.shards_concurrency && forall|b: int|
                0 <= b < q.buckets.len() ==> #[trigger] q.buckets[b] == (LocalQueue {
                    wait: configured_wait(*config),
                    next_free: 0,
                }),
        },
{
    let wait = match config.shards_wait.checked_mul(MILLIS_PER_SECOND) {
        Some(ms) => ms,
        None => u64::MAX,
    };
    if config.shards_concurrency == 1 {
        Queue::Local(LocalQueue::new(wait))
    } else {
        Queue::Large(LargeBotQueue::new(config.shards_concurrency as usize, wait))
    }
}

} // verus!
