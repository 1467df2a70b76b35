use gateway_proxy::config::Config;
use gateway_proxy::queue::{get_queue, LargeBotQueue, LocalQueue, Queue};

fn config(concurrency: u64, wait: u64) -> Config {
    Config {
        bot_token: "SECRET-REDACTED".to_string(),
        intents: 0,
        shards_total: 4,
        shards_start: 0,
        shards_end: 3,
        clusters: 1,
        shards_concurrency: concurrency,
        shards_wait: wait,
        resume: true,
        large_threshold: 250,
        activity_type: 0,
        activity_name: "".to_string(),
        status: "online".to_string(),
        state_enabled: true,
        state_member: false,
        state_member_ttl: None,
        cache_update_deadline_ms: 10_000,
        member_request_delay_ms: 100,
        prometheus_host: "127.0.0.1".to_string(),
        prometheus_port: 8005,
        log_channel: 0,
    }
}

#[test]
fn five_requests_at_once_are_admitted_two_seconds_apart() {
    let mut queue = match get_queue(&config(1, 2)) {
        Queue::Local(queue) => queue,
        Queue::Large(_) => panic!("a concurrency of one is a single queue"),
    };
    let admitted: Vec<u64> = (0..5).map(|_| queue.request(0)).collect();
    assert_eq!(admitted, vec![0, 2000, 4000, 6000, 8000]);
}

#[test]
fn a_request_that_comes_late_is_admitted_at_once() {
    let mut queue = LocalQueue::new(5000);
    assert_eq!(queue.request(100), 100);
    assert_eq!(queue.request(200), 5100);
    assert_eq!(queue.request(20_000), 20_000);
    assert_eq!(queue.request(20_001), 25_000);
}

#[test]
fn admissions_of_one_queue_are_never_closer_than_the_wait() {
    let mut queue = LocalQueue::new(300);
    let arrivals = [0u64, 10, 20, 1000, 1001, 1002, 5000, 5100, 5200];
    let admitted: Vec<u64> = arrivals.iter().map(|now| queue.request(*now)).collect();
    for pair in admitted.windows(2) {
        assert!(pair[1] - pair[0] >= 300);
    }
    assert_eq!(admitted, vec![0, 300, 600, 1000, 1300, 1600, 5000, 5300, 5600]);
}

#[test]
fn the_clock_ends_without_overflow() {
    let mut queue = LocalQueue::new(10);
    assert_eq!(queue.request(u64::MAX - 5), u64::MAX - 5);
    assert_eq!(queue.request(0), u64::MAX);
    assert_eq!(queue.next_free, u64::MAX);
}

#[test]
fn each_bucket_paces_its_own_shards() {
    let mut queue = match get_queue(&config(3, 5)) {
        Queue::Large(queue) => queue,
        Queue::Local(_) => panic!("a concurrency above one is several queues"),
    };
    assert_eq!(queue.buckets.len(), 3);
    let admitted: Vec<u64> = (0..7).map(|shard| queue.request(shard, 0)).collect();
    assert_eq!(admitted, vec![0, 0, 0, 5000, 5000, 5000, 10_000]);
}

#[test]
fn no_window_admits_more_than_there_are_buckets() {
    let mut queue = LargeBotQueue::new(4, 1000);
    let mut admitted: Vec<u64> = (0..32).map(|shard| queue.request(shard, shard * 7)).collect();
    admitted.sort();
    for start in admitted.clone() {
        let inside = admitted.iter().filter(|at| start <= **at && **at < start + 1000).count();
        assert!(inside <= 4);
    }
}

#[test]
fn a_shard_waits_in_the_bucket_of_its_number() {
    let mut queue = LargeBotQueue::new(2, 100);
    assert_eq!(queue.request(4, 0), 0);
    assert_eq!(queue.request(6, 0), 100);
    assert_eq!(queue.request(5, 0), 0);
    assert_eq!(queue.buckets[0].next_free, 200);
    assert_eq!(queue.buckets[1].next_free, 100);
}

#[test]
fn the_wait_is_configured_in_seconds() {
    match get_queue(&config(1, 5)) {
        Queue::Local(queue) => assert_eq!(queue, LocalQueue { wait: 5000, next_free: 0 }),
        Queue::Large(_) => panic!("a concurrency of one is a single queue"),
    }
    match get_queue(&config(1, u64::MAX)) {
        Queue::Local(queue) => assert_eq!(queue.wait, u64::MAX),
        Queue::Large(_) => panic!("a concurrency of one is a single queue"),
    }
}
