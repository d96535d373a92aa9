use pageserver_core::leaky_bucket::queue::{Enqueued, Queue, WaiterState};
use pageserver_core::leaky_bucket::{Acquire, LeakyBucketConfig, RateLimiter};

const MS: u64 = 1_000_000;

#[test]
fn the_first_waiter_takes_the_free_token() {
    let mut queue = Queue::new();
    let entry = queue.wait();
    assert_eq!(queue.state_of(&entry), WaiterState::Detached);
    assert_eq!(queue.poll(&entry), Some(0));
    assert_eq!(queue.state_of(&entry), WaiterState::Holding);
    assert_eq!(queue.len(), 0);
    // polling the holder again changes nothing
    assert_eq!(queue.poll(&entry), Some(0));
    assert_eq!(queue.release(entry), None);

    // the token is free again
    let next = queue.wait();
    assert_eq!(queue.poll(&next), Some(0));
}

#[test]
fn fifo_admission() {
    let mut queue = Queue::new();
    let leader = queue.wait();
    assert_eq!(queue.poll(&leader), Some(0));

    let waiters: Vec<Enqueued> = (0..10).map(|_| queue.wait()).collect();
    let ids: Vec<u64> = waiters.iter().map(|w| w.id()).collect();
    for waiter in &waiters {
        assert_eq!(queue.poll(waiter), None);
        assert_eq!(queue.state_of(waiter), WaiterState::Linked);
    }
    assert_eq!(queue.len(), 10);

    let mut admitted = Vec::new();
    let mut current = leader;
    for waiter in waiters {
        // spurious polls change nothing
        assert_eq!(queue.poll(&waiter), None);
        let woken = queue.release(current).unwrap();
        assert_eq!(woken, waiter.id());
        assert_eq!(queue.state_of(&waiter), WaiterState::Elected);
        assert_eq!(queue.poll(&waiter), Some(0));
        assert_eq!(queue.state_of(&waiter), WaiterState::Holding);
        admitted.push(waiter.id());
        current = waiter;
    }
    assert_eq!(admitted, ids);
    assert_eq!(queue.release(current), None);
    assert_eq!(queue.len(), 0);
}

#[test]
fn a_new_arrival_does_not_pass_an_elected_waiter() {
    let mut queue = Queue::new();
    let first = queue.wait();
    let second = queue.wait();
    let third = queue.wait();
    assert_eq!(queue.poll(&first), Some(0));
    assert_eq!(queue.poll(&second), None);
    // second is elected, but has not been polled yet
    assert_eq!(queue.release(first), Some(second.id()));
    // third arrives now and has to wait
    assert_eq!(queue.poll(&third), None);
    assert_eq!(queue.state_of(&third), WaiterState::Linked);
    assert_eq!(queue.poll(&second), Some(0));
    assert_eq!(queue.release(second), Some(third.id()));
    assert_eq!(queue.poll(&third), Some(0));
}

#[test]
fn a_waiter_that_gives_up_leaves_the_line() {
    let mut queue = Queue::new();
    let leader = queue.wait();
    let a = queue.wait();
    let b = queue.wait();
    let c = queue.wait();
    queue.poll(&leader);
    queue.poll(&a);
    queue.poll(&b);
    queue.poll(&c);
    let c_id = c.id();
    let a_id = a.id();
    assert_eq!(queue.release(b), None);
    assert_eq!(queue.len(), 2);
    assert_eq!(queue.release(leader), Some(a_id));
    assert_eq!(queue.poll(&a), Some(0));
    assert_eq!(queue.release(a), Some(c_id));
    assert_eq!(queue.poll(&c), Some(0));
}

#[test]
fn an_elected_waiter_that_gives_up_passes_the_token_on() {
    let mut queue = Queue::new();
    let leader = queue.wait();
    let a = queue.wait();
    let b = queue.wait();
    queue.poll(&leader);
    queue.poll(&a);
    queue.poll(&b);
    assert_eq!(queue.release(leader), Some(a.id()));
    // a is dropped before it was polled again
    assert_eq!(queue.release(a), Some(b.id()));
    assert_eq!(queue.poll(&b), Some(0));
    assert_eq!(queue.release(b), None);
    let later = queue.wait();
    assert_eq!(queue.poll(&later), Some(0));
}

#[test]
fn a_waiter_that_was_never_polled_gives_up_nothing() {
    let mut queue = Queue::new();
    let leader = queue.wait();
    let idle = queue.wait();
    queue.poll(&leader);
    assert_eq!(queue.release(idle), None);
    assert_eq!(queue.state_of(&leader), WaiterState::Holding);
}

#[test]
fn a_foreign_handle_is_ignored() {
    let mut other = Queue::new();
    other.wait();
    let foreign = other.wait();
    let mut queue = Queue::new();
    assert_eq!(queue.poll(&foreign), None);
    assert_eq!(queue.state_of(&foreign), WaiterState::Detached);
    let own = queue.wait();
    assert_eq!(queue.poll(&own), Some(0));
}

#[test]
fn throttle_report() {
    let mut queue = Queue::new();
    let leader = queue.wait();
    let waiter = queue.wait();
    assert_eq!(queue.poll(&leader), Some(0));
    assert!(!queue.throttled(&leader));
    assert_eq!(queue.poll(&waiter), None);

    // the leader sleeps twice while the waiter is in the line
    queue.record_sleep(&leader);
    queue.record_sleep(&leader);
    assert_eq!(queue.sleep_counter(), 2);
    assert!(queue.throttled(&leader));
    // only the holder counts sleeps
    queue.record_sleep(&waiter);
    assert_eq!(queue.sleep_counter(), 2);
    assert!(!queue.throttled(&waiter));

    queue.release(leader);
    assert_eq!(queue.poll(&waiter), Some(0));
    assert!(queue.throttled(&waiter));
    queue.release(waiter);

    // who arrives after the sleeps is not throttled
    let late = queue.wait();
    assert_eq!(queue.poll(&late), Some(2));
    assert!(!queue.throttled(&late));
}

#[test]
fn acquire_takes_turns() {
    let config = LeakyBucketConfig { cost: 10 * MS, bucket_width: 20 * MS };
    let t0 = 1_000 * MS;
    let mut limiter = RateLimiter::with_initial_tokens(config, t0, 0);
    assert_eq!(limiter.state.empty_at, t0);

    let a = limiter.queue.wait();
    let b = limiter.queue.wait();
    assert_eq!(limiter.queue.poll(&a), Some(0));
    assert_eq!(limiter.queue.poll(&b), None);

    // b does not hold the token
    assert_eq!(limiter.acquire(&b, t0, t0, 1), Acquire::NotLeader);
    assert_eq!(limiter.state.empty_at, t0);

    // two tokens fit at once
    assert_eq!(limiter.acquire(&a, t0, t0, 2), Acquire::Done { throttled: false });
    assert_eq!(limiter.state.empty_at, t0 + 20 * MS);
    assert_eq!(limiter.queue.release(a), Some(b.id()));
    assert_eq!(limiter.queue.poll(&b), Some(0));

    // the third does not: b sleeps until one token has drained
    assert_eq!(limiter.acquire(&b, t0, t0, 1), Acquire::SleepUntil(t0 + 10 * MS));
    assert_eq!(limiter.state.empty_at, t0 + 20 * MS);
    assert_eq!(limiter.queue.sleep_counter(), 1);
    assert_eq!(limiter.acquire(&b, t0, t0 + 10 * MS, 1), Acquire::Done { throttled: true });
    assert_eq!(limiter.state.empty_at, t0 + 30 * MS);
    assert_eq!(limiter.queue.release(b), None);
}

#[test]
fn with_initial_tokens_fills_the_bucket() {
    let config = LeakyBucketConfig { cost: 10 * MS, bucket_width: 20 * MS };
    let mut limiter = RateLimiter::with_initial_tokens(config, 500, 2);
    assert_eq!(limiter.state.empty_at, 500 + 20 * MS);
    assert!(!limiter.state.bucket_is_empty(500));
    assert!(limiter.state.bucket_is_empty(500 + 20 * MS));
    let a = limiter.queue.wait();
    limiter.queue.poll(&a);
    assert_eq!(limiter.acquire(&a, 500, 500, 1), Acquire::SleepUntil(500 + 10 * MS));
}

#[test]
fn calls_complete_in_the_order_of_arrival_at_the_steady_rate() {
    let config = LeakyBucketConfig { cost: 10 * MS, bucket_width: 1_000 * MS };
    let t0 = 7_000 * MS;
    // the bucket is full at t0
    let mut limiter = RateLimiter::with_initial_tokens(config, t0, 100);
    assert_eq!(limiter.state.empty_at, t0 + 1_000 * MS);

    let n = 8;
    let mut waiting: Vec<_> = (0..n).map(|_| limiter.queue.wait()).collect();
    let launched: Vec<u64> = waiting.iter().map(|w| w.id()).collect();
    waiting.reverse();

    // all calls are first polled at t0, in the order of their launch
    let mut leader = waiting.pop().unwrap();
    assert_eq!(limiter.queue.poll(&leader), Some(0));
    for waiter in waiting.iter().rev() {
        assert_eq!(limiter.queue.poll(waiter), None);
    }

    let mut now = t0;
    let mut completed = Vec::new();
    let mut late = None;
    loop {
        // nobody but the leader gets anywhere, at any time
        for waiter in &waiting {
            let empty_at = limiter.state.empty_at;
            assert_eq!(limiter.acquire(waiter, t0, now, 1), Acquire::NotLeader);
            assert_eq!(limiter.state.empty_at, empty_at);
        }
        match limiter.acquire(&leader, t0, now, 1) {
            Acquire::Done { throttled } => {
                assert!(throttled);
                completed.push((leader.id(), now));
                if late.is_none() {
                    // a call that arrives after the first deadline has
                    // passed queues behind everybody
                    let arrival = limiter.queue.wait();
                    assert_eq!(limiter.queue.poll(&arrival), None);
                    late = Some(arrival);
                }
                let woken = limiter.queue.release(leader);
                match waiting.pop() {
                    Some(next) => {
                        assert_eq!(woken, Some(next.id()));
                        assert_eq!(limiter.queue.poll(&next), Some(0));
                        leader = next;
                    }
                    None => break,
                }
            }
            Acquire::SleepUntil(ready_at) => {
                assert!(ready_at > now);
                now = ready_at;
            }
            Acquire::NotLeader => panic!("the leader holds the token"),
        }
    }

    let expected: Vec<(u64, u64)> = launched
        .iter()
        .enumerate()
        .map(|(i, id)| (*id, t0 + (i as u64 + 1) * 10 * MS))
        .collect();
    assert_eq!(completed, expected);

    // the late arrival is served last, one token's cost later
    let late = late.unwrap();
    assert_eq!(limiter.queue.poll(&late), Some(1));
    assert_eq!(limiter.acquire(&late, now, now, 1), Acquire::SleepUntil(now + 10 * MS));
    now += 10 * MS;
    assert_eq!(limiter.acquire(&late, now, now, 1), Acquire::Done { throttled: true });
    assert_eq!(now, t0 + (n as u64 + 1) * 10 * MS);
}
