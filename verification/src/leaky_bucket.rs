//! A fair rate limiter over the Generic Cell Rate Algorithm.
//!
//! # Leaky bucket
//!
//! Requests fill the bucket with tokens, and the bucket drains at a steady
//! rate. A request that would overfill the bucket has to wait. The width of
//! the bucket sets the burst that is tolerated, the drain rate sets the
//! sustained rate.
//!
//! # GCRA
//!
//! The only state is `empty_at`: the instant at which the bucket would be
//! empty if nothing more were added. Adding `n` tokens moves `empty_at`
//! forward by `n` times the cost of a token. The bucket is full when
//! `empty_at` lies a whole bucket width in the future, so `n` tokens fit at
//! `now` when `empty_at + n * cost - bucket_width` is not after `now`. No
//! background work is needed to drain the bucket: time does it.
//!
//! All instants are nanoseconds on a monotonic clock; all durations are
//! nanoseconds.

use vstd::prelude::*;
use crate::leaky_bucket::queue::{Enqueued, Queue, QueueView};

pub mod fairness;
pub mod queue;

verus! {

/// Rate and burst of a bucket, both expressed as time.
#[derive(Debug, Clone, Copy, PartialEq, Eq)]
pub struct LeakyBucketConfig {
    /// The time cost of a single token: the inverse of the steady rate.
    pub cost: u64,
    /// Total width of the bucket: the cost of the largest burst.
    pub bucket_width: u64,
}

/// The bucket.
#[derive(Debug, Clone, Copy, PartialEq, Eq)]
pub struct LeakyBucketState {
    /// The instant at which the bucket is empty if nothing is added. The
    /// bucket spans `allow_at..empty_at`, where `allow_at` is `empty_at`
    /// less the bucket width.
    pub empty_at: u64,
}

/// Where `empty_at` moves when `n` tokens are added by a caller that
/// started to wait at `started`. A bucket that ran empty before `started`
/// counts as empty at `started`: the idle time before is no credit.
pub open spec fn new_empty_at(config: LeakyBucketConfig, empty_at: u64, started: u64, n: u64) -> int {
    (if empty_at < started {
        started as int
    } else {
        empty_at as int
    }) + n * config.cost
}

/// Whether `n` tokens do not fit at `now`: the bucket would begin after `now`.
pub open spec fn rejected(
    config: LeakyBucketConfig,
    empty_at: u64,
    started: u64,
    now: u64,
    n: u64,
) -> bool {
    now < new_empty_at(config, empty_at, started, n) - config.bucket_width
}

impl LeakyBucketState {
    /// The bucket that holds `initial_tokens` at `now`.
    pub fn with_initial_tokens(config: &LeakyBucketConfig, now: u64, initial_tokens: u64) -> (state:
        Self)
        requires
            now + initial_tokens * config.cost <= u64::MAX,
        ensures
            state.empty_at == now + initial_tokens * config.cost,
    {
        LeakyBucketState { empty_at: now + initial_tokens * config.cost }
    }

    pub fn bucket_is_empty(&self, now: u64) -> (empty: bool)
        ensures
            empty == (self.empty_at <= now),
    {
        // while `empty_at` is after `now`, the bucket is not empty
        self.empty_at <= now
    }

    /// Adds `n` tokens to the bucket at `now`, if there is space.
    ///
    /// `started` is when the caller began to wait for space; it is `now`
    /// for a caller that does not wait.
    ///
    /// # Errors
    ///
    /// If there is not enough space, no tokens are added. The error is the
    /// instant at which there will be space.
    pub fn add_tokens(&mut self, config: &LeakyBucketConfig, started: u64, now: u64, n: u64) -> (res:
        Result<(), u64>)
        requires
            started <= now,
            new_empty_at(*config, old(self).empty_at, started, n) <= u64::MAX,
        ensures
            res is Err <==> rejected(*config, old(self).empty_at, started, now, n),
            res matches Err(allow_at) ==> allow_at == new_empty_at(
                *config,
                old(self).empty_at,
                started,
                n,
            ) - config.bucket_width && *final(self) == *old(self),
            res is Ok ==> final(self).empty_at == new_empty_at(
                *config,
                old(self).empty_at,
                started,
                n,
            ) && final(self).empty_at <= now + config.bucket_width,
    {
        // If the bucket was empty when the caller started to wait, it is
        // counted as empty from then on. This keeps the bucket from holding
        // negative tokens.
        let mut empty_at = self.empty_at;
        if empty_at < started {
            empty_at = started;
        }
        let n = n * config.cost;
        let new_empty_at = empty_at + n;
        let allow_at = new_empty_at.checked_sub(config.bucket_width);

        //                     empty_at
        //          allow_at    |   new_empty_at
        //           /          |   /
        // -------o-[---------o-|--]---------
        //   now1 ^      now2 ^
        //
        // at now1, the bucket would be completely filled if we add n tokens.
        // at now2, the bucket would be partially filled if we add n tokens.
        match allow_at {
            Some(allow_at) if now < allow_at => Err(allow_at),
            _ => {
                self.empty_at = new_empty_at;
                Ok(())
            },
        }
    }
}

/// The sustained rate is served without rejection. A bucket that is not
/// overfull at `then` takes one token at any `now` that is a token's cost
/// later, provided that the bucket is wide enough for one token.
pub proof fn lemma_sustained_rate(
    config: LeakyBucketConfig,
    empty_at: u64,
    then: u64,
    started: u64,
    now: u64,
)
    requires
        config.cost <= config.bucket_width,
        empty_at <= then + config.bucket_width,
        then + config.cost <= now,
        started <= now,
    ensures
        !rejected(config, empty_at, started, now, 1),
{
}

/// An empty bucket takes a burst of exactly its width: `n` tokens fit at
/// once if and only if they cost no more than the bucket is wide.
pub proof fn lemma_burst(config: LeakyBucketConfig, empty_at: u64, now: u64, n: u64)
    requires
        empty_at <= now,
    ensures
        !rejected(config, empty_at, now, now, n) <==> n * config.cost <= config.bucket_width,
{
}

/// What a turn of `RateLimiter::acquire` ended with.
#[derive(Debug, Clone, Copy, PartialEq, Eq)]
pub enum Acquire {
    /// The tokens were added. `throttled` says whether a leader slept
    /// since the caller arrived.
    Done { throttled: bool },
    /// The tokens did not fit. The caller sleeps until this instant, still
    /// holding the token, and tries again.
    SleepUntil(u64),
    /// The caller does not hold the token.
    NotLeader,
}

/// A bucket with the line in front of it.
#[derive(Debug)]
pub struct RateLimiter {
    pub config: LeakyBucketConfig,
    pub state: LeakyBucketState,
    pub queue: Queue,
}

/// A limiter as a value of specifications.
pub struct RateLimiterView {
    pub config: LeakyBucketConfig,
    pub state: LeakyBucketState,
    pub queue: QueueView,
}

impl View for RateLimiter {
    type V = RateLimiterView;

    open spec fn view(&self) -> RateLimiterView {
        RateLimiterView { config: self.config, state: self.state, queue: self.queue@ }
    }
}

impl RateLimiterView {
    /// Whether `count` tokens of a caller that waits since `start` do not
    /// fit at `now`.
    pub open spec fn is_full(self, start: u64, now: u64, count: u64) -> bool {
        rejected(self.config, self.state.empty_at, start, now, count)
    }

    /// What a turn of `id` at acquiring `count` tokens ends with.
    pub open spec fn acquire_result(self, id: u64, start: u64, now: u64, count: u64) -> Acquire {
        if !self.queue.is_holder(id) {
            Acquire::NotLeader
        } else if self.is_full(start, now, count) {
            Acquire::SleepUntil(
                (new_empty_at(self.config, self.state.empty_at, start, count)
                    - self.config.bucket_width) as u64,
            )
        } else {
            Acquire::Done { throttled: self.queue.throttled(id) }
        }
    }

    /// The limiter after a turn of `id` at acquiring `count` tokens. Only
    /// the holder of the token changes anything: it adds the tokens if they
    /// fit, and counts a sleep if they do not.
    pub open spec fn acquired(self, id: u64, start: u64, now: u64, count: u64) -> Self {
        if !self.queue.is_holder(id) {
            self
        } else if self.is_full(start, now, count) {
            RateLimiterView { queue: self.queue.slept(id), ..self }
        } else {
            RateLimiterView {
                state: LeakyBucketState {
                    empty_at: new_empty_at(self.config, self.state.empty_at, start, count) as u64,
                },
                ..self
            }
        }
    }
}

impl RateLimiter {
    /// A limiter whose bucket holds `initial_tokens` at `now`.
    pub fn with_initial_tokens(config: LeakyBucketConfig, now: u64, initial_tokens: u64) -> (limiter:
        Self)
        requires
            now + initial_tokens * config.cost <= u64::MAX,
        ensures
            limiter.config == config,
            limiter.state.empty_at == now + initial_tokens * config.cost,
            limiter.queue@ == QueueView::new(),
            limiter.queue@.wf(),
    {
        RateLimiter {
            state: LeakyBucketState::with_initial_tokens(&config, now, initial_tokens),
            config,
            queue: Queue::new(),
        }
    }

    /// One turn of acquiring `count` tokens, for the waiter of `entry`,
    /// which began to wait at `start`.
    ///
    /// Only the holder of the token works on the bucket. Where the tokens
    /// fit they are added, and the caller is done: it releases its entry,
    /// which passes the token on. Where they do not fit, the sleep is
    /// counted, and the caller sleeps until the instant returned. It keeps
    /// the token while it sleeps, so that nobody who arrived later is
    /// served first.
    pub fn acquire(&mut self, entry: &Enqueued, start: u64, now: u64, count: u64) -> (res: Acquire)
        requires
            old(self).queue@.wf(),
            old(self).queue@.sleep_counter < u64::MAX,
            start <= now,
            new_empty_at(old(self).config, old(self).state.empty_at, start, count) <= u64::MAX,
        ensures
            final(self)@ == old(self)@.acquired(entry.id(), start, now, count),
            res == old(self)@.acquire_result(entry.id(), start, now, count),
            final(self).queue@.wf(),
    {
        match self.queue.state_of(entry) {
            queue::WaiterState::Holding => {},
            _ => {
                return Acquire::NotLeader;
            },
        }
        match self.state.add_tokens(&self.config, start, now, count) {
            Ok(()) => Acquire::Done { throttled: self.queue.throttled(entry) },
            Err(ready_at) => {
                self.queue.record_sleep(entry);
                Acquire::SleepUntil(ready_at)
            },
        }
    }
}

} // verus!
