use pageserver_core::leaky_bucket::{LeakyBucketConfig, LeakyBucketState};

const MS: u64 = 1_000_000;
const SEC: u64 = 1_000 * MS;

#[test]
fn check() {
    let config = LeakyBucketConfig {
        // average 100rps
        cost: 10 * MS,
        // burst up to 100 requests
        bucket_width: 1000 * MS,
    };

    let mut now: u64 = 5 * SEC;
    let mut state = LeakyBucketState { empty_at: now };

    // supports burst
    {
        // should work for 100 requests this instant
        for _ in 0..100 {
            state.add_tokens(&config, now, now, 1).unwrap();
        }
        let ready = state.add_tokens(&config, now, now, 1).unwrap_err();
        assert_eq!(ready - now, 10 * MS);
    }

    // doesn't overfill
    {
        // after 1s we should have an empty bucket again.
        now += SEC;
        assert!(state.bucket_is_empty(now));

        // after 1s more, we should not over count the tokens and allow more than 200 requests.
        now += SEC;
        for _ in 0..100 {
            state.add_tokens(&config, now, now, 1).unwrap();
        }
        let ready = state.add_tokens(&config, now, now, 1).unwrap_err();
        assert_eq!(ready - now, 10 * MS);
    }

    // supports sustained rate over a long period
    {
        now += SEC;

        // should sustain 100rps
        for _ in 0..2000 {
            now += 10 * MS;
            state.add_tokens(&config, now, now, 1).unwrap();
        }
    }

    // supports requesting more tokens than can be stored in the bucket
    // we just wait a little bit longer upfront.
    {
        // start the bucket completely empty
        now += 5 * SEC;
        assert!(state.bucket_is_empty(now));

        // requesting 200 tokens of space should take 200*cost = 2s
        // but we already have 1s available, so we wait 1s from start.
        let start = now;

        let ready = state.add_tokens(&config, start, now, 200).unwrap_err();
        assert_eq!(ready - now, SEC);

        now += 500 * MS;
        let ready = state.add_tokens(&config, start, now, 200).unwrap_err();
        assert_eq!(ready - now, 500 * MS);

        now += 500 * MS;
        state.add_tokens(&config, start, now, 200).unwrap();

        // bucket should be completely full now
        let ready = state.add_tokens(&config, now, now, 1).unwrap_err();
        assert_eq!(ready - now, 10 * MS);
    }
}
