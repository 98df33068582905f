use mcpg_plugin_reliability_rate_limit::{
    LimitResult, RateLimitState, RefillRate, RetryAfter, TokenBucket, EVICT_CHECK_INTERVAL,
};

const MILLI: u64 = 1_000_000;
const SECOND: u64 = 1_000_000_000;

fn one_per_ms() -> RefillRate {
    RefillRate::new(1, 1)
}

#[test]
fn new_bucket_starts_full() {
    let mut state = RateLimitState::new();
    let result = state.check("key1", 10, one_per_ms(), 60);
    assert!(result.allowed);
    assert_eq!(result.remaining, 9);
}

#[test]
fn exhaustion_denies() {
    let mut state = RateLimitState::new();
    for _ in 0..5 {
        let r = state.check_at("key1", 5, one_per_ms(), 60, 0);
        assert!(r.allowed);
    }
    let r = state.check_at("key1", 5, one_per_ms(), 60, 0);
    assert!(!r.allowed);
    assert!(r.retry_after.numerator > 0);
}

#[test]
fn different_keys_are_isolated() {
    let mut state = RateLimitState::new();
    for _ in 0..3 {
        state.check_at("a", 3, one_per_ms(), 60, 0);
    }
    assert!(!state.check_at("a", 3, one_per_ms(), 60, 0).allowed);
    assert!(state.check_at("b", 3, one_per_ms(), 60, 0).allowed);
}

#[test]
fn cleanup_removes_idle_entries() {
    let mut state = RateLimitState::new();
    state.check("active", 10, one_per_ms(), 60);
    assert_eq!(state.len(), 1);
    // With max_idle_ms=0, everything is "idle"
    state.cleanup(0);
    assert_eq!(state.len(), 0);
}

#[test]
fn opportunistic_eviction_sweeps_idle_buckets() {
    // 1ms idle threshold so the early buckets are evictable a little later.
    let mut state = RateLimitState::with_eviction(1);
    // Fill to just below the sweep threshold: no sweep fires yet.
    for i in 0..(EVICT_CHECK_INTERVAL - 1) {
        state.check_at(&format!("k{i}"), 10, one_per_ms(), 60, 0);
    }
    assert_eq!(state.len() as u64, EVICT_CHECK_INTERVAL - 1);
    // The next new bucket crosses EVICT_CHECK_INTERVAL and triggers a sweep;
    // every idle bucket is evicted, only the just-created one survives.
    state.check_at("trigger", 10, one_per_ms(), 60, 5 * MILLI);
    assert_eq!(
        state.len(),
        1,
        "idle buckets must be swept on the eviction tick"
    );
}

#[test]
fn auto_eviction_disabled_without_config() {
    let mut state = RateLimitState::new();
    for i in 0..(EVICT_CHECK_INTERVAL + 10) {
        state.check(&format!("k{i}"), 10, one_per_ms(), 60);
    }
    assert_eq!(state.len() as u64, EVICT_CHECK_INTERVAL + 10);
}

#[test]
fn refill_accrues_tokens_per_millisecond() {
    let mut state = RateLimitState::new();
    let refill_rate = RefillRate::new(1000, 1000);
    assert!(state.check_at("k", 1, refill_rate, 1000, 0).allowed);
    assert!(
        state.check_at("k", 1, refill_rate, 1000, 5 * MILLI).allowed,
        "refill must accrue tokens per millisecond, not per second"
    );
}

#[test]
fn the_default_limiter_is_a_new_one() {
    let state = RateLimitState::default();
    assert!(state.is_empty());
    assert_eq!(state.len(), 0);
}

#[test]
fn emptiness_follows_the_buckets() {
    let mut state = RateLimitState::new();
    assert!(state.is_empty());
    state.check_at("k", 1, one_per_ms(), 1, 0);
    assert!(!state.is_empty());
    assert_eq!(state.len(), 1);
    state.check_at("k", 1, one_per_ms(), 1, 0);
    assert_eq!(state.len(), 1);
}

#[test]
fn a_bucket_is_found_again_by_its_key() {
    let mut state = RateLimitState::new();
    assert_eq!(state.check_at("k", 3, one_per_ms(), 1, 0).remaining, 2);
    assert_eq!(state.check_at("l", 7, one_per_ms(), 1, 0).remaining, 6);
    assert_eq!(state.check_at("k", 3, one_per_ms(), 1, 0).remaining, 1);
    assert_eq!(state.check_at("l", 7, one_per_ms(), 1, 0).remaining, 5);
}

#[test]
fn cleanup_keeps_recently_used_buckets() {
    let mut state = RateLimitState::new();
    state.check_at("old", 1, one_per_ms(), 1, 0);
    state.check_at("new", 1, one_per_ms(), 1, 4 * MILLI);
    // "old" has been idle for ten milliseconds, "new" for six.
    state.cleanup_at(10, 10 * MILLI);
    assert_eq!(state.len(), 2);
    state.cleanup_at(9, 10 * MILLI);
    assert_eq!(state.len(), 1);
    state.cleanup_at(6, 10 * MILLI);
    assert_eq!(state.len(), 1);
    state.cleanup_at(5, 10 * MILLI);
    assert_eq!(state.len(), 0);
}

#[test]
fn a_bucket_idle_for_exactly_the_interval_is_kept() {
    let mut state = RateLimitState::new();
    state.check_at("k", 1, one_per_ms(), 1, 0);
    state.cleanup_at(10, 10 * MILLI);
    assert_eq!(state.len(), 1);
    state.cleanup_at(10, 10 * MILLI + 1);
    assert_eq!(state.len(), 0);
}

#[test]
fn a_cleanup_without_idle_time_drops_a_bucket_just_used() {
    let mut state = RateLimitState::new();
    state.check_at("k", 1, one_per_ms(), 1, 10 * MILLI);
    state.cleanup_at(0, 10 * MILLI);
    assert!(state.is_empty());
}

#[test]
fn a_sweep_keeps_a_bucket_idle_for_exactly_the_interval() {
    let hourly = RefillRate::new(1, 3_600_000);
    let mut state = RateLimitState::with_eviction(10);
    state.check_at("k", 1, hourly, 3_600_000, 0);
    for i in 1..EVICT_CHECK_INTERVAL {
        state.check_at(&format!("other-{i}"), 1, hourly, 3_600_000, 10 * MILLI);
    }
    assert_eq!(state.len() as u64, EVICT_CHECK_INTERVAL);
    assert!(!state.check_at("k", 1, hourly, 3_600_000, 10 * MILLI).allowed);
}

#[test]
fn a_dropped_bucket_comes_back_full() {
    let mut state = RateLimitState::new();
    let hourly = RefillRate::new(1, 3_600_000);
    assert!(state.check_at("k", 1, hourly, 3_600_000, 0).allowed);
    assert!(!state.check_at("k", 1, hourly, 3_600_000, 0).allowed);
    state.cleanup_at(0, 0);
    assert!(state.check_at("k", 1, hourly, 3_600_000, 0).allowed);
}

#[test]
fn sweeps_come_every_interval_of_new_buckets() {
    let mut state = RateLimitState::with_eviction(1);
    for round in 0..3u64 {
        for i in 0..EVICT_CHECK_INTERVAL {
            state.check_at(&format!("r{round}k{i}"), 10, one_per_ms(), 60, round * SECOND);
            // A known key does not count towards the next sweep.
            state.check_at(&format!("r{round}k{i}"), 10, one_per_ms(), 60, round * SECOND);
        }
        // All buckets of this round are in use; those of earlier rounds are gone.
        assert_eq!(state.len() as u64, EVICT_CHECK_INTERVAL);
    }
}

#[test]
fn a_burst_then_the_steady_rate() {
    // Ten per minute with room for twenty.
    let rate = RefillRate::new(10, 60_000);
    let mut state = RateLimitState::new();
    for _ in 0..20 {
        assert!(state.check_at("k", 20, rate, 60_000, 0).allowed);
    }
    assert!(!state.check_at("k", 20, rate, 60_000, 0).allowed);
    for window in 1..4u64 {
        let now = window * 60 * SECOND;
        for _ in 0..10 {
            assert!(state.check_at("k", 20, rate, 60_000, now).allowed);
        }
        assert!(!state.check_at("k", 20, rate, 60_000, now).allowed);
    }
}

#[test]
fn the_hint_says_exactly_when_to_come_back() {
    // Ten per minute: a token every six seconds.
    let rate = RefillRate::new(10, 60_000);
    let mut state = RateLimitState::new();
    assert!(state.check_at("k", 1, rate, 60_000, 0).allowed);
    let denied = state.check_at("k", 1, rate, 60_000, SECOND);
    assert_eq!(
        denied,
        LimitResult {
            allowed: false,
            remaining: 0,
            limit: 1,
            retry_after: RetryAfter { numerator: 50_000_000_000, denominator: 10 },
        }
    );
    assert!(!state.check_at("k", 1, rate, 60_000, 6 * SECOND - 1).allowed);
    assert!(state.check_at("k", 1, rate, 60_000, 6 * SECOND).allowed);
}

#[test]
fn refilling_in_steps_loses_nothing() {
    // Seven per second does not divide evenly into nanoseconds.
    let rate = RefillRate::new(7, 1000);
    let mut state = RateLimitState::new();
    for _ in 0..7 {
        assert!(state.check_at("k", 7, rate, 1000, 0).allowed);
    }
    let mut passed = 0;
    for step in 1..=1000u64 {
        if state.check_at("k", 7, rate, 1000, step * MILLI).allowed {
            passed += 1;
        }
    }
    assert_eq!(passed, 7);
}

#[test]
fn the_balance_is_capped_at_the_capacity() {
    let mut state = RateLimitState::new();
    state.check_at("k", 3, one_per_ms(), 1, 0);
    let r = state.check_at("k", 3, one_per_ms(), 1, 1000 * SECOND);
    assert_eq!(r.remaining, 2);
}

#[test]
fn nothing_accrues_at_rate_zero() {
    let rate = RefillRate::new(0, 60);
    let mut state = RateLimitState::new();
    assert!(state.check_at("k", 1, rate, 60, 0).allowed);
    let r = state.check_at("k", 1, rate, 60, u64::MAX);
    assert!(!r.allowed);
    // The hint is then a whole window.
    assert_eq!(r.retry_after, RetryAfter { numerator: 60_000_000, denominator: 1 });
}

#[test]
fn a_capacity_of_zero_lets_nothing_through() {
    let mut state = RateLimitState::new();
    assert!(!state.check_at("k", 0, one_per_ms(), 1, 0).allowed);
    assert!(!state.check_at("k", 0, one_per_ms(), 1, 1000 * SECOND).allowed);
}

#[test]
fn a_window_of_zero_refills_at_once() {
    let rate = RefillRate::new(5, 0);
    let mut state = RateLimitState::new();
    assert!(state.check_at("k", 1, rate, 0, 0).allowed);
    let r = state.check_at("k", 1, rate, 0, 0);
    assert!(!r.allowed);
    assert_eq!(r.retry_after, RetryAfter { numerator: 0, denominator: 1 });
    assert!(state.check_at("k", 1, rate, 0, 1).allowed);
}

#[test]
fn a_clock_that_stands_still_or_goes_back_adds_nothing() {
    let mut state = RateLimitState::new();
    assert!(state.check_at("k", 1, one_per_ms(), 1, 10 * MILLI).allowed);
    assert!(!state.check_at("k", 1, one_per_ms(), 1, 10 * MILLI).allowed);
    assert!(!state.check_at("k", 1, one_per_ms(), 1, 0).allowed);
    assert!(state.check_at("k", 1, one_per_ms(), 1, 11 * MILLI).allowed);
}

#[test]
fn rates_with_other_windows_share_a_balance() {
    // Half a token accrues under one window; the other half under another.
    let mut state = RateLimitState::new();
    let slow = RefillRate::new(1, 1000);
    let fast = RefillRate::new(1, 10);
    assert!(state.check_at("k", 1, slow, 1000, 0).allowed);
    assert!(!state.check_at("k", 1, slow, 1000, 500 * MILLI).allowed);
    assert!(!state.check_at("k", 1, fast, 10, 504 * MILLI).allowed);
    assert!(state.check_at("k", 1, fast, 10, 505 * MILLI).allowed);
}

#[test]
fn the_largest_limits_do_not_overflow() {
    let rate = RefillRate::new(u64::MAX, u64::MAX);
    let mut bucket = TokenBucket::new(u64::MAX, u64::MAX, 0);
    let r = bucket.try_consume(u64::MAX, rate, u64::MAX);
    assert!(r.allowed);
    assert_eq!(r.remaining, u64::MAX - 1);
    bucket.refill(u64::MAX, RefillRate::new(u64::MAX, 1), u64::MAX);
    let r = bucket.try_consume(1, RefillRate::new(1, u64::MAX), u64::MAX);
    assert_eq!(r.remaining, u64::MAX - 2);
}

#[test]
fn a_bucket_is_active_until_its_idle_time_is_over() {
    let bucket = TokenBucket::new(1, 1, 5 * MILLI);
    assert!(bucket.is_active(5 * MILLI, 1));
    assert!(!bucket.is_active(5 * MILLI, 0));
    assert!(bucket.is_active(0, 1));
    assert!(!bucket.is_active(0, 0));
    assert!(bucket.is_active(6 * MILLI, 1));
    assert!(!bucket.is_active(6 * MILLI + 1, 1));
    assert!(bucket.is_active(u64::MAX, u64::MAX));
}

#[test]
fn the_machine_clock_refills_buckets() {
    let mut state = RateLimitState::new();
    assert!(state.check("k", 1, one_per_ms(), 1).allowed);
    let mut passed = false;
    for _ in 0..50_000_000u64 {
        if state.check("k", 1, one_per_ms(), 1).allowed {
            passed = true;
            break;
        }
    }
    assert!(passed);
}

#[test]
fn a_caller_that_keeps_to_the_rate_is_never_turned_away() {
    // Ten per minute: a token every six seconds.
    let rate = RefillRate::new(10, 60_000);
    let mut state = RateLimitState::new();
    for i in 0..100u64 {
        assert!(state.check_at("k", 1, rate, 60_000, i * 6 * SECOND).allowed);
    }
}

#[test]
fn other_keys_make_no_difference() {
    let rate = RefillRate::new(3, 1000);
    let mut alone = RateLimitState::new();
    let mut crowded = RateLimitState::new();
    for i in 0..50u64 {
        let now = i * 97 * MILLI;
        crowded.check_at("noisy", 3, rate, 1000, now);
        let a = alone.check_at("k", 3, rate, 1000, now);
        let b = crowded.check_at("k", 3, rate, 1000, now);
        crowded.check_at("noisy", 3, rate, 1000, now);
        assert_eq!(a, b);
    }
}

#[test]
fn no_key_exceeds_its_rate() {
    // Two per 100 milliseconds with room for five, asked for every millisecond
    // over a second: five at once and twenty that accrue.
    let rate = RefillRate::new(2, 100);
    let mut state = RateLimitState::with_eviction(1000);
    let mut passed = 0;
    for i in 0..=1000u64 {
        if state.check_at("k", 5, rate, 100, i * MILLI).allowed {
            passed += 1;
        }
    }
    assert_eq!(passed, 25);
}

#[test]
fn an_idle_bucket_is_as_good_as_new() {
    let rate = RefillRate::new(2, 100);
    let mut used = TokenBucket::new(4, 100, 0);
    for _ in 0..4 {
        used.try_consume(4, rate, 0);
    }
    let later = 200 * MILLI;
    let mut fresh = TokenBucket::new(4, 100, later);
    for _ in 0..6 {
        assert_eq!(used.try_consume(4, rate, later), fresh.try_consume(4, rate, later));
    }
}

#[test]
fn a_change_of_window_leaves_the_balance_alone() {
    let two_ms = RefillRate::new(1, 2);
    let ten_ms = RefillRate::new(1, 10);
    let mut bucket = TokenBucket::new(1, 2, 0);
    assert!(bucket.try_consume(1, two_ms, 0).allowed);
    let r = bucket.try_consume(1, two_ms, MILLI);
    assert_eq!(r.retry_after, RetryAfter { numerator: 1_000_000, denominator: 1 });
    // Half a token is missing: five milliseconds by the slower rate.
    let r = bucket.try_consume(1, ten_ms, MILLI);
    assert_eq!(r.retry_after, RetryAfter { numerator: 5_000_000, denominator: 1 });
    let r = bucket.try_consume(1, two_ms, MILLI);
    assert_eq!(r.retry_after, RetryAfter { numerator: 1_000_000, denominator: 1 });
    assert!(bucket.try_consume(1, two_ms, 2 * MILLI).allowed);
}

#[test]
fn rules_that_take_turns_do_not_wear_a_balance_away() {
    // Between two requests under the slow rule less than a millionth of a token
    // accrues, and a request under the other comes each time.
    let slow = RefillRate::new(1, 60);
    let never = RefillRate::new(0, 1);
    let mut bucket = TokenBucket::new(1, 60, 0);
    assert!(bucket.try_consume(1, slow, 0).allowed);
    let mut passed_at = 0;
    let mut now = 0;
    while passed_at == 0 && now < 100 * MILLI {
        now += 50;
        if bucket.try_consume(1, slow, now).allowed {
            passed_at = now;
        }
        bucket.try_consume(1, never, now);
    }
    assert_eq!(passed_at, 60 * MILLI);
}

#[test]
fn shares_of_three_windows_add_up() {
    // A third of a token, and two sevenths, and eight twenty-firsts.
    let mut bucket = TokenBucket::new(1, 3, 0);
    assert!(bucket.try_consume(1, RefillRate::new(1, 3), 0).allowed);
    assert!(!bucket.try_consume(1, RefillRate::new(1, 3), MILLI).allowed);
    assert!(!bucket.try_consume(1, RefillRate::new(1, 7), 3 * MILLI).allowed);
    assert!(!bucket.try_consume(1, RefillRate::new(1, 21), 11 * MILLI - 1).allowed);
    assert!(bucket.try_consume(1, RefillRate::new(1, 21), 11 * MILLI).allowed);
}

#[test]
fn windows_without_a_common_unit_cost_next_to_nothing() {
    let two_ms = RefillRate::new(1, 2);
    let ages = RefillRate::new(1, u64::MAX);
    let mut bucket = TokenBucket::new(1, 2, 0);
    assert!(bucket.try_consume(1, two_ms, 0).allowed);
    assert!(!bucket.try_consume(1, two_ms, MILLI).allowed);
    assert!(!bucket.try_consume(1, ages, MILLI + 1).allowed);
    assert!(!bucket.try_consume(1, two_ms, 2 * MILLI).allowed);
    assert!(bucket.try_consume(1, two_ms, 2 * MILLI + 1).allowed);
}

#[test]
fn a_key_in_use_does_not_exceed_its_rate_either() {
    // The bucket has been in use, and is within its capacity of five.
    let rate = RefillRate::new(2, 100);
    let mut state = RateLimitState::new();
    for i in 0..7u64 {
        state.check_at("k", 5, rate, 100, i * 20 * MILLI);
    }
    let mut passed = 0;
    for i in 0..=1000u64 {
        if state.check_at("k", 5, rate, 100, 120 * MILLI + i * MILLI).allowed {
            passed += 1;
        }
    }
    assert!(passed <= 25);
    assert!(passed >= 20);
}

#[test]
fn a_bucket_above_its_capacity_is_cut_down_and_held_to_the_rate() {
    // A rule with room for twenty has filled the bucket; the rule that is asked
    // for from then on has room for five, two of them per 100 milliseconds.
    let wide = RefillRate::new(20, 100);
    let rate = RefillRate::new(2, 100);
    let mut state = RateLimitState::new();
    assert_eq!(state.check_at("k", 20, wide, 100, 0).remaining, 19);
    let mut passed = 0;
    for i in 0..=1000u64 {
        if state.check_at("k", 5, rate, 100, MILLI + i * MILLI).allowed {
            passed += 1;
        }
    }
    assert_eq!(passed, 25);
}

#[test]
fn a_bucket_above_its_capacity_refills_continuously() {
    let rate = RefillRate::new(1, 10);
    let mut stepped = TokenBucket::new(9, 10, 0);
    let mut straight = TokenBucket::new(9, 10, 0);
    stepped.refill(4, rate, 3 * MILLI);
    stepped.refill(4, rate, 8 * MILLI);
    straight.refill(4, rate, 8 * MILLI);
    let expected = straight.try_consume(4, rate, 8 * MILLI);
    assert_eq!(stepped.try_consume(4, rate, 8 * MILLI), expected);
    assert_eq!(expected.remaining, 3);
}

#[test]
fn other_keys_make_no_difference_where_a_key_outlives_the_sweeps() {
    let rate = RefillRate::new(3, 1000);
    let mut alone = RateLimitState::with_eviction(100);
    let mut crowded = RateLimitState::with_eviction(100);
    for i in 0..20u64 {
        let now = i * 97 * MILLI;
        for j in 0..EVICT_CHECK_INTERVAL {
            crowded.check_at(&format!("other-{i}-{j}"), 3, rate, 1000, now);
        }
        let a = alone.check_at("k", 3, rate, 1000, now);
        let b = crowded.check_at("k", 3, rate, 1000, now);
        assert_eq!(a, b);
    }
    // Sweeps have taken place: not every key is still there.
    assert!((crowded.len() as u64) < 10 * EVICT_CHECK_INTERVAL);
}
