//! The rate limiter: one token bucket per key, with idle buckets swept out as
//! new ones come in.

use crate::bucket::{BucketView, LimitResult, RefillRate, TokenBucket};
use crate::clock::{is_clock_reading, read_clock};
use crate::store::{
    new_store, retain_active, store_bucket, store_is_empty, stored_bucket, stored_count,
};
use dashmap::DashMap;
use std::time::Instant;
use vstd::prelude::*;

verus! {

/// How many new buckets bring on one sweep. A fixed cadence bounds the number
/// of idle buckets between sweeps, whatever the configuration.
pub const EVICT_CHECK_INTERVAL: u64 = 256;

/// The buckets that a sweep at `now` keeps: those that have not been idle for
/// longer than `max_idle_ms` milliseconds, and none where that is zero.
pub open spec fn kept(
    buckets: Map<Seq<char>, BucketView>,
    now: u64,
    max_idle_ms: u64,
) -> Map<Seq<char>, BucketView> {
    buckets.restrict(
        Set::new(
            |key: Seq<char>|
                buckets.dom().contains(key) && buckets[key].active(now, max_idle_ms),
        ),
    )
}

/// The contents of a limiter.
#[verifier::ext_equal]
pub struct StateView {
    /// The bucket of each key.
    pub buckets: Map<Seq<char>, BucketView>,
    /// New buckets since the last sweep.
    pub inserts_since_sweep: u64,
    /// Idle time after which a sweep drops a bucket; no sweeps where it is zero.
    pub max_idle_ms: u64,
}

impl StateView {
    pub open spec fn wf(self) -> bool {
        &&& self.buckets.dom().finite()
        &&& forall|key: Seq<char>| #[trigger]
            self.buckets.dom().contains(key) ==> self.buckets[key].wf()
        &&& self.inserts_since_sweep < EVICT_CHECK_INTERVAL
        &&& self.max_idle_ms == 0 ==> self.inserts_since_sweep == 0
    }

    /// A limiter without buckets.
    pub open spec fn empty(max_idle_ms: u64) -> StateView {
        StateView { buckets: Map::empty(), inserts_since_sweep: 0, max_idle_ms }
    }

    /// The bucket that a request under `key` draws from: a full one where the
    /// key is new.
    pub open spec fn bucket_for(
        self,
        key: Seq<char>,
        capacity: u64,
        window_ms: u64,
        now: u64,
    ) -> BucketView {
        if self.buckets.dom().contains(key) {
            self.buckets[key]
        } else {
            BucketView::fresh(capacity, window_ms, now)
        }
    }

    /// The limiter without the buckets that have been idle for longer than
    /// `max_idle_ms` milliseconds; without any where that is zero.
    pub open spec fn swept(self, now: u64, max_idle_ms: u64) -> StateView {
        StateView { buckets: kept(self.buckets, now, max_idle_ms), ..self }
    }

    /// Whether the next new bucket brings on a sweep.
    pub open spec fn sweep_is_due(self) -> bool {
        self.max_idle_ms > 0 && self.inserts_since_sweep + 1 >= EVICT_CHECK_INTERVAL
    }

    /// The limiter after a new bucket has been counted.
    pub open spec fn ticked(self, now: u64) -> StateView {
        if self.max_idle_ms == 0 {
            self
        } else if self.sweep_is_due() {
            StateView { inserts_since_sweep: 0, ..self.swept(now, self.max_idle_ms) }
        } else {
            StateView { inserts_since_sweep: (self.inserts_since_sweep + 1) as u64, ..self }
        }
    }

    /// The limiter after a request under `key`.
    pub open spec fn checked(
        self,
        key: Seq<char>,
        capacity: u64,
        rate: RefillRate,
        window_ms: u64,
        now: u64,
    ) -> StateView {
        let bucket = self.bucket_for(key, capacity, window_ms, now).consumed(capacity, rate, now);
        let updated = StateView { buckets: self.buckets.insert(key, bucket), ..self };
        if self.buckets.dom().contains(key) {
            updated
        } else {
            updated.ticked(now)
        }
    }

    /// The answer to a request under `key`.
    pub open spec fn answer(
        self,
        key: Seq<char>,
        capacity: u64,
        rate: RefillRate,
        window_ms: u64,
        now: u64,
    ) -> LimitResult {
        self.bucket_for(key, capacity, window_ms, now).answer(capacity, rate, now)
    }
}

/// A rate limiter.
pub struct RateLimitState {
    buckets: DashMap<String, TokenBucket>,
    /// New buckets since the last sweep. Every [`EVICT_CHECK_INTERVAL`] of them
    /// the buckets idle for longer than `max_idle_ms` are dropped, so the map
    /// stays bounded without a background task.
    inserts_since_sweep: u64,
    max_idle_ms: u64,
    /// The reading of the monotonic clock from which ages are counted.
    origin: Instant,
}

impl View for RateLimitState {
    type V = StateView;

    closed spec fn view(&self) -> StateView {
        StateView {
            buckets: crate::store::stored_buckets(self.buckets).map_values(
                |bucket: TokenBucket| bucket@,
            ),
            inserts_since_sweep: self.inserts_since_sweep,
            max_idle_ms: self.max_idle_ms,
        }
    }
}

impl Default for RateLimitState {
    fn default() -> (state: Self)
        ensures
            state.wf(),
            state@ == StateView::empty(0),
    {
        Self::with_eviction(0)
    }
}

impl RateLimitState {
    /// The reading of the monotonic clock from which the limiter counts time.
    pub closed spec fn origin(self) -> Instant {
        self.origin
    }

    pub closed spec fn wf(self) -> bool {
        &&& self@.wf()
        &&& forall|key: Seq<char>| #[trigger]
            crate::store::stored_buckets(self.buckets).dom().contains(key)
                ==> crate::store::stored_buckets(self.buckets)[key].wf()
    }

    /// A well-formed limiter has a well-formed view, and its buckets hold no more
    /// whole tokens than fit in 64 bits.
    pub proof fn lemma_wf(self)
        requires
            self.wf(),
        ensures
            self@.wf(),
            forall|key: Seq<char>| #[trigger]
                self@.buckets.dom().contains(key) ==> self@.buckets[key].whole() <= u64::MAX,
    {
        assert forall|key: Seq<char>| #[trigger]
            self@.buckets.dom().contains(key) implies self@.buckets[key].whole() <= u64::MAX by {
            crate::store::stored_buckets(self.buckets)[key].lemma_wf();
        }
    }

    /// A limiter that keeps every bucket until [`RateLimitState::cleanup`].
    pub fn new() -> (state: Self)
        ensures
            state.wf(),
            state@ == StateView::empty(0),
    {
        Self::default()
    }

    /// A limiter that sweeps out buckets idle for longer than `max_idle_ms`
    /// milliseconds as new ones come in; zero turns sweeping off.
    pub fn with_eviction(max_idle_ms: u64) -> (state: Self)
        ensures
            state.wf(),
            state@ == StateView::empty(max_idle_ms),
    {
        let state = RateLimitState {
            buckets: new_store(),
            inserts_since_sweep: 0,
            max_idle_ms,
            origin: Instant::now(),
        };
        assert(state@.buckets =~= Map::empty());
        state
    }

    /// This moment, in nanoseconds of the monotonic clock.
    pub(crate) fn now(&self) -> (now: u64)
        ensures
            is_clock_reading(self.origin(), now),
    {
        read_clock(&self.origin)
    }

    /// Takes a token from the bucket of `key`, which is created full if there is
    /// none. A new bucket may bring on a sweep.
    pub fn check(&mut self, key: &str, capacity: u64, rate: RefillRate, window_ms: u64) -> (result:
        LimitResult)
        requires
            old(self).wf(),
        ensures
            final(self).wf(),
            final(self).origin() == old(self).origin(),
            exists|now: u64|
                {
                    &&& is_clock_reading(old(self).origin(), now)
                    &&& final(self)@ == #[trigger] old(self)@.checked(
                        key@,
                        capacity,
                        rate,
                        window_ms,
                        now,
                    )
                    &&& result == old(self)@.answer(key@, capacity, rate, window_ms, now)
                },
    {
        let now: u64 = self.now();
        self.check_at(key, capacity, rate, window_ms, now)
    }

    /// [`RateLimitState::check`] at a given clock reading in nanoseconds.
    pub fn check_at(
        &mut self,
        key: &str,
        capacity: u64,
        rate: RefillRate,
        window_ms: u64,
        now: u64,
    ) -> (result: LimitResult)
        requires
            old(self).wf(),
        ensures
            final(self).wf(),
            final(self).origin() == old(self).origin(),
            final(self)@ == old(self)@.checked(key@, capacity, rate, window_ms, now),
            result == old(self)@.answer(key@, capacity, rate, window_ms, now),
    {
        let (mut bucket, inserted) = match stored_bucket(&self.buckets, key) {
            Some(bucket) => (bucket, false),
            None => (TokenBucket::new(capacity, window_ms, now), true),
        };
        let result = bucket.try_consume(capacity, rate, now);
        store_bucket(&mut self.buckets, key.to_owned(), bucket);
        proof {
            bucket.lemma_wf();
            assert(self@.buckets =~= old(self)@.buckets.insert(key@, bucket@));
        }
        if inserted {
            self.maybe_evict(now);
        }
        result
    }

    /// Counts a new bucket and sweeps idle ones when enough have come in.
    fn maybe_evict(&mut self, now: u64)
        requires
            old(self).wf(),
        ensures
            final(self).wf(),
            final(self).origin() == old(self).origin(),
            final(self)@ == old(self)@.ticked(now),
    {
        if self.max_idle_ms == 0 {
            return;
        }
        let n: u64 = self.inserts_since_sweep + 1;
        if n >= EVICT_CHECK_INTERVAL {
            self.inserts_since_sweep = 0;
            self.cleanup_at(self.max_idle_ms, now);
        } else {
            self.inserts_since_sweep = n;
        }
    }

    /// Drops the buckets that have been idle for longer than `max_idle_ms`
    /// milliseconds, and every bucket where that is zero.
    pub fn cleanup(&mut self, max_idle_ms: u64)
        requires
            old(self).wf(),
        ensures
            final(self).wf(),
            final(self).origin() == old(self).origin(),
            exists|now: u64|
                {
                    &&& is_clock_reading(old(self).origin(), now)
                    &&& final(self)@ == #[trigger] old(self)@.swept(now, max_idle_ms)
                },
    {
        let now: u64 = self.now();
        self.cleanup_at(max_idle_ms, now);
    }

    /// [`RateLimitState::cleanup`] at a given clock reading in nanoseconds.
    pub fn cleanup_at(&mut self, max_idle_ms: u64, now: u64)
        requires
            old(self).wf(),
        ensures
            final(self).wf(),
            final(self).origin() == old(self).origin(),
            final(self)@ == old(self)@.swept(now, max_idle_ms),
    {
        retain_active(&mut self.buckets, now, max_idle_ms);
        proof {
            assert(self@.buckets =~= kept(old(self)@.buckets, now, max_idle_ms));
            assert(self@.buckets.dom().subset_of(old(self)@.buckets.dom()));
            vstd::set_lib::lemma_len_subset(self@.buckets.dom(), old(self)@.buckets.dom());
        }
    }

    /// The number of tracked keys.
    pub fn len(&self) -> (count: usize)
        ensures
            count == self@.buckets.len(),
    {
        assert(self@.buckets.dom() =~= crate::store::stored_buckets(self.buckets).dom());
        stored_count(&self.buckets)
    }

    /// Whether no key is tracked.
    pub fn is_empty(&self) -> (empty: bool)
        ensures
            empty == (self@.buckets.len() == 0),
    {
        assert(self@.buckets.dom() =~= crate::store::stored_buckets(self.buckets).dom());
        store_is_empty(&self.buckets)
    }
}

} // verus!
