//! What holds of the limiter as a whole: keys do not disturb one another, sweeps
//! drop idle buckets only, and no key gets more than its rate.

use crate::bucket::{BucketView, RefillRate};
use crate::limiter::{StateView, EVICT_CHECK_INTERVAL};
use vstd::prelude::*;

verus! {

/// A request to the limiter.
pub struct Request {
    pub key: Seq<char>,
    pub capacity: u64,
    pub rate: RefillRate,
    pub window_ms: u64,
    pub now: u64,
}

impl Request {
    /// The limiter after the request.
    pub open spec fn after(self, s: StateView) -> StateView {
        s.checked(self.key, self.capacity, self.rate, self.window_ms, self.now)
    }

    /// Whether the request is let through.
    pub open spec fn passes(self, s: StateView) -> bool {
        s.answer(self.key, self.capacity, self.rate, self.window_ms, self.now).allowed
    }

    /// Whether the request brings on a sweep.
    pub open spec fn sweeps(self, s: StateView) -> bool {
        !s.buckets.dom().contains(self.key) && s.sweep_is_due()
    }
}

/// A request leaves the limiter well-formed.
pub proof fn law_limiter_stays_well_formed(s: StateView, r: Request)
    requires
        s.wf(),
    ensures
        r.after(s).wf(),
        r.after(s).max_idle_ms == s.max_idle_ms,
{
    let b = s.bucket_for(r.key, r.capacity, r.window_ms, r.now);
    crate::bucket_laws::law_bucket_stays_well_formed(b, r.capacity, r.rate, r.now);
    let updated = s.buckets.insert(r.key, b.consumed(r.capacity, r.rate, r.now));
    let after = r.after(s);
    assert(after.buckets.dom().subset_of(updated.dom()));
    vstd::set_lib::lemma_len_subset(after.buckets.dom(), updated.dom());
    assert forall|key: Seq<char>| #[trigger]
        after.buckets.dom().contains(key) implies after.buckets[key].wf() by {
        assert(updated.dom().contains(key));
        assert(after.buckets[key] == updated[key]);
        if key != r.key {
            assert(s.buckets.dom().contains(key));
        }
    }
}

/// A request's own bucket is there afterwards, as the request left it, even
/// where the request brought on a sweep.
pub proof fn law_own_bucket_is_kept(s: StateView, r: Request)
    requires
        s.wf(),
    ensures
        r.after(s).buckets.dom().contains(r.key),
        r.after(s).buckets[r.key] == s.bucket_for(
            r.key,
            r.capacity,
            r.window_ms,
            r.now,
        ).consumed(r.capacity, r.rate, r.now),
{
}

/// Keys are isolated: a request changes no bucket but its own. Other buckets go
/// only in a sweep, and then exactly those that have been idle for too long.
pub proof fn law_keys_are_isolated(s: StateView, r: Request, other: Seq<char>)
    requires
        s.wf(),
        other != r.key,
    ensures
        r.after(s).buckets.dom().contains(other) ==> {
            &&& s.buckets.dom().contains(other)
            &&& r.after(s).buckets[other] == s.buckets[other]
        },
        s.buckets.dom().contains(other) ==> (r.after(s).buckets.dom().contains(other)
            <==> !r.sweeps(s) || s.buckets[other].active(r.now, s.max_idle_ms)),
{
}

/// What one key asks does not change what another is told, unless it sweeps out
/// the other's idle bucket.
pub proof fn law_answers_are_isolated(s: StateView, first: Request, second: Request)
    requires
        s.wf(),
        first.key != second.key,
        first.sweeps(s) && s.buckets.dom().contains(second.key)
            ==> s.buckets[second.key].active(first.now, s.max_idle_ms),
    ensures
        second.passes(first.after(s)) == second.passes(s),
        first.after(s).answer(
            second.key,
            second.capacity,
            second.rate,
            second.window_ms,
            second.now,
        ) == s.answer(
            second.key,
            second.capacity,
            second.rate,
            second.window_ms,
            second.now,
        ),
{
    law_keys_are_isolated(s, first, second.key);
}

/// A cleanup keeps the recently used buckets, as they are, and drops the rest.
pub proof fn law_cleanup_drops_exactly_the_idle(
    s: StateView,
    now: u64,
    max_idle_ms: u64,
    key: Seq<char>,
)
    ensures
        s.swept(now, max_idle_ms).buckets.dom().contains(key) <==> s.buckets.dom().contains(key)
            && s.buckets[key].active(now, max_idle_ms),
        s.swept(now, max_idle_ms).buckets.dom().contains(key) ==> s.swept(
            now,
            max_idle_ms,
        ).buckets[key] == s.buckets[key],
{
}

/// With an idle time of zero a cleanup drops every bucket.
pub proof fn law_cleanup_without_idle_time_drops_everything(s: StateView, now: u64)
    requires
        s.wf(),
    ensures
        s.swept(now, 0).buckets == Map::<Seq<char>, BucketView>::empty(),
        s.swept(now, 0).buckets.len() == 0,
{
    assert(s.swept(now, 0).buckets =~= Map::empty());
    assert(s.swept(now, 0).buckets.dom() =~= Set::empty());
}

/// The limiter after a run of requests.
pub open spec fn after_all(s: StateView, requests: Seq<Request>) -> StateView
    decreases requests.len(),
{
    if requests.len() == 0 {
        s
    } else {
        requests.last().after(after_all(s, requests.drop_last()))
    }
}

/// How many requests of a run under `key` are let through.
pub open spec fn admitted_under(s: StateView, requests: Seq<Request>, key: Seq<char>) -> int
    decreases requests.len(),
{
    if requests.len() == 0 {
        0
    } else {
        let before = requests.drop_last();
        let last = requests.last();
        admitted_under(s, before, key) + if last.key == key && last.passes(after_all(s, before)) {
            1int
        } else {
            0
        }
    }
}

/// A run of requests leaves the limiter well-formed.
pub proof fn law_limiter_stays_well_formed_throughout(s: StateView, requests: Seq<Request>)
    requires
        s.wf(),
    ensures
        after_all(s, requests).wf(),
        after_all(s, requests).max_idle_ms == s.max_idle_ms,
    decreases requests.len(),
{
    if requests.len() > 0 {
        law_limiter_stays_well_formed_throughout(s, requests.drop_last());
        law_limiter_stays_well_formed(after_all(s, requests.drop_last()), requests.last());
    }
}

/// No request of a run sweeps the bucket of `key` out.
pub open spec fn spared(s: StateView, requests: Seq<Request>, key: Seq<char>) -> bool
    decreases requests.len(),
{
    requests.len() == 0 || {
        let t = after_all(s, requests.drop_last());
        &&& spared(s, requests.drop_last(), key)
        &&& t.buckets.dom().contains(key) ==> requests.last().after(t).buckets.dom().contains(key)
    }
}

/// A limiter that does not sweep spares every bucket.
pub proof fn law_no_sweeps_spare_every_bucket(
    s: StateView,
    requests: Seq<Request>,
    key: Seq<char>,
)
    requires
        s.wf(),
        s.max_idle_ms == 0,
    ensures
        spared(s, requests, key),
    decreases requests.len(),
{
    if requests.len() > 0 {
        law_no_sweeps_spare_every_bucket(s, requests.drop_last(), key);
        law_limiter_stays_well_formed_throughout(s, requests.drop_last());
    }
}

/// A key whose bucket is not swept out is not forgotten.
pub proof fn law_spared_key_is_not_forgotten(
    s: StateView,
    requests: Seq<Request>,
    key: Seq<char>,
)
    requires
        s.wf(),
        s.max_idle_ms == 0 || spared(s, requests, key),
        s.buckets.dom().contains(key) || exists|i: int|
            0 <= i < requests.len() && (#[trigger] requests[i]).key == key,
    ensures
        after_all(s, requests).buckets.dom().contains(key),
    decreases requests.len(),
{
    if requests.len() > 0 {
        let before = requests.drop_last();
        law_limiter_stays_well_formed_throughout(s, before);
        if requests.last().key != key {
            if !s.buckets.dom().contains(key) {
                let i = choose|i: int|
                    0 <= i < requests.len() && (#[trigger] requests[i]).key == key;
                assert(before[i].key == key);
            }
            law_spared_key_is_not_forgotten(s, before, key);
        }
    }
}

/// A sweep leaves only buckets that were used recently, and starts the count of
/// new buckets afresh.
pub proof fn law_sweep_leaves_active_buckets_only(s: StateView, r: Request, key: Seq<char>)
    requires
        s.wf(),
        r.sweeps(s),
        r.after(s).buckets.dom().contains(key),
    ensures
        r.after(s).buckets[key].active(r.now, s.max_idle_ms),
        r.after(s).inserts_since_sweep == 0,
{
}

/// The number of buckets that the last sweep of a run left, or the number at the
/// start where there was none.
pub open spec fn left_by_last_sweep(s: StateView, requests: Seq<Request>) -> int
    decreases requests.len(),
{
    if requests.len() == 0 {
        s.buckets.len() as int
    } else {
        let before = after_all(s, requests.drop_last());
        if requests.last().sweeps(before) {
            requests.last().after(before).buckets.len() as int
        } else {
            left_by_last_sweep(s, requests.drop_last())
        }
    }
}

/// The keys cannot pile up: a limiter that sweeps never holds more than
/// [`EVICT_CHECK_INTERVAL`] buckets beyond those that its last sweep left.
pub proof fn law_growth_is_bounded(s: StateView, requests: Seq<Request>)
    requires
        s.wf(),
        s.max_idle_ms > 0,
    ensures
        after_all(s, requests).buckets.len() < left_by_last_sweep(s, requests)
            + EVICT_CHECK_INTERVAL,
{
    lemma_growth(s, requests);
    law_limiter_stays_well_formed_throughout(s, requests);
}

proof fn lemma_growth(s: StateView, requests: Seq<Request>)
    requires
        s.wf(),
        s.max_idle_ms > 0,
    ensures
        after_all(s, requests).buckets.len() <= left_by_last_sweep(s, requests) + after_all(
            s,
            requests,
        ).inserts_since_sweep,
    decreases requests.len(),
{
    if requests.len() > 0 {
        let before = requests.drop_last();
        let r = requests.last();
        lemma_growth(s, before);
        law_limiter_stays_well_formed_throughout(s, before);
        let t = after_all(s, before);
        if !r.sweeps(t) {
            let bucket = t.bucket_for(r.key, r.capacity, r.window_ms, r.now).consumed(
                r.capacity,
                r.rate,
                r.now,
            );
            assert(r.after(t).buckets == t.buckets.insert(r.key, bucket));
            assert(r.after(t).buckets.dom() =~= t.buckets.dom().insert(r.key));
        }
    }
}

/// The requests of a run under one key.
pub open spec fn requests_under(requests: Seq<Request>, key: Seq<char>) -> Seq<Request>
    decreases requests.len(),
{
    if requests.len() == 0 {
        Seq::empty()
    } else {
        let before = requests_under(requests.drop_last(), key);
        if requests.last().key == key {
            before.push(requests.last())
        } else {
            before
        }
    }
}

/// Where its bucket is not swept out, requests under other keys make no difference to a
/// key: its bucket, and the number of its requests that are let through, are
/// those of a run of its own requests alone.
pub proof fn law_other_keys_make_no_difference(
    s: StateView,
    requests: Seq<Request>,
    key: Seq<char>,
)
    requires
        s.wf(),
        s.max_idle_ms == 0 || spared(s, requests, key),
    ensures
        after_all(s, requests).buckets.dom().contains(key) <==> after_all(
            s,
            requests_under(requests, key),
        ).buckets.dom().contains(key),
        after_all(s, requests).buckets.dom().contains(key) ==> after_all(
            s,
            requests,
        ).buckets[key] == after_all(s, requests_under(requests, key)).buckets[key],
        admitted_under(s, requests, key) == admitted_under(s, requests_under(requests, key), key),
    decreases requests.len(),
{
    if requests.len() > 0 {
        let before = requests.drop_last();
        let r = requests.last();
        law_other_keys_make_no_difference(s, before, key);
        law_limiter_stays_well_formed_throughout(s, before);
        let own = requests_under(before, key);
        if r.key == key {
            let run = requests_under(requests, key);
            assert(run.last() == r);
            assert(run.drop_last() =~= own);
            law_limiter_stays_well_formed_throughout(s, own);
        } else {
            law_keys_are_isolated(after_all(s, before), r, key);
        }
    }
}

/// A new key gets its capacity at once and no more: of requests that all come at
/// the same moment, the first `capacity` are let through and no other.
pub proof fn law_new_key_gets_its_capacity_at_once(s: StateView, r: Request, requests: Seq<Request>)
    requires
        s.wf(),
        !s.buckets.dom().contains(r.key),
        forall|i: int| 0 <= i < requests.len() ==> requests[i] == r,
    ensures
        admitted_under(s, requests, r.key) == (if requests.len() < r.capacity {
            requests.len() as int
        } else {
            r.capacity as int
        }),
{
    let times = Seq::new(requests.len(), |i: int| r.now);
    lemma_run_of_one_key(s, r, requests);
    crate::bucket_laws::law_burst_is_the_capacity(r.capacity, r.window_ms, r.rate, times, r.now);
}

/// A new key's bucket goes through a run of equal requests as a new bucket does.
proof fn lemma_run_of_one_key(s: StateView, r: Request, requests: Seq<Request>)
    requires
        s.wf(),
        !s.buckets.dom().contains(r.key),
        forall|i: int| 0 <= i < requests.len() ==> requests[i] == r,
    ensures
        ({
            let times = Seq::new(requests.len(), |i: int| r.now);
            let fresh = BucketView::fresh(r.capacity, r.window_ms, r.now);
            &&& requests.len() > 0 <==> after_all(s, requests).buckets.dom().contains(r.key)
            &&& after_all(s, requests).bucket_for(r.key, r.capacity, r.window_ms, r.now)
                == crate::bucket_laws::after_requests(fresh, r.capacity, r.rate, times)
            &&& admitted_under(s, requests, r.key) == crate::bucket_laws::admitted(
                fresh,
                r.capacity,
                r.rate,
                times,
            )
        }),
    decreases requests.len(),
{
    let times = Seq::new(requests.len(), |i: int| r.now);
    if requests.len() > 0 {
        let before = requests.drop_last();
        lemma_run_of_one_key(s, r, before);
        law_limiter_stays_well_formed_throughout(s, before);
        law_own_bucket_is_kept(after_all(s, before), r);
        assert(requests.last() == r);
        assert(times.drop_last() =~= Seq::new(before.len(), |i: int| r.now));
    }
}

/// Sweeps drop the bucket of `key` only when it has had the time to fill up: the
/// idle time is no shorter than that takes, and what has accrued to the bucket by
/// its last use is in it already.
pub open spec fn swept_when_full(
    s: StateView,
    key: Seq<char>,
    capacity: u64,
    rate: RefillRate,
    start: u64,
) -> bool {
    &&& s.max_idle_ms * rate.tokens >= capacity * rate.per_ms
    &&& s.buckets.dom().contains(key) ==> {
        &&& s.buckets[key].last_refill <= s.buckets[key].last_access
        &&& s.buckets[key].last_refill <= start
    }
}

/// How many units of the bucket of `key` stand for one unit of the rate's window.
spec fn grain_of(s: StateView, key: Seq<char>, rate: RefillRate) -> int {
    if s.buckets.dom().contains(key) {
        s.buckets[key].at_rate(rate).grain(rate)
    } else {
        1
    }
}

/// What the bucket of `key` would hold at `now`: all it can hold where there is no
/// bucket yet.
spec fn available(
    s: StateView,
    key: Seq<char>,
    capacity: u64,
    rate: RefillRate,
    now: int,
) -> int {
    if s.buckets.dom().contains(key) {
        crate::bucket_laws::held_at(s.buckets[key], capacity, rate, now)
    } else {
        capacity * rate.window()
    }
}

/// The bucket of `key`, if there is one, is within its capacity by the time it is
/// next used, at `now` or later, and where that is asked for, has been topped up no
/// later than it was used, and than `now`.
spec fn in_step(s: StateView, key: Seq<char>, capacity: u64, timed: bool, now: int) -> bool {
    s.buckets.dom().contains(key) ==> {
        let b = s.buckets[key];
        &&& b.units <= capacity * b.scale() || b.last_refill < now
        &&& timed ==> b.last_refill <= b.last_access && b.last_refill <= now
    }
}

/// What a key has been given, with what is still available to it, is within its
/// capacity and what has accrued since `start`.
spec fn within_rate(
    s: StateView,
    key: Seq<char>,
    capacity: u64,
    rate: RefillRate,
    given: int,
    start: int,
    now: int,
) -> bool {
    given * rate.window() * grain_of(s, key, rate) + available(s, key, capacity, rate, now) <= (
    capacity * rate.window() + (now - start) * rate.tokens) * grain_of(s, key, rate)
}

/// Later there is more available, but by no more than what has accrued.
proof fn lemma_within_rate_later(
    s: StateView,
    key: Seq<char>,
    capacity: u64,
    rate: RefillRate,
    given: int,
    start: int,
    sooner: int,
    later: int,
)
    requires
        s.wf(),
        rate.per_ms > 0,
        sooner <= later,
        within_rate(s, key, capacity, rate, given, start, sooner),
    ensures
        within_rate(s, key, capacity, rate, given, start, later),
{
    let k = grain_of(s, key, rate);
    let full = capacity * rate.window();
    if s.buckets.dom().contains(key) {
        let b = s.buckets[key];
        crate::bucket_laws::lemma_at_rate(b, rate);
        let first = if sooner > b.last_refill {
            sooner - b.last_refill
        } else {
            0
        };
        let second = if later > b.last_refill {
            later - b.last_refill
        } else {
            0
        };
        assert(first * rate.tokens * k <= second * rate.tokens * k && second * rate.tokens * k
            <= first * rate.tokens * k + (later - sooner) * rate.tokens * k) by (nonlinear_arith)
            requires
                0 <= first <= second <= first + (later - sooner),
                k >= 1,
        ;
    }
    assert((full + (later - start) * rate.tokens) * k == (full + (sooner - start) * rate.tokens) * k
        + (later - sooner) * rate.tokens * k) by (nonlinear_arith);
    assert((later - sooner) * rate.tokens * k >= 0) by (nonlinear_arith)
        requires
            later >= sooner,
            k >= 1,
    ;
}

/// A request under the key is paid for out of what is available.
proof fn lemma_own_request(
    s: StateView,
    r: Request,
    given: int,
    start: int,
    timed: bool,
)
    requires
        s.wf(),
        r.rate.per_ms > 0,
        in_step(s, r.key, r.capacity, timed, r.now as int),
        within_rate(s, r.key, r.capacity, r.rate, given, start, r.now as int),
    ensures
        in_step(r.after(s), r.key, r.capacity, timed, r.now as int),
        within_rate(
            r.after(s),
            r.key,
            r.capacity,
            r.rate,
            given + (if r.passes(s) {
                1int
            } else {
                0
            }),
            start,
            r.now as int,
        ),
{
    let b = s.bucket_for(r.key, r.capacity, r.window_ms, r.now);
    law_own_bucket_is_kept(s, r);
    crate::bucket_laws::law_fresh_bucket_is_full(r.capacity, r.window_ms, r.rate, r.now);
    crate::bucket_laws::lemma_request(b, r.capacity, r.rate, r.now);
    crate::bucket_laws::lemma_at_rate(b, r.rate);
    if !s.buckets.dom().contains(r.key) {
        crate::bucket_laws::lemma_fresh_at_rate(r.capacity, r.window_ms, r.rate, r.now);
    }
    let k = grain_of(s, r.key, r.rate);
    let w = r.rate.window();
    assert((given + 1) * w * k == given * w * k + k * w) by (nonlinear_arith);
}

/// A request under another key leaves what is available alone, even where it
/// sweeps the bucket out, as long as the bucket is full by then.
proof fn lemma_other_request(
    s: StateView,
    r: Request,
    key: Seq<char>,
    capacity: u64,
    rate: RefillRate,
    given: int,
    start: int,
    timed: bool,
)
    requires
        s.wf(),
        r.key != key,
        rate.per_ms > 0,
        in_step(s, key, capacity, timed, r.now as int),
        within_rate(s, key, capacity, rate, given, start, r.now as int),
        if timed {
            s.max_idle_ms * rate.tokens >= capacity * rate.per_ms
        } else {
            s.buckets.dom().contains(key) ==> r.after(s).buckets.dom().contains(key)
        },
    ensures
        in_step(r.after(s), key, capacity, timed, r.now as int),
        within_rate(r.after(s), key, capacity, rate, given, start, r.now as int),
{
    law_keys_are_isolated(s, r, key);
    if s.buckets.dom().contains(key) && !r.after(s).buckets.dom().contains(key) {
        let b = s.buckets[key];
        let a = b.at_rate(rate);
        let k = a.grain(rate);
        let w = rate.window();
        let elapsed = r.now - b.last_refill;
        assert(!b.active(r.now, s.max_idle_ms));
        assert(elapsed >= s.max_idle_ms * 1_000_000);
        crate::bucket_laws::lemma_at_rate(b, rate);
        assert(elapsed * rate.tokens >= capacity * w) by (nonlinear_arith)
            requires
                elapsed >= s.max_idle_ms * 1_000_000,
                s.max_idle_ms * rate.tokens >= capacity * rate.per_ms,
                w == rate.per_ms * 1_000_000,
        ;
        assert(elapsed * rate.tokens * k >= capacity * a.scale()) by (nonlinear_arith)
            requires
                elapsed * rate.tokens >= capacity * w,
                a.scale() == k * w,
                k >= 1,
        ;
        assert(elapsed > 0);
        assert(available(s, key, capacity, rate, r.now as int) == capacity * a.scale());
        let bound = capacity * w + (r.now - start) * rate.tokens;
        assert(given * w * 1 + capacity * w <= bound * 1) by (nonlinear_arith)
            requires
                given * w * k + capacity * a.scale() <= bound * k,
                a.scale() == k * w,
                k >= 1,
        ;
    }
}

/// No key gets more than its rate: of a run of requests in order of time, those
/// under one key that are let through are no more than the capacity and what
/// accrues between the first moment and the last. That holds of a new key and of
/// one whose bucket is within its capacity, or was last topped up before the first
/// moment, wherever the bucket is not swept out during the run, or only once it has
/// had the time to fill up.
pub proof fn law_no_key_exceeds_its_rate(
    s: StateView,
    requests: Seq<Request>,
    key: Seq<char>,
    capacity: u64,
    rate: RefillRate,
    start: u64,
    end: u64,
)
    requires
        s.wf(),
        s.buckets.dom().contains(key) ==> s.buckets[key].capped_from(capacity, start),
        rate.per_ms > 0,
        s.max_idle_ms == 0 || spared(s, requests, key) || swept_when_full(
            s,
            key,
            capacity,
            rate,
            start,
        ),
        start <= end,
        forall|i: int|
            0 <= i < requests.len() ==> start <= (#[trigger] requests[i]).now <= end,
        forall|i: int, j: int|
            0 <= i <= j < requests.len() ==> (#[trigger] requests[i]).now <= (
            #[trigger] requests[j]).now,
        forall|i: int|
            0 <= i < requests.len() && (#[trigger] requests[i]).key == key ==> requests[i].capacity
                == capacity && requests[i].rate == rate,
    ensures
        admitted_under(s, requests, key) * rate.window() <= capacity * rate.window() + (end
            - start) * rate.tokens,
{
    if s.max_idle_ms == 0 {
        law_no_sweeps_spare_every_bucket(s, requests, key);
    }
    let timed = !spared(s, requests, key);
    lemma_rate_bound(s, requests, key, capacity, rate, start, timed);
    law_limiter_stays_well_formed_throughout(s, requests);
    let t = after_all(s, requests);
    let last = if requests.len() == 0 {
        start
    } else {
        requests.last().now
    };
    if requests.len() > 0 {
        assert(requests[requests.len() - 1].now <= end);
    }
    let w = rate.window();
    let k = grain_of(t, key, rate);
    let n = admitted_under(s, requests, key);
    assert((last - start) * rate.tokens <= (end - start) * rate.tokens) by (nonlinear_arith)
        requires
            last <= end,
    ;
    assert(available(t, key, capacity, rate, last as int) >= 0 && k >= 1) by {
        assert(capacity * w >= 0) by (nonlinear_arith)
            requires
                w >= 0,
        ;
        if t.buckets.dom().contains(key) {
            crate::bucket_laws::lemma_held_is_not_negative(
                t.buckets[key],
                capacity,
                rate,
                last as int,
            );
        }
    }
    let bound = capacity * w + (last - start) * rate.tokens;
    assert(n * w <= bound) by (nonlinear_arith)
        requires
            n * w * k <= bound * k,
            k >= 1,
    ;
}

proof fn lemma_rate_bound(
    s: StateView,
    requests: Seq<Request>,
    key: Seq<char>,
    capacity: u64,
    rate: RefillRate,
    start: u64,
    timed: bool,
)
    requires
        s.wf(),
        s.buckets.dom().contains(key) ==> s.buckets[key].capped_from(capacity, start),
        rate.per_ms > 0,
        if timed {
            swept_when_full(s, key, capacity, rate, start)
        } else {
            spared(s, requests, key)
        },
        forall|i: int| 0 <= i < requests.len() ==> start <= (#[trigger] requests[i]).now,
        forall|i: int, j: int|
            0 <= i <= j < requests.len() ==> (#[trigger] requests[i]).now <= (
            #[trigger] requests[j]).now,
        forall|i: int|
            0 <= i < requests.len() && (#[trigger] requests[i]).key == key ==> requests[i].capacity
                == capacity && requests[i].rate == rate,
    ensures
        ({
            let t = after_all(s, requests);
            let last = if requests.len() == 0 {
                start
            } else {
                requests.last().now
            };
            &&& in_step(t, key, capacity, timed, last as int)
            &&& within_rate(
                t,
                key,
                capacity,
                rate,
                admitted_under(s, requests, key),
                start as int,
                last as int,
            )
        }),
    decreases requests.len(),
{
    if requests.len() == 0 {
        let k = grain_of(s, key, rate);
        let w = rate.window();
        assert(0 * w * k == 0) by (nonlinear_arith);
        assert((start - start) * rate.tokens == 0) by (nonlinear_arith);
        assert((capacity * w) * k == capacity * (k * w)) by (nonlinear_arith);
        if s.buckets.dom().contains(key) {
            crate::bucket_laws::lemma_at_rate(s.buckets[key], rate);
        }
    } else {
        let before = requests.drop_last();
        let r = requests.last();
        assert forall|i: int| 0 <= i < before.len() implies start <= (#[trigger] before[i]).now by {
            assert(before[i] == requests[i]);
        }
        assert forall|i: int, j: int| 0 <= i <= j < before.len() implies (#[trigger] before[i]).now
            <= (#[trigger] before[j]).now by {
            assert(before[i] == requests[i] && before[j] == requests[j]);
        }
        assert forall|i: int|
            0 <= i < before.len() && (#[trigger] before[i]).key == key implies before[i].capacity
            == capacity && before[i].rate == rate by {
            assert(before[i] == requests[i]);
        }
        lemma_rate_bound(s, before, key, capacity, rate, start, timed);
        law_limiter_stays_well_formed_throughout(s, before);
        let t = after_all(s, before);
        let last = if before.len() == 0 {
            start
        } else {
            before.last().now
        };
        assert(r == requests[requests.len() - 1]);
        if before.len() > 0 {
            assert(before.last() == requests[requests.len() - 2]);
        }
        assert(last <= r.now);
        let n = admitted_under(s, before, key);
        lemma_within_rate_later(
            t,
            key,
            capacity,
            rate,
            n,
            start as int,
            last as int,
            r.now as int,
        );
        if r.key == key {
            lemma_own_request(t, r, n, start as int, timed);
        } else {
            lemma_other_request(t, r, key, capacity, rate, n, start as int, timed);
        }
    }
}

/// A key's bucket goes through a run of equal requests as a bucket by itself does.
pub(crate) proof fn lemma_run_at_one_bucket(s: StateView, r: Request, requests: Seq<Request>)
    requires
        s.wf(),
        s.buckets.dom().contains(r.key),
        forall|i: int| 0 <= i < requests.len() ==> requests[i] == r,
    ensures
        ({
            let times = Seq::new(requests.len(), |i: int| r.now);
            let b = s.buckets[r.key];
            &&& after_all(s, requests).buckets.dom().contains(r.key)
            &&& after_all(s, requests).buckets[r.key] == crate::bucket_laws::after_requests(
                b,
                r.capacity,
                r.rate,
                times,
            )
            &&& admitted_under(s, requests, r.key) == crate::bucket_laws::admitted(
                b,
                r.capacity,
                r.rate,
                times,
            )
        }),
    decreases requests.len(),
{
    let times = Seq::new(requests.len(), |i: int| r.now);
    if requests.len() > 0 {
        let before = requests.drop_last();
        lemma_run_at_one_bucket(s, r, before);
        law_limiter_stays_well_formed_throughout(s, before);
        law_own_bucket_is_kept(after_all(s, before), r);
        assert(requests.last() == r);
        assert(times.drop_last() =~= Seq::new(before.len(), |i: int| r.now));
    }
}

/// How many requests of a run come under a key that has no bucket then.
pub open spec fn new_buckets(s: StateView, requests: Seq<Request>) -> int
    decreases requests.len(),
{
    if requests.len() == 0 {
        0
    } else {
        let t = after_all(s, requests.drop_last());
        new_buckets(s, requests.drop_last()) + if t.buckets.dom().contains(requests.last().key) {
            0int
        } else {
            1
        }
    }
}

/// How many requests of a run bring on a sweep.
pub open spec fn sweeps_brought_on(s: StateView, requests: Seq<Request>) -> int
    decreases requests.len(),
{
    if requests.len() == 0 {
        0
    } else {
        let t = after_all(s, requests.drop_last());
        sweeps_brought_on(s, requests.drop_last()) + if requests.last().sweeps(t) {
            1int
        } else {
            0
        }
    }
}

/// Sweeps come at a fixed cadence: a limiter that sweeps does so once for every 256
/// new buckets, no sooner and no later, and one that does not sweep never does.
pub proof fn law_every_256th_new_bucket_brings_on_a_sweep(s: StateView, requests: Seq<Request>)
    requires
        s.wf(),
    ensures
        s.max_idle_ms > 0 ==> {
            &&& s.inserts_since_sweep + new_buckets(s, requests) == after_all(
                s,
                requests,
            ).inserts_since_sweep + 256 * sweeps_brought_on(s, requests)
            &&& after_all(s, requests).inserts_since_sweep < 256
        },
        s.max_idle_ms == 0 ==> sweeps_brought_on(s, requests) == 0,
    decreases requests.len(),
{
    law_limiter_stays_well_formed_throughout(s, requests);
    if requests.len() > 0 {
        let before = requests.drop_last();
        law_every_256th_new_bucket_brings_on_a_sweep(s, before);
        law_limiter_stays_well_formed_throughout(s, before);
    }
}

/// A request draws on the bucket of its key, or on a new and full one, and leaves it
/// with one token less where it is let through. A key without a bucket is let
/// through exactly where the capacity is not zero.
pub proof fn law_request_draws_on_the_bucket_of_its_key(s: StateView, r: Request)
    requires
        s.wf(),
    ensures
        ({
            let left = r.after(s).buckets[r.key];
            let token = left.common_ms * 1_000_000;
            let taken: int = if r.passes(s) {
                1
            } else {
                0
            };
            &&& r.after(s).buckets.dom().contains(r.key)
            &&& left.last_access == r.now
            &&& s.buckets.dom().contains(r.key) ==> {
                let found = s.buckets[r.key].refilled(r.capacity, r.rate, r.now);
                &&& left.common_ms == found.common_ms
                &&& left.units + taken * token == found.units
                &&& left.window_ms == s.buckets[r.key].window_ms
            }
            &&& !s.buckets.dom().contains(r.key) ==> {
                &&& left.units + taken * token == r.capacity * token
                &&& left.last_refill == r.now
                &&& left.window_ms == r.window_ms
                &&& r.passes(s) <==> r.capacity > 0
            }
        }),
{
    let b = s.bucket_for(r.key, r.capacity, r.window_ms, r.now);
    crate::bucket_laws::law_fresh_bucket_is_full(r.capacity, r.window_ms, r.rate, r.now);
    crate::bucket_laws::law_request_takes_one_token_or_none(b, r.capacity, r.rate, r.now);
    law_own_bucket_is_kept(s, r);
}

} // verus!
