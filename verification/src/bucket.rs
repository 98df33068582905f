//! The token bucket: tokens accrue at a constant rate up to a capacity, and
//! each request takes one.
//!
//! A bucket holds its tokens as a whole number of units of which the nanoseconds
//! of `common_ms` milliseconds make one token. That number is a common multiple
//! of the windows under which tokens have accrued to the bucket, so what a
//! nanosecond adds is always a whole number of units and nothing is rounded.
//! Where windows have no common multiple that fits in 64 bits, the balance is
//! carried over to a multiple of the new window close to the largest number that
//! fits, and what is lost is less than one unit, itself less than 2^-82 tokens.

use crate::arith::{greatest_common_divisor, lcm, mul_div_rem};
use vstd::prelude::*;

verus! {

/// Nanoseconds in a number of milliseconds.
fn millis_to_nanos(millis: u64) -> (nanos: u128)
    ensures
        nanos == millis * 1_000_000,
{
    millis as u128 * 1_000_000
}

/// A refill rate of `tokens` tokens per `per_ms` milliseconds.
///
/// A rate over no time at all refills the bucket as soon as any time passes.
#[derive(Clone, Copy, Debug, PartialEq, Eq, Structural)]
pub struct RefillRate {
    pub tokens: u64,
    pub per_ms: u64,
}

impl RefillRate {
    /// The number of nanoseconds over which `tokens` tokens accrue.
    pub open spec fn window(self) -> int {
        self.per_ms * 1_000_000
    }

    pub fn new(tokens: u64, per_ms: u64) -> (rate: Self)
        ensures
            rate.tokens == tokens,
            rate.per_ms == per_ms,
    {
        RefillRate { tokens, per_ms }
    }
}

/// A wait of `numerator / denominator` nanoseconds, exactly.
#[derive(Clone, Copy, Debug, PartialEq, Eq, Structural)]
pub struct RetryAfter {
    pub numerator: u128,
    pub denominator: u128,
}

impl RetryAfter {
    /// Whether a wait of `nanos` nanoseconds is at least this long.
    pub open spec fn elapsed_by(self, nanos: int) -> bool {
        self.numerator <= nanos * self.denominator
    }
}

/// What a bucket says to one request.
#[derive(Clone, Copy, Debug, PartialEq, Eq, Structural)]
pub struct LimitResult {
    /// Whether the request may proceed.
    pub allowed: bool,
    /// Whole tokens left in the bucket.
    pub remaining: u64,
    /// The bucket's capacity.
    pub limit: u64,
    /// How long until the next token, for a request that was turned away.
    pub retry_after: RetryAfter,
}

/// The milliseconds that a bucket which counted by `common_ms` counts by once a
/// window of `per_ms` has come in: their least common multiple, or where that does
/// not fit in 64 bits, the largest multiple of `per_ms` that does.
pub open spec fn carried_ms(common_ms: nat, per_ms: nat) -> nat {
    if lcm(common_ms, per_ms) <= u64::MAX {
        lcm(common_ms, per_ms)
    } else {
        u64::MAX as nat / per_ms * per_ms
    }
}

/// The contents of a bucket: a number of units, of which the nanoseconds of
/// `common_ms` milliseconds make a token, last topped up and last used at the
/// given clock readings in nanoseconds.
pub struct BucketView {
    pub units: int,
    pub common_ms: nat,
    pub last_refill: int,
    pub last_access: int,
    pub window_ms: int,
}

impl BucketView {
    /// The balance is not negative and its unit is a fraction of a token.
    pub open spec fn wf(self) -> bool {
        &&& 1 <= self.common_ms <= u64::MAX
        &&& self.units >= 0
    }

    /// The number of units in a token.
    pub open spec fn scale(self) -> int {
        (self.common_ms * 1_000_000) as int
    }

    /// Whole tokens in the bucket.
    pub open spec fn whole(self) -> int {
        self.units / self.scale()
    }

    /// A new bucket starts full.
    pub open spec fn fresh(capacity: u64, window_ms: u64, now: u64) -> BucketView {
        BucketView {
            units: capacity * 1_000_000,
            common_ms: 1,
            last_refill: now as int,
            last_access: now as int,
            window_ms: window_ms as int,
        }
    }

    /// The same balance in another unit, rounded down to one of it.
    pub open spec fn rescaled(self, common_ms: nat) -> BucketView {
        BucketView { units: (self.units * common_ms) / (self.common_ms as int), common_ms, ..self }
    }

    /// The balance in a unit that fits the window of `rate` as well.
    pub open spec fn at_rate(self, rate: RefillRate) -> BucketView {
        self.rescaled(carried_ms(self.common_ms, rate.per_ms as nat))
    }

    /// How many units of a balance at `rate` a nanosecond adds for each token of
    /// the rate.
    pub open spec fn grain(self, rate: RefillRate) -> int {
        self.common_ms as int / rate.per_ms as int
    }

    /// The bucket topped up at `now`: each nanosecond since the last top-up adds
    /// the rate's share of a token, up to `capacity` tokens. A clock that has not
    /// moved on leaves the bucket as it is.
    pub open spec fn refilled(self, capacity: u64, rate: RefillRate, now: u64) -> BucketView {
        if now <= self.last_refill {
            self
        } else if rate.per_ms == 0 {
            BucketView { units: capacity * self.scale(), last_refill: now as int, ..self }
        } else {
            let b = self.at_rate(rate);
            let accrued = b.units + (now - self.last_refill) * rate.tokens * b.grain(rate);
            let full = capacity * b.scale();
            BucketView {
                units: if accrued < full {
                    accrued
                } else {
                    full
                },
                last_refill: now as int,
                ..b
            }
        }
    }

    /// Whether a request at `start` or later finds no more than `capacity` tokens:
    /// there are no more, or the next refill cuts them down.
    pub open spec fn capped_from(self, capacity: u64, start: u64) -> bool {
        self.units <= capacity * self.scale() || self.last_refill < start
    }

    /// The bucket that a request at `now` finds.
    pub open spec fn touched(self, capacity: u64, rate: RefillRate, now: u64) -> BucketView {
        BucketView { last_access: now as int, ..self.refilled(capacity, rate, now) }
    }

    /// Whether a request at `now` is let through: a whole token is there.
    pub open spec fn admits(self, capacity: u64, rate: RefillRate, now: u64) -> bool {
        let b = self.refilled(capacity, rate, now);
        b.units >= b.scale()
    }

    /// The bucket after a request at `now`, which takes a token if it finds one.
    pub open spec fn consumed(self, capacity: u64, rate: RefillRate, now: u64) -> BucketView {
        let b = self.touched(capacity, rate, now);
        if self.admits(capacity, rate, now) {
            BucketView { units: b.units - b.scale(), ..b }
        } else {
            b
        }
    }

    /// How long a request that found `self` without a whole token has to wait:
    /// until the missing units have accrued; a whole window where none accrue;
    /// not at all where the bucket refills at once.
    pub open spec fn wait(self, rate: RefillRate) -> RetryAfter {
        if rate.tokens == 0 {
            RetryAfter { numerator: (self.window_ms * 1_000_000) as u128, denominator: 1 }
        } else if rate.per_ms == 0 {
            RetryAfter { numerator: 0, denominator: 1 }
        } else {
            let b = self.at_rate(rate);
            RetryAfter {
                numerator: (b.scale() - b.units) as u128,
                denominator: (b.grain(rate) * rate.tokens) as u128,
            }
        }
    }

    /// The answer to a request at `now`.
    pub open spec fn answer(self, capacity: u64, rate: RefillRate, now: u64) -> LimitResult {
        let after = self.consumed(capacity, rate, now);
        if self.admits(capacity, rate, now) {
            LimitResult {
                allowed: true,
                remaining: after.whole() as u64,
                limit: capacity,
                retry_after: RetryAfter { numerator: 0, denominator: 1 },
            }
        } else {
            LimitResult {
                allowed: false,
                remaining: 0,
                limit: capacity,
                retry_after: after.wait(rate),
            }
        }
    }

    /// Whether the bucket is to be kept at `now`: it has not been idle for longer
    /// than `max_idle_ms` milliseconds. Without any idle time allowed, none is.
    pub open spec fn active(self, now: u64, max_idle_ms: u64) -> bool {
        let idle = if now > self.last_access {
            now - self.last_access
        } else {
            0
        };
        max_idle_ms > 0 && idle <= max_idle_ms * 1_000_000
    }
}

/// A token bucket.
#[derive(Clone, Copy, Debug)]
pub struct TokenBucket {
    /// Whole tokens.
    tokens: u64,
    /// What there is beyond them, in units of which the nanoseconds of
    /// `common_ms` milliseconds make a token.
    part: u128,
    common_ms: u64,
    /// Clock reading, in nanoseconds, up to which the bucket has been topped up.
    last_refill: u64,
    /// Clock reading, in nanoseconds, of the last request.
    last_access: u64,
    window_ms: u64,
}

impl View for TokenBucket {
    type V = BucketView;

    closed spec fn view(&self) -> BucketView {
        BucketView {
            units: self.tokens * (self.common_ms * 1_000_000) + self.part,
            common_ms: self.common_ms as nat,
            last_refill: self.last_refill as int,
            last_access: self.last_access as int,
            window_ms: self.window_ms as int,
        }
    }
}

impl TokenBucket {
    /// The part is less than a token.
    pub closed spec fn wf(self) -> bool {
        self.part < self.common_ms * 1_000_000
    }

    /// A well-formed bucket has a well-formed view.
    pub proof fn lemma_wf(self)
        requires
            self.wf(),
        ensures
            self@.wf(),
            self@.whole() <= u64::MAX,
    {
        self.lemma_whole();
    }

    /// The whole tokens of the view are those of the bucket.
    proof fn lemma_whole(self)
        requires
            self.wf(),
        ensures
            self@.wf(),
            self@.whole() == self.tokens,
            self@.units >= self@.scale() <==> self.tokens >= 1,
    {
        let scale = self@.scale();
        assert(self.tokens * scale >= 0) by (nonlinear_arith)
            requires
                scale >= 0,
        ;
        assert(self.tokens >= 1 ==> self.tokens * scale >= scale) by (nonlinear_arith)
            requires
                scale >= 0,
        ;
        assert(self.tokens == 0 ==> self.tokens * scale == 0) by (nonlinear_arith);
        crate::arith::lemma_quotient(
            self@.units,
            scale,
            self.tokens as int,
            self.part as int,
        );
    }

    /// A full bucket.
    pub fn new(capacity: u64, window_ms: u64, now: u64) -> (bucket: Self)
        ensures
            bucket.wf(),
            bucket@ == BucketView::fresh(capacity, window_ms, now),
    {
        TokenBucket {
            tokens: capacity,
            part: 0,
            common_ms: 1,
            last_refill: now,
            last_access: now,
            window_ms,
        }
    }

    /// Takes a token for a request at `now`, if there is one.
    pub fn try_consume(&mut self, capacity: u64, rate: RefillRate, now: u64) -> (result:
        LimitResult)
        requires
            old(self).wf(),
        ensures
            final(self).wf(),
            final(self)@ == old(self)@.consumed(capacity, rate, now),
            result == old(self)@.answer(capacity, rate, now),
    {
        self.last_access = now;
        self.refill(capacity, rate, now);
        proof {
            self.lemma_whole();
        }
        if self.tokens >= 1 {
            let ghost scale = self@.scale();
            assert((self.tokens - 1) * scale == self.tokens * scale - scale) by (nonlinear_arith);
            self.tokens = self.tokens - 1;
            proof {
                self.lemma_whole();
            }
            LimitResult {
                allowed: true,
                remaining: self.tokens,
                limit: capacity,
                retry_after: RetryAfter { numerator: 0, denominator: 1 },
            }
        } else {
            LimitResult {
                allowed: false,
                remaining: 0,
                limit: capacity,
                retry_after: self.retry_after(rate),
            }
        }
    }

    /// How long until the bucket, without a whole token in it, has one.
    fn retry_after(&self, rate: RefillRate) -> (wait: RetryAfter)
        requires
            self.wf(),
            self.tokens == 0,
        ensures
            wait == self@.wait(rate),
    {
        if rate.tokens == 0 {
            return RetryAfter { numerator: millis_to_nanos(self.window_ms), denominator: 1 };
        }
        if rate.per_ms == 0 {
            return RetryAfter { numerator: 0, denominator: 1 };
        }
        let mut carried = *self;
        carried.carry_over(rate);
        let grain: u64 = carried.common_ms / rate.per_ms;
        proof {
            assert(0 * (carried.common_ms * 1_000_000) == 0) by (nonlinear_arith);
            crate::arith::lemma_product_bound(grain as int, rate.tokens as int, u64::MAX as int);
        }
        RetryAfter {
            numerator: millis_to_nanos(carried.common_ms) - carried.part,
            denominator: grain as u128 * rate.tokens as u128,
        }
    }

    /// Tops the bucket up to `now`.
    pub fn refill(&mut self, capacity: u64, rate: RefillRate, now: u64)
        requires
            old(self).wf(),
        ensures
            final(self).wf(),
            final(self)@ == old(self)@.refilled(capacity, rate, now),
    {
        if now <= self.last_refill {
            return;
        }
        if rate.per_ms == 0 {
            self.tokens = capacity;
            self.part = 0;
            self.last_refill = now;
            return;
        }
        let elapsed: u64 = now - self.last_refill;
        self.carry_over(rate);
        let ghost b = self@;
        let grain: u64 = self.common_ms / rate.per_ms;
        let window: u128 = millis_to_nanos(rate.per_ms);
        let scale: u128 = millis_to_nanos(self.common_ms);
        proof {
            crate::arith::lemma_product_bound(
                elapsed as int,
                rate.tokens as int,
                u64::MAX as int,
            );
            vstd::arithmetic::div_mod::lemma_fundamental_div_mod(
                self.common_ms as int,
                rate.per_ms as int,
            );
            assert(scale == window * grain) by (nonlinear_arith)
                requires
                    self.common_ms == rate.per_ms * grain,
                    scale == self.common_ms * 1_000_000,
                    window == rate.per_ms * 1_000_000,
            ;
        }
        let accrued: u128 = elapsed as u128 * rate.tokens as u128;
        let mut gained: u128 = accrued / window;
        let rest: u128 = accrued % window;
        proof {
            vstd::arithmetic::div_mod::lemma_fundamental_div_mod(accrued as int, window as int);
            assert(gained <= accrued / 1_000_000) by (nonlinear_arith)
                requires
                    gained == accrued / window,
                    window >= 1_000_000,
                    accrued >= 0,
            ;
            assert(rest * grain <= window * grain) by (nonlinear_arith)
                requires
                    rest <= window,
            ;
            assert(rest * grain < scale) by (nonlinear_arith)
                requires
                    rest < window,
                    scale == window * grain,
                    scale > 0,
            ;
            assert(accrued * grain == gained * scale + rest * grain) by (nonlinear_arith)
                requires
                    accrued == window * gained + rest,
                    scale == window * grain,
            ;
        }
        let mut part: u128 = self.part + rest * grain as u128;
        if part >= scale {
            assert((gained + 1) * scale == gained * scale + scale) by (nonlinear_arith);
            gained = gained + 1;
            part = part - scale;
        }
        let total: u128 = self.tokens as u128 + gained;
        proof {
            assert(total * scale == self.tokens * scale + gained * scale) by (nonlinear_arith)
                requires
                    total == self.tokens + gained,
            ;
            if total >= capacity {
                assert(total * scale >= capacity * scale) by (nonlinear_arith)
                    requires
                        total >= capacity,
                        scale >= 0,
                ;
            } else {
                assert(total * scale + scale <= capacity * scale) by (nonlinear_arith)
                    requires
                        total + 1 <= capacity,
                        scale >= 0,
                ;
            }
        }
        if total >= capacity as u128 {
            self.tokens = capacity;
            self.part = 0;
        } else {
            self.tokens = total as u64;
            self.part = part;
        }
        self.last_refill = now;
    }

    /// Carries the balance over to a unit that fits the window of `rate`.
    fn carry_over(&mut self, rate: RefillRate)
        requires
            old(self).wf(),
            rate.per_ms > 0,
        ensures
            final(self).wf(),
            final(self)@ == old(self)@.at_rate(rate),
            final(self).common_ms as int % rate.per_ms as int == 0,
            final(self).common_ms >= rate.per_ms,
            final(self).last_refill == old(self).last_refill,
            final(self).tokens == old(self).tokens,
    {
        let divisor: u64 = greatest_common_divisor(self.common_ms, rate.per_ms);
        let ghost a = self.common_ms as nat;
        let ghost b = rate.per_ms as nat;
        proof {
            crate::arith::lemma_lcm_is_multiple(a, b);
            crate::arith::lemma_product_bound(a as int / divisor as int, b as int, u64::MAX as int);
        }
        let common: u128 = (self.common_ms / divisor) as u128 * rate.per_ms as u128;
        let common_ms: u64 = if common <= u64::MAX as u128 {
            common as u64
        } else {
            proof {
                vstd::arithmetic::div_mod::lemma_fundamental_div_mod(u64::MAX as int, b as int);
                lemma_largest_multiple(b);
            }
            u64::MAX / rate.per_ms * rate.per_ms
        };
        proof {
            if lcm(a, b) <= u64::MAX {
                crate::arith::lemma_quotient(common as int, b as int, a as int / divisor as int, 0);
            }
        }
        self.rescale(common_ms);
    }

    /// Carries the balance over to another unit.
    fn rescale(&mut self, common_ms: u64)
        requires
            old(self).wf(),
            0 < common_ms,
        ensures
            final(self).wf(),
            final(self)@ == old(self)@.rescaled(common_ms as nat),
            final(self).common_ms == common_ms,
            final(self).last_refill == old(self).last_refill,
            final(self).tokens == old(self).tokens,
    {
        let from: u128 = millis_to_nanos(self.common_ms);
        let to: u128 = millis_to_nanos(common_ms);
        let (part, rest) = mul_div_rem(self.part, to, from);
        proof {
            let units = self@.units;
            let m = self.common_ms as int;
            let n = common_ms as int;
            let left = self.part * n - part * m;
            assert(left * 1_000_000 == rest) by (nonlinear_arith)
                requires
                    part * from + rest == self.part * to,
                    from == m * 1_000_000,
                    to == n * 1_000_000,
                    left == self.part * n - part * m,
            ;
            assert(units * n == (self.tokens * (n * 1_000_000) + part) * m + left)
                by (nonlinear_arith)
                requires
                    units == self.tokens * (m * 1_000_000) + self.part,
                    left == self.part * n - part * m,
            ;
            crate::arith::lemma_quotient(
                units * n,
                m,
                self.tokens * (n * 1_000_000) + part,
                left,
            );
            assert(part < to) by (nonlinear_arith)
                requires
                    part * from + rest == self.part * to,
                    0 <= rest,
                    self.part < from,
                    0 < to,
            ;
        }
        self.part = part;
        self.common_ms = common_ms;
    }

    /// Whether the bucket is to be kept at `now`: it has not been idle for longer
    /// than `max_idle_ms` milliseconds. Without any idle time allowed, none is.
    pub fn is_active(&self, now: u64, max_idle_ms: u64) -> (active: bool)
        ensures
            active == self@.active(now, max_idle_ms),
    {
        let idle: u64 = if now > self.last_access {
            now - self.last_access
        } else {
            0
        };
        max_idle_ms > 0 && idle as u128 <= millis_to_nanos(max_idle_ms)
    }
}

/// The largest multiple of a window that fits in 64 bits is more than half of
/// what fits.
pub(crate) proof fn lemma_largest_multiple(per_ms: nat)
    requires
        0 < per_ms <= u64::MAX,
    ensures
        u64::MAX as nat / per_ms >= 1,
        per_ms <= u64::MAX as nat / per_ms * per_ms <= u64::MAX,
        u64::MAX as nat / per_ms * per_ms > u64::MAX / 2,
        (u64::MAX as nat / per_ms * per_ms) as int % per_ms as int == 0,
{
    let q = u64::MAX as int / per_ms as int;
    let r = u64::MAX as int % per_ms as int;
    vstd::arithmetic::div_mod::lemma_fundamental_div_mod(u64::MAX as int, per_ms as int);
    assert(per_ms * q == q * per_ms) by (nonlinear_arith);
    assert(q >= 1) by (nonlinear_arith)
        requires
            q * per_ms + r == u64::MAX,
            0 <= r < per_ms,
            per_ms <= u64::MAX,
    ;
    assert(q * per_ms >= per_ms) by (nonlinear_arith)
        requires
            q >= 1,
    ;
    crate::arith::lemma_quotient(q * per_ms, per_ms as int, q, 0);
}

} // verus!
