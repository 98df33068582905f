//! What holds of a token bucket over one request and over many.

use crate::arith::lcm;
use crate::bucket::{BucketView, RefillRate, RetryAfter};
use vstd::prelude::*;

verus! {

/// Two buckets hold as many tokens, whatever their units.
pub open spec fn same_balance(b: BucketView, c: BucketView) -> bool {
    b.units * c.scale() == c.units * b.scale()
}

/// Two waits are equally long.
pub open spec fn same_wait(a: RetryAfter, b: RetryAfter) -> bool {
    a.numerator * b.denominator == b.numerator * a.denominator
}

/// The unit that a balance is carried over to fits the rate's window, and does so
/// for good.
pub(crate) proof fn lemma_at_rate(b: BucketView, rate: RefillRate)
    requires
        b.wf(),
        rate.per_ms > 0,
    ensures
        b.at_rate(rate).wf(),
        b.at_rate(rate).grain(rate) >= 1,
        b.at_rate(rate).scale() == b.at_rate(rate).grain(rate) * rate.window(),
        b.at_rate(rate).at_rate(rate) == b.at_rate(rate),
{
    let p = rate.per_ms as nat;
    let c = b.at_rate(rate);
    crate::arith::lemma_lcm_is_multiple(b.common_ms, p);
    let n = if lcm(b.common_ms, p) <= u64::MAX {
        b.common_ms / crate::arith::gcd(b.common_ms, p)
    } else {
        crate::bucket::lemma_largest_multiple(p);
        u64::MAX as nat / p
    };
    assert(c.common_ms == n * p);
    crate::arith::lemma_quotient(c.common_ms as int, p as int, n as int, 0);
    assert(c.scale() == n * rate.window()) by (nonlinear_arith)
        requires
            c.scale() == (n * p) * 1_000_000,
            rate.window() == p * 1_000_000,
    ;
    lemma_rescaled(b, c.common_ms);
    crate::arith::lemma_lcm_of_multiple(n, p);
    lemma_same_unit(c);
}

/// Another unit takes less than one of it away from a balance, and no whole token.
proof fn lemma_rescaled(b: BucketView, common_ms: nat)
    requires
        b.wf(),
        1 <= common_ms <= u64::MAX,
    ensures
        b.rescaled(common_ms).wf(),
        b.rescaled(common_ms).units * b.common_ms <= b.units * common_ms,
        b.units * common_ms < (b.rescaled(common_ms).units + 1) * b.common_ms,
{
    let m = b.common_ms as int;
    let n = common_ms as int;
    let q = (b.units * n) / m;
    assert(b.units * n >= 0) by (nonlinear_arith)
        requires
            b.units >= 0,
            n >= 0,
    ;
    vstd::arithmetic::div_mod::lemma_fundamental_div_mod(b.units * n, m);
    vstd::arithmetic::div_mod::lemma_div_pos_is_pos(b.units * n, m);
    assert(q * m <= b.units * n && b.units * n < (q + 1) * m) by (nonlinear_arith)
        requires
            b.units * n == m * q + (b.units * n) % m,
            0 <= (b.units * n) % m < m,
    ;
}

/// A balance in its own unit is itself.
proof fn lemma_same_unit(b: BucketView)
    requires
        b.wf(),
    ensures
        b.rescaled(b.common_ms) == b,
{
    crate::arith::lemma_quotient(b.units * b.common_ms, b.common_ms as int, b.units, 0);
}

/// Whole tokens can be taken out before a balance is carried over or after.
proof fn lemma_whole_tokens_carry_over(b: BucketView, rate: RefillRate, tokens: int)
    requires
        b.wf(),
        rate.per_ms > 0,
        tokens * b.scale() <= b.units,
    ensures
        (BucketView { units: b.units - tokens * b.scale(), ..b }).at_rate(rate).units == b.at_rate(
            rate,
        ).units - tokens * b.at_rate(rate).scale(),
        tokens * b.at_rate(rate).scale() <= b.at_rate(rate).units,
{
    let c = b.at_rate(rate);
    let m = b.common_ms as int;
    let n = c.common_ms as int;
    lemma_at_rate(b, rate);
    lemma_rescaled(b, c.common_ms);
    let q = c.units - tokens * c.scale();
    let rest = b.units * n - c.units * m;
    assert(0 <= rest < m) by (nonlinear_arith)
        requires
            c.units * m <= b.units * n,
            b.units * n < (c.units + 1) * m,
            rest == b.units * n - c.units * m,
    ;
    assert((b.units - tokens * b.scale()) * n == q * m + rest) by (nonlinear_arith)
        requires
            rest == b.units * n - c.units * m,
            q == c.units - tokens * c.scale(),
            b.scale() == m * 1_000_000,
            c.scale() == n * 1_000_000,
    ;
    assert((b.units - tokens * b.scale()) * n >= 0) by (nonlinear_arith)
        requires
            tokens * b.scale() <= b.units,
            n >= 0,
    ;
    assert(q >= 0) by (nonlinear_arith)
        requires
            q * m + rest >= 0,
            0 <= rest < m,
            m > 0,
    ;
    crate::arith::lemma_quotient((b.units - tokens * b.scale()) * n, m, q, rest);
}

/// Whether the windows that a bucket has seen have a common multiple that fits in
/// 64 bits.
pub open spec fn has_common_unit(b: BucketView, rate: RefillRate) -> bool {
    lcm(b.common_ms, rate.per_ms as nat) <= u64::MAX
}

/// A change of window does not cost a bucket its balance. Where the windows have
/// a common multiple that fits in 64 bits nothing is lost. Elsewhere less than one
/// of the new units is lost, of which more than 2^82 make a token, and never a
/// whole token.
pub proof fn law_change_of_window_keeps_the_balance(b: BucketView, rate: RefillRate)
    requires
        b.wf(),
        rate.per_ms > 0,
    ensures
        has_common_unit(b, rate) ==> same_balance(b.at_rate(rate), b),
        b.at_rate(rate).units * b.scale() <= b.units * b.at_rate(rate).scale(),
        b.units * b.at_rate(rate).scale() < (b.at_rate(rate).units + 1) * b.scale(),
        !has_common_unit(b, rate) ==> b.at_rate(rate).scale() > 0x4_0000_0000_0000_0000_0000,
        b.at_rate(rate).whole() == b.whole(),
        b.at_rate(rate).last_refill == b.last_refill,
        b.at_rate(rate).last_access == b.last_access,
        b.at_rate(rate).window_ms == b.window_ms,
{
    let c = b.at_rate(rate);
    let m = b.common_ms as int;
    let n = c.common_ms as int;
    lemma_at_rate(b, rate);
    lemma_rescaled(b, c.common_ms);
    assert(c.units * b.scale() <= b.units * c.scale()
        && b.units * c.scale() < (c.units + 1) * b.scale()) by (nonlinear_arith)
        requires
            c.units * m <= b.units * n,
            b.units * n < (c.units + 1) * m,
            b.scale() == m * 1_000_000,
            c.scale() == n * 1_000_000,
    ;
    if has_common_unit(b, rate) {
        let p = rate.per_ms as nat;
        let k = p / crate::arith::gcd(b.common_ms, p);
        crate::arith::lemma_lcm_is_multiple(b.common_ms, p);
        assert(n == k * b.common_ms);
        assert(b.units * n == (b.units * k) * m) by (nonlinear_arith)
            requires
                n == k * b.common_ms,
                m == b.common_ms,
        ;
        crate::arith::lemma_quotient(b.units * n, m, b.units * k, 0);
        assert(c.units * b.scale() == b.units * c.scale()) by (nonlinear_arith)
            requires
                c.units == b.units * k,
                n == k * b.common_ms,
                m == b.common_ms,
                b.scale() == m * 1_000_000,
                c.scale() == n * 1_000_000,
        ;
    } else {
        crate::bucket::lemma_largest_multiple(rate.per_ms as nat);
    }
    lemma_whole_tokens(b, rate);
}

/// Carrying a balance over keeps its whole tokens.
proof fn lemma_whole_tokens(b: BucketView, rate: RefillRate)
    requires
        b.wf(),
        rate.per_ms > 0,
    ensures
        b.at_rate(rate).whole() == b.whole(),
{
    let c = b.at_rate(rate);
    let w = b.whole();
    vstd::arithmetic::div_mod::lemma_fundamental_div_mod(b.units, b.scale());
    assert(w * b.scale() == b.scale() * w) by (nonlinear_arith);
    lemma_whole_tokens_carry_over(b, rate, w);
    lemma_at_rate(b, rate);
    let rest = BucketView { units: b.units - w * b.scale(), ..b };
    lemma_rescaled(rest, c.common_ms);
    let part = rest.at_rate(rate).units;
    assert(part < c.scale()) by (nonlinear_arith)
        requires
            part * b.common_ms <= rest.units * c.common_ms,
            rest.units < b.scale(),
            b.scale() == b.common_ms * 1_000_000,
            c.scale() == c.common_ms * 1_000_000,
            b.common_ms > 0,
            c.common_ms > 0,
    ;
    crate::arith::lemma_quotient(c.units, c.scale(), w, part);
}

/// A balance within the capacity is within it in any unit.
proof fn lemma_capacity_carries_over(b: BucketView, capacity: u64, rate: RefillRate)
    requires
        b.wf(),
        rate.per_ms > 0,
        b.units <= capacity * b.scale(),
    ensures
        b.at_rate(rate).units <= capacity * b.at_rate(rate).scale(),
{
    let c = b.at_rate(rate);
    lemma_at_rate(b, rate);
    lemma_rescaled(b, c.common_ms);
    assert(c.units <= capacity * c.scale()) by (nonlinear_arith)
        requires
            c.units * b.common_ms <= b.units * c.common_ms,
            b.units <= capacity * b.scale(),
            b.scale() == b.common_ms * 1_000_000,
            c.scale() == c.common_ms * 1_000_000,
            b.common_ms > 0,
            c.common_ms > 0,
    ;
}

/// Where no time passes a bucket stays as it is, whatever the window that is asked
/// for: only a request that is let through takes its token.
pub proof fn law_no_time_changes_nothing(b: BucketView, capacity: u64, rate: RefillRate, now: u64)
    requires
        b.wf(),
        now <= b.last_refill,
    ensures
        b.refilled(capacity, rate, now) == b,
        b.admits(capacity, rate, now) <==> b.units >= b.scale(),
        b.consumed(capacity, rate, now) == (BucketView {
            units: if b.units >= b.scale() {
                b.units - b.scale()
            } else {
                b.units
            },
            last_access: now as int,
            ..b
        }),
{
}

/// Refilling, taking a token and carrying over keep a bucket well-formed.
pub proof fn law_bucket_stays_well_formed(
    b: BucketView,
    capacity: u64,
    rate: RefillRate,
    now: u64,
)
    requires
        b.wf(),
    ensures
        rate.per_ms > 0 ==> b.at_rate(rate).wf(),
        b.refilled(capacity, rate, now).wf(),
        b.consumed(capacity, rate, now).wf(),
{
    if rate.per_ms > 0 {
        lemma_at_rate(b, rate);
    }
    if now > b.last_refill {
        let c = b.refilled(capacity, rate, now);
        assert(capacity * c.scale() >= 0) by (nonlinear_arith)
            requires
                c.scale() > 0,
        ;
        if rate.per_ms > 0 {
            lemma_accrual(now - b.last_refill, rate, b.at_rate(rate).grain(rate));
        }
    }
}

/// What accrues is not negative.
proof fn lemma_accrual(elapsed: int, rate: RefillRate, grain: int)
    requires
        elapsed >= 0,
        grain >= 0,
    ensures
        elapsed * rate.tokens * grain >= 0,
{
    assert(elapsed * rate.tokens * grain >= 0) by (nonlinear_arith)
        requires
            elapsed >= 0,
            grain >= 0,
    ;
}

/// A new bucket holds its capacity, whatever its rate, and so lets the first
/// request through wherever the capacity is not zero.
pub proof fn law_fresh_bucket_is_full(
    capacity: u64,
    window_ms: u64,
    rate: RefillRate,
    now: u64,
)
    ensures
        BucketView::fresh(capacity, window_ms, now).wf(),
        BucketView::fresh(capacity, window_ms, now).whole() == capacity,
        BucketView::fresh(capacity, window_ms, now).refilled(capacity, rate, now).units == capacity
            * BucketView::fresh(capacity, window_ms, now).refilled(capacity, rate, now).scale(),
        BucketView::fresh(capacity, window_ms, now).admits(capacity, rate, now) <==> capacity > 0,
{
    let b = BucketView::fresh(capacity, window_ms, now);
    let c = b.refilled(capacity, rate, now);
    assert(c.units == capacity * c.scale());
    assert(c.units >= c.scale() <==> capacity > 0) by (nonlinear_arith)
        requires
            c.units == capacity * c.scale(),
            c.scale() > 0,
    ;
}

/// A refill never takes a bucket beyond its capacity, and a bucket within it stays
/// there over every refill and every request.
pub proof fn law_refill_is_capped(b: BucketView, capacity: u64, rate: RefillRate, now: u64)
    requires
        b.wf(),
        now > b.last_refill || b.units <= capacity * b.scale(),
    ensures
        b.refilled(capacity, rate, now).units <= capacity * b.refilled(capacity, rate, now).scale(),
        b.consumed(capacity, rate, now).units <= capacity * b.consumed(capacity, rate, now).scale(),
{
    law_bucket_stays_well_formed(b, capacity, rate, now);
}

/// What a bucket is due at `now`: what it held and what the rate has added since, up
/// to its capacity. It is counted in shares, of which the nanoseconds that make the
/// bucket's token times those of the rate's window make a token.
pub open spec fn due(b: BucketView, capacity: u64, rate: RefillRate, now: u64) -> int {
    let window = rate.per_ms * 1_000_000;
    let token = b.common_ms * 1_000_000;
    let owed = b.units * window + (now - b.last_refill) * rate.tokens * token;
    let full = capacity * (token * window);
    if owed < full {
        owed
    } else {
        full
    }
}

/// Time adds what the rate says: a refilled bucket holds the tokens that it is due,
/// exactly where the windows have a common multiple that fits in 64 bits, and to
/// less than one of its units elsewhere.
pub proof fn law_time_adds_the_rate(b: BucketView, capacity: u64, rate: RefillRate, now: u64)
    requires
        b.wf(),
        rate.per_ms > 0,
        now > b.last_refill,
    ensures
        ({
            let after = b.refilled(capacity, rate, now);
            let shares = b.scale() * rate.window();
            let owed = due(b, capacity, rate, now);
            &&& after.units * shares <= owed * after.scale()
            &&& owed * after.scale() < (after.units + 1) * shares
            &&& has_common_unit(b, rate) ==> after.units * shares == owed * after.scale()
        }),
{
    let a = b.at_rate(rate);
    let k = a.grain(rate);
    let w = rate.window();
    let x = a.scale();
    let shares = b.scale() * w;
    lemma_at_rate(b, rate);
    law_change_of_window_keeps_the_balance(b, rate);
    let gain = (now - b.last_refill) * rate.tokens;
    let accrued = a.units + gain * k;
    let owed = b.units * w + gain * b.scale();
    let full = capacity * shares;
    assert(shares > 0) by (nonlinear_arith)
        requires
            shares == b.scale() * w,
            b.scale() > 0,
            w > 0,
    ;
    assert(owed * x == (b.units * x) * w + (gain * k) * shares) by (nonlinear_arith)
        requires
            owed == b.units * w + gain * b.scale(),
            x == k * w,
            shares == b.scale() * w,
    ;
    assert(accrued * shares == (a.units * b.scale()) * w + (gain * k) * shares) by (nonlinear_arith)
        requires
            accrued == a.units + gain * k,
            shares == b.scale() * w,
    ;
    assert((accrued + 1) * shares == ((a.units + 1) * b.scale()) * w + (gain * k) * shares)
        by (nonlinear_arith)
        requires
            accrued == a.units + gain * k,
            shares == b.scale() * w,
    ;
    assert((a.units * b.scale()) * w <= (b.units * x) * w) by (nonlinear_arith)
        requires
            a.units * b.scale() <= b.units * x,
            w > 0,
    ;
    assert((b.units * x) * w < ((a.units + 1) * b.scale()) * w) by (nonlinear_arith)
        requires
            b.units * x < (a.units + 1) * b.scale(),
            w > 0,
    ;
    assert(full * x == (capacity * x) * shares) by (nonlinear_arith)
        requires
            full == capacity * shares,
    ;
    let top = capacity * x;
    if accrued < top {
        assert((accrued + 1) * shares <= top * shares) by (nonlinear_arith)
            requires
                accrued + 1 <= top,
                shares > 0,
        ;
        assert(owed < full) by (nonlinear_arith)
            requires
                owed * x < full * x,
                x > 0,
        ;
    } else {
        assert(accrued * shares >= top * shares) by (nonlinear_arith)
            requires
                accrued >= top,
                shares > 0,
        ;
        assert(owed >= full) by (nonlinear_arith)
            requires
                owed * x >= full * x,
                x > 0,
        ;
        assert((top + 1) * shares == top * shares + shares) by (nonlinear_arith);
    }
}

/// A bucket refills continuously: a stop on the way makes no difference to what it
/// holds later.
pub proof fn law_refill_is_continuous(
    b: BucketView,
    capacity: u64,
    rate: RefillRate,
    sooner: u64,
    later: u64,
)
    requires
        b.wf(),
        sooner <= later,
    ensures
        b.refilled(capacity, rate, sooner).refilled(capacity, rate, later) == b.refilled(
            capacity,
            rate,
            later,
        ),
{
    if b.last_refill < sooner < later && rate.per_ms > 0 {
        let c = b.refilled(capacity, rate, sooner);
        lemma_at_rate(b, rate);
        law_bucket_stays_well_formed(b, capacity, rate, sooner);
        lemma_same_unit(c);
        let k = b.at_rate(rate).grain(rate);
        assert(c.at_rate(rate) == c);
        assert((later - b.last_refill) * rate.tokens * k == (sooner - b.last_refill) * rate.tokens
            * k + (later - sooner) * rate.tokens * k) by (nonlinear_arith);
        lemma_accrual(later - sooner, rate, k);
        lemma_accrual(sooner - b.last_refill, rate, k);
    }
}

/// Over one window a bucket gains as many tokens as the rate says, as far as its
/// capacity has room for them.
pub proof fn law_window_accrues_the_limit(b: BucketView, capacity: u64, rate: RefillRate, now: u64)
    requires
        b.wf(),
        rate.per_ms > 0,
        now == b.last_refill + rate.window(),
    ensures
        ({
            let before = b.at_rate(rate);
            let after = b.refilled(capacity, rate, now);
            &&& after.scale() == before.scale()
            &&& after.units == (if before.units + rate.tokens * before.scale() < capacity
                * before.scale() {
                before.units + rate.tokens * before.scale()
            } else {
                capacity * before.scale()
            })
        }),
{
    lemma_at_rate(b, rate);
    let c = b.at_rate(rate);
    assert((now - b.last_refill) * rate.tokens * c.grain(rate) == rate.tokens * c.scale())
        by (nonlinear_arith)
        requires
            now - b.last_refill == rate.window(),
            c.scale() == c.grain(rate) * rate.window(),
    ;
}

/// The hint that a rejected request gets is exact: a request that comes no
/// sooner than the hint says finds a token, and one that comes sooner does not.
/// That is, where no other request comes in between, the bucket can hold a token
/// at all, and tokens accrue to it, though not all at once.
pub proof fn law_retry_hint_is_exact(
    b: BucketView,
    capacity: u64,
    rate: RefillRate,
    now: u64,
    later: u64,
)
    requires
        b.wf(),
        b.last_refill <= now <= later,
        capacity > 0,
        rate.tokens > 0,
        rate.per_ms > 0,
        !b.admits(capacity, rate, now),
    ensures
        b.consumed(capacity, rate, now).admits(capacity, rate, later) <==> b.answer(
            capacity,
            rate,
            now,
        ).retry_after.elapsed_by(later - now),
        b.answer(capacity, rate, now).retry_after.denominator > 0,
{
    law_bucket_stays_well_formed(b, capacity, rate, now);
    let c = b.consumed(capacity, rate, now);
    assert(c.last_refill == now);
    lemma_at_rate(c, rate);
    let d = c.at_rate(rate);
    let k = d.grain(rate);
    lemma_part_carries_over(c, rate);
    assert(d.scale() <= capacity * d.scale()) by (nonlinear_arith)
        requires
            capacity > 0,
            d.scale() > 0,
    ;
    assert(k <= d.common_ms) by (nonlinear_arith)
        requires
            d.scale() == k * rate.window(),
            d.scale() == d.common_ms * 1_000_000,
            rate.window() >= 1_000_000,
            k >= 1,
    ;
    crate::arith::lemma_product_bound(k, rate.tokens as int, u64::MAX as int);
    assert(k * rate.tokens > 0) by (nonlinear_arith)
        requires
            k >= 1,
            rate.tokens > 0,
    ;
    let hint = b.answer(capacity, rate, now).retry_after;
    assert(hint.numerator == d.scale() - d.units);
    assert(hint.denominator == k * rate.tokens);
    assert((later - now) * (k * rate.tokens) == (later - now) * rate.tokens * k)
        by (nonlinear_arith);
    assert(0 * (k * rate.tokens) == 0) by (nonlinear_arith);
}

/// Less than a token is less than a token in any unit.
proof fn lemma_part_carries_over(b: BucketView, rate: RefillRate)
    requires
        b.wf(),
        rate.per_ms > 0,
        b.units < b.scale(),
    ensures
        b.at_rate(rate).units < b.at_rate(rate).scale(),
{
    let c = b.at_rate(rate);
    lemma_at_rate(b, rate);
    lemma_rescaled(b, c.common_ms);
    assert(c.units < c.scale()) by (nonlinear_arith)
        requires
            c.units * b.common_ms <= b.units * c.common_ms,
            b.units < b.scale(),
            b.scale() == b.common_ms * 1_000_000,
            c.scale() == c.common_ms * 1_000_000,
            b.common_ms > 0,
            c.common_ms > 0,
    ;
}

/// A bucket without a whole token to which no tokens accrue turns every request
/// away from then on.
pub proof fn law_nothing_accrues_at_rate_zero(
    b: BucketView,
    capacity: u64,
    rate: RefillRate,
    now: u64,
    later: u64,
)
    requires
        b.wf(),
        rate.tokens == 0,
        rate.per_ms > 0,
        !b.admits(capacity, rate, now),
    ensures
        !b.consumed(capacity, rate, now).admits(capacity, rate, later),
{
    law_bucket_stays_well_formed(b, capacity, rate, now);
    let c = b.consumed(capacity, rate, now);
    lemma_part_carries_over(c, rate);
    let k = c.at_rate(rate).grain(rate);
    assert((later - c.last_refill) * 0 * k == 0) by (nonlinear_arith);
}

/// A rate over no time at all fills the bucket as soon as the clock moves on.
pub proof fn law_instant_rate_refills_at_once(
    b: BucketView,
    capacity: u64,
    rate: RefillRate,
    now: u64,
)
    requires
        b.wf(),
        rate.per_ms == 0,
        now > b.last_refill,
    ensures
        b.refilled(capacity, rate, now).units == capacity * b.refilled(
            capacity,
            rate,
            now,
        ).scale(),
        b.admits(capacity, rate, now) <==> capacity > 0,
{
    let c = b.refilled(capacity, rate, now);
    lemma_full_admits(c.units, c.scale(), capacity as int);
}

/// A balance of whole tokens holds one if it is of one or more.
proof fn lemma_full_admits(units: int, scale: int, tokens: int)
    requires
        units == tokens * scale,
        scale > 0,
        tokens >= 0,
    ensures
        units >= scale <==> tokens > 0,
{
    assert(units >= scale <==> tokens > 0) by (nonlinear_arith)
        requires
            units == tokens * scale,
            scale > 0,
            tokens >= 0,
    ;
}

/// A bucket left alone for long enough is as good as new: once its capacity has
/// accrued, a request is answered as it would be by a bucket made for it, and
/// leaves as much behind.
pub proof fn law_idle_bucket_is_as_good_as_new(
    b: BucketView,
    capacity: u64,
    rate: RefillRate,
    now: u64,
)
    requires
        b.wf(),
        now > b.last_refill,
        (now - b.last_refill) * rate.tokens >= capacity * rate.window(),
        0 <= b.window_ms <= u64::MAX,
    ensures
        ({
            let fresh = BucketView::fresh(capacity, b.window_ms as u64, now);
            let kept = b.consumed(capacity, rate, now);
            let made = fresh.consumed(capacity, rate, now);
            let told = b.answer(capacity, rate, now);
            let expected = fresh.answer(capacity, rate, now);
            &&& same_balance(kept, made)
            &&& kept.last_refill == made.last_refill
            &&& kept.last_access == made.last_access
            &&& kept.window_ms == made.window_ms
            &&& told.allowed == expected.allowed
            &&& told.remaining == expected.remaining
            &&& told.limit == expected.limit
            &&& same_wait(told.retry_after, expected.retry_after)
        }),
{
    let fresh = BucketView::fresh(capacity, b.window_ms as u64, now);
    law_fresh_bucket_is_full(capacity, b.window_ms as u64, rate, now);
    law_bucket_stays_well_formed(b, capacity, rate, now);
    law_bucket_stays_well_formed(fresh, capacity, rate, now);
    if rate.per_ms > 0 {
        lemma_at_rate(b, rate);
        let a = b.at_rate(rate);
        let k = a.grain(rate);
        assert((now - b.last_refill) * rate.tokens * k >= capacity * a.scale()) by (nonlinear_arith)
            requires
                (now - b.last_refill) * rate.tokens >= capacity * rate.window(),
                a.scale() == k * rate.window(),
                k >= 1,
        ;
    }
    let c = b.refilled(capacity, rate, now);
    assert(c.units == capacity * c.scale());
    lemma_full_admits(c.units, c.scale(), capacity as int);
    let kept = b.consumed(capacity, rate, now);
    let made = fresh.consumed(capacity, rate, now);
    let left: int = if capacity > 0 {
        capacity - 1
    } else {
        0
    };
    assert(kept.units == left * kept.scale()) by {
        assert((capacity - 1) * c.scale() == capacity * c.scale() - c.scale()) by (nonlinear_arith);
        assert(0 * c.scale() == 0) by (nonlinear_arith);
        assert(kept.scale() == c.scale());
    }
    assert(made.units == left * made.scale()) by {
        assert(made.scale() == 1_000_000);
        assert(left * made.scale() == left * 1_000_000) by (nonlinear_arith)
            requires
                made.scale() == 1_000_000,
        ;
    }
    assert(kept.units * made.scale() == made.units * kept.scale()) by (nonlinear_arith)
        requires
            kept.units == left * kept.scale(),
            made.units == left * made.scale(),
    ;
    crate::arith::lemma_quotient(kept.units, kept.scale(), left, 0);
    crate::arith::lemma_quotient(made.units, made.scale(), left, 0);
    if capacity == 0 && rate.tokens > 0 && rate.per_ms > 0 {
        lemma_wait_of_empty(kept, rate);
        lemma_wait_of_empty(made, rate);
        let i = kept.at_rate(rate).grain(rate);
        let j = made.at_rate(rate).grain(rate);
        assert((i * rate.window()) * (j * rate.tokens) == (j * rate.window()) * (i * rate.tokens))
            by (nonlinear_arith);
    }
}

/// An empty bucket has to wait for a whole token.
proof fn lemma_wait_of_empty(b: BucketView, rate: RefillRate)
    requires
        b.wf(),
        b.units == 0,
        rate.per_ms > 0,
        rate.tokens > 0,
    ensures
        b.wait(rate).numerator == b.at_rate(rate).grain(rate) * rate.window(),
        b.wait(rate).denominator == b.at_rate(rate).grain(rate) * rate.tokens,
{
    lemma_at_rate(b, rate);
    let c = b.at_rate(rate);
    let k = c.grain(rate);
    assert(c.units == 0) by {
        assert(0 * c.common_ms == 0) by (nonlinear_arith);
        crate::arith::lemma_quotient(0, b.common_ms as int, 0, 0);
    }
    assert(k <= c.common_ms) by (nonlinear_arith)
        requires
            c.scale() == k * rate.window(),
            c.scale() == c.common_ms * 1_000_000,
            rate.window() >= 1_000_000,
            k >= 1,
    ;
    crate::arith::lemma_product_bound(k, rate.tokens as int, u64::MAX as int);
}

/// A bucket after a run of requests.
pub open spec fn after_requests(
    b: BucketView,
    capacity: u64,
    rate: RefillRate,
    times: Seq<u64>,
) -> BucketView
    decreases times.len(),
{
    if times.len() == 0 {
        b
    } else {
        after_requests(b, capacity, rate, times.drop_last()).consumed(capacity, rate, times.last())
    }
}

/// How many of a run of requests are let through.
pub open spec fn admitted(b: BucketView, capacity: u64, rate: RefillRate, times: Seq<u64>) -> int
    decreases times.len(),
{
    if times.len() == 0 {
        0
    } else {
        admitted(b, capacity, rate, times.drop_last()) + if after_requests(
            b,
            capacity,
            rate,
            times.drop_last(),
        ).admits(capacity, rate, times.last()) {
            1int
        } else {
            0
        }
    }
}

/// A new bucket lets exactly its capacity through at once: of requests that all
/// come at the moment it is made, the first `capacity` pass and no other, and
/// each of them leaves one token less.
pub proof fn law_burst_is_the_capacity(
    capacity: u64,
    window_ms: u64,
    rate: RefillRate,
    times: Seq<u64>,
    now: u64,
)
    requires
        forall|i: int| 0 <= i < times.len() ==> times[i] == now,
    ensures
        admitted(BucketView::fresh(capacity, window_ms, now), capacity, rate, times) == (
        if times.len() < capacity {
            times.len() as int
        } else {
            capacity as int
        }),
        after_requests(
            BucketView::fresh(capacity, window_ms, now),
            capacity,
            rate,
            times,
        ).whole() == (if times.len() < capacity {
            capacity - times.len()
        } else {
            0
        }),
        after_requests(BucketView::fresh(capacity, window_ms, now), capacity, rate, times).admits(
            capacity,
            rate,
            now,
        ) <==> times.len() < capacity,
    decreases times.len(),
{
    lemma_burst(capacity, window_ms, rate, times, now);
    let fresh = BucketView::fresh(capacity, window_ms, now);
    let c = after_requests(fresh, capacity, rate, times);
    let left = if times.len() < capacity {
        capacity - times.len()
    } else {
        0
    };
    crate::arith::lemma_quotient(c.units, c.scale(), left, 0);
    lemma_full_admits(c.units, c.scale(), left);
}

proof fn lemma_burst(
    capacity: u64,
    window_ms: u64,
    rate: RefillRate,
    times: Seq<u64>,
    now: u64,
)
    requires
        forall|i: int| 0 <= i < times.len() ==> times[i] == now,
    ensures
        ({
            let fresh = BucketView::fresh(capacity, window_ms, now);
            let c = after_requests(fresh, capacity, rate, times);
            let left = if times.len() < capacity {
                capacity - times.len()
            } else {
                0
            };
            &&& c.scale() > 0
            &&& c.last_refill == now
            &&& c.units == left * c.scale()
            &&& admitted(fresh, capacity, rate, times) == capacity - left
        }),
    decreases times.len(),
{
    let fresh = BucketView::fresh(capacity, window_ms, now);
    if times.len() > 0 {
        lemma_burst(capacity, window_ms, rate, times.drop_last(), now);
        let b = after_requests(fresh, capacity, rate, times.drop_last());
        let left = if times.len() - 1 < capacity {
            capacity - (times.len() - 1)
        } else {
            0
        };
        lemma_full_admits(b.units, b.scale(), left);
        assert((left - 1) * b.scale() == left * b.scale() - b.scale()) by (nonlinear_arith);
    }
}

/// What a bucket holds at `now`, in the units that it holds at `rate`, where no
/// request comes before.
pub open spec fn held_at(b: BucketView, capacity: u64, rate: RefillRate, now: int) -> int {
    let c = b.at_rate(rate);
    let elapsed = if now > b.last_refill {
        now - b.last_refill
    } else {
        0
    };
    let accrued = c.units + elapsed * rate.tokens * c.grain(rate);
    let full = capacity * c.scale();
    if accrued < full {
        accrued
    } else {
        full
    }
}

/// A bucket never holds less than nothing.
pub(crate) proof fn lemma_held_is_not_negative(
    b: BucketView,
    capacity: u64,
    rate: RefillRate,
    now: int,
)
    requires
        b.wf(),
        rate.per_ms > 0,
    ensures
        held_at(b, capacity, rate, now) >= 0,
        b.at_rate(rate).grain(rate) >= 1,
{
    lemma_at_rate(b, rate);
    let c = b.at_rate(rate);
    lemma_accrual(
        if now > b.last_refill {
            now - b.last_refill
        } else {
            0
        },
        rate,
        c.grain(rate),
    );
    assert(capacity * c.scale() >= 0) by (nonlinear_arith)
        requires
            c.scale() > 0,
    ;
}

/// A new bucket takes up the window that it is first asked for.
pub(crate) proof fn lemma_fresh_at_rate(
    capacity: u64,
    window_ms: u64,
    rate: RefillRate,
    now: u64,
)
    requires
        rate.per_ms > 0,
    ensures
        BucketView::fresh(capacity, window_ms, now).at_rate(rate).grain(rate) == 1,
        held_at(BucketView::fresh(capacity, window_ms, now), capacity, rate, now as int)
            == capacity * rate.window(),
{
    let fresh = BucketView::fresh(capacity, window_ms, now);
    let c = fresh.at_rate(rate);
    let p = rate.per_ms as nat;
    let g = crate::arith::gcd(1, p);
    assert(g == 1) by {
        crate::arith::lemma_gcd_divides(1, p);
        let q = 1nat / g;
        assert(g == 1) by (nonlinear_arith)
            requires
                g > 0,
                q >= 1,
                1 == g * q,
        ;
    }
    assert(lcm(1, p) == 1nat / g * p);
    assert(1nat / g == 1) by {
        crate::arith::lemma_quotient(1, 1, 1, 0);
    }
    assert(1 * p == p) by (nonlinear_arith);
    assert(c.common_ms == p);
    crate::arith::lemma_quotient(p as int, p as int, 1, 0);
    assert(fresh.units * p == capacity * rate.window()) by (nonlinear_arith)
        requires
            fresh.units == capacity * 1_000_000,
            rate.window() == p * 1_000_000,
    ;
    crate::arith::lemma_quotient(fresh.units * p, 1, capacity * rate.window(), 0);
    assert(0 * rate.tokens * 1 == 0) by (nonlinear_arith);
}

/// What a request that is let through costs, in the units of a balance at `rate`.
pub open spec fn price(b: BucketView, capacity: u64, rate: RefillRate, now: u64) -> int {
    if b.admits(capacity, rate, now) {
        b.at_rate(rate).scale()
    } else {
        0
    }
}

/// A request takes its price out of the bucket and nothing else.
pub(crate) proof fn lemma_request(b: BucketView, capacity: u64, rate: RefillRate, now: u64)
    requires
        b.wf(),
        rate.per_ms > 0,
    ensures
        ({
            let c = b.consumed(capacity, rate, now);
            let k = b.at_rate(rate).grain(rate);
            &&& c.wf()
            &&& c.at_rate(rate).common_ms == b.at_rate(rate).common_ms
            &&& c.last_refill == (if now > b.last_refill {
                now as int
            } else {
                b.last_refill
            })
            &&& c.last_access == now
            &&& c.at_rate(rate).units + price(b, capacity, rate, now) <= b.at_rate(rate).units + (
            c.last_refill - b.last_refill) * rate.tokens * k
            &&& b.units <= capacity * b.scale() || now > b.last_refill ==> {
                &&& c.units <= capacity * c.scale()
                &&& held_at(c, capacity, rate, now as int) + price(b, capacity, rate, now)
                    == held_at(b, capacity, rate, now as int)
            }
        }),
{
    let a = b.at_rate(rate);
    let k = a.grain(rate);
    let c = b.consumed(capacity, rate, now);
    law_bucket_stays_well_formed(b, capacity, rate, now);
    lemma_at_rate(b, rate);
    if b.units <= capacity * b.scale() {
        lemma_capacity_carries_over(b, capacity, rate);
    }
    assert(0 * rate.tokens * k == 0) by (nonlinear_arith);
    if now > b.last_refill {
        lemma_same_unit(c);
        assert(c.at_rate(rate) == c);
        lemma_accrual(now - b.last_refill, rate, k);
    } else {
        if b.admits(capacity, rate, now) {
            assert(1 * b.scale() == b.scale());
            lemma_whole_tokens_carry_over(b, rate, 1);
            assert(c.at_rate(rate).units == (BucketView {
                units: b.units - 1 * b.scale(),
                ..b
            }).at_rate(rate).units);
        } else {
            assert(c.at_rate(rate).units == b.at_rate(rate).units);
        }
    }
}

/// A bucket under one rate pays for every request that it lets through: what it
/// still holds and what it has paid out come to no more than what it held and
/// what has accrued.
pub proof fn law_admitted_requests_are_paid_for(
    b: BucketView,
    capacity: u64,
    rate: RefillRate,
    times: Seq<u64>,
)
    requires
        b.wf(),
        rate.per_ms > 0,
    ensures
        ({
            let before = b.at_rate(rate);
            let left = after_requests(b, capacity, rate, times);
            let after = left.at_rate(rate);
            &&& left.wf()
            &&& left.last_refill >= b.last_refill
            &&& after.common_ms == before.common_ms
            &&& after.units + admitted(b, capacity, rate, times) * before.scale() <= before.units
                + (left.last_refill - b.last_refill) * rate.tokens * before.grain(rate)
        }),
    decreases times.len(),
{
    let a = b.at_rate(rate);
    let k = a.grain(rate);
    if times.len() == 0 {
        assert((b.last_refill - b.last_refill) * rate.tokens * k == 0) by (nonlinear_arith);
        assert(0 * a.scale() == 0) by (nonlinear_arith);
    } else {
        let before = times.drop_last();
        let now = times.last();
        law_admitted_requests_are_paid_for(b, capacity, rate, before);
        let c = after_requests(b, capacity, rate, before);
        lemma_request(c, capacity, rate, now);
        let d = c.consumed(capacity, rate, now);
        let n = admitted(b, capacity, rate, before);
        assert((n + 1) * a.scale() == n * a.scale() + a.scale()) by (nonlinear_arith);
        assert((d.last_refill - b.last_refill) * rate.tokens * k == (c.last_refill - b.last_refill)
            * rate.tokens * k + (d.last_refill - c.last_refill) * rate.tokens * k)
            by (nonlinear_arith);
    }
}

/// A caller that keeps to the rate is never turned away: requests at a new bucket
/// that leave each other time for a token to accrue all pass.
pub proof fn law_paced_requests_all_pass(
    capacity: u64,
    window_ms: u64,
    rate: RefillRate,
    times: Seq<u64>,
    start: u64,
)
    requires
        capacity > 0,
        rate.per_ms > 0,
        forall|i: int| 0 <= i < times.len() ==> start <= #[trigger] times[i],
        forall|i: int, j: int|
            0 <= i < j < times.len() ==> (#[trigger] times[j] - #[trigger] times[i]) * rate.tokens
                >= rate.window(),
    ensures
        admitted(BucketView::fresh(capacity, window_ms, start), capacity, rate, times)
            == times.len(),
{
    lemma_paced(capacity, window_ms, rate, times, start);
}

proof fn lemma_paced(
    capacity: u64,
    window_ms: u64,
    rate: RefillRate,
    times: Seq<u64>,
    start: u64,
)
    requires
        capacity > 0,
        rate.per_ms > 0,
        forall|i: int| 0 <= i < times.len() ==> start <= #[trigger] times[i],
        forall|i: int, j: int|
            0 <= i < j < times.len() ==> (#[trigger] times[j] - #[trigger] times[i]) * rate.tokens
                >= rate.window(),
    ensures
        ({
            let fresh = BucketView::fresh(capacity, window_ms, start);
            let c = after_requests(fresh, capacity, rate, times);
            &&& admitted(fresh, capacity, rate, times) == times.len()
            &&& c.wf()
            &&& times.len() > 0 ==> c.last_refill == times.last()
        }),
    decreases times.len(),
{
    let fresh = BucketView::fresh(capacity, window_ms, start);
    law_fresh_bucket_is_full(capacity, window_ms, rate, start);
    if times.len() > 0 {
        let before = times.drop_last();
        let now = times.last();
        assert forall|i: int| 0 <= i < before.len() implies start <= #[trigger] before[i] by {
            assert(before[i] == times[i]);
        }
        assert forall|i: int, j: int| 0 <= i < j < before.len() implies (#[trigger] before[j]
            - #[trigger] before[i]) * rate.tokens >= rate.window() by {
            assert(before[i] == times[i] && before[j] == times[j]);
        }
        lemma_paced(capacity, window_ms, rate, before, start);
        let b = after_requests(fresh, capacity, rate, before);
        assert(now == times[times.len() - 1]);
        law_bucket_stays_well_formed(b, capacity, rate, now);
        lemma_at_rate(b, rate);
        let a = b.at_rate(rate);
        let k = a.grain(rate);
        assert(a.scale() <= capacity * a.scale()) by (nonlinear_arith)
            requires
                capacity > 0,
                a.scale() > 0,
        ;
        if before.len() == 0 {
            lemma_whole_tokens(fresh, rate);
            assert(a.units >= a.scale()) by {
                vstd::arithmetic::div_mod::lemma_fundamental_div_mod(a.units, a.scale());
                assert(a.scale() * (a.units / a.scale()) >= a.scale()) by (nonlinear_arith)
                    requires
                        a.units / a.scale() >= 1,
                        a.scale() > 0,
                ;
            }
            if now > start {
                lemma_accrual(now - start, rate, k);
            }
        } else {
            let last = before.last();
            assert(last == times[times.len() - 2]);
            assert((now - last) * rate.tokens >= rate.window());
            assert(now > last) by (nonlinear_arith)
                requires
                    (now - last) * rate.tokens >= rate.window(),
                    rate.window() > 0,
            ;
            assert((now - last) * rate.tokens * k >= a.scale()) by (nonlinear_arith)
                requires
                    (now - last) * rate.tokens >= rate.window(),
                    a.scale() == k * rate.window(),
                    k >= 1,
            ;
        }
    }
}

/// A request is let through exactly where the bucket is due a whole token: where
/// the clock has moved on, what the bucket held and what the rate has added since,
/// up to the capacity, come to one; where it has not, what the bucket holds does.
pub proof fn law_request_passes_where_a_token_is_due(
    b: BucketView,
    capacity: u64,
    rate: RefillRate,
    now: u64,
)
    requires
        b.wf(),
    ensures
        now <= b.last_refill ==> (b.answer(capacity, rate, now).allowed <==> b.units
            >= b.common_ms * 1_000_000),
        now > b.last_refill && rate.per_ms == 0 ==> (b.answer(capacity, rate, now).allowed
            <==> capacity > 0),
        now > b.last_refill && rate.per_ms > 0 ==> (b.answer(capacity, rate, now).allowed <==> due(
            b,
            capacity,
            rate,
            now,
        ) >= (b.common_ms * 1_000_000) * (rate.per_ms * 1_000_000)),
{
    if now > b.last_refill {
        if rate.per_ms == 0 {
            law_instant_rate_refills_at_once(b, capacity, rate, now);
        } else {
            law_bucket_stays_well_formed(b, capacity, rate, now);
            law_time_adds_the_rate(b, capacity, rate, now);
            let after = b.refilled(capacity, rate, now);
            let shares = b.scale() * rate.window();
            let owed = due(b, capacity, rate, now);
            let x = after.scale();
            if after.units >= x {
                assert(owed >= shares) by (nonlinear_arith)
                    requires
                        after.units * shares <= owed * x,
                        after.units >= x,
                        shares >= 0,
                        x > 0,
                ;
            } else {
                assert(owed < shares) by (nonlinear_arith)
                    requires
                        owed * x < (after.units + 1) * shares,
                        after.units + 1 <= x,
                        shares >= 0,
                        x > 0,
                ;
            }
        }
    }
}

/// A request that is let through takes exactly one token out of what the bucket
/// holds at that moment, and one that is turned away takes nothing. Either is noted
/// as the bucket's last use.
pub proof fn law_request_takes_one_token_or_none(
    b: BucketView,
    capacity: u64,
    rate: RefillRate,
    now: u64,
)
    requires
        b.wf(),
    ensures
        ({
            let found = b.refilled(capacity, rate, now);
            let left = b.consumed(capacity, rate, now);
            let taken: int = if b.answer(capacity, rate, now).allowed {
                1
            } else {
                0
            };
            &&& left.common_ms == found.common_ms
            &&& left.units + taken * (left.common_ms * 1_000_000) == found.units
            &&& left.last_refill == found.last_refill
            &&& left.last_refill == (if now > b.last_refill {
                now as int
            } else {
                b.last_refill
            })
            &&& left.last_access == now
            &&& left.window_ms == b.window_ms
        }),
{
    let scale = b.refilled(capacity, rate, now).scale();
    assert(1 * scale == scale && 0 * scale == 0) by (nonlinear_arith);
}

/// At one moment a bucket lets as many requests through as it holds whole tokens.
proof fn lemma_at_one_moment(
    b: BucketView,
    capacity: u64,
    rate: RefillRate,
    times: Seq<u64>,
    now: u64,
)
    requires
        b.wf(),
        now <= b.last_refill,
        forall|i: int| 0 <= i < times.len() ==> times[i] == now,
    ensures
        ({
            let whole = b.whole();
            let n = times.len() as int;
            let taken = if n < whole {
                n
            } else {
                whole
            };
            let c = after_requests(b, capacity, rate, times);
            &&& c.common_ms == b.common_ms
            &&& c.last_refill == b.last_refill
            &&& c.units == b.units - taken * b.scale()
            &&& admitted(b, capacity, rate, times) == taken
        }),
    decreases times.len(),
{
    let whole = b.whole();
    let scale = b.scale();
    vstd::arithmetic::div_mod::lemma_fundamental_div_mod(b.units, scale);
    vstd::arithmetic::div_mod::lemma_div_pos_is_pos(b.units, scale);
    assert(0 * scale == 0) by (nonlinear_arith);
    if times.len() > 0 {
        let before = times.drop_last();
        lemma_at_one_moment(b, capacity, rate, before, now);
        let n = before.len() as int;
        let c = after_requests(b, capacity, rate, before);
        assert(times.last() == now);
        assert((n + 1) * scale == n * scale + scale) by (nonlinear_arith);
        if n < whole {
            assert(n * scale + scale <= scale * whole) by (nonlinear_arith)
                requires
                    n + 1 <= whole,
                    scale > 0,
            ;
            assert(c.units >= c.scale());
        } else {
            assert(whole * scale == scale * whole) by (nonlinear_arith);
            assert(c.units < c.scale());
        }
    }
}

/// What a request is told remains is what it leaves behind: as many whole tokens as
/// the bucket then holds, so that exactly as many further requests at that moment
/// are let through. A request that is turned away leaves none. The limit that it is
/// told is the capacity, and one that is let through has nothing to wait for.
pub proof fn law_remaining_is_what_is_left(
    b: BucketView,
    capacity: u64,
    rate: RefillRate,
    now: u64,
    times: Seq<u64>,
)
    requires
        b.wf(),
        b.whole() <= u64::MAX,
        forall|i: int| 0 <= i < times.len() ==> times[i] == now,
    ensures
        ({
            let told = b.answer(capacity, rate, now);
            let left = b.consumed(capacity, rate, now);
            let scale = left.common_ms * 1_000_000;
            &&& told.remaining * scale <= left.units
            &&& left.units < (told.remaining + 1) * scale
            &&& admitted(left, capacity, rate, times) == (if times.len() < told.remaining {
                times.len() as int
            } else {
                told.remaining as int
            })
            &&& !told.allowed ==> told.remaining == 0
            &&& told.allowed ==> told.retry_after.numerator == 0 && told.retry_after.denominator > 0
            &&& told.limit == capacity
        }),
{
    let found = b.refilled(capacity, rate, now);
    let left = b.consumed(capacity, rate, now);
    let told = b.answer(capacity, rate, now);
    let scale = left.scale();
    law_bucket_stays_well_formed(b, capacity, rate, now);
    vstd::arithmetic::div_mod::lemma_fundamental_div_mod(b.units, b.scale());
    vstd::arithmetic::div_mod::lemma_fundamental_div_mod(left.units, scale);
    vstd::arithmetic::div_mod::lemma_div_pos_is_pos(left.units, scale);
    let whole = left.whole();
    assert(whole <= u64::MAX) by {
        if now > b.last_refill {
            assert(whole <= capacity) by (nonlinear_arith)
                requires
                    scale * whole <= left.units,
                    left.units <= capacity * scale,
                    scale > 0,
            ;
        } else {
            assert(whole <= b.whole()) by (nonlinear_arith)
                requires
                    scale * whole <= left.units,
                    left.units <= b.units,
                    b.units < scale * b.whole() + scale,
                    scale > 0,
            ;
        }
    }
    if !told.allowed {
        crate::arith::lemma_quotient(left.units, scale, 0, left.units);
    }
    assert(told.remaining == whole);
    assert(whole * scale == scale * whole && (whole + 1) * scale == scale * whole + scale)
        by (nonlinear_arith);
    lemma_at_one_moment(left, capacity, rate, times, now);
}

/// A bucket that tokens do not accrue to tells a request that it turns away to wait
/// for the window that the bucket was made with; one that refills at once, not to
/// wait.
pub proof fn law_retry_hint_without_a_rate(
    b: BucketView,
    capacity: u64,
    rate: RefillRate,
    now: u64,
)
    requires
        b.wf(),
        0 <= b.window_ms <= u64::MAX,
        !b.answer(capacity, rate, now).allowed,
    ensures
        rate.tokens == 0 ==> b.answer(capacity, rate, now).retry_after.numerator == b.window_ms
            * 1_000_000 * b.answer(capacity, rate, now).retry_after.denominator,
        rate.tokens > 0 && rate.per_ms == 0 ==> b.answer(capacity, rate, now).retry_after.numerator
            == 0,
        rate.tokens == 0 || rate.per_ms == 0 ==> b.answer(
            capacity,
            rate,
            now,
        ).retry_after.denominator > 0,
{
    law_request_takes_one_token_or_none(b, capacity, rate, now);
    assert(b.window_ms * 1_000_000 * 1 == b.window_ms * 1_000_000);
}

/// Idleness is counted from the last request, let through or not: a bucket is kept
/// for `max_idle_ms` milliseconds after it, to the nanosecond, and not any longer.
/// Without any idle time allowed it is not kept at all.
pub proof fn law_idleness_counts_from_the_last_request(
    b: BucketView,
    capacity: u64,
    rate: RefillRate,
    now: u64,
    later: u64,
    max_idle_ms: u64,
)
    requires
        b.wf(),
    ensures
        max_idle_ms > 0 && later <= now + max_idle_ms * 1_000_000 ==> b.consumed(
            capacity,
            rate,
            now,
        ).active(later, max_idle_ms),
        later > now + max_idle_ms * 1_000_000 ==> !b.consumed(capacity, rate, now).active(
            later,
            max_idle_ms,
        ),
        !b.consumed(capacity, rate, now).active(later, 0),
{
}

} // verus!
