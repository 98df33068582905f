//! What holds of the plugin over many calls.

use crate::bucket::RefillRate;
use crate::bucket_laws::due;
use crate::config::{
    bucket_capacity, effective_limits, scope_name, RateLimitConfig, RateLimitScope,
};
use crate::context::{bucket_key, PluginContext};
use crate::decision::{Evaluation, GateDecision, Outcome};
use crate::glob::glob_matches;
use crate::limiter_laws::{
    admitted_under, after_all, requests_under, spared, swept_when_full, Request,
};
use crate::plugin::PluginView;
use vstd::prelude::*;

verus! {

/// A call at a clock reading in nanoseconds.
pub struct Call {
    pub ctx: PluginContext,
    pub now: u64,
}

/// What a call asks of the limiter.
pub open spec fn request_of(config: RateLimitConfig, call: Call) -> Request {
    let (limit, window_ms, burst, scope) = effective_limits(config, call.ctx.tool_name@);
    Request {
        key: bucket_key(call.ctx, scope),
        capacity: bucket_capacity(limit, burst),
        rate: RefillRate { tokens: limit, per_ms: window_ms },
        window_ms,
        now: call.now,
    }
}

/// The plugin after a run of calls.
pub open spec fn after_calls(plugin: PluginView, calls: Seq<Call>) -> PluginView
    decreases calls.len(),
{
    if calls.len() == 0 {
        plugin
    } else {
        after_calls(plugin, calls.drop_last()).evaluated(calls.last().ctx, calls.last().now)
    }
}

/// How many calls of a run draw on the bucket of `key` and are let through.
pub open spec fn admitted_calls(plugin: PluginView, calls: Seq<Call>, key: Seq<char>) -> int
    decreases calls.len(),
{
    if calls.len() == 0 {
        0
    } else {
        let before = after_calls(plugin, calls.drop_last());
        let last = calls.last();
        admitted_calls(plugin, calls.drop_last(), key) + if request_of(plugin.config, last).key
            == key && before.answer(last.ctx, last.now).allowed {
            1int
        } else {
            0
        }
    }
}

/// Calls in order of time, none before `start` and none after `end`.
pub open spec fn in_order(calls: Seq<Call>, start: u64, end: u64) -> bool {
    &&& start <= end
    &&& forall|i: int| 0 <= i < calls.len() ==> start <= (#[trigger] calls[i]).now <= end
    &&& forall|i: int, j: int|
        0 <= i <= j < calls.len() ==> (#[trigger] calls[i]).now <= (#[trigger] calls[j]).now
}

/// Calls change nothing about the plugin but its buckets.
pub proof fn law_calls_change_buckets_only(plugin: PluginView, calls: Seq<Call>)
    ensures
        after_calls(plugin, calls).config == plugin.config,
        after_calls(plugin, calls).host == plugin.host,
    decreases calls.len(),
{
    if calls.len() > 0 {
        law_calls_change_buckets_only(plugin, calls.drop_last());
    }
}

/// What a run of calls asks of the limiter.
pub open spec fn requests_of(config: RateLimitConfig, calls: Seq<Call>) -> Seq<Request> {
    Seq::new(calls.len(), |i: int| request_of(config, calls[i]))
}

/// A run of calls is a run of requests to the limiter.
proof fn lemma_calls_are_requests(plugin: PluginView, calls: Seq<Call>, key: Seq<char>)
    ensures
        ({
            let requests = requests_of(plugin.config, calls);
            &&& after_calls(plugin, calls).state == after_all(plugin.state, requests)
            &&& admitted_calls(plugin, calls, key) == admitted_under(plugin.state, requests, key)
        }),
    decreases calls.len(),
{
    let requests = requests_of(plugin.config, calls);
    if calls.len() > 0 {
        let before = calls.drop_last();
        lemma_calls_are_requests(plugin, before, key);
        law_calls_change_buckets_only(plugin, before);
        assert(requests.drop_last() =~= requests_of(plugin.config, before));
        assert(requests.last() == request_of(plugin.config, calls.last()));
    }
}

/// No bucket pays out more than its rate: of a run of calls, those that draw on one
/// bucket, all under the same limits, and are let through are no more than the
/// bucket's capacity and what accrues between the first moment and the last. That
/// holds of a new bucket and of one that is within its capacity, or was last topped
/// up before the first moment, wherever the bucket is not swept out during the run,
/// or only once it has had the time to fill up.
pub proof fn law_no_bucket_exceeds_its_rate(
    plugin: PluginView,
    calls: Seq<Call>,
    key: Seq<char>,
    limit: u64,
    window_ms: u64,
    burst: Option<u64>,
    start: u64,
    end: u64,
)
    requires
        plugin.state.wf(),
        plugin.state.buckets.dom().contains(key) ==> plugin.state.buckets[key].capped_from(
            bucket_capacity(limit, burst),
            start,
        ),
        window_ms > 0,
        plugin.state.max_idle_ms == 0 || spared(
            plugin.state,
            requests_of(plugin.config, calls),
            key,
        ) || swept_when_full(
            plugin.state,
            key,
            bucket_capacity(limit, burst),
            RefillRate { tokens: limit, per_ms: window_ms },
            start,
        ),
        in_order(calls, start, end),
        forall|i: int|
            0 <= i < calls.len() && request_of(plugin.config, #[trigger] calls[i]).key == key ==> {
                let limits = effective_limits(plugin.config, calls[i].ctx.tool_name@);
                limits.0 == limit && limits.1 == window_ms && limits.2 == burst
            },
    ensures
        admitted_calls(plugin, calls, key) * (window_ms * 1_000_000) <= bucket_capacity(
            limit,
            burst,
        ) * (window_ms * 1_000_000) + (end - start) * limit,
{
    let requests = requests_of(plugin.config, calls);
    let capacity = bucket_capacity(limit, burst);
    let rate = RefillRate { tokens: limit, per_ms: window_ms };
    lemma_calls_are_requests(plugin, calls, key);
    assert forall|i: int| 0 <= i < requests.len() implies start <= (#[trigger] requests[i]).now
        <= end by {
        assert(start <= calls[i].now <= end);
    }
    assert forall|i: int, j: int| 0 <= i <= j < requests.len() implies (#[trigger] requests[i]).now
        <= (#[trigger] requests[j]).now by {
        assert(calls[i].now <= calls[j].now);
    }
    assert forall|i: int|
        0 <= i < requests.len() && (#[trigger] requests[i]).key == key implies requests[i].capacity
        == capacity && requests[i].rate == rate by {
        assert(request_of(plugin.config, calls[i]).key == key);
    }
    crate::limiter_laws::law_no_key_exceeds_its_rate(
        plugin.state,
        requests,
        key,
        capacity,
        rate,
        start,
        end,
    );
}

/// Out of the box every caller is held to a hundred calls and a hundred more for
/// each minute.
pub proof fn law_default_ceiling(
    config: RateLimitConfig,
    calls: Seq<Call>,
    key: Seq<char>,
    start: u64,
    end: u64,
)
    requires
        config.is_default(),
        in_order(calls, start, end),
    ensures
        admitted_calls(PluginView::initial(config), calls, key) * 60_000_000_000 <= 100
            * 60_000_000_000 + (end - start) * 100,
{
    let plugin = PluginView::initial(config);
    law_no_bucket_exceeds_its_rate(plugin, calls, key, 100, 60_000, None, start, end);
}

/// Calls that draw on different buckets do not disturb one another: what the
/// second is answered is what it would have been without the first, unless the
/// first sweeps out the second's idle bucket.
pub proof fn law_buckets_are_isolated(plugin: PluginView, first: Call, second: Call)
    requires
        plugin.state.wf(),
        request_of(plugin.config, first).key != request_of(plugin.config, second).key,
        request_of(plugin.config, first).sweeps(plugin.state)
            && plugin.state.buckets.dom().contains(request_of(plugin.config, second).key)
            ==> plugin.state.buckets[request_of(plugin.config, second).key].active(
            first.now,
            plugin.state.max_idle_ms,
        ),
    ensures
        plugin.evaluated(first.ctx, first.now).answer(second.ctx, second.now) == plugin.answer(
            second.ctx,
            second.now,
        ),
{
    crate::limiter_laws::law_answers_are_isolated(
        plugin.state,
        request_of(plugin.config, first),
        request_of(plugin.config, second),
    );
}

/// The calls of a run that draw on the bucket of `key`.
pub open spec fn calls_under(
    config: RateLimitConfig,
    calls: Seq<Call>,
    key: Seq<char>,
) -> Seq<Call>
    decreases calls.len(),
{
    if calls.len() == 0 {
        Seq::empty()
    } else {
        let before = calls_under(config, calls.drop_last(), key);
        if request_of(config, calls.last()).key == key {
            before.push(calls.last())
        } else {
            before
        }
    }
}

/// Over a run of calls, those that draw on other buckets make no difference to a
/// bucket that is not swept out: it ends up as it would, and lets as many calls
/// through as it would, if the calls that draw on it came alone.
pub proof fn law_other_calls_make_no_difference(
    plugin: PluginView,
    calls: Seq<Call>,
    key: Seq<char>,
)
    requires
        plugin.state.wf(),
        plugin.state.max_idle_ms == 0 || spared(
            plugin.state,
            requests_of(plugin.config, calls),
            key,
        ),
    ensures
        ({
            let own = calls_under(plugin.config, calls, key);
            let crowded = after_calls(plugin, calls).state.buckets;
            let alone = after_calls(plugin, own).state.buckets;
            &&& admitted_calls(plugin, calls, key) == admitted_calls(plugin, own, key)
            &&& crowded.dom().contains(key) <==> alone.dom().contains(key)
            &&& crowded.dom().contains(key) ==> crowded[key] == alone[key]
        }),
{
    let own = calls_under(plugin.config, calls, key);
    lemma_calls_under_are_requests_under(plugin.config, calls, key);
    lemma_calls_are_requests(plugin, calls, key);
    lemma_calls_are_requests(plugin, own, key);
    crate::limiter_laws::law_other_keys_make_no_difference(
        plugin.state,
        requests_of(plugin.config, calls),
        key,
    );
}

proof fn lemma_calls_under_are_requests_under(
    config: RateLimitConfig,
    calls: Seq<Call>,
    key: Seq<char>,
)
    ensures
        requests_of(config, calls_under(config, calls, key)) == requests_under(
            requests_of(config, calls),
            key,
        ),
    decreases calls.len(),
{
    let requests = requests_of(config, calls);
    let own = calls_under(config, calls, key);
    if calls.len() == 0 {
        assert(requests_of(config, own) =~= requests_under(requests, key));
    } else {
        let before = calls.drop_last();
        lemma_calls_under_are_requests_under(config, before, key);
        assert(requests.drop_last() =~= requests_of(config, before));
        assert(requests.last() == request_of(config, calls.last()));
        assert(requests_of(config, own) =~= requests_under(requests, key));
    }
}

/// A new plugin has no buckets and no host, and sweeps out the buckets that have
/// been idle for longer than its configuration's cleanup interval.
pub proof fn law_new_plugin_starts_empty(config: RateLimitConfig)
    ensures
        PluginView::initial(config).config == config,
        PluginView::initial(config).state.wf(),
        PluginView::initial(config).state.buckets.dom() =~= Set::empty(),
        PluginView::initial(config).state.inserts_since_sweep == 0,
        PluginView::initial(config).state.max_idle_ms == config.cleanup_interval_ms,
        PluginView::initial(config).host is None,
{
}

/// A call is let through exactly where the bucket that it draws from is due a whole
/// token: a new bucket where its capacity is not zero, and one in use where what it
/// held and what `limit / window_ms` tokens per millisecond have added since come to
/// one, up to the capacity, which is the burst or else the limit.
pub proof fn law_call_passes_where_a_token_is_due(
    plugin: PluginView,
    ctx: PluginContext,
    now: u64,
    evaluation: Evaluation,
)
    requires
        plugin.state.wf(),
        plugin.evaluates_to(ctx, now, evaluation),
    ensures
        ({
            let (limit, window_ms, burst, scope) = effective_limits(plugin.config, ctx.tool_name@);
            let capacity = match burst {
                Some(burst) => burst,
                None => limit,
            };
            let key = bucket_key(ctx, scope);
            let bucket = plugin.state.buckets[key];
            let rate = RefillRate { tokens: limit, per_ms: window_ms };
            evaluation.decision is Allow <==> if !plugin.state.buckets.dom().contains(key) {
                capacity > 0
            } else if now <= bucket.last_refill {
                bucket.units >= bucket.common_ms * 1_000_000
            } else if window_ms == 0 {
                capacity > 0
            } else {
                due(bucket, capacity, rate, now) >= (bucket.common_ms * 1_000_000) * (window_ms
                    * 1_000_000)
            }
        }),
{
    let (limit, window_ms, burst, scope) = effective_limits(plugin.config, ctx.tool_name@);
    let capacity = bucket_capacity(limit, burst);
    let rate = RefillRate { tokens: limit, per_ms: window_ms };
    let bucket = plugin.state.bucket_for(bucket_key(ctx, scope), capacity, window_ms, now);
    crate::bucket_laws::law_fresh_bucket_is_full(capacity, window_ms, rate, now);
    crate::bucket_laws::law_request_passes_where_a_token_is_due(bucket, capacity, rate, now);
}

/// A call leaves the bucket that it draws from with one token less where it is let
/// through, and with what it held otherwise.
pub proof fn law_call_draws_one_token(
    plugin: PluginView,
    ctx: PluginContext,
    now: u64,
    evaluation: Evaluation,
)
    requires
        plugin.state.wf(),
        plugin.evaluates_to(ctx, now, evaluation),
    ensures
        ({
            let (limit, window_ms, burst, scope) = effective_limits(plugin.config, ctx.tool_name@);
            let capacity = match burst {
                Some(burst) => burst,
                None => limit,
            };
            let rate = RefillRate { tokens: limit, per_ms: window_ms };
            let key = bucket_key(ctx, scope);
            let left = plugin.evaluated(ctx, now).state.buckets[key];
            let token = left.common_ms * 1_000_000;
            let taken: int = if evaluation.decision is Allow {
                1
            } else {
                0
            };
            &&& plugin.evaluated(ctx, now).state.buckets.dom().contains(key)
            &&& left.last_access == now
            &&& plugin.state.buckets.dom().contains(key) ==> {
                let found = plugin.state.buckets[key].refilled(capacity, rate, now);
                left.common_ms == found.common_ms && left.units + taken * token == found.units
            }
            &&& !plugin.state.buckets.dom().contains(key) ==> left.units + taken * token == capacity
                * token
        }),
{
    crate::limiter_laws::law_request_draws_on_the_bucket_of_its_key(
        plugin.state,
        request_of(plugin.config, Call { ctx, now }),
    );
}

/// A call that is turned away learns when to come back: repeated at any later moment,
/// with no other call on the bucket in between, it is let through exactly where the
/// time that its error data names is over. That is, where tokens accrue to the
/// bucket, though not all at once, and it can hold one.
pub proof fn law_rejected_call_learns_when_to_return(
    plugin: PluginView,
    ctx: PluginContext,
    now: u64,
    evaluation: Evaluation,
    later: u64,
    again: Evaluation,
)
    requires
        plugin.state.wf(),
        plugin.evaluates_to(ctx, now, evaluation),
        evaluation.decision is Deny,
        plugin.evaluated(ctx, now).evaluates_to(ctx, later, again),
        now <= later,
        ({
            let (limit, window_ms, burst, scope) = effective_limits(plugin.config, ctx.tool_name@);
            let key = bucket_key(ctx, scope);
            &&& limit > 0
            &&& window_ms > 0
            &&& burst != Some(0u64)
            &&& plugin.state.buckets.dom().contains(key) ==> plugin.state.buckets[key].last_refill
                <= now
        }),
    ensures
        evaluation.decision->error_data is Some,
        ({
            let hint = evaluation.decision->error_data->Some_0.retry_after;
            &&& hint.denominator > 0
            &&& again.decision is Allow <==> hint.numerator <= (later - now) * hint.denominator
            &&& evaluation.details.retry_after == hint
        }),
{
    let (limit, window_ms, burst, scope) = effective_limits(plugin.config, ctx.tool_name@);
    let capacity = bucket_capacity(limit, burst);
    let rate = RefillRate { tokens: limit, per_ms: window_ms };
    let key = bucket_key(ctx, scope);
    let bucket = plugin.state.bucket_for(key, capacity, window_ms, now);
    crate::bucket_laws::law_fresh_bucket_is_full(capacity, window_ms, rate, now);
    crate::bucket_laws::law_retry_hint_is_exact(bucket, capacity, rate, now, later);
    crate::limiter_laws::law_own_bucket_is_kept(
        plugin.state,
        request_of(plugin.config, Call { ctx, now }),
    );
    assert(evaluation.details@.retry_after == evaluation.details.retry_after);
}

/// Where no tokens accrue to its bucket, a call that is turned away is told to wait
/// for the window that the bucket was made with; where the bucket refills at once,
/// not to wait.
pub proof fn law_rejected_call_without_a_rate(
    plugin: PluginView,
    ctx: PluginContext,
    now: u64,
    evaluation: Evaluation,
)
    requires
        plugin.state.wf(),
        plugin.evaluates_to(ctx, now, evaluation),
        evaluation.decision is Deny,
        ({
            let (limit, window_ms, burst, scope) = effective_limits(plugin.config, ctx.tool_name@);
            let key = bucket_key(ctx, scope);
            &&& limit == 0 || window_ms == 0
            &&& plugin.state.buckets.dom().contains(key) ==> 0
                <= plugin.state.buckets[key].window_ms <= u64::MAX
        }),
    ensures
        evaluation.decision->error_data is Some,
        ({
            let (limit, window_ms, burst, scope) = effective_limits(plugin.config, ctx.tool_name@);
            let key = bucket_key(ctx, scope);
            let hint = evaluation.decision->error_data->Some_0.retry_after;
            let made_with: int = if plugin.state.buckets.dom().contains(key) {
                plugin.state.buckets[key].window_ms
            } else {
                window_ms as int
            };
            &&& hint.denominator > 0
            &&& hint.numerator == (if limit == 0 {
                made_with * 1_000_000 * hint.denominator
            } else {
                0
            })
        }),
{
    let (limit, window_ms, burst, scope) = effective_limits(plugin.config, ctx.tool_name@);
    let capacity = bucket_capacity(limit, burst);
    let rate = RefillRate { tokens: limit, per_ms: window_ms };
    let bucket = plugin.state.bucket_for(bucket_key(ctx, scope), capacity, window_ms, now);
    crate::bucket_laws::law_fresh_bucket_is_full(capacity, window_ms, rate, now);
    crate::bucket_laws::law_retry_hint_without_a_rate(bucket, capacity, rate, now);
}

/// A call that is let through learns how many more the bucket lets through at that
/// moment: of further calls like it, exactly as many pass as were said to remain.
pub proof fn law_allowed_call_learns_what_remains(
    plugin: PluginView,
    ctx: PluginContext,
    now: u64,
    evaluation: Evaluation,
    calls: Seq<Call>,
)
    requires
        plugin.state.wf(),
        plugin.evaluates_to(ctx, now, evaluation),
        evaluation.decision is Allow,
        forall|i: int| 0 <= i < calls.len() ==> calls[i] == (Call { ctx, now }),
        ({
            let key = request_of(plugin.config, Call { ctx, now }).key;
            plugin.state.buckets.dom().contains(key) ==> plugin.state.buckets[key].whole()
                <= u64::MAX
        }),
    ensures
        evaluation.decision->metadata is Some,
        ({
            let scope = effective_limits(plugin.config, ctx.tool_name@).3;
            let remaining = evaluation.decision->metadata->Some_0.remaining;
            &&& admitted_calls(plugin.evaluated(ctx, now), calls, bucket_key(ctx, scope)) == (
            if calls.len() < remaining {
                calls.len() as int
            } else {
                remaining as int
            })
            &&& evaluation.details.remaining == remaining
        }),
{
    let call = Call { ctx, now };
    let r = request_of(plugin.config, call);
    let times = Seq::new(calls.len(), |i: int| now);
    let bucket = plugin.state.bucket_for(r.key, r.capacity, r.window_ms, now);
    crate::bucket_laws::law_fresh_bucket_is_full(r.capacity, r.window_ms, r.rate, now);
    crate::bucket_laws::law_remaining_is_what_is_left(bucket, r.capacity, r.rate, now, times);
    crate::limiter_laws::law_own_bucket_is_kept(plugin.state, r);
    crate::limiter_laws::law_limiter_stays_well_formed(plugin.state, r);
    let after = plugin.evaluated(ctx, now);
    let requests = requests_of(plugin.config, calls);
    lemma_calls_are_requests(after, calls, r.key);
    assert forall|i: int| 0 <= i < requests.len() implies requests[i] == r by {
        assert(calls[i] == call);
    }
    crate::limiter_laws::lemma_run_at_one_bucket(after.state, r, requests);
    assert(evaluation.details@.remaining == evaluation.details.remaining);
}

/// What a decision says about the bucket: a call that is let through is told the
/// capacity; one that is turned away gets HTTP status 429, JSON-RPC code -32029, the
/// capacity, the window, and that nothing remains. Telemetry and the audit trail are
/// told the same, and which tool, scope, bucket and subject it was about.
pub proof fn law_decision_tells_of_the_bucket(
    plugin: PluginView,
    ctx: PluginContext,
    now: u64,
    evaluation: Evaluation,
)
    requires
        plugin.evaluates_to(ctx, now, evaluation),
    ensures
        ({
            let (limit, window_ms, burst, scope) = effective_limits(plugin.config, ctx.tool_name@);
            let capacity = match burst {
                Some(burst) => burst,
                None => limit,
            };
            let details = evaluation.details;
            &&& match evaluation.decision {
                GateDecision::Allow { metadata } => {
                    &&& evaluation.outcome == Outcome::Allow
                    &&& metadata is Some
                    &&& metadata->Some_0.limit == capacity
                    &&& metadata->Some_0.remaining == details.remaining
                },
                GateDecision::Deny { http_status, code, message, error_data } => {
                    &&& evaluation.outcome == Outcome::DenyRateLimited
                    &&& http_status == 429
                    &&& code == -32029
                    &&& message@ == "Rate limit exceeded"@
                    &&& error_data is Some
                    &&& error_data->Some_0.limit == capacity
                    &&& error_data->Some_0.window_ms == window_ms
                    &&& error_data->Some_0.remaining == 0
                    &&& error_data->Some_0.retry_after == details.retry_after
                    &&& details.remaining == 0
                },
            }
            &&& details.limit == capacity
            &&& details.window_ms == window_ms
            &&& details.tool@ == ctx.tool_name@
            &&& details.scope@ == scope_name(scope)
            &&& details.bucket_key@ == bucket_key(ctx, scope)
            &&& ctx.identity.subject_id matches Some(subject) ==> details.subject@ == subject@
            &&& ctx.identity.subject_id is None ==> details.subject@.len() == 0
        }),
{
    let details = evaluation.details;
    assert(details@.tool == details.tool@);
}

/// A new bucket lets exactly its burst through at once: of calls of one tool by one
/// caller that all come at the same moment, those that the burst of the first rule
/// with a matching pattern allows pass, and no other; where the rule has no burst,
/// those that its limit allows.
pub proof fn law_rule_lets_its_burst_through_at_once(
    plugin: PluginView,
    call: Call,
    i: int,
    pattern: int,
    calls: Seq<Call>,
)
    requires
        plugin.state.wf(),
        0 <= i < plugin.config.rules@.len(),
        0 <= pattern < plugin.config.rules@[i].tools@.len(),
        glob_matches(plugin.config.rules@[i].tools@[pattern]@, call.ctx.tool_name@),
        forall|j: int, p: int|
            0 <= j < i && 0 <= p < plugin.config.rules@[j].tools@.len() ==> !glob_matches(
                #[trigger] plugin.config.rules@[j].tools@[p]@,
                call.ctx.tool_name@,
            ),
        !plugin.state.buckets.dom().contains(
            bucket_key(call.ctx, plugin.config.rules@[i].scope),
        ),
        forall|k: int| 0 <= k < calls.len() ==> calls[k] == call,
    ensures
        ({
            let rule = plugin.config.rules@[i];
            let burst = match rule.burst {
                Some(burst) => burst,
                None => rule.limit,
            };
            admitted_calls(plugin, calls, bucket_key(call.ctx, rule.scope)) == (if calls.len()
                < burst {
                calls.len() as int
            } else {
                burst as int
            })
        }),
{
    crate::config::law_first_matching_rule_sets_the_limits(
        plugin.config,
        call.ctx.tool_name@,
        i,
        pattern,
    );
    lemma_burst_of_a_call(plugin, call, calls);
}

/// A new bucket of a tool that no rule matches lets exactly the default burst
/// through at once, or the default limit where there is no such burst, and it is
/// kept for the caller.
pub proof fn law_defaults_let_their_burst_through_at_once(
    plugin: PluginView,
    call: Call,
    calls: Seq<Call>,
)
    requires
        plugin.state.wf(),
        forall|j: int, p: int|
            0 <= j < plugin.config.rules@.len() && 0 <= p < plugin.config.rules@[j].tools@.len()
                ==> !glob_matches(
                #[trigger] plugin.config.rules@[j].tools@[p]@,
                call.ctx.tool_name@,
            ),
        !plugin.state.buckets.dom().contains(bucket_key(call.ctx, RateLimitScope::PerPrincipal)),
        forall|k: int| 0 <= k < calls.len() ==> calls[k] == call,
    ensures
        ({
            let burst = match plugin.config.default_burst {
                Some(burst) => burst,
                None => plugin.config.default_limit,
            };
            admitted_calls(plugin, calls, bucket_key(call.ctx, RateLimitScope::PerPrincipal)) == (
            if calls.len() < burst {
                calls.len() as int
            } else {
                burst as int
            })
        }),
{
    crate::config::law_unmatched_tool_gets_each_default(plugin.config, call.ctx.tool_name@);
    lemma_burst_of_a_call(plugin, call, calls);
}

proof fn lemma_burst_of_a_call(plugin: PluginView, call: Call, calls: Seq<Call>)
    requires
        plugin.state.wf(),
        !plugin.state.buckets.dom().contains(request_of(plugin.config, call).key),
        forall|k: int| 0 <= k < calls.len() ==> calls[k] == call,
    ensures
        ({
            let r = request_of(plugin.config, call);
            admitted_calls(plugin, calls, r.key) == (if calls.len() < r.capacity {
                calls.len() as int
            } else {
                r.capacity as int
            })
        }),
{
    let r = request_of(plugin.config, call);
    let requests = requests_of(plugin.config, calls);
    lemma_calls_are_requests(plugin, calls, r.key);
    assert forall|k: int| 0 <= k < requests.len() implies requests[k] == r by {
        assert(calls[k] == call);
    }
    crate::limiter_laws::law_new_key_gets_its_capacity_at_once(plugin.state, r, requests);
}

} // verus!
