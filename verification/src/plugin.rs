//! The plugin: configuration, limiter and host put together.

use crate::audit::{host_report, HostReport};
use crate::bucket::{LimitResult, RefillRate};
use crate::clock::{is_clock_reading, is_wall_clock_reading};
use crate::config::{
    bucket_capacity, effective_limits, governing_rule, scope_label, RateLimitConfig,
    RateLimitRuleConfig, RateLimitScope,
};
use crate::context::{bucket_key, resolve_key, PluginContext};
use crate::decision::{evaluation_of, BucketDetails, Evaluation, GateDecision, Outcome};
use crate::glob::glob_match;
use crate::limiter::{RateLimitState, StateView};
use crate::manifest::PluginManifest;
use crate::timestamp::{clock_stamp, is_reading, rfc3339_now};
use std::time::Instant;
use vstd::prelude::*;

verus! {

/// The host that the plugin reports to.
#[derive(Debug)]
pub struct HostHandle {
    /// The name under which the host runs the plugin.
    pub alias: String,
}

/// What the span around an evaluation is tagged with.
#[derive(Debug)]
pub struct SpanAttributes {
    pub tool: String,
    pub scope: &'static str,
    pub limit: u64,
    pub window_ms: u64,
    pub request_id: String,
}

/// A rule, ready to be matched.
struct CompiledRule {
    tool_patterns: Vec<String>,
    scope: RateLimitScope,
    limit: u64,
    window_ms: u64,
    burst: Option<u64>,
}

impl CompiledRule {
    /// Whether this is the given rule.
    spec fn stands_for(self, rule: RateLimitRuleConfig) -> bool {
        &&& self.tool_patterns@ == rule.tools@
        &&& self.scope == rule.scope
        &&& self.limit == rule.limit
        &&& self.window_ms == rule.window_ms
        &&& self.burst == rule.burst
    }

    /// Whether one of the patterns matches a tool.
    fn matches(&self, tool_name: &str) -> (matched: bool)
        ensures
            matched == crate::config::any_pattern_matches(self.tool_patterns@, tool_name@),
    {
        for i in 0..self.tool_patterns.len()
            invariant
                forall|k: int|
                    0 <= k < i ==> !crate::glob::glob_matches(
                        #[trigger] self.tool_patterns@[k]@,
                        tool_name@,
                    ),
        {
            if glob_match(self.tool_patterns[i].as_str(), tool_name) {
                return true;
            }
        }
        false
    }
}

/// The rules, ready to be matched.
fn compile_rules(rules: &Vec<RateLimitRuleConfig>) -> (compiled: Vec<CompiledRule>)
    ensures
        compiled@.len() == rules@.len(),
        forall|i: int|
            0 <= i < rules@.len() ==> (#[trigger] compiled@[i]).stands_for(rules@[i]),
{
    let mut compiled: Vec<CompiledRule> = Vec::new();
    for i in 0..rules.len()
        invariant
            compiled@.len() == i,
            forall|k: int| 0 <= k < i ==> (#[trigger] compiled@[k]).stands_for(rules@[k]),
    {
        let rule = &rules[i];
        let tool_patterns = rule.tools.clone();
        assert(tool_patterns@ =~= rule.tools@);
        compiled.push(
            CompiledRule {
                tool_patterns,
                scope: rule.scope,
                limit: rule.limit,
                window_ms: rule.window_ms,
                burst: rule.burst,
            },
        );
    }
    compiled
}

/// The state of the plugin.
#[verifier::ext_equal]
pub struct PluginView {
    pub config: RateLimitConfig,
    pub state: StateView,
    /// The alias of the installed host.
    pub host: Option<Seq<char>>,
}

impl PluginView {
    /// A plugin that has seen no call and has no host.
    pub open spec fn initial(config: RateLimitConfig) -> PluginView {
        PluginView { config, state: StateView::empty(config.cleanup_interval_ms), host: None }
    }

    /// The plugin after a call at `now`.
    pub open spec fn evaluated(self, ctx: PluginContext, now: u64) -> PluginView {
        let (limit, window_ms, burst, scope) = effective_limits(self.config, ctx.tool_name@);
        PluginView {
            state: self.state.checked(
                bucket_key(ctx, scope),
                bucket_capacity(limit, burst),
                RefillRate { tokens: limit, per_ms: window_ms },
                window_ms,
                now,
            ),
            ..self
        }
    }

    /// The answer of the bucket that a call at `now` draws from.
    pub open spec fn answer(self, ctx: PluginContext, now: u64) -> LimitResult {
        let (limit, window_ms, burst, scope) = effective_limits(self.config, ctx.tool_name@);
        self.state.answer(
            bucket_key(ctx, scope),
            bucket_capacity(limit, burst),
            RefillRate { tokens: limit, per_ms: window_ms },
            window_ms,
            now,
        )
    }

    /// Whether `evaluation` is that of a call at `now`.
    pub open spec fn evaluates_to(
        self,
        ctx: PluginContext,
        now: u64,
        evaluation: Evaluation,
    ) -> bool {
        let (limit, window_ms, burst, scope) = effective_limits(self.config, ctx.tool_name@);
        evaluation.follows(ctx, scope, bucket_key(ctx, scope), window_ms, self.answer(ctx, now))
    }
}

/// Whether a configuration block is one that sets nothing.
pub open spec fn is_absent_block(config_json: Seq<char>) -> bool {
    config_json == ""@ || config_json == "{}"@ || config_json == "null"@
}

/// The rate-limiting plugin.
pub struct RateLimitPlugin {
    manifest: PluginManifest,
    config: RateLimitConfig,
    compiled_rules: Vec<CompiledRule>,
    state: RateLimitState,
    /// The host, once it is installed. Without one nothing is reported.
    host_handle: Option<HostHandle>,
}

impl View for RateLimitPlugin {
    type V = PluginView;

    closed spec fn view(&self) -> PluginView {
        PluginView {
            config: self.config,
            state: self.state@,
            host: match self.host_handle {
                Some(host) => Some(host.alias@),
                None => None,
            },
        }
    }
}

impl RateLimitPlugin {
    /// The reading of the monotonic clock from which the plugin counts time.
    pub closed spec fn origin(self) -> Instant {
        self.state.origin()
    }

    pub closed spec fn wf(self) -> bool {
        &&& self.manifest.is_rate_limiter()
        &&& self.state.wf()
        &&& self.compiled_rules@.len() == self.config.rules@.len()
        &&& forall|i: int|
            0 <= i < self.config.rules@.len() ==> (#[trigger] self.compiled_rules@[i]).stands_for(
                self.config.rules@[i],
            )
    }

    /// A well-formed plugin has a well-formed limiter, whose buckets hold no more
    /// whole tokens than fit in 64 bits.
    pub proof fn lemma_wf(self)
        requires
            self.wf(),
        ensures
            self@.state.wf(),
            forall|key: Seq<char>| #[trigger]
                self@.state.buckets.dom().contains(key) ==> self@.state.buckets[key].whole()
                    <= u64::MAX,
    {
        self.state.lemma_wf();
    }

    /// A plugin with the given configuration.
    pub fn new(config: RateLimitConfig) -> (plugin: Self)
        ensures
            plugin.wf(),
            plugin@ == PluginView::initial(config),
    {
        let compiled_rules = compile_rules(&config.rules);
        let max_idle_ms: u64 = config.cleanup_interval_ms;
        RateLimitPlugin {
            manifest: PluginManifest::rate_limiter(),
            config,
            compiled_rules,
            state: RateLimitState::with_eviction(max_idle_ms),
            host_handle: None,
        }
    }

    /// A plugin from a configuration that has been read, or the reason why it
    /// could not be.
    pub fn from_config(parsed: Result<RateLimitConfig, String>) -> (plugin: Result<Self, String>)
        ensures
            match (parsed, plugin) {
                (Ok(config), Ok(plugin)) => plugin.wf() && plugin@ == PluginView::initial(config),
                (Err(reason), Err(error)) => error == reason,
                _ => false,
            },
    {
        match parsed {
            Ok(config) => Ok(Self::new(config)),
            Err(reason) => Err(reason),
        }
    }

    /// A plugin from an operator's configuration block and what came of reading
    /// it. A block that sets nothing gives the defaults. A block that is there
    /// but cannot be read gives no plugin at all, so that a slip in a limit never
    /// lets calls through.
    pub fn from_config_json(config_json: &str, parsed: Result<RateLimitConfig, String>) -> (plugin:
        Result<Self, String>)
        ensures
            plugin is Ok <==> is_absent_block(config_json@) || parsed is Ok,
            plugin matches Ok(plugin) ==> {
                &&& plugin.wf()
                &&& plugin@ == PluginView::initial(plugin@.config)
                &&& if is_absent_block(config_json@) {
                    plugin@.config.is_default()
                } else {
                    Ok::<RateLimitConfig, String>(plugin@.config) == parsed
                }
            },
            plugin matches Err(error) ==> error@ == "invalid configuration, failing closed: "@
                + parsed->Err_0@,
    {
        let text = config_json.to_owned();
        if text == "".to_owned() || text == "{}".to_owned() || text == "null".to_owned() {
            return Ok(Self::new(RateLimitConfig::default()));
        }
        match parsed {
            Ok(config) => Ok(Self::new(config)),
            Err(reason) => Err(
                crate::text::joined("invalid configuration, failing closed: ", reason.as_str()),
            ),
        }
    }

    /// What the plugin tells the host about itself.
    pub fn manifest(&self) -> (manifest: &PluginManifest)
        requires
            self.wf(),
        ensures
            manifest.is_rate_limiter(),
    {
        &self.manifest
    }

    /// The configuration.
    pub fn config(&self) -> (config: &RateLimitConfig)
        ensures
            *config == self@.config,
    {
        &self.config
    }

    /// Installs the host, unless one is installed already. Tells whether it was
    /// installed.
    pub fn set_host_handle(&mut self, host: HostHandle) -> (installed: bool)
        requires
            old(self).wf(),
        ensures
            final(self).wf(),
            final(self).origin() == old(self).origin(),
            installed == (old(self)@.host is None),
            final(self)@ == (PluginView {
                host: if installed {
                    Some(host.alias@)
                } else {
                    old(self)@.host
                },
                ..old(self)@
            }),
    {
        match &self.host_handle {
            Some(_) => false,
            None => {
                self.host_handle = Some(host);
                true
            },
        }
    }

    /// The installed host.
    pub fn host_handle(&self) -> (host: Option<&HostHandle>)
        ensures
            match host {
                Some(host) => self@.host == Some(host.alias@),
                None => self@.host is None,
            },
    {
        match &self.host_handle {
            Some(host) => Some(host),
            None => None,
        }
    }

    /// The first rule that matches a tool.
    fn find_matching_rule(&self, tool_name: &str) -> (rule: Option<&CompiledRule>)
        requires
            self.wf(),
        ensures
            match (rule, governing_rule(self@.config.rules@, tool_name@)) {
                (Some(compiled), Some(rule)) => compiled.stands_for(rule),
                (None, None) => true,
                _ => false,
            },
    {
        let ghost rules = self.config.rules@;
        assert(rules.skip(0) =~= rules);
        for i in 0..self.compiled_rules.len()
            invariant
                self.wf(),
                rules == self.config.rules@,
                governing_rule(rules, tool_name@) == governing_rule(
                    rules.skip(i as int),
                    tool_name@,
                ),
        {
            assert(self.compiled_rules@[i as int].stands_for(rules[i as int]));
            assert(rules.skip(i as int)[0] == rules[i as int]);
            if self.compiled_rules[i].matches(tool_name) {
                return Some(&self.compiled_rules[i]);
            }
            assert(rules.skip(i as int).skip(1) =~= rules.skip(i + 1));
        }
        None
    }

    /// Limit, window, burst and scope for a tool.
    pub fn effective_rule(&self, tool_name: &str) -> (rule: (
        u64,
        u64,
        Option<u64>,
        RateLimitScope,
    ))
        requires
            self.wf(),
        ensures
            rule == effective_limits(self@.config, tool_name@),
    {
        match self.find_matching_rule(tool_name) {
            Some(rule) => (rule.limit, rule.window_ms, rule.burst, rule.scope),
            None => (
                self.config.default_limit,
                self.config.default_window_ms,
                self.config.default_burst,
                RateLimitScope::PerPrincipal,
            ),
        }
    }

    /// Takes a token from the bucket of `key` at a given clock reading.
    fn check_limit(
        &mut self,
        key: &str,
        limit: u64,
        window_ms: u64,
        burst: Option<u64>,
        now: u64,
    ) -> (result: LimitResult)
        requires
            old(self).wf(),
        ensures
            final(self).wf(),
            final(self).origin() == old(self).origin(),
            final(self)@ == (PluginView {
                state: old(self)@.state.checked(
                    key@,
                    bucket_capacity(limit, burst),
                    RefillRate { tokens: limit, per_ms: window_ms },
                    window_ms,
                    now,
                ),
                ..old(self)@
            }),
            result == old(self)@.state.answer(
                key@,
                bucket_capacity(limit, burst),
                RefillRate { tokens: limit, per_ms: window_ms },
                window_ms,
                now,
            ),
    {
        let capacity: u64 = match burst {
            Some(burst) => burst,
            None => limit,
        };
        let rate = RefillRate::new(limit, window_ms);
        self.state.check_at(key, capacity, rate, window_ms, now)
    }

    /// Draws on the bucket that a call falls under, by the given limits, and
    /// decides about the call.
    pub fn check_rate_limit_with_outcome(
        &mut self,
        ctx: &PluginContext,
        limit: u64,
        window_ms: u64,
        burst: Option<u64>,
        scope: RateLimitScope,
        now: u64,
    ) -> (evaluation: Evaluation)
        requires
            old(self).wf(),
        ensures
            final(self).wf(),
            final(self).origin() == old(self).origin(),
            final(self)@ == (PluginView {
                state: old(self)@.state.checked(
                    bucket_key(*ctx, scope),
                    bucket_capacity(limit, burst),
                    RefillRate { tokens: limit, per_ms: window_ms },
                    window_ms,
                    now,
                ),
                ..old(self)@
            }),
            evaluation.follows(
                *ctx,
                scope,
                bucket_key(*ctx, scope),
                window_ms,
                old(self)@.state.answer(
                    bucket_key(*ctx, scope),
                    bucket_capacity(limit, burst),
                    RefillRate { tokens: limit, per_ms: window_ms },
                    window_ms,
                    now,
                ),
            ),
    {
        let key = resolve_key(ctx, scope);
        let result = self.check_limit(key.as_str(), limit, window_ms, burst, now);
        evaluation_of(ctx, scope, key, window_ms, result)
    }

    /// Decides about a call before it is dispatched.
    pub fn evaluate_pre(&mut self, ctx: &PluginContext) -> (evaluation: Evaluation)
        requires
            old(self).wf(),
        ensures
            final(self).wf(),
            final(self).origin() == old(self).origin(),
            exists|now: u64|
                {
                    &&& is_clock_reading(old(self).origin(), now)
                    &&& final(self)@ == #[trigger] old(self)@.evaluated(*ctx, now)
                    &&& old(self)@.evaluates_to(*ctx, now, evaluation)
                },
    {
        let now: u64 = self.state.now();
        self.evaluate_pre_at(ctx, now)
    }

    /// [`RateLimitPlugin::evaluate_pre`] at a given clock reading in nanoseconds.
    pub fn evaluate_pre_at(&mut self, ctx: &PluginContext, now: u64) -> (evaluation: Evaluation)
        requires
            old(self).wf(),
        ensures
            final(self).wf(),
            final(self).origin() == old(self).origin(),
            final(self)@ == old(self)@.evaluated(*ctx, now),
            old(self)@.evaluates_to(*ctx, now, evaluation),
    {
        let (limit, window_ms, burst, scope) = self.effective_rule(ctx.tool_name.as_str());
        self.check_rate_limit_with_outcome(ctx, limit, window_ms, burst, scope, now)
    }

    /// Decides about a call after it was dispatched: it was counted before.
    pub fn evaluate_post(&self, _ctx: &PluginContext) -> (decision: GateDecision)
        ensures
            decision == (GateDecision::Allow { metadata: None }),
    {
        GateDecision::allow()
    }

    /// What the host's span around the evaluation of a call is tagged with, if a
    /// host is installed.
    pub fn span_attributes(&self, ctx: &PluginContext) -> (attributes: Option<SpanAttributes>)
        requires
            self.wf(),
        ensures
            attributes is Some <==> self@.host is Some,
            attributes matches Some(attributes) ==> {
                let (limit, window_ms, burst, scope) = effective_limits(
                    self@.config,
                    ctx.tool_name@,
                );
                &&& attributes.tool@ == ctx.tool_name@
                &&& attributes.scope@ == crate::config::scope_name(scope)
                &&& attributes.limit == limit
                &&& attributes.window_ms == window_ms
                &&& attributes.request_id@ == ctx.request_id@
            },
    {
        let (limit, window_ms, _, scope) = self.effective_rule(ctx.tool_name.as_str());
        match &self.host_handle {
            None => None,
            Some(_) => Some(
                SpanAttributes {
                    tool: ctx.tool_name.clone(),
                    scope: scope_label(scope),
                    limit,
                    window_ms,
                    request_id: ctx.request_id.clone(),
                },
            ),
        }
    }

    /// What is reported to the host about an evaluation that took
    /// `latency_nanos`: nothing where no host is installed.
    pub fn emit_host_observability(
        &self,
        ctx: &PluginContext,
        outcome: Outcome,
        latency_nanos: u128,
        bucket: BucketDetails,
    ) -> (report: Option<HostReport>)
        ensures
            report is Some <==> self@.host is Some,
            report matches Some(report) ==> exists|reading: Option<(u64, u32)>|
                {
                    &&& outcome is Allow || is_wall_clock_reading(reading)
                    &&& is_reading(reading)
                    &&& report.reports(
                        *ctx,
                        outcome,
                        self@.host->Some_0,
                        latency_nanos,
                        bucket@,
                        #[trigger] clock_stamp(reading),
                    )
                },
    {
        let host = match &self.host_handle {
            None => return None,
            Some(host) => host,
        };
        let occurred_at = match outcome {
            Outcome::Allow => String::new(),
            _ => rfc3339_now(),
        };
        let report = host_report(
            ctx,
            outcome,
            host.alias.as_str(),
            latency_nanos,
            bucket,
            occurred_at,
        );
        proof {
            if outcome is Allow {
                let stamp = clock_stamp(None);
                assert(report.reports(
                    *ctx,
                    outcome,
                    self@.host->Some_0,
                    latency_nanos,
                    bucket@,
                    stamp,
                ));
            }
        }
        Some(report)
    }
}

/// A call is let through exactly where the bucket that it draws from has a whole
/// token for it; every other call is answered with HTTP status 429.
pub proof fn law_call_passes_where_a_token_is_left(
    plugin: PluginView,
    ctx: PluginContext,
    now: u64,
    evaluation: Evaluation,
)
    requires
        plugin.evaluates_to(ctx, now, evaluation),
    ensures
        ({
            let (limit, window_ms, burst, scope) = effective_limits(plugin.config, ctx.tool_name@);
            let capacity = bucket_capacity(limit, burst);
            let bucket = plugin.state.bucket_for(bucket_key(ctx, scope), capacity, window_ms, now);
            let rate = RefillRate { tokens: limit, per_ms: window_ms };
            if bucket.admits(capacity, rate, now) {
                evaluation.decision is Allow
            } else {
                evaluation.decision matches GateDecision::Deny { http_status, .. } && http_status
                    == 429
            }
        }),
{
}

/// A configuration block sets nothing exactly where it is empty, an empty object or
/// null.
pub proof fn law_absent_blocks(config_json: Seq<char>)
    ensures
        is_absent_block(config_json) <==> {
            ||| config_json.len() == 0
            ||| config_json == seq!['{', '}']
            ||| config_json == seq!['n', 'u', 'l', 'l']
        },
{
    reveal_strlit("");
    reveal_strlit("{}");
    reveal_strlit("null");
    assert("{}"@ =~= seq!['{', '}']);
    assert("null"@ =~= seq!['n', 'u', 'l', 'l']);
    if config_json.len() == 0 {
        assert(config_json =~= ""@);
    }
}

} // verus!
