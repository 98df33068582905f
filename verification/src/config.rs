//! Operator configuration: the defaults, and the per-tool rules.

use crate::glob::glob_matches;
use vstd::prelude::*;

verus! {

/// The configuration of the limiter.
#[derive(Debug, Clone)]
pub struct RateLimitConfig {
    /// Requests per window for tools that no rule matches.
    pub default_limit: u64,
    /// Window for those tools, in milliseconds.
    pub default_window_ms: u64,
    /// Bucket capacity for those tools; the limit where it is not set.
    pub default_burst: Option<u64>,
    /// Per-tool rules, of which the first that matches applies.
    pub rules: Vec<RateLimitRuleConfig>,
    /// Idle time after which a bucket may be swept out, in milliseconds; zero
    /// turns sweeping off.
    pub cleanup_interval_ms: u64,
}

/// A rule for the tools that one of its patterns matches.
#[derive(Debug, Clone)]
pub struct RateLimitRuleConfig {
    /// Glob patterns for tool names.
    pub tools: Vec<String>,
    /// What a bucket is kept for.
    pub scope: RateLimitScope,
    /// Requests per window.
    pub limit: u64,
    /// Window in milliseconds.
    pub window_ms: u64,
    /// Bucket capacity; the limit where it is not set.
    pub burst: Option<u64>,
}

/// What a bucket is kept for.
#[derive(Debug, Clone, Copy, PartialEq, Eq, Structural)]
pub enum RateLimitScope {
    /// A caller: the subject, else the session, else all unknown callers.
    PerPrincipal,
    /// A tool.
    PerTool,
    /// A caller and a tool.
    PerPrincipalTool,
    /// A session.
    PerSession,
    /// Everything.
    Global,
}

/// Requests per window where the configuration names none.
pub fn default_limit() -> (limit: u64)
    ensures
        limit == 100,
{
    100
}

/// Window in milliseconds where the configuration names none.
pub fn default_window_ms() -> (window_ms: u64)
    ensures
        window_ms == 60_000,
{
    60_000
}

/// Cleanup interval in milliseconds where the configuration names none.
pub fn default_cleanup_interval_ms() -> (interval_ms: u64)
    ensures
        interval_ms == 300_000,
{
    300_000
}

impl Default for RateLimitScope {
    fn default() -> (scope: Self)
        ensures
            scope == RateLimitScope::PerPrincipal,
    {
        RateLimitScope::PerPrincipal
    }
}

impl RateLimitConfig {
    /// The configuration that an operator gets without setting anything.
    pub open spec fn is_default(self) -> bool {
        &&& self.default_limit == 100
        &&& self.default_window_ms == 60_000
        &&& self.default_burst is None
        &&& self.rules@.len() == 0
        &&& self.cleanup_interval_ms == 300_000
    }
}

impl Default for RateLimitConfig {
    fn default() -> (config: Self)
        ensures
            config.is_default(),
    {
        RateLimitConfig {
            default_limit: default_limit(),
            default_window_ms: default_window_ms(),
            default_burst: None,
            rules: Vec::new(),
            cleanup_interval_ms: default_cleanup_interval_ms(),
        }
    }
}

/// The name of a scope, as configuration and telemetry spell it.
pub open spec fn scope_name(scope: RateLimitScope) -> Seq<char> {
    match scope {
        RateLimitScope::PerPrincipal => "per_principal"@,
        RateLimitScope::PerTool => "per_tool"@,
        RateLimitScope::PerPrincipalTool => "per_principal_tool"@,
        RateLimitScope::PerSession => "per_session"@,
        RateLimitScope::Global => "global"@,
    }
}

/// The name of a scope, as configuration and telemetry spell it.
pub fn scope_label(scope: RateLimitScope) -> (label: &'static str)
    ensures
        label@ == scope_name(scope),
{
    match scope {
        RateLimitScope::PerPrincipal => "per_principal",
        RateLimitScope::PerTool => "per_tool",
        RateLimitScope::PerPrincipalTool => "per_principal_tool",
        RateLimitScope::PerSession => "per_session",
        RateLimitScope::Global => "global",
    }
}

/// Whether one of `patterns` matches a tool.
pub open spec fn any_pattern_matches(patterns: Seq<String>, tool: Seq<char>) -> bool {
    exists|i: int| 0 <= i < patterns.len() && glob_matches(#[trigger] patterns[i]@, tool)
}

/// The first rule that matches a tool.
pub open spec fn governing_rule(
    rules: Seq<RateLimitRuleConfig>,
    tool: Seq<char>,
) -> Option<RateLimitRuleConfig>
    decreases rules.len(),
{
    if rules.len() == 0 {
        None
    } else if any_pattern_matches(rules[0].tools@, tool) {
        Some(rules[0])
    } else {
        governing_rule(rules.skip(1), tool)
    }
}

/// Limit, window, burst and scope for a tool: those of the first rule that
/// matches it, else the defaults, counted per caller.
pub open spec fn effective_limits(config: RateLimitConfig, tool: Seq<char>) -> (
    u64,
    u64,
    Option<u64>,
    RateLimitScope,
) {
    match governing_rule(config.rules@, tool) {
        Some(rule) => (rule.limit, rule.window_ms, rule.burst, rule.scope),
        None => (
            config.default_limit,
            config.default_window_ms,
            config.default_burst,
            RateLimitScope::PerPrincipal,
        ),
    }
}

/// The capacity of a bucket: the burst where it is set, the limit otherwise.
pub open spec fn bucket_capacity(limit: u64, burst: Option<u64>) -> u64 {
    match burst {
        Some(burst) => burst,
        None => limit,
    }
}

/// Rules are taken in order and the first that matches applies: a rule governs
/// a tool exactly where it matches the tool and no rule before it does, and no
/// rule governs a tool exactly where none matches it.
pub proof fn law_first_match_wins(rules: Seq<RateLimitRuleConfig>, tool: Seq<char>)
    ensures
        forall|i: int|
            #![trigger rules[i]]
            0 <= i < rules.len() && any_pattern_matches(rules[i].tools@, tool) && (forall|j: int|
                0 <= j < i ==> !any_pattern_matches((#[trigger] rules[j]).tools@, tool))
                ==> governing_rule(rules, tool) == Some(rules[i]),
        governing_rule(rules, tool) is None <==> forall|i: int|
            0 <= i < rules.len() ==> !any_pattern_matches((#[trigger] rules[i]).tools@, tool),
    decreases rules.len(),
{
    if rules.len() > 0 && !any_pattern_matches(rules[0].tools@, tool) {
        let rest = rules.skip(1);
        law_first_match_wins(rest, tool);
        assert forall|i: int|
            #![trigger rules[i]]
            0 <= i < rules.len() && any_pattern_matches(rules[i].tools@, tool) && (forall|j: int|
                0 <= j < i ==> !any_pattern_matches((#[trigger] rules[j]).tools@, tool))
            implies governing_rule(rules, tool) == Some(rules[i]) by {
            assert(rest[i - 1] == rules[i]);
            assert forall|j: int| 0 <= j < i - 1 implies !any_pattern_matches(
                (#[trigger] rest[j]).tools@,
                tool,
            ) by {
                assert(rest[j] == rules[j + 1]);
            }
        }
        if governing_rule(rules, tool) is None {
            assert forall|i: int| 0 <= i < rules.len() implies !any_pattern_matches(
                (#[trigger] rules[i]).tools@,
                tool,
            ) by {
                if i > 0 {
                    assert(rest[i - 1] == rules[i]);
                }
            }
        } else {
            if forall|i: int|
                0 <= i < rules.len() ==> !any_pattern_matches((#[trigger] rules[i]).tools@, tool) {
                assert forall|i: int| 0 <= i < rest.len() implies !any_pattern_matches(
                    (#[trigger] rest[i]).tools@,
                    tool,
                ) by {
                    assert(rest[i] == rules[i + 1]);
                }
            }
        }
    }
}

/// A tool that no rule matches falls back to the defaults, counted per caller.
pub proof fn law_unmatched_tool_gets_the_defaults(config: RateLimitConfig, tool: Seq<char>)
    requires
        forall|i: int|
            0 <= i < config.rules@.len() ==> !any_pattern_matches(
                (#[trigger] config.rules@[i]).tools@,
                tool,
            ),
    ensures
        effective_limits(config, tool) == (
            config.default_limit,
            config.default_window_ms,
            config.default_burst,
            RateLimitScope::PerPrincipal,
        ),
{
    law_first_match_wins(config.rules@, tool);
}

/// The first rule of which a pattern matches a tool sets its limit, its window, its
/// burst and its scope.
pub proof fn law_first_matching_rule_sets_the_limits(
    config: RateLimitConfig,
    tool: Seq<char>,
    i: int,
    pattern: int,
)
    requires
        0 <= i < config.rules@.len(),
        0 <= pattern < config.rules@[i].tools@.len(),
        glob_matches(config.rules@[i].tools@[pattern]@, tool),
        forall|j: int, p: int|
            0 <= j < i && 0 <= p < config.rules@[j].tools@.len() ==> !glob_matches(
                #[trigger] config.rules@[j].tools@[p]@,
                tool,
            ),
    ensures
        effective_limits(config, tool).0 == config.rules@[i].limit,
        effective_limits(config, tool).1 == config.rules@[i].window_ms,
        effective_limits(config, tool).2 == config.rules@[i].burst,
        effective_limits(config, tool).3 == config.rules@[i].scope,
{
    assert(any_pattern_matches(config.rules@[i].tools@, tool));
    assert forall|j: int| 0 <= j < i implies !any_pattern_matches(
        (#[trigger] config.rules@[j]).tools@,
        tool,
    ) by {
        if any_pattern_matches(config.rules@[j].tools@, tool) {
            let p = choose|p: int|
                0 <= p < config.rules@[j].tools@.len() && glob_matches(
                    #[trigger] config.rules@[j].tools@[p]@,
                    tool,
                );
            assert(!glob_matches(config.rules@[j].tools@[p]@, tool));
        }
    }
    law_first_match_wins(config.rules@, tool);
}

/// A tool that no pattern of any rule matches gets the default limit, window and
/// burst, counted per caller.
pub proof fn law_unmatched_tool_gets_each_default(config: RateLimitConfig, tool: Seq<char>)
    requires
        forall|j: int, p: int|
            0 <= j < config.rules@.len() && 0 <= p < config.rules@[j].tools@.len()
                ==> !glob_matches(#[trigger] config.rules@[j].tools@[p]@, tool),
    ensures
        effective_limits(config, tool).0 == config.default_limit,
        effective_limits(config, tool).1 == config.default_window_ms,
        effective_limits(config, tool).2 == config.default_burst,
        effective_limits(config, tool).3 == RateLimitScope::PerPrincipal,
{
    assert forall|j: int| 0 <= j < config.rules@.len() implies !any_pattern_matches(
        (#[trigger] config.rules@[j]).tools@,
        tool,
    ) by {
        if any_pattern_matches(config.rules@[j].tools@, tool) {
            let p = choose|p: int|
                0 <= p < config.rules@[j].tools@.len() && glob_matches(
                    #[trigger] config.rules@[j].tools@[p]@,
                    tool,
                );
            assert(!glob_matches(config.rules@[j].tools@[p]@, tool));
        }
    }
    law_unmatched_tool_gets_the_defaults(config, tool);
}

/// Without any setting every tool is held to a hundred calls per minute and caller,
/// with no burst beyond them, and a bucket may go after five minutes.
pub proof fn law_defaults_for_every_tool(config: RateLimitConfig, tool: Seq<char>)
    requires
        config.is_default(),
    ensures
        effective_limits(config, tool).0 == 100,
        effective_limits(config, tool).1 == 60 * 1000,
        effective_limits(config, tool).2 is None,
        effective_limits(config, tool).3 == RateLimitScope::PerPrincipal,
        config.cleanup_interval_ms == 5 * 60 * 1000,
{
    law_unmatched_tool_gets_each_default(config, tool);
}

/// The capacity is the burst, whatever the limit; without a burst it is the limit.
pub proof fn law_burst_takes_the_place_of_the_limit(limit: u64, burst: u64)
    ensures
        bucket_capacity(limit, Some(burst)) == burst,
        bucket_capacity(limit, None) == limit,
{
}

/// No two scopes have the same name.
pub proof fn law_scope_names_differ(a: RateLimitScope, b: RateLimitScope)
    ensures
        scope_name(a) == scope_name(b) <==> a == b,
        scope_name(a) == "per_principal"@ <==> a == RateLimitScope::PerPrincipal,
        scope_name(a) == "per_tool"@ <==> a == RateLimitScope::PerTool,
        scope_name(a) == "per_principal_tool"@ <==> a == RateLimitScope::PerPrincipalTool,
        scope_name(a) == "per_session"@ <==> a == RateLimitScope::PerSession,
        scope_name(a) == "global"@ <==> a == RateLimitScope::Global,
{
    reveal_strlit("per_principal");
    reveal_strlit("per_tool");
    reveal_strlit("per_principal_tool");
    reveal_strlit("per_session");
    reveal_strlit("global");
    assert("per_principal"@.len() == 13);
    assert("per_tool"@.len() == 8);
    assert("per_principal_tool"@.len() == 18);
    assert("per_session"@.len() == 11);
    assert("global"@.len() == 6);
}

} // verus!
