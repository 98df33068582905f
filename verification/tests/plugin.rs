use mcpg_plugin_reliability_rate_limit::{
    default_cleanup_interval_ms, default_limit, default_window_ms, evaluation_of, resolve_key,
    scope_label, AllowMetadata, DenyData, GateDecision, LimitResult, Outcome, PluginClass,
    PluginContext, PluginIdentity, RateLimitConfig, RateLimitPlugin, RateLimitRuleConfig,
    RateLimitScope, RetryAfter, PLUGIN_ID, PLUGIN_VERSION,
};

const SECOND: u64 = 1_000_000_000;

fn test_ctx(tool: &str, principal: Option<&str>, session: Option<&str>) -> PluginContext {
    PluginContext {
        surface: "tool".to_owned(),
        request_id: "req-1".into(),
        session_id: session.map(str::to_owned),
        tool_name: tool.into(),
        identity: PluginIdentity {
            kind: if principal.is_some() { "verified" } else { "anonymous" }.into(),
            trust_level: if principal.is_some() { "verified" } else { "unauthenticated" }.into(),
            subject_id: principal.map(str::to_owned),
            auth_provider: None,
            issuer: None,
            roles: Vec::new(),
            groups: Vec::new(),
            scopes: Vec::new(),
            attributes: Vec::new(),
        },
        transport: "http".into(),
    }
}

fn rule(tools: &[&str], scope: RateLimitScope, limit: u64, window_ms: u64) -> RateLimitRuleConfig {
    RateLimitRuleConfig {
        tools: tools.iter().map(|t| t.to_string()).collect(),
        scope,
        limit,
        window_ms,
        burst: None,
    }
}

fn defaults(default_limit: u64, default_window_ms: u64) -> RateLimitConfig {
    RateLimitConfig { default_limit, default_window_ms, ..RateLimitConfig::default() }
}

fn plugin(config: RateLimitConfig) -> RateLimitPlugin {
    RateLimitPlugin::from_config(Ok(config)).unwrap()
}

#[test]
fn allows_within_limit() {
    let mut plugin = plugin(defaults(5, 60));
    let ctx = test_ctx("my_tool", Some("user-1"), None);
    for _ in 0..5 {
        let decision = plugin.evaluate_pre(&ctx).decision;
        assert!(decision.is_allow(), "should allow within limit");
    }
}

#[test]
fn denies_when_limit_exceeded() {
    let mut plugin = plugin(defaults(3, 60));
    let ctx = test_ctx("my_tool", Some("user-1"), None);
    // Consume all tokens
    for _ in 0..3 {
        plugin.evaluate_pre(&ctx);
    }
    // 4th should be denied
    match plugin.evaluate_pre(&ctx).decision {
        GateDecision::Deny { http_status, code, .. } => {
            assert_eq!(http_status, 429);
            assert_eq!(code, -32029);
        }
        _ => panic!("expected deny"),
    }
}

#[test]
fn per_principal_isolation() {
    let mut plugin = plugin(defaults(2, 60));
    let ctx_a = test_ctx("tool", Some("user-a"), None);
    let ctx_b = test_ctx("tool", Some("user-b"), None);
    // Exhaust user-a
    for _ in 0..2 {
        plugin.evaluate_pre(&ctx_a);
    }
    assert!(!plugin.evaluate_pre(&ctx_a).decision.is_allow());
    // user-b should still be allowed
    assert!(plugin.evaluate_pre(&ctx_b).decision.is_allow());
}

#[test]
fn per_tool_rule_overrides_default() {
    let mut plugin = plugin(RateLimitConfig {
        rules: vec![rule(&["expensive.*"], RateLimitScope::PerPrincipal, 2, 60)],
        ..defaults(100, 60)
    });
    let ctx_expensive = test_ctx("expensive.compute", Some("user-1"), None);
    let ctx_normal = test_ctx("normal.tool", Some("user-2"), None);
    // Expensive tool: limit 2
    for _ in 0..2 {
        assert!(plugin.evaluate_pre(&ctx_expensive).decision.is_allow());
    }
    assert!(!plugin.evaluate_pre(&ctx_expensive).decision.is_allow());
    // Normal tool: default limit 100, should still be allowed
    assert!(plugin.evaluate_pre(&ctx_normal).decision.is_allow());
}

#[test]
fn global_scope_shares_bucket() {
    let mut plugin = plugin(RateLimitConfig {
        default_limit: 100,
        rules: vec![rule(&["shared.*"], RateLimitScope::Global, 3, 60)],
        ..RateLimitConfig::default()
    });
    let ctx_a = test_ctx("shared.resource", Some("user-a"), None);
    let ctx_b = test_ctx("shared.resource", Some("user-b"), None);
    // 3 calls total regardless of user
    plugin.evaluate_pre(&ctx_a);
    plugin.evaluate_pre(&ctx_b);
    plugin.evaluate_pre(&ctx_a);
    let denied = plugin.evaluate_pre(&ctx_b).decision;
    assert!(!denied.is_allow(), "shared global limit should be exceeded");
}

#[test]
fn session_scope_keys_by_session() {
    let mut plugin = plugin(RateLimitConfig {
        rules: vec![rule(&["*"], RateLimitScope::PerSession, 2, 60)],
        ..RateLimitConfig::default()
    });
    let ctx_s1 = test_ctx("tool", Some("user-1"), Some("session-1"));
    let ctx_s2 = test_ctx("tool", Some("user-1"), Some("session-2"));
    // Exhaust session-1
    for _ in 0..2 {
        plugin.evaluate_pre(&ctx_s1);
    }
    assert!(!plugin.evaluate_pre(&ctx_s1).decision.is_allow());
    // session-2 should be fine
    assert!(plugin.evaluate_pre(&ctx_s2).decision.is_allow());
}

#[test]
fn burst_allows_extra_tokens() {
    let mut plugin = plugin(RateLimitConfig { default_burst: Some(5), ..defaults(2, 60) });
    let ctx = test_ctx("tool", Some("user-1"), None);
    // Burst capacity = 5, so 5 requests should pass initially
    for i in 0..5 {
        let d = plugin.evaluate_pre(&ctx).decision;
        assert!(d.is_allow(), "request {i} should be allowed within burst");
    }
    // 6th should be denied
    assert!(!plugin.evaluate_pre(&ctx).decision.is_allow());
}

#[test]
fn anonymous_uses_session_fallback() {
    let mut plugin = plugin(defaults(2, 60));
    let ctx = test_ctx("tool", None, Some("session-anon"));
    for _ in 0..2 {
        assert!(plugin.evaluate_pre(&ctx).decision.is_allow());
    }
    assert!(!plugin.evaluate_pre(&ctx).decision.is_allow());
}

#[test]
fn empty_config_json_uses_defaults() {
    let plugin = RateLimitPlugin::from_config_json("{}", Ok(defaults(1, 1))).unwrap();
    assert_eq!(plugin.config().default_limit, default_limit());
    assert_eq!(plugin.config().default_window_ms, default_window_ms());
    assert_eq!(
        plugin.config().cleanup_interval_ms,
        default_cleanup_interval_ms()
    );
    assert!(plugin.config().rules.is_empty());
}

#[test]
#[should_panic(expected = "failing closed")]
fn malformed_config_json_fails_closed() {
    let _ = RateLimitPlugin::from_config_json("not json", Err("expected ident".to_owned())).unwrap();
}

#[test]
fn every_absent_block_gives_the_defaults() {
    for block in ["", "{}", "null"] {
        let plugin = RateLimitPlugin::from_config_json(block, Err("no value".to_owned())).unwrap();
        assert_eq!(plugin.config().default_limit, 100);
        assert_eq!(plugin.config().default_window_ms, 60_000);
        assert_eq!(plugin.config().default_burst, None);
        assert_eq!(plugin.config().cleanup_interval_ms, 300_000);
    }
}

#[test]
fn a_block_that_was_read_is_used() {
    let plugin = RateLimitPlugin::from_config_json("{\"default_limit\": 7}", Ok(defaults(7, 60_000)));
    assert_eq!(plugin.unwrap().config().default_limit, 7);
}

#[test]
fn a_block_that_was_not_read_is_refused_with_the_reason() {
    let refused = RateLimitPlugin::from_config_json("{", Err("end of input".to_owned()));
    assert_eq!(
        refused.err().unwrap(),
        "invalid configuration, failing closed: end of input"
    );
    let refused = RateLimitPlugin::from_config(Err("end of input".to_owned()));
    assert_eq!(refused.err().unwrap(), "end of input");
}

#[test]
fn the_default_scope_is_per_principal() {
    assert_eq!(RateLimitScope::default(), RateLimitScope::PerPrincipal);
}

#[test]
fn scopes_are_labelled() {
    assert_eq!(scope_label(RateLimitScope::PerPrincipal), "per_principal");
    assert_eq!(scope_label(RateLimitScope::PerTool), "per_tool");
    assert_eq!(scope_label(RateLimitScope::PerPrincipalTool), "per_principal_tool");
    assert_eq!(scope_label(RateLimitScope::PerSession), "per_session");
    assert_eq!(scope_label(RateLimitScope::Global), "global");
}

#[test]
fn keys_follow_the_scope() {
    let full = test_ctx("tool", Some("user"), Some("session"));
    let anonymous = test_ctx("tool", None, Some("session"));
    let unknown = test_ctx("tool", None, None);
    assert_eq!(resolve_key(&full, RateLimitScope::PerPrincipal), "user");
    assert_eq!(resolve_key(&anonymous, RateLimitScope::PerPrincipal), "session");
    assert_eq!(resolve_key(&unknown, RateLimitScope::PerPrincipal), "_anon");
    assert_eq!(resolve_key(&full, RateLimitScope::PerTool), "tool");
    assert_eq!(resolve_key(&full, RateLimitScope::PerPrincipalTool), "user:tool");
    assert_eq!(resolve_key(&anonymous, RateLimitScope::PerPrincipalTool), "session:tool");
    assert_eq!(resolve_key(&unknown, RateLimitScope::PerPrincipalTool), "_anon:tool");
    assert_eq!(resolve_key(&full, RateLimitScope::PerSession), "session");
    assert_eq!(resolve_key(&unknown, RateLimitScope::PerSession), "_no_session");
    assert_eq!(resolve_key(&full, RateLimitScope::Global), "_global");
}

#[test]
fn the_first_matching_rule_applies() {
    let plugin = plugin(RateLimitConfig {
        rules: vec![
            rule(&["a.*", "b.?"], RateLimitScope::PerTool, 1, 10),
            rule(&["*"], RateLimitScope::Global, 2, 20),
            rule(&["a.*"], RateLimitScope::PerSession, 3, 30),
        ],
        ..RateLimitConfig::default()
    });
    assert_eq!(plugin.effective_rule("a.x"), (1, 10, None, RateLimitScope::PerTool));
    assert_eq!(plugin.effective_rule("b.x"), (1, 10, None, RateLimitScope::PerTool));
    assert_eq!(plugin.effective_rule("b.xy"), (2, 20, None, RateLimitScope::Global));
}

#[test]
fn an_unmatched_tool_gets_the_defaults_per_principal() {
    let plugin = plugin(RateLimitConfig {
        default_limit: 9,
        default_burst: Some(11),
        rules: vec![rule(&["admin.*"], RateLimitScope::Global, 1, 10)],
        ..RateLimitConfig::default()
    });
    assert_eq!(
        plugin.effective_rule("user.get"),
        (9, 60_000, Some(11), RateLimitScope::PerPrincipal)
    );
}

#[test]
fn an_allowed_call_is_told_what_is_left() {
    let mut plugin = plugin(RateLimitConfig { default_burst: Some(20), ..defaults(10, 60_000) });
    let evaluation = plugin.evaluate_pre_at(&test_ctx("tool", Some("user-1"), None), 0);
    assert_eq!(evaluation.outcome, Outcome::Allow);
    match evaluation.decision {
        GateDecision::Allow { metadata } => {
            assert_eq!(metadata, Some(AllowMetadata { remaining: 19, limit: 20 }));
        }
        _ => panic!("expected allow"),
    }
}

#[test]
fn a_denied_call_is_told_when_to_come_back() {
    let mut plugin = plugin(defaults(1, 60_000));
    let ctx = test_ctx("tool", Some("user-1"), None);
    plugin.evaluate_pre_at(&ctx, 0);
    let evaluation = plugin.evaluate_pre_at(&ctx, 15 * SECOND);
    assert_eq!(evaluation.outcome, Outcome::DenyRateLimited);
    let wait = RetryAfter { numerator: 45_000_000_000, denominator: 1 };
    match evaluation.decision {
        GateDecision::Deny { http_status, code, message, error_data } => {
            assert_eq!(http_status, 429);
            assert_eq!(code, -32029);
            assert_eq!(message, "Rate limit exceeded");
            assert_eq!(
                error_data,
                Some(DenyData { retry_after: wait, limit: 1, window_ms: 60_000, remaining: 0 })
            );
        }
        _ => panic!("expected deny"),
    }
    assert_eq!(evaluation.details.tool, "tool");
    assert_eq!(evaluation.details.scope, "per_principal");
    assert_eq!(evaluation.details.bucket_key, "user-1");
    assert_eq!(evaluation.details.limit, 1);
    assert_eq!(evaluation.details.window_ms, 60_000);
    assert_eq!(evaluation.details.remaining, 0);
    assert_eq!(evaluation.details.retry_after, wait);
    assert_eq!(evaluation.details.subject, "user-1");
    // And then it passes.
    assert!(!plugin.evaluate_pre_at(&ctx, 60 * SECOND - 1).decision.is_allow());
    assert!(plugin.evaluate_pre_at(&ctx, 60 * SECOND).decision.is_allow());
}

#[test]
fn a_caller_without_a_subject_has_an_empty_one() {
    let result = LimitResult {
        allowed: true,
        remaining: 4,
        limit: 5,
        retry_after: RetryAfter { numerator: 0, denominator: 1 },
    };
    let ctx = test_ctx("tool", None, None);
    let evaluation = evaluation_of(&ctx, RateLimitScope::Global, "_global".to_owned(), 60, result);
    assert_eq!(evaluation.details.subject, "");
    assert_eq!(evaluation.details.scope, "global");
    assert!(evaluation.decision.is_allow());
}

#[test]
fn rules_under_one_key_share_a_bucket() {
    // The caller's bucket is one, whichever rule a call falls under.
    let mut plugin = plugin(RateLimitConfig {
        rules: vec![rule(&["a"], RateLimitScope::PerPrincipal, 2, 60_000)],
        ..defaults(2, 60_000)
    });
    assert!(plugin.evaluate_pre_at(&test_ctx("a", Some("u"), None), 0).decision.is_allow());
    assert!(plugin.evaluate_pre_at(&test_ctx("b", Some("u"), None), 0).decision.is_allow());
    assert!(!plugin.evaluate_pre_at(&test_ctx("a", Some("u"), None), 0).decision.is_allow());
}

#[test]
fn idle_buckets_are_swept_at_the_configured_interval() {
    let mut plugin = plugin(RateLimitConfig {
        cleanup_interval_ms: 1000,
        ..defaults(1, 3_600_000)
    });
    let first = test_ctx("tool", Some("first"), None);
    assert!(plugin.evaluate_pre_at(&first, 0).decision.is_allow());
    assert!(!plugin.evaluate_pre_at(&first, 0).decision.is_allow());
    for i in 0..255 {
        let ctx = test_ctx("tool", Some(&format!("user-{i}")), None);
        assert!(plugin.evaluate_pre_at(&ctx, 2 * SECOND).decision.is_allow());
    }
    // The sweep took the first caller's bucket, so the caller starts afresh.
    assert!(plugin.evaluate_pre_at(&first, 2 * SECOND).decision.is_allow());
}

#[test]
fn post_dispatch_always_allows() {
    let mut plugin = plugin(defaults(0, 60));
    let ctx = test_ctx("tool", Some("user-1"), None);
    assert!(!plugin.evaluate_pre(&ctx).decision.is_allow());
    match plugin.evaluate_post(&ctx) {
        GateDecision::Allow { metadata } => assert_eq!(metadata, None),
        _ => panic!("expected allow"),
    }
}

#[test]
fn the_manifest_names_the_plugin() {
    let plugin = plugin(RateLimitConfig::default());
    let manifest = plugin.manifest();
    assert_eq!(manifest.id, PLUGIN_ID);
    assert_eq!(manifest.id, "dev.mcpg.rate-limit");
    assert_eq!(manifest.version, PLUGIN_VERSION);
    assert_eq!(manifest.name, "Rate Limiter");
    assert_eq!(manifest.plugin_class, PluginClass::ToolGate);
    assert_eq!(manifest.protocol_version, "1.0");
    assert_eq!(manifest.module_path_prefix, "mcpg_plugin_reliability_rate_limit");
    assert!(manifest.required_capabilities.is_empty());
}
