use mcpg_plugin_reliability_rate_limit::{
    epoch_to_ymdhms, host_report, rfc3339, rfc3339_at, rfc3339_now, synthetic_system_identity,
    Attribute, AuditOutcome, BucketDetails, HostHandle, Outcome, PluginContext, PluginIdentity,
    RateLimitConfig, RateLimitPlugin, RateLimitRuleConfig, RateLimitScope, RetryAfter,
};
use std::time::{SystemTime, UNIX_EPOCH};

fn ctx(kind: &str) -> PluginContext {
    PluginContext {
        surface: "tool".to_owned(),
        request_id: "req-1".to_owned(),
        session_id: None,
        tool_name: "admin.delete".to_owned(),
        identity: PluginIdentity {
            kind: kind.to_owned(),
            trust_level: "verified".to_owned(),
            subject_id: Some("user-1".to_owned()),
            auth_provider: Some("oidc".to_owned()),
            issuer: None,
            roles: vec!["admin".to_owned(), "dev".to_owned()],
            groups: vec!["ops".to_owned()],
            scopes: Vec::new(),
            attributes: vec![Attribute { name: "team".to_owned(), value: "infra".to_owned() }],
        },
        transport: "http".to_owned(),
    }
}

fn details() -> BucketDetails {
    BucketDetails {
        tool: "admin.delete".to_owned(),
        scope: "per_principal",
        bucket_key: "user-1".to_owned(),
        limit: 5,
        window_ms: 60,
        remaining: 0,
        retry_after: RetryAfter { numerator: 12_000_000, denominator: 1 },
        subject: "user-1".to_owned(),
    }
}

fn seconds_now() -> i64 {
    SystemTime::now().duration_since(UNIX_EPOCH).unwrap().as_secs() as i64
}

#[test]
fn without_a_host_nothing_is_reported() {
    let plugin = RateLimitPlugin::new(RateLimitConfig::default());
    assert!(plugin.host_handle().is_none());
    assert!(plugin.span_attributes(&ctx("verified")).is_none());
    let report =
        plugin.emit_host_observability(&ctx("verified"), Outcome::DenyRateLimited, 1, details());
    assert!(report.is_none());
}

#[test]
fn only_the_first_host_is_installed() {
    let mut plugin = RateLimitPlugin::new(RateLimitConfig::default());
    assert!(plugin.set_host_handle(HostHandle { alias: "first".to_owned() }));
    assert!(!plugin.set_host_handle(HostHandle { alias: "second".to_owned() }));
    assert_eq!(plugin.host_handle().unwrap().alias, "first");
}

#[test]
fn the_span_carries_the_rule_that_is_applied() {
    let mut plugin = RateLimitPlugin::new(RateLimitConfig {
        rules: vec![RateLimitRuleConfig {
            tools: vec!["admin.*".to_owned()],
            scope: RateLimitScope::PerTool,
            limit: 4,
            window_ms: 250,
            burst: Some(6),
        }],
        ..RateLimitConfig::default()
    });
    plugin.set_host_handle(HostHandle { alias: "limiter".to_owned() });
    let span = plugin.span_attributes(&ctx("verified")).unwrap();
    assert_eq!(span.tool, "admin.delete");
    assert_eq!(span.scope, "per_tool");
    assert_eq!(span.limit, 4);
    assert_eq!(span.window_ms, 250);
    assert_eq!(span.request_id, "req-1");
}

#[test]
fn an_allowed_call_is_counted_but_not_audited() {
    let report =
        host_report(&ctx("verified"), Outcome::Allow, "limiter", 7, details(), String::new());
    assert_eq!(report.histogram, "mcpg_rate_limit_decision_seconds");
    assert_eq!(report.latency_nanos, 7);
    assert_eq!(report.counter, "mcpg_rate_limit_decisions_total");
    assert_eq!(report.increment, 1);
    assert_eq!(report.outcome, "allow");
    assert!(report.audit.is_none());
}

#[test]
fn a_rejected_call_is_audited() {
    let stamp = "2024-02-29T12:30:45.006Z";
    let report = host_report(
        &ctx("verified"),
        Outcome::DenyRateLimited,
        "limiter",
        1_234_567_890,
        details(),
        stamp.to_owned(),
    );
    assert_eq!(report.outcome, "deny_rate_limited");
    let event = report.audit.unwrap();
    assert_eq!(event.event_id, "rate-limit-req-1-1234567890");
    assert_eq!(event.occurred_at, stamp);
    assert_eq!(event.action, "dev.mcpg.rate_limit.rejected");
    assert_eq!(event.resource.as_deref(), Some("tool://admin.delete"));
    assert_eq!(event.outcome, AuditOutcome::Denied);
    assert_eq!(event.request_id.as_deref(), Some("req-1"));
    assert_eq!(event.node_id, None);
    assert_eq!(event.prev_event_hash, None);
    assert_eq!(event.details.alias, "limiter");
    assert_eq!(event.details.duration_ms, 1234);
    assert_eq!(event.details.bucket.bucket_key, "user-1");
    assert_eq!(event.details.bucket.window_ms, 60);
    assert_eq!(event.actor.kind, "verified");
    assert_eq!(event.actor.subject_id.as_deref(), Some("user-1"));
    assert_eq!(event.actor.auth_provider.as_deref(), Some("oidc"));
    assert_eq!(event.actor.roles, vec!["admin".to_owned(), "dev".to_owned()]);
    assert_eq!(event.actor.groups, vec!["ops".to_owned()]);
    assert_eq!(event.actor.attributes.len(), 1);
    assert_eq!(event.actor.attributes[0].name, "team");
    assert_eq!(event.actor.attributes[0].value, "infra");
}

#[test]
fn an_engine_failure_is_audited_as_one() {
    let report =
        host_report(&ctx("verified"), Outcome::Error, "limiter", 0, details(), String::new());
    assert_eq!(report.outcome, "error");
    let event = report.audit.unwrap();
    assert_eq!(event.event_id, "rate-limit-req-1-0");
    assert_eq!(event.action, "dev.mcpg.rate_limit.error");
    assert_eq!(event.outcome, AuditOutcome::Failure);
}

#[test]
fn an_unknown_caller_is_audited_as_the_system() {
    let report = host_report(
        &ctx(""),
        Outcome::DenyRateLimited,
        "limiter",
        0,
        details(),
        String::new(),
    );
    let actor = report.audit.unwrap().actor;
    assert_eq!(actor.kind, "system");
    assert_eq!(actor.subject_id.as_deref(), Some("dev.mcpg.rate-limit"));
    assert!(actor.roles.is_empty());
    let system = synthetic_system_identity();
    assert_eq!(system.kind, "system");
    assert_eq!(system.trust_level, "verified");
    assert_eq!(system.auth_provider, None);
    assert_eq!(system.issuer, None);
    assert!(system.groups.is_empty() && system.scopes.is_empty() && system.attributes.is_empty());
}

#[test]
fn an_installed_host_hears_of_a_rejection() {
    let mut plugin = RateLimitPlugin::new(RateLimitConfig {
        default_limit: 0,
        ..RateLimitConfig::default()
    });
    plugin.set_host_handle(HostHandle { alias: "limiter".to_owned() });
    let ctx = ctx("verified");
    let evaluation = plugin.evaluate_pre(&ctx);
    assert_eq!(evaluation.outcome, Outcome::DenyRateLimited);
    let report = plugin
        .emit_host_observability(&ctx, evaluation.outcome, 5, evaluation.details)
        .unwrap();
    let event = report.audit.unwrap();
    assert_eq!(event.details.alias, "limiter");
    assert_eq!(event.details.bucket.tool, "admin.delete");
    assert_eq!(event.occurred_at.len(), 24);
}

#[test]
fn civil_times() {
    assert_eq!(epoch_to_ymdhms(0), (1970, 1, 1, 0, 0, 0));
    assert_eq!(epoch_to_ymdhms(-1), (1969, 12, 31, 23, 59, 59));
    assert_eq!(epoch_to_ymdhms(951_782_400), (2000, 2, 29, 0, 0, 0));
    assert_eq!(epoch_to_ymdhms(951_868_799), (2000, 2, 29, 23, 59, 59));
    assert_eq!(epoch_to_ymdhms(951_868_800), (2000, 3, 1, 0, 0, 0));
    assert_eq!(epoch_to_ymdhms(1_709_209_845), (2024, 2, 29, 12, 30, 45));
    assert_eq!(epoch_to_ymdhms(4_107_542_400), (2100, 3, 1, 0, 0, 0));
    assert_eq!(epoch_to_ymdhms(-62_135_596_800), (1, 1, 1, 0, 0, 0));
    assert_eq!(
        epoch_to_ymdhms(67_767_976_233_532_799),
        (i32::MAX, 12, 31, 23, 59, 59)
    );
    assert_eq!(
        epoch_to_ymdhms(-67_768_100_567_971_200),
        (i32::MIN, 1, 1, 0, 0, 0)
    );
}

#[test]
fn timestamps() {
    assert_eq!(rfc3339(0, 0), "1970-01-01T00:00:00.000Z");
    assert_eq!(rfc3339(1_709_209_845, 6), "2024-02-29T12:30:45.006Z");
    assert_eq!(rfc3339(-62_135_596_800, 999), "0001-01-01T00:00:00.999Z");
    assert_eq!(rfc3339(-62_198_755_200, 0), "-001-01-01T00:00:00.000Z");
    assert_eq!(rfc3339(253_402_300_800, 0), "10000-01-01T00:00:00.000Z");
}

#[test]
fn timestamps_sort_by_time() {
    let moments = [(0, 0), (0, 1), (59, 999), (60, 0), (951_782_400, 5), (4_107_542_400, 0)];
    let texts: Vec<String> = moments.iter().map(|m| rfc3339(m.0, m.1)).collect();
    let mut sorted = texts.clone();
    sorted.sort();
    assert_eq!(texts, sorted);
}

#[test]
fn the_wall_clock_is_read() {
    let before = rfc3339(seconds_now(), 0);
    let text = rfc3339_now();
    let after = rfc3339(seconds_now(), 999);
    assert_eq!(text.len(), 24);
    assert!(before <= text && text <= after);
}

#[test]
fn a_reading_of_the_wall_clock_is_stamped() {
    assert_eq!(rfc3339_at(None), "1970-01-01T00:00:00.000Z");
    assert_eq!(rfc3339_at(Some((0, 0))), "1970-01-01T00:00:00.000Z");
    assert_eq!(rfc3339_at(Some((951_782_400, 7))), "2000-02-29T00:00:00.007Z");
    assert_eq!(rfc3339_at(Some((1_709_209_845, 999))), "2024-02-29T12:30:45.999Z");
}
