//! What is reported to the host about an evaluation: a latency sample, a count,
//! and for a rejection an audit event.

use crate::context::{IdentityView, PluginContext, PluginIdentity};
use crate::decision::{BucketDetails, BucketDetailsView, Outcome};
use crate::manifest::PLUGIN_ID;
use crate::text::{decimal, decimal_text, joined};
use vstd::prelude::*;

verus! {

/// How an audited action ended.
#[derive(Debug, Clone, Copy, PartialEq, Eq, Structural)]
pub enum AuditOutcome {
    Denied,
    Failure,
}

/// The details of an audit event.
#[derive(Debug)]
pub struct AuditDetails {
    pub bucket: BucketDetails,
    /// The name under which the host runs the plugin.
    pub alias: String,
    /// How long the evaluation took, in whole milliseconds.
    pub duration_ms: u64,
}

/// An entry of the audit trail.
#[derive(Debug)]
pub struct AuditEvent {
    pub event_id: String,
    pub occurred_at: String,
    pub actor: PluginIdentity,
    pub action: String,
    pub resource: Option<String>,
    pub outcome: AuditOutcome,
    pub request_id: Option<String>,
    pub node_id: Option<String>,
    pub details: AuditDetails,
    pub prev_event_hash: Option<String>,
}

/// What is reported to the host about one evaluation.
#[derive(Debug)]
pub struct HostReport {
    /// The histogram that takes the latency.
    pub histogram: &'static str,
    /// The latency in nanoseconds.
    pub latency_nanos: u128,
    /// The counter of evaluations.
    pub counter: &'static str,
    /// How much the counter goes up by.
    pub increment: u64,
    /// The value of the one label, `outcome`, that both carry.
    pub outcome: &'static str,
    /// The audit event, for a rejection.
    pub audit: Option<AuditEvent>,
}

/// The action that the audit trail records for an outcome. A call that is let
/// through is normal traffic and is not recorded.
pub open spec fn action_of(outcome: Outcome) -> Option<Seq<char>> {
    match outcome {
        Outcome::Allow => None,
        Outcome::DenyRateLimited => Some("dev.mcpg.rate_limit.rejected"@),
        Outcome::Error => Some("dev.mcpg.rate_limit.error"@),
    }
}

/// The identity that stands in for a caller of whom nothing is known.
pub open spec fn system_identity() -> IdentityView {
    IdentityView {
        kind: "system"@,
        trust_level: "verified"@,
        subject_id: Some(PLUGIN_ID@),
        auth_provider: None,
        issuer: None,
        roles: Seq::empty(),
        groups: Seq::empty(),
        scopes: Seq::empty(),
        attributes: Seq::empty(),
    }
}

/// The identity that an audit event names as its actor.
pub open spec fn actor_of(ctx: PluginContext) -> IdentityView {
    if ctx.identity.kind@.len() == 0 {
        system_identity()
    } else {
        ctx.identity@
    }
}

impl AuditEvent {
    /// Whether this is the event for a call that was rejected with `outcome`.
    pub open spec fn records(
        self,
        ctx: PluginContext,
        outcome: Outcome,
        alias: Seq<char>,
        latency_nanos: u128,
        bucket: BucketDetailsView,
        occurred_at: Seq<char>,
    ) -> bool {
        &&& self.event_id@ == "rate-limit-"@ + ctx.request_id@ + "-"@ + decimal(
            latency_nanos as nat,
        )
        &&& self.occurred_at@ == occurred_at
        &&& self.actor@ == actor_of(ctx)
        &&& Some(self.action@) == action_of(outcome)
        &&& crate::context::text_of(self.resource) == Some("tool://"@ + ctx.tool_name@)
        &&& self.outcome == if outcome is Error {
            AuditOutcome::Failure
        } else {
            AuditOutcome::Denied
        }
        &&& crate::context::text_of(self.request_id) == Some(ctx.request_id@)
        &&& self.node_id is None
        &&& self.details.bucket@ == bucket
        &&& self.details.alias@ == alias
        &&& self.details.duration_ms == (latency_nanos / 1_000_000) as u64
        &&& self.prev_event_hash is None
    }
}

impl HostReport {
    /// Whether this is the report on a call that ended with `outcome`.
    pub open spec fn reports(
        self,
        ctx: PluginContext,
        outcome: Outcome,
        alias: Seq<char>,
        latency_nanos: u128,
        bucket: BucketDetailsView,
        occurred_at: Seq<char>,
    ) -> bool {
        &&& self.histogram@ == "mcpg_rate_limit_decision_seconds"@
        &&& self.latency_nanos == latency_nanos
        &&& self.counter@ == "mcpg_rate_limit_decisions_total"@
        &&& self.increment == 1
        &&& self.outcome@ == outcome.name()
        &&& self.audit is Some <==> action_of(outcome) is Some
        &&& self.audit matches Some(event) ==> event.records(
            ctx,
            outcome,
            alias,
            latency_nanos,
            bucket,
            occurred_at,
        )
    }
}

/// The identity that stands in for a caller of whom nothing is known.
pub fn synthetic_system_identity() -> (identity: PluginIdentity)
    ensures
        identity@ == system_identity(),
{
    let identity = PluginIdentity {
        kind: "system".to_owned(),
        trust_level: "verified".to_owned(),
        subject_id: Some(PLUGIN_ID.to_owned()),
        auth_provider: None,
        issuer: None,
        roles: Vec::new(),
        groups: Vec::new(),
        scopes: Vec::new(),
        attributes: Vec::new(),
    };
    assert(identity@.roles =~= Seq::empty());
    assert(identity@.groups =~= Seq::empty());
    assert(identity@.scopes =~= Seq::empty());
    assert(identity@.attributes =~= Seq::empty());
    identity
}

/// The report on a call that ended with `outcome`. The audit event, if there is
/// one, is stamped `occurred_at`.
pub fn host_report(
    ctx: &PluginContext,
    outcome: Outcome,
    alias: &str,
    latency_nanos: u128,
    bucket: BucketDetails,
    occurred_at: String,
) -> (report: HostReport)
    ensures
        report.reports(*ctx, outcome, alias@, latency_nanos, bucket@, occurred_at@),
{
    let action: Option<&'static str> = match outcome {
        Outcome::Allow => None,
        Outcome::DenyRateLimited => Some("dev.mcpg.rate_limit.rejected"),
        Outcome::Error => Some("dev.mcpg.rate_limit.error"),
    };
    let audit = match action {
        None => None,
        Some(action) => {
            let audit_outcome = match outcome {
                Outcome::Error => AuditOutcome::Failure,
                _ => AuditOutcome::Denied,
            };
            let actor = if ctx.identity.kind.as_str().is_empty() {
                synthetic_system_identity()
            } else {
                ctx.identity.copy()
            };
            let duration_ms: u64 = #[verifier::truncate] ((latency_nanos / 1_000_000) as u64);
            Some(
                AuditEvent {
                    event_id: joined("rate-limit-", ctx.request_id.as_str()).concat("-").concat(
                        decimal_text(latency_nanos).as_str(),
                    ),
                    occurred_at,
                    actor,
                    action: action.to_owned(),
                    resource: Some(joined("tool://", ctx.tool_name.as_str())),
                    outcome: audit_outcome,
                    request_id: Some(ctx.request_id.clone()),
                    node_id: None,
                    details: AuditDetails { bucket, alias: alias.to_owned(), duration_ms },
                    prev_event_hash: None,
                },
            )
        },
    };
    HostReport {
        histogram: "mcpg_rate_limit_decision_seconds",
        latency_nanos,
        counter: "mcpg_rate_limit_decisions_total",
        increment: 1,
        outcome: outcome.label(),
        audit,
    }
}

/// Only rejections and failures are audited, each under an action of its own, and
/// the report says how the evaluation ended: no two outcomes have the same name.
pub proof fn law_only_rejections_are_audited(
    report: HostReport,
    ctx: PluginContext,
    outcome: Outcome,
    other: Outcome,
    alias: Seq<char>,
    latency_nanos: u128,
    bucket: BucketDetailsView,
    occurred_at: Seq<char>,
)
    requires
        report.reports(ctx, outcome, alias, latency_nanos, bucket, occurred_at),
    ensures
        report.audit is None <==> outcome == Outcome::Allow,
        report.audit matches Some(event) ==> {
            &&& event.outcome == AuditOutcome::Failure <==> outcome == Outcome::Error
            &&& event.action@ == "dev.mcpg.rate_limit.rejected"@ <==> outcome
                == Outcome::DenyRateLimited
            &&& event.action@ == "dev.mcpg.rate_limit.error"@ <==> outcome == Outcome::Error
        },
        report.outcome@ == other.name() <==> outcome == other,
        report.outcome@ == "allow"@ <==> outcome == Outcome::Allow,
        report.outcome@ == "deny_rate_limited"@ <==> outcome == Outcome::DenyRateLimited,
        report.outcome@ == "error"@ <==> outcome == Outcome::Error,
        report.increment == 1,
        report.latency_nanos == latency_nanos,
        report.histogram@ == "mcpg_rate_limit_decision_seconds"@,
        report.counter@ == "mcpg_rate_limit_decisions_total"@,
{
    reveal_strlit("allow");
    reveal_strlit("deny_rate_limited");
    reveal_strlit("error");
    assert("allow"@[0] == 'a' && "deny_rate_limited"@[0] == 'd' && "error"@[0] == 'e');
    reveal_strlit("dev.mcpg.rate_limit.rejected");
    reveal_strlit("dev.mcpg.rate_limit.error");
    assert("dev.mcpg.rate_limit.rejected"@.len() == 28);
    assert("dev.mcpg.rate_limit.error"@.len() == 25);
}

/// An audit event tells of the call that was rejected: its request, its tool, the
/// bucket as it was handed over, text by text, how long the evaluation took in whole
/// milliseconds, when it took place and where.
pub proof fn law_audit_event_tells_of_the_call(
    event: AuditEvent,
    ctx: PluginContext,
    outcome: Outcome,
    alias: Seq<char>,
    latency_nanos: u128,
    bucket: BucketDetails,
    occurred_at: Seq<char>,
)
    requires
        event.records(ctx, outcome, alias, latency_nanos, bucket@, occurred_at),
    ensures
        event.request_id is Some && event.request_id->Some_0@ == ctx.request_id@,
        event.resource is Some && event.resource->Some_0@ == "tool://"@ + ctx.tool_name@,
        event.occurred_at@ == occurred_at,
        event.details.alias@ == alias,
        event.details.bucket.tool@ == bucket.tool@,
        event.details.bucket.scope@ == bucket.scope@,
        event.details.bucket.bucket_key@ == bucket.bucket_key@,
        event.details.bucket.limit == bucket.limit,
        event.details.bucket.window_ms == bucket.window_ms,
        event.details.bucket.remaining == bucket.remaining,
        event.details.bucket.retry_after == bucket.retry_after,
        event.details.bucket.subject@ == bucket.subject@,
        latency_nanos < 0x1_0000_0000_0000_0000 * 1_000_000 ==> event.details.duration_ms * 1_000_000
            <= latency_nanos < (event.details.duration_ms + 1) * 1_000_000,
        event.node_id is None,
        event.prev_event_hash is None,
{
}

/// The actor of an audit event is the caller, text by text; the plugin itself stands
/// in for a caller of whom nothing is known.
pub proof fn law_audit_event_names_the_caller(
    event: AuditEvent,
    ctx: PluginContext,
    outcome: Outcome,
    alias: Seq<char>,
    latency_nanos: u128,
    bucket: BucketDetailsView,
    occurred_at: Seq<char>,
)
    requires
        event.records(ctx, outcome, alias, latency_nanos, bucket, occurred_at),
    ensures
        ctx.identity.kind@.len() > 0 ==> {
            &&& event.actor@ == ctx.identity@
            &&& event.actor.kind@ == ctx.identity.kind@
            &&& event.actor.trust_level@ == ctx.identity.trust_level@
            &&& event.actor.subject_id is Some <==> ctx.identity.subject_id is Some
            &&& event.actor.subject_id is Some ==> event.actor.subject_id->Some_0@
                == ctx.identity.subject_id->Some_0@
            &&& event.actor.roles@.len() == ctx.identity.roles@.len()
            &&& event.actor.attributes@.len() == ctx.identity.attributes@.len()
        },
        ctx.identity.kind@.len() == 0 ==> {
            &&& event.actor.kind@ == "system"@
            &&& event.actor.trust_level@ == "verified"@
            &&& event.actor.subject_id is Some
            &&& event.actor.subject_id->Some_0@ == PLUGIN_ID@
            &&& event.actor.auth_provider is None
            &&& event.actor.issuer is None
            &&& event.actor.roles@.len() == 0
            &&& event.actor.groups@.len() == 0
            &&& event.actor.scopes@.len() == 0
            &&& event.actor.attributes@.len() == 0
        },
{
    if ctx.identity.kind@.len() > 0 {
        crate::context::law_identities_agree_in_every_text(event.actor, ctx.identity);
    } else {
        assert(event.actor@.roles.len() == event.actor.roles@.len());
        assert(event.actor@.groups.len() == event.actor.groups@.len());
        assert(event.actor@.scopes.len() == event.actor.scopes@.len());
        assert(event.actor@.attributes.len() == event.actor.attributes@.len());
    }
}

/// The events of one request that took different times have different identifiers,
/// and an identifier starts with the request that it belongs to.
pub proof fn law_event_ids_tell_events_apart(
    a: AuditEvent,
    b: AuditEvent,
    ctx: PluginContext,
    outcome: Outcome,
    alias: Seq<char>,
    latency_a: u128,
    latency_b: u128,
    bucket: BucketDetailsView,
    occurred_at: Seq<char>,
)
    requires
        a.records(ctx, outcome, alias, latency_a, bucket, occurred_at),
        b.records(ctx, outcome, alias, latency_b, bucket, occurred_at),
    ensures
        a.event_id@ == b.event_id@ <==> latency_a == latency_b,
        ("rate-limit-"@ + ctx.request_id@ + "-"@).is_prefix_of(a.event_id@),
        crate::text::number(
            a.event_id@.skip(("rate-limit-"@ + ctx.request_id@ + "-"@).len() as int),
        ) == latency_a,
{
    let head = "rate-limit-"@ + ctx.request_id@ + "-"@;
    crate::text::law_decimal_reads_back(latency_a as nat);
    crate::text::law_decimal_reads_back(latency_b as nat);
    assert(a.event_id@.skip(head.len() as int) =~= decimal(latency_a as nat));
    assert(b.event_id@.skip(head.len() as int) =~= decimal(latency_b as nat));
    assert(head =~= a.event_id@.subrange(0, head.len() as int));
}

} // verus!
