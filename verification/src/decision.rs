//! What the plugin decides about a call.

use crate::bucket::{LimitResult, RetryAfter};
use crate::config::{scope_label, scope_name, RateLimitScope};
use crate::context::{text_of, PluginContext};
use vstd::prelude::*;

verus! {

/// What a call that is let through is told.
#[derive(Debug, Clone, Copy, PartialEq, Eq, Structural)]
pub struct AllowMetadata {
    /// Whole tokens left in the bucket.
    pub remaining: u64,
    /// The bucket's capacity.
    pub limit: u64,
}

/// What a call that is turned away is told.
#[derive(Debug, Clone, Copy, PartialEq, Eq, Structural)]
pub struct DenyData {
    /// How long until the next token.
    pub retry_after: RetryAfter,
    /// The bucket's capacity.
    pub limit: u64,
    /// The window in milliseconds.
    pub window_ms: u64,
    /// Whole tokens left in the bucket.
    pub remaining: u64,
}

/// The decision about a call.
#[derive(Debug)]
pub enum GateDecision {
    /// The call proceeds as it is.
    Allow { metadata: Option<AllowMetadata> },
    /// The call is answered with an error instead.
    Deny { http_status: u16, code: i32, message: String, error_data: Option<DenyData> },
}

impl GateDecision {
    /// A decision that lets a call through without comment.
    pub fn allow() -> (decision: Self)
        ensures
            decision == (GateDecision::Allow { metadata: None }),
    {
        GateDecision::Allow { metadata: None }
    }

    /// Whether the call proceeds.
    pub fn is_allow(&self) -> (allowed: bool)
        ensures
            allowed == (self is Allow),
    {
        match self {
            GateDecision::Allow { .. } => true,
            GateDecision::Deny { .. } => false,
        }
    }

    /// Whether this is the decision that a bucket's answer calls for: the tokens
    /// left and the capacity where the call proceeds; else HTTP status 429,
    /// JSON-RPC code -32029 and when to try again.
    pub open spec fn follows(self, result: LimitResult, window_ms: u64) -> bool {
        match self {
            GateDecision::Allow { metadata } => {
                &&& result.allowed
                &&& metadata == Some(
                    AllowMetadata { remaining: result.remaining, limit: result.limit },
                )
            },
            GateDecision::Deny { http_status, code, message, error_data } => {
                &&& !result.allowed
                &&& http_status == 429
                &&& code == -32029
                &&& message@ == "Rate limit exceeded"@
                &&& error_data == Some(
                    DenyData {
                        retry_after: result.retry_after,
                        limit: result.limit,
                        window_ms,
                        remaining: result.remaining,
                    },
                )
            },
        }
    }
}

/// How an evaluation ended.
#[derive(Debug, Clone, Copy, PartialEq, Eq, Structural)]
pub enum Outcome {
    Allow,
    DenyRateLimited,
    /// The engine itself failed. The token bucket cannot; the outcome is there
    /// so that all plugins report out of the same set.
    Error,
}

impl Outcome {
    /// The name under which telemetry reports the outcome.
    pub open spec fn name(self) -> Seq<char> {
        match self {
            Outcome::Allow => "allow"@,
            Outcome::DenyRateLimited => "deny_rate_limited"@,
            Outcome::Error => "error"@,
        }
    }

    /// The name under which telemetry reports the outcome.
    pub fn label(&self) -> (label: &'static str)
        ensures
            label@ == self.name(),
    {
        match self {
            Outcome::Allow => "allow",
            Outcome::DenyRateLimited => "deny_rate_limited",
            Outcome::Error => "error",
        }
    }
}

/// What the audit trail is told about the bucket.
#[derive(Debug)]
pub struct BucketDetails {
    pub tool: String,
    pub scope: &'static str,
    pub bucket_key: String,
    /// The bucket's capacity.
    pub limit: u64,
    /// The window in milliseconds.
    pub window_ms: u64,
    /// Whole tokens left in the bucket.
    pub remaining: u64,
    /// How long until the next token.
    pub retry_after: RetryAfter,
    /// The caller's subject; empty where there is none.
    pub subject: String,
}

/// What bucket details say, text by text.
pub struct BucketDetailsView {
    pub tool: Seq<char>,
    pub scope: Seq<char>,
    pub bucket_key: Seq<char>,
    pub limit: u64,
    pub window_ms: u64,
    pub remaining: u64,
    pub retry_after: RetryAfter,
    pub subject: Seq<char>,
}

impl View for BucketDetails {
    type V = BucketDetailsView;

    open spec fn view(&self) -> BucketDetailsView {
        BucketDetailsView {
            tool: self.tool@,
            scope: self.scope@,
            bucket_key: self.bucket_key@,
            limit: self.limit,
            window_ms: self.window_ms,
            remaining: self.remaining,
            retry_after: self.retry_after,
            subject: self.subject@,
        }
    }
}

/// The details of a bucket's answer to a call.
pub open spec fn details_of(
    ctx: PluginContext,
    scope: RateLimitScope,
    key: Seq<char>,
    window_ms: u64,
    result: LimitResult,
) -> BucketDetailsView {
    BucketDetailsView {
        tool: ctx.tool_name@,
        scope: scope_name(scope),
        bucket_key: key,
        limit: result.limit,
        window_ms,
        remaining: result.remaining,
        retry_after: result.retry_after,
        subject: match text_of(ctx.identity.subject_id) {
            Some(subject) => subject,
            None => Seq::empty(),
        },
    }
}

/// A decision, how telemetry reports it, and what the audit trail may be told.
#[derive(Debug)]
pub struct Evaluation {
    pub decision: GateDecision,
    pub outcome: Outcome,
    pub details: BucketDetails,
}

impl Evaluation {
    /// Whether this is the evaluation of a call whose bucket, under `key`, gave
    /// the answer `result`.
    pub open spec fn follows(
        self,
        ctx: PluginContext,
        scope: RateLimitScope,
        key: Seq<char>,
        window_ms: u64,
        result: LimitResult,
    ) -> bool {
        &&& self.decision.follows(result, window_ms)
        &&& self.outcome == if result.allowed {
            Outcome::Allow
        } else {
            Outcome::DenyRateLimited
        }
        &&& self.details@ == details_of(ctx, scope, key, window_ms, result)
    }
}

/// The evaluation of a call whose bucket, under `key`, gave the answer `result`.
pub fn evaluation_of(
    ctx: &PluginContext,
    scope: RateLimitScope,
    key: String,
    window_ms: u64,
    result: LimitResult,
) -> (evaluation: Evaluation)
    ensures
        evaluation.follows(*ctx, scope, key@, window_ms, result),
{
    let details = BucketDetails {
        tool: ctx.tool_name.clone(),
        scope: scope_label(scope),
        bucket_key: key,
        limit: result.limit,
        window_ms,
        remaining: result.remaining,
        retry_after: result.retry_after,
        subject: match &ctx.identity.subject_id {
            Some(subject) => subject.clone(),
            None => String::new(),
        },
    };
    if result.allowed {
        Evaluation {
            decision: GateDecision::Allow {
                metadata: Some(
                    AllowMetadata { remaining: result.remaining, limit: result.limit },
                ),
            },
            outcome: Outcome::Allow,
            details,
        }
    } else {
        Evaluation {
            decision: GateDecision::Deny {
                http_status: 429,
                code: -32029,
                message: "Rate limit exceeded".to_owned(),
                error_data: Some(
                    DenyData {
                        retry_after: result.retry_after,
                        limit: result.limit,
                        window_ms,
                        remaining: result.remaining,
                    },
                ),
            },
            outcome: Outcome::DenyRateLimited,
            details,
        }
    }
}

} // verus!
