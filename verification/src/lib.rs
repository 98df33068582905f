//! Rate limiting for tool calls: a plugin that draws one token per call from a
//! bucket chosen by caller, tool, session or all at once, and turns a call away
//! when its bucket is drained.
//!
//! - [`bucket`]: the token bucket, with its laws in [`bucket_laws`].
//! - [`limiter`]: a bucket per key and the sweeping of idle ones, with its laws
//!   in [`limiter_laws`]; [`store`] is the map underneath.
//! - [`config`], [`context`], [`glob`]: which limits and which bucket apply to a
//!   call.
//! - [`decision`], [`plugin`], [`manifest`]: the plugin itself, with its laws in
//!   [`plugin_laws`].
//! - [`audit`], [`timestamp`], [`calendar`], [`text`]: what is reported about an
//!   evaluation.
//! - [`clock`]: the clocks of the machine; [`arith`]: integer arithmetic.

pub mod arith;
pub mod audit;
pub mod bucket;
pub mod bucket_laws;
pub mod calendar;
pub mod clock;
pub mod config;
pub mod context;
pub mod decision;
pub mod glob;
pub mod limiter;
pub mod limiter_laws;
pub mod manifest;
pub mod plugin;
pub mod plugin_laws;
pub mod store;
pub mod text;
pub mod timestamp;

pub use audit::{
    host_report, synthetic_system_identity, AuditDetails, AuditEvent, AuditOutcome, HostReport,
};
pub use bucket::{LimitResult, RefillRate, RetryAfter, TokenBucket};
pub use calendar::epoch_to_ymdhms;
pub use config::{
    default_cleanup_interval_ms, default_limit, default_window_ms, scope_label, RateLimitConfig,
    RateLimitRuleConfig, RateLimitScope,
};
pub use context::{resolve_key, Attribute, PluginContext, PluginIdentity};
pub use decision::{
    evaluation_of, AllowMetadata, BucketDetails, DenyData, Evaluation, GateDecision, Outcome,
};
pub use glob::glob_match;
pub use limiter::{RateLimitState, EVICT_CHECK_INTERVAL};
pub use manifest::{PluginClass, PluginManifest, PLUGIN_ID, PLUGIN_VERSION};
pub use plugin::{HostHandle, RateLimitPlugin, SpanAttributes};
pub use timestamp::{rfc3339, rfc3339_at, rfc3339_now};
