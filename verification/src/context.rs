//! The call that the plugin is asked about: who calls, in which session, and
//! which tool.

use crate::config::RateLimitScope;
use crate::text::joined;
use vstd::prelude::*;

verus! {

/// A named property of a caller.
#[derive(Debug)]
pub struct Attribute {
    pub name: String,
    pub value: String,
}

/// The caller.
#[derive(Debug)]
pub struct PluginIdentity {
    /// How the caller is known; empty where nothing is known.
    pub kind: String,
    pub trust_level: String,
    pub subject_id: Option<String>,
    pub auth_provider: Option<String>,
    pub issuer: Option<String>,
    pub roles: Vec<String>,
    pub groups: Vec<String>,
    pub scopes: Vec<String>,
    pub attributes: Vec<Attribute>,
}

/// What an identity says, text by text.
pub struct IdentityView {
    pub kind: Seq<char>,
    pub trust_level: Seq<char>,
    pub subject_id: Option<Seq<char>>,
    pub auth_provider: Option<Seq<char>>,
    pub issuer: Option<Seq<char>>,
    pub roles: Seq<Seq<char>>,
    pub groups: Seq<Seq<char>>,
    pub scopes: Seq<Seq<char>>,
    pub attributes: Seq<(Seq<char>, Seq<char>)>,
}

/// A text that may be absent.
pub open spec fn text_of(text: Option<String>) -> Option<Seq<char>> {
    match text {
        Some(text) => Some(text@),
        None => None,
    }
}

/// A list of texts.
pub open spec fn texts_of(texts: Seq<String>) -> Seq<Seq<char>> {
    Seq::new(texts.len(), |i: int| texts[i]@)
}

impl View for PluginIdentity {
    type V = IdentityView;

    open spec fn view(&self) -> IdentityView {
        IdentityView {
            kind: self.kind@,
            trust_level: self.trust_level@,
            subject_id: text_of(self.subject_id),
            auth_provider: text_of(self.auth_provider),
            issuer: text_of(self.issuer),
            roles: texts_of(self.roles@),
            groups: texts_of(self.groups@),
            scopes: texts_of(self.scopes@),
            attributes: Seq::new(
                self.attributes@.len(),
                |i: int| (self.attributes@[i].name@, self.attributes@[i].value@),
            ),
        }
    }
}

/// A copy of a list of texts.
fn copy_texts(texts: &Vec<String>) -> (copy: Vec<String>)
    ensures
        copy@ == texts@,
{
    let mut copy: Vec<String> = Vec::new();
    for i in 0..texts.len()
        invariant
            copy@ == texts@.take(i as int),
    {
        copy.push(texts[i].clone());
        assert(texts@.take(i + 1) =~= texts@.take(i as int).push(texts@[i as int]));
    }
    assert(texts@.take(texts@.len() as int) =~= texts@);
    copy
}

/// A copy of a text that may be absent.
pub(crate) fn copy_text(text: &Option<String>) -> (copy: Option<String>)
    ensures
        copy == *text,
{
    match text {
        Some(text) => Some(text.clone()),
        None => None,
    }
}

impl PluginIdentity {
    /// An identity that says the same.
    pub fn copy(&self) -> (copy: Self)
        ensures
            copy@ == self@,
    {
        let mut attributes: Vec<Attribute> = Vec::new();
        for i in 0..self.attributes.len()
            invariant
                attributes@.len() == i,
                forall|k: int|
                    0 <= k < i ==> (#[trigger] attributes@[k]).name == self.attributes@[k].name
                        && attributes@[k].value == self.attributes@[k].value,
        {
            attributes.push(
                Attribute {
                    name: self.attributes[i].name.clone(),
                    value: self.attributes[i].value.clone(),
                },
            );
        }
        let copy = PluginIdentity {
            kind: self.kind.clone(),
            trust_level: self.trust_level.clone(),
            subject_id: copy_text(&self.subject_id),
            auth_provider: copy_text(&self.auth_provider),
            issuer: copy_text(&self.issuer),
            roles: copy_texts(&self.roles),
            groups: copy_texts(&self.groups),
            scopes: copy_texts(&self.scopes),
            attributes,
        };
        assert(copy@.attributes =~= self@.attributes);
        copy
    }
}

/// A call.
#[derive(Debug)]
pub struct PluginContext {
    pub surface: String,
    pub request_id: String,
    pub session_id: Option<String>,
    pub tool_name: String,
    pub identity: PluginIdentity,
    pub transport: String,
}

/// The caller as buckets tell callers apart: the subject, else the session, else
/// one name for all unknown callers.
pub open spec fn principal(ctx: PluginContext) -> Seq<char> {
    match ctx.identity.subject_id {
        Some(subject) => subject@,
        None => match ctx.session_id {
            Some(session) => session@,
            None => "_anon"@,
        },
    }
}

/// The key of the bucket that a call draws from.
pub open spec fn bucket_key(ctx: PluginContext, scope: RateLimitScope) -> Seq<char> {
    match scope {
        RateLimitScope::PerPrincipal => principal(ctx),
        RateLimitScope::PerTool => ctx.tool_name@,
        RateLimitScope::PerPrincipalTool => principal(ctx) + ":"@ + ctx.tool_name@,
        RateLimitScope::PerSession => match ctx.session_id {
            Some(session) => session@,
            None => "_no_session"@,
        },
        RateLimitScope::Global => "_global"@,
    }
}

/// The caller as buckets tell callers apart.
fn principal_of(ctx: &PluginContext) -> (name: &str)
    ensures
        name@ == principal(*ctx),
{
    match &ctx.identity.subject_id {
        Some(subject) => subject.as_str(),
        None => match &ctx.session_id {
            Some(session) => session.as_str(),
            None => "_anon",
        },
    }
}

/// The key of the bucket that a call draws from.
pub fn resolve_key(ctx: &PluginContext, scope: RateLimitScope) -> (key: String)
    ensures
        key@ == bucket_key(*ctx, scope),
{
    match scope {
        RateLimitScope::PerPrincipal => principal_of(ctx).to_owned(),
        RateLimitScope::PerTool => ctx.tool_name.clone(),
        RateLimitScope::PerPrincipalTool => {
            joined(principal_of(ctx), ":").concat(ctx.tool_name.as_str())
        },
        RateLimitScope::PerSession => match &ctx.session_id {
            Some(session) => session.clone(),
            None => "_no_session".to_owned(),
        },
        RateLimitScope::Global => "_global".to_owned(),
    }
}

/// One bucket serves every caller and every tool under the global scope.
pub proof fn law_global_scope_shares_one_bucket(a: PluginContext, b: PluginContext)
    ensures
        bucket_key(a, RateLimitScope::Global) == bucket_key(b, RateLimitScope::Global),
{
}

/// Under the tool scope the caller does not matter, and tools do not share.
pub proof fn law_tool_scope_ignores_the_caller(a: PluginContext, b: PluginContext)
    ensures
        bucket_key(a, RateLimitScope::PerTool) == bucket_key(b, RateLimitScope::PerTool)
            <==> a.tool_name@ == b.tool_name@,
{
}

/// Under the caller scope the tool does not matter, and two callers share a
/// bucket exactly where they are the same principal.
pub proof fn law_principal_scope_ignores_the_tool(a: PluginContext, b: PluginContext)
    ensures
        bucket_key(a, RateLimitScope::PerPrincipal) == bucket_key(b, RateLimitScope::PerPrincipal)
            <==> principal(a) == principal(b),
{
}

/// Callers with neither a subject nor a session share one bucket.
pub proof fn law_unknown_callers_share_a_bucket(a: PluginContext, b: PluginContext)
    requires
        a.identity.subject_id is None,
        a.session_id is None,
        b.identity.subject_id is None,
        b.session_id is None,
    ensures
        bucket_key(a, RateLimitScope::PerPrincipal) == bucket_key(b, RateLimitScope::PerPrincipal),
        bucket_key(a, RateLimitScope::PerSession) == bucket_key(b, RateLimitScope::PerSession),
{
}

/// Under the session scope, calls in sessions share a bucket exactly where they
/// are in the same session.
pub proof fn law_session_scope_keys_by_session(a: PluginContext, b: PluginContext)
    requires
        a.session_id is Some,
        b.session_id is Some,
    ensures
        bucket_key(a, RateLimitScope::PerSession) == bucket_key(b, RateLimitScope::PerSession)
            <==> text_of(a.session_id) == text_of(b.session_id),
{
}

/// Under the scope of caller and tool, the same caller has a bucket for each
/// tool, and the same tool has a bucket for each caller. Where the callers' names
/// are free of the separator, calls share a bucket exactly where both the caller
/// and the tool are the same.
pub proof fn law_pair_scope_tells_tools_and_callers_apart(a: PluginContext, b: PluginContext)
    ensures
        principal(a) == principal(b) ==> (bucket_key(a, RateLimitScope::PerPrincipalTool)
            == bucket_key(b, RateLimitScope::PerPrincipalTool) <==> a.tool_name@ == b.tool_name@),
        a.tool_name@ == b.tool_name@ ==> (bucket_key(a, RateLimitScope::PerPrincipalTool)
            == bucket_key(b, RateLimitScope::PerPrincipalTool) <==> principal(a) == principal(b)),
        !principal(a).contains(':') && !principal(b).contains(':') ==> (bucket_key(
            a,
            RateLimitScope::PerPrincipalTool,
        ) == bucket_key(b, RateLimitScope::PerPrincipalTool) <==> principal(a) == principal(b)
            && a.tool_name@ == b.tool_name@),
{
    reveal_strlit(":");
    let key_a = bucket_key(a, RateLimitScope::PerPrincipalTool);
    let key_b = bucket_key(b, RateLimitScope::PerPrincipalTool);
    if key_a == key_b {
        if !principal(a).contains(':') && !principal(b).contains(':') {
            let m = principal(a).len() as int;
            let n = principal(b).len() as int;
            assert(key_a[m] == ':' && key_b[n] == ':');
            if m < n {
                assert(principal(b)[m] == key_b[m]);
            } else if n < m {
                assert(principal(a)[n] == key_a[n]);
            }
            assert(principal(a) =~= key_a.take(m));
            assert(principal(b) =~= key_b.take(n));
        }
        if principal(a) == principal(b) {
            let head = (principal(a) + ":"@).len() as int;
            assert(a.tool_name@ =~= key_a.skip(head));
            assert(b.tool_name@ =~= key_b.skip(head));
        }
        if a.tool_name@ == b.tool_name@ {
            let head = key_a.len() - 1 - a.tool_name@.len();
            assert(principal(a) =~= key_a.take(head));
            assert(principal(b) =~= key_b.take(head));
        }
    }
}

/// A caller is known by the subject; without one by the session; without either by a
/// name that all such callers share. Nothing else about the call matters.
pub proof fn law_caller_is_subject_else_session(ctx: PluginContext)
    ensures
        ctx.identity.subject_id matches Some(subject) ==> bucket_key(
            ctx,
            RateLimitScope::PerPrincipal,
        ) == subject@,
        ctx.identity.subject_id is None ==> (ctx.session_id matches Some(session) ==> bucket_key(
            ctx,
            RateLimitScope::PerPrincipal,
        ) == session@),
        ctx.identity.subject_id is None && ctx.session_id is None ==> bucket_key(
            ctx,
            RateLimitScope::PerPrincipal,
        ) == "_anon"@,
        principal(ctx) == bucket_key(ctx, RateLimitScope::PerPrincipal),
{
}

/// Callers with a subject share a bucket under the caller scope exactly where their
/// subjects are the same, whatever else differs.
pub proof fn law_subjects_tell_callers_apart(
    a: PluginContext,
    b: PluginContext,
    subject_a: String,
    subject_b: String,
)
    requires
        a.identity.subject_id == Some(subject_a),
        b.identity.subject_id == Some(subject_b),
    ensures
        bucket_key(a, RateLimitScope::PerPrincipal) == bucket_key(b, RateLimitScope::PerPrincipal)
            <==> subject_a@ == subject_b@,
        a.tool_name@ == b.tool_name@ ==> (bucket_key(a, RateLimitScope::PerPrincipalTool)
            == bucket_key(b, RateLimitScope::PerPrincipalTool) <==> subject_a@ == subject_b@),
{
    law_pair_scope_tells_tools_and_callers_apart(a, b);
}

/// Callers without a subject share a bucket under the caller scope exactly where
/// their sessions are the same.
pub proof fn law_sessions_tell_unnamed_callers_apart(
    a: PluginContext,
    b: PluginContext,
    session_a: String,
    session_b: String,
)
    requires
        a.identity.subject_id is None,
        b.identity.subject_id is None,
        a.session_id == Some(session_a),
        b.session_id == Some(session_b),
    ensures
        bucket_key(a, RateLimitScope::PerPrincipal) == bucket_key(b, RateLimitScope::PerPrincipal)
            <==> session_a@ == session_b@,
{
}

/// The keys of the other scopes spell what the bucket is kept for: the tool, the
/// caller and the tool with a colon between them, the session, or everything. A call
/// outside any session falls under one key for all such calls.
pub proof fn law_keys_spell_what_a_bucket_is_kept_for(ctx: PluginContext)
    ensures
        bucket_key(ctx, RateLimitScope::PerTool) == ctx.tool_name@,
        bucket_key(ctx, RateLimitScope::PerPrincipalTool) == bucket_key(
            ctx,
            RateLimitScope::PerPrincipal,
        ).push(':') + ctx.tool_name@,
        ctx.session_id matches Some(session) ==> bucket_key(ctx, RateLimitScope::PerSession)
            == session@,
        ctx.session_id is None ==> bucket_key(ctx, RateLimitScope::PerSession) == "_no_session"@,
        bucket_key(ctx, RateLimitScope::Global) == "_global"@,
{
    reveal_strlit(":");
    assert(principal(ctx) + ":"@ =~= principal(ctx).push(':'));
}

/// Identities that say the same agree in every text that they hold.
pub proof fn law_identities_agree_in_every_text(a: PluginIdentity, b: PluginIdentity)
    requires
        a@ == b@,
    ensures
        a.kind@ == b.kind@,
        a.trust_level@ == b.trust_level@,
        a.subject_id is Some <==> b.subject_id is Some,
        a.subject_id is Some ==> a.subject_id->Some_0@ == b.subject_id->Some_0@,
        a.auth_provider is Some <==> b.auth_provider is Some,
        a.auth_provider is Some ==> a.auth_provider->Some_0@ == b.auth_provider->Some_0@,
        a.issuer is Some <==> b.issuer is Some,
        a.issuer is Some ==> a.issuer->Some_0@ == b.issuer->Some_0@,
        a.roles@.len() == b.roles@.len(),
        forall|i: int| 0 <= i < a.roles@.len() ==> (#[trigger] a.roles@[i])@ == b.roles@[i]@,
        a.groups@.len() == b.groups@.len(),
        forall|i: int| 0 <= i < a.groups@.len() ==> (#[trigger] a.groups@[i])@ == b.groups@[i]@,
        a.scopes@.len() == b.scopes@.len(),
        forall|i: int| 0 <= i < a.scopes@.len() ==> (#[trigger] a.scopes@[i])@ == b.scopes@[i]@,
        a.attributes@.len() == b.attributes@.len(),
        forall|i: int|
            0 <= i < a.attributes@.len() ==> (#[trigger] a.attributes@[i]).name@
                == b.attributes@[i].name@ && a.attributes@[i].value@ == b.attributes@[i].value@,
{
    assert(a@.roles.len() == a.roles@.len() && b@.roles.len() == b.roles@.len());
    assert(a@.groups.len() == a.groups@.len() && b@.groups.len() == b.groups@.len());
    assert(a@.scopes.len() == a.scopes@.len() && b@.scopes.len() == b.scopes@.len());
    assert(a@.attributes.len() == a.attributes@.len());
    assert(b@.attributes.len() == b.attributes@.len());
    assert forall|i: int| 0 <= i < a.roles@.len() implies (#[trigger] a.roles@[i])@
        == b.roles@[i]@ by {
        assert(a@.roles[i] == b@.roles[i]);
    }
    assert forall|i: int| 0 <= i < a.groups@.len() implies (#[trigger] a.groups@[i])@
        == b.groups@[i]@ by {
        assert(a@.groups[i] == b@.groups[i]);
    }
    assert forall|i: int| 0 <= i < a.scopes@.len() implies (#[trigger] a.scopes@[i])@
        == b.scopes@[i]@ by {
        assert(a@.scopes[i] == b@.scopes[i]);
    }
    assert forall|i: int| 0 <= i < a.attributes@.len() implies (#[trigger] a.attributes@[i]).name@
        == b.attributes@[i].name@ && a.attributes@[i].value@ == b.attributes@[i].value@ by {
        assert(a@.attributes[i] == b@.attributes[i]);
    }
}

} // verus!
