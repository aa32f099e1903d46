//! Planner backends' settings, the prompt sent to a local model, and the
//! backend that never calls out. The network calls themselves live outside
//! the verified library.

use vstd::prelude::*;
use crate::ai::schema::AiRequest;
use crate::policy::types::RiskLevel;
use crate::text::{chars_of, join, join_strings, push_all, push_str, string_from_chars, strings_to_chars};

verus! {

/// The opening of every planner prompt, up to the command text.
pub const PROMPT_PREAMBLE: &'static str = r#"You are the advisory AI planner for SafeShell, a transactional shell sandbox. You analyze a command that a deterministic Policy Engine has already classified; your output is advisory only and never changes what is allowed to run. Respond with a single JSON object and nothing else — no markdown, no code fences, no commentary before or after it.

Command: "#;

/// What follows the command text.
pub const PROMPT_CATEGORY: &'static str = r#"
Policy category: "#;

/// What follows the policy category.
pub const PROMPT_RISK_LEVEL: &'static str = r#"
Policy risk level: "#;

/// What follows the policy risk level.
pub const PROMPT_REASONS: &'static str = r#"
Policy reasons: "#;

/// The required answer shape, after the policy reasons.
pub const PROMPT_SHAPE: &'static str = r#"

Respond with exactly this JSON shape:
{
  "schema_version": "1.0",
  "command": "<the command text, verbatim>",
  "intent": "<one of: navigation, file_read, file_write, directory_create, recursive_delete, permission_change, ownership_change, package_removal, other>",
  "risk_level": "<one of: low, medium, high, critical>",
  "affected_resources": ["<path or resource strings>"],
  "predicted_effects": {
    "files_deleted_estimate": <integer>,
    "directories_deleted_estimate": <integer>,
    "escapes_sandbox": <true|false>
  },
  "preconditions": ["<strings describing what must be true beforehand>"],
  "reversible_within_safeshell": <true|false>,
  "recovery_recommendation": {
    "strategy": "<one of: restore_pre_transaction_snapshot, no_recovery_needed, not_reversible>",
    "description": "<short human-readable recovery guidance>"
  },
  "external_side_effects": <true|false>,
  "confidence": <number between 0.0 and 1.0>,
  "explanation": "<a short, plain-language explanation of what this command does>"
}

Every enum field must use exactly one of the listed values — no other strings are valid. Output only the JSON object."#;

/// How a risk level is spelled in a prompt.
pub open spec fn risk_debug_name(r: RiskLevel) -> Seq<char> {
    match r {
        RiskLevel::Low => "Low"@,
        RiskLevel::Medium => "Medium"@,
        RiskLevel::High => "High"@,
        RiskLevel::Critical => "Critical"@,
    }
}

/// The policy reasons as shown in a prompt: joined with `; `, or `none`.
pub open spec fn reasons_text(reasons: Seq<String>) -> Seq<char> {
    if reasons.len() == 0 {
        "none"@
    } else {
        join(reasons.map_values(|s: String| s@), "; "@)
    }
}

/// The whole prompt for `req`.
pub open spec fn prompt_text(req: AiRequest) -> Seq<char> {
    PROMPT_PREAMBLE@ + req.command_text@ + PROMPT_CATEGORY@ + (match req.category {
        Some(c) => c@,
        None => "unknown"@,
    }) + PROMPT_RISK_LEVEL@ + (match req.risk_level {
        Some(r) => risk_debug_name(r),
        None => "none"@,
    }) + PROMPT_REASONS@ + reasons_text(req.policy_reasons@) + PROMPT_SHAPE@
}

fn risk_debug_str(r: RiskLevel) -> (s: &'static str)
    ensures
        s@ == risk_debug_name(r),
{
    match r {
        RiskLevel::Low => "Low",
        RiskLevel::Medium => "Medium",
        RiskLevel::High => "High",
        RiskLevel::Critical => "Critical",
    }
}

/// Builds the prompt sent to a local planner model for `request`.
pub fn build_prompt(request: &AiRequest) -> (s: String)
    ensures
        s@ == prompt_text(*request),
{
    let mut out: Vec<char> = chars_of(PROMPT_PREAMBLE);
    push_str(&mut out, request.command_text.as_str());
    push_str(&mut out, PROMPT_CATEGORY);
    match request.category {
        Some(c) => push_str(&mut out, c),
        None => push_str(&mut out, "unknown"),
    }
    push_str(&mut out, PROMPT_RISK_LEVEL);
    match request.risk_level {
        Some(r) => push_str(&mut out, risk_debug_str(r)),
        None => push_str(&mut out, "none"),
    }
    push_str(&mut out, PROMPT_REASONS);
    if request.policy_reasons.len() == 0 {
        push_str(&mut out, "none");
    } else {
        let parts = strings_to_chars(&request.policy_reasons);
        let joined = join_strings(&parts, "; ");
        push_all(&mut out, joined.as_slice());
    }
    push_str(&mut out, PROMPT_SHAPE);
    string_from_chars(out.as_slice())
}

/// The planner backend that never calls out: every analysis is skipped.
pub struct NullBackend;

impl NullBackend {
    /// The backend's name.
    pub fn name(&self) -> (s: &'static str)
        ensures
            s@ == "NullBackend"@,
    {
        "NullBackend"
    }
}

/// Why a planner analysis was skipped.
#[derive(Debug, Clone, PartialEq, Eq)]
pub enum SkipCause {
    /// Policy allows the command outright, so no answer could change its
    /// route.
    StructurallySafe,
    /// The planner is switched off.
    Disabled,
    /// The call ran out of time.
    TimedOut,
    /// The call failed, with the transport's error.
    CallFailed(String),
    /// The answer came back but was refused, with the validation error.
    Invalid(String),
}

/// The reason shown for a skipped analysis.
pub open spec fn skip_text(c: SkipCause) -> Seq<char> {
    match c {
        SkipCause::StructurallySafe => "command structurally cannot require approval (policy: Allow/Safe)"@,
        SkipCause::Disabled => "AI disabled (NullBackend)"@,
        SkipCause::TimedOut => "AI call timed out"@,
        SkipCause::CallFailed(e) => "AI call failed: "@ + e@,
        SkipCause::Invalid(e) => "AI response failed validation: "@ + e@,
    }
}

/// The reason shown for a skipped analysis.
pub fn skip_reason(cause: &SkipCause) -> (s: String)
    ensures
        s@ == skip_text(*cause),
{
    match cause {
        SkipCause::StructurallySafe => "command structurally cannot require approval (policy: Allow/Safe)".to_string(),
        SkipCause::Disabled => "AI disabled (NullBackend)".to_string(),
        SkipCause::TimedOut => "AI call timed out".to_string(),
        SkipCause::CallFailed(e) => {
            let mut out = chars_of("AI call failed: ");
            push_str(&mut out, e.as_str());
            string_from_chars(out.as_slice())
        },
        SkipCause::Invalid(e) => {
            let mut out = chars_of("AI response failed validation: ");
            push_str(&mut out, e.as_str());
            string_from_chars(out.as_slice())
        },
    }
}

/// Settings of a planner reached over HTTP with a JSON request.
pub struct RemoteBackend {
    endpoint: String,
    api_key: Option<String>,
    timeout_ms: u64,
}

/// How long a remote planner may take, in milliseconds, unless set.
pub const REMOTE_DEFAULT_TIMEOUT_MS: u64 = 2500;

impl RemoteBackend {
    /// The backend's name.
    pub fn name(&self) -> (s: &'static str)
        ensures
            s@ == "RemoteBackend"@,
    {
        "RemoteBackend"
    }

    /// The endpoint requests are posted to.
    pub closed spec fn endpoint_view(&self) -> Seq<char> {
        self.endpoint@
    }

    /// The bearer token sent with each request, if any.
    pub closed spec fn api_key_view(&self) -> Option<Seq<char>> {
        match self.api_key {
            Some(k) => Some(k@),
            None => None,
        }
    }

    /// The time limit of one call, in milliseconds.
    pub closed spec fn timeout_view(&self) -> u64 {
        self.timeout_ms
    }

    /// A backend for `endpoint`, with no key and the default time limit.
    pub fn new(endpoint: String) -> (r: Self)
        ensures
            r.endpoint_view() == endpoint@,
            r.api_key_view() is None,
            r.timeout_view() == REMOTE_DEFAULT_TIMEOUT_MS,
    {
        RemoteBackend { endpoint, api_key: None, timeout_ms: REMOTE_DEFAULT_TIMEOUT_MS }
    }

    /// The same backend, sending `api_key` as a bearer token.
    pub fn with_api_key(self, api_key: String) -> (r: Self)
        ensures
            r.endpoint_view() == self.endpoint_view(),
            r.api_key_view() == Some(api_key@),
            r.timeout_view() == self.timeout_view(),
    {
        RemoteBackend { endpoint: self.endpoint, api_key: Some(api_key), timeout_ms: self.timeout_ms }
    }

    /// The same backend with a time limit of `timeout_ms` milliseconds.
    pub fn with_timeout(self, timeout_ms: u64) -> (r: Self)
        ensures
            r.endpoint_view() == self.endpoint_view(),
            r.api_key_view() == self.api_key_view(),
            r.timeout_view() == timeout_ms,
    {
        RemoteBackend { endpoint: self.endpoint, api_key: self.api_key, timeout_ms }
    }

    /// The endpoint requests are posted to.
    pub fn endpoint(&self) -> (s: &str)
        ensures
            s@ == self.endpoint_view(),
    {
        self.endpoint.as_str()
    }

    /// The bearer token, if any.
    pub fn api_key(&self) -> (k: Option<&str>)
        ensures
            match k {
                Some(s) => self.api_key_view() == Some(s@),
                None => self.api_key_view() is None,
            },
    {
        match &self.api_key {
            Some(key) => Some(key.as_str()),
            None => None,
        }
    }

    /// The time limit of one call, in milliseconds.
    pub fn timeout_ms(&self) -> (t: u64)
        ensures
            t == self.timeout_view(),
    {
        self.timeout_ms
    }
}

/// Settings of a local Ollama server used as the planner.
pub struct OllamaBackend {
    endpoint: String,
    model: String,
    timeout_ms: u64,
}

/// How long local generation may take, in milliseconds, unless set.
pub const OLLAMA_DEFAULT_TIMEOUT_MS: u64 = 30000;

/// `s` without its trailing `/` characters.
pub open spec fn without_trailing_slashes(s: Seq<char>) -> Seq<char>
    decreases s.len(),
{
    if s.len() > 0 && s.last() == '/' {
        without_trailing_slashes(s.drop_last())
    } else {
        s
    }
}

impl OllamaBackend {
    /// The backend's name.
    pub fn name(&self) -> (s: &'static str)
        ensures
            s@ == "OllamaBackend"@,
    {
        "OllamaBackend"
    }

    /// The server's base address.
    pub closed spec fn endpoint_view(&self) -> Seq<char> {
        self.endpoint@
    }

    /// The model asked to generate.
    pub closed spec fn model_view(&self) -> Seq<char> {
        self.model@
    }

    /// The time limit of one call, in milliseconds.
    pub closed spec fn timeout_view(&self) -> u64 {
        self.timeout_ms
    }

    /// A backend for `model` on the server at `endpoint`, with the default
    /// time limit.
    pub fn new(endpoint: String, model: String) -> (r: Self)
        ensures
            r.endpoint_view() == endpoint@,
            r.model_view() == model@,
            r.timeout_view() == OLLAMA_DEFAULT_TIMEOUT_MS,
    {
        OllamaBackend { endpoint, model, timeout_ms: OLLAMA_DEFAULT_TIMEOUT_MS }
    }

    /// The same backend with a time limit of `timeout_ms` milliseconds.
    pub fn with_timeout(self, timeout_ms: u64) -> (r: Self)
        ensures
            r.endpoint_view() == self.endpoint_view(),
            r.model_view() == self.model_view(),
            r.timeout_view() == timeout_ms,
    {
        OllamaBackend { endpoint: self.endpoint, model: self.model, timeout_ms }
    }

    /// The model asked to generate.
    pub fn model(&self) -> (s: &str)
        ensures
            s@ == self.model_view(),
    {
        self.model.as_str()
    }

    /// The time limit of one call, in milliseconds.
    pub fn timeout_ms(&self) -> (t: u64)
        ensures
            t == self.timeout_view(),
    {
        self.timeout_ms
    }

    /// The generation URL: the endpoint without trailing slashes, then
    /// `/api/generate`.
    pub fn generate_url(&self) -> (u: String)
        ensures
            u@ == without_trailing_slashes(self.endpoint_view()) + "/api/generate"@,
    {
        let cs = chars_of(self.endpoint.as_str());
        let mut end: usize = cs.len();
        assert(cs@.take(cs@.len() as int) =~= cs@);
        while end > 0 && cs[end - 1] == '/'
            invariant
                end <= cs@.len(),
                without_trailing_slashes(cs@) == without_trailing_slashes(cs@.take(end as int)),
            decreases end,
        {
            assert(cs@.take(end as int).drop_last() =~= cs@.take(end - 1));
            end = end - 1;
        }
        let mut out: Vec<char> = Vec::new();
        let mut i: usize = 0;
        while i < end
            invariant
                i <= end <= cs@.len(),
                out@ == cs@.take(i as int),
            decreases end - i,
        {
            out.push(cs[i]);
            i = i + 1;
            assert(out@ =~= cs@.take(i as int));
        }
        push_str(&mut out, "/api/generate");
        string_from_chars(out.as_slice())
    }
}

} // verus!
