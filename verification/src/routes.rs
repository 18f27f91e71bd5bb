//! The request-side logic behind the HTTP surface: prompt construction,
//! the safety denylist check, parameter resolution against the process
//! limits, the response assembler's two consumption modes, and the API error
//! taxonomy. The HTTP framing itself is a collaborator's job; these
//! functions receive plain values and return plain values.

use vstd::prelude::*;
use vstd::string::StringExecFns;
use crate::config::LimitConfig;
use crate::config::ModelConfig;
use crate::config::SafetyConfig;
use crate::model::GenerateParams;
use crate::model::ModelError;
use crate::model::TokenEvent;
use crate::stream::events_view;
use crate::stream::lemma_events_view_index;
use crate::text::contains_sub;
use crate::text::lower_of;
use crate::text::lowercase;
use crate::text::spec_contains;
use crate::text::view_opt_string;

verus! {

/// One chat message: a role and its content.
#[derive(Debug, Clone)]
pub struct ChatMessage {
    pub role: String,
    pub content: String,
}

/// The body of a model load request.
pub struct LoadModelRequest {
    pub name: String,
    pub path: Option<String>,
    pub device: Option<String>,
    pub quantization: Option<String>,
    pub max_concurrent: Option<usize>,
    pub backend: Option<String>,
    pub arch: Option<String>,
    pub context_length: Option<usize>,
    pub server_url: Option<String>,
}

impl LoadModelRequest {
    /// The model configuration this request describes, field for field.
    pub fn into_config(self) -> (r: ModelConfig)
        ensures
            r.name@ == self.name@,
            view_opt_string(r.path) == view_opt_string(self.path),
            view_opt_string(r.device) == view_opt_string(self.device),
            view_opt_string(r.quantization) == view_opt_string(self.quantization),
            r.max_concurrent == self.max_concurrent,
            view_opt_string(r.backend) == view_opt_string(self.backend),
            view_opt_string(r.arch) == view_opt_string(self.arch),
            r.context_length == self.context_length,
            view_opt_string(r.server_url) == view_opt_string(self.server_url),
    {
        ModelConfig {
            name: self.name,
            path: self.path,
            device: self.device,
            quantization: self.quantization,
            max_concurrent: self.max_concurrent,
            backend: self.backend,
            arch: self.arch,
            context_length: self.context_length,
            server_url: self.server_url,
        }
    }
}

/// The body of a model unload request.
pub struct UnloadModelRequest {
    pub name: String,
}

/// What the HTTP surface reports when a request fails.
#[derive(Debug)]
pub enum ApiError {
    /// The requested model is not registered; a client error.
    NotFound(String),
    /// The model is at its concurrency ceiling; a retryable client error.
    Overloaded,
    /// The prompt matched the safety denylist; rejected before any model.
    Safety(String),
    /// The backend failed; a server error confined to this request.
    Internal(String),
}

impl From<ModelError> for ApiError {
    fn from(err: ModelError) -> (r: ApiError) {
        match err {
            ModelError::NotFound(name) => ApiError::NotFound(name),
            ModelError::Overloaded => ApiError::Overloaded,
            ModelError::Backend(msg) => ApiError::Internal(msg),
        }
    }
}

impl vstd::std_specs::convert::FromSpecImpl<ModelError> for ApiError {
    open spec fn obeys_from_spec() -> bool {
        true
    }

    open spec fn from_spec(t: ModelError) -> ApiError {
        match t {
            ModelError::NotFound(name) => ApiError::NotFound(name),
            ModelError::Overloaded => ApiError::Overloaded,
            ModelError::Backend(msg) => ApiError::Internal(msg),
        }
    }
}

/// The HTTP status an error is reported with.
pub open spec fn spec_status(e: ApiError) -> int {
    match e {
        ApiError::NotFound(_) => 404,
        ApiError::Overloaded => 429,
        ApiError::Safety(_) => 403,
        ApiError::Internal(_) => 500,
    }
}

/// The message body an error is reported with.
pub open spec fn spec_error_message(e: ApiError) -> Seq<char> {
    match e {
        ApiError::NotFound(m) => m@,
        ApiError::Overloaded => "model is at capacity, retry later"@,
        ApiError::Safety(m) => m@,
        ApiError::Internal(m) => m@,
    }
}

impl ApiError {
    /// The HTTP status this error is reported with.
    pub fn status_code(&self) -> (r: u16)
        ensures
            r == spec_status(*self),
    {
        match self {
            ApiError::NotFound(_) => 404,
            ApiError::Overloaded => 429,
            ApiError::Safety(_) => 403,
            ApiError::Internal(_) => 500,
        }
    }

    /// The message body this error is reported with.
    pub fn message(&self) -> (r: String)
        ensures
            r@ == spec_error_message(*self),
    {
        match self {
            ApiError::NotFound(m) => m.clone(),
            ApiError::Overloaded => "model is at capacity, retry later".to_owned(),
            ApiError::Safety(m) => m.clone(),
            ApiError::Internal(m) => m.clone(),
        }
    }
}

/// One line of the flattened prompt.
pub open spec fn spec_message_line(m: ChatMessage) -> Seq<char> {
    m.role@ + ": "@ + m.content@
}

/// The flattened prompt: one `role: content` line per message, joined with
/// newlines.
pub open spec fn spec_prompt(ms: Seq<ChatMessage>) -> Seq<char>
    decreases ms.len(),
{
    if ms.len() == 0 {
        Seq::empty()
    } else if ms.len() == 1 {
        spec_message_line(ms[0])
    } else {
        spec_prompt(ms.drop_last()) + "\n"@ + spec_message_line(ms.last())
    }
}

/// Flatten chat messages into the single prompt handed to the backend.
pub fn build_prompt(messages: &Vec<ChatMessage>) -> (r: String)
    ensures
        r@ == spec_prompt(messages@),
{
    let n = messages.len();
    let mut out = String::new();
    let mut k: usize = 0;
    while k < n
        invariant
            n == messages@.len(),
            0 <= k <= n,
            out@ == spec_prompt(messages@.subrange(0, k as int)),
        decreases n - k,
    {
        if k > 0 {
            out.append("\n");
        }
        out.append(messages[k].role.as_str());
        out.append(": ");
        out.append(messages[k].content.as_str());
        proof {
            let pre = messages@.subrange(0, k as int);
            let now = messages@.subrange(0, k + 1);
            assert(now.drop_last() =~= pre);
            assert(now.last() == messages@[k as int]);
            if k == 0 {
                assert(now.len() == 1);
            }
        }
        k = k + 1;
    }
    proof {
        assert(messages@.subrange(0, n as int) =~= messages@);
    }
    out
}

/// The concatenation of the messages' contents, joined with newlines, which
/// is what the safety filter scans for a chat request.
pub open spec fn spec_joined_contents(ms: Seq<ChatMessage>) -> Seq<char>
    decreases ms.len(),
{
    if ms.len() == 0 {
        Seq::empty()
    } else if ms.len() == 1 {
        ms[0].content@
    } else {
        spec_joined_contents(ms.drop_last()) + "\n"@ + ms.last().content@
    }
}

/// A denylist term matches the prompt when its lowercase form occurs in the
/// prompt's lowercase form.
pub open spec fn term_hits(prompt: Seq<char>, term: Seq<char>) -> bool {
    spec_contains(lower_of(prompt), lower_of(term))
}

/// The rejection message for one matched term.
pub open spec fn safety_rejection_msg(term: Seq<char>) -> Seq<char> {
    "prompt rejected due to safety denylist: "@ + term
}

/// Reject a prompt that matches any denylist term, case-insensitively,
/// reporting the first matching term; accept it otherwise.
pub fn enforce_prompt_safety(safety: &SafetyConfig, prompt: &str) -> (r: Result<(), ApiError>)
    ensures
        match r {
            Ok(()) => forall|i: int|
                0 <= i < safety.denylist@.len() ==> !term_hits(
                    prompt@,
                    (#[trigger] safety.denylist@[i])@,
                ),
            Err(e) => e matches ApiError::Safety(msg) && (exists|i: int|
                0 <= i < safety.denylist@.len() && #[trigger] term_hits(
                    prompt@,
                    safety.denylist@[i]@,
                ) && (forall|j: int|
                    0 <= j < i ==> !term_hits(prompt@, (#[trigger] safety.denylist@[j])@))
                    && msg@ == safety_rejection_msg(safety.denylist@[i]@)),
        },
{
    let lowered = lowercase(prompt);
    let n = safety.denylist.len();
    let mut k: usize = 0;
    while k < n
        invariant
            n == safety.denylist@.len(),
            0 <= k <= n,
            lowered@ == lower_of(prompt@),
            forall|j: int| 0 <= j < k ==> !term_hits(prompt@, (#[trigger] safety.denylist@[j])@),
        decreases n - k,
    {
        let lowered_term = lowercase(safety.denylist[k].as_str());
        if contains_sub(lowered.as_str(), lowered_term.as_str()) {
            let mut msg = "prompt rejected due to safety denylist: ".to_owned();
            msg.append(safety.denylist[k].as_str());
            proof {
                assert(term_hits(prompt@, safety.denylist@[k as int]@));
            }
            return Err(ApiError::Safety(msg));
        }
        k = k + 1;
    }
    Ok(())
}

/// Scan a chat request's joined message contents against the denylist.
pub fn enforce_safety(safety: &SafetyConfig, messages: &Vec<ChatMessage>) -> (r: Result<
    (),
    ApiError,
>)
    ensures
        match r {
            Ok(()) => forall|i: int|
                0 <= i < safety.denylist@.len() ==> !term_hits(
                    spec_joined_contents(messages@),
                    (#[trigger] safety.denylist@[i])@,
                ),
            Err(e) => e matches ApiError::Safety(msg) && (exists|i: int|
                0 <= i < safety.denylist@.len() && #[trigger] term_hits(
                    spec_joined_contents(messages@),
                    safety.denylist@[i]@,
                ) && (forall|j: int|
                    0 <= j < i ==> !term_hits(
                        spec_joined_contents(messages@),
                        (#[trigger] safety.denylist@[j])@,
                    )) && msg@ == safety_rejection_msg(safety.denylist@[i]@)),
        },
{
    let n = messages.len();
    let mut joined = String::new();
    let mut k: usize = 0;
    while k < n
        invariant
            n == messages@.len(),
            0 <= k <= n,
            joined@ == spec_joined_contents(messages@.subrange(0, k as int)),
        decreases n - k,
    {
        if k > 0 {
            joined.append("\n");
        }
        joined.append(messages[k].content.as_str());
        proof {
            let pre = messages@.subrange(0, k as int);
            let now = messages@.subrange(0, k + 1);
            assert(now.drop_last() =~= pre);
            assert(now.last() == messages@[k as int]);
            if k == 0 {
                assert(now.len() == 1);
            }
        }
        k = k + 1;
    }
    proof {
        assert(messages@.subrange(0, n as int) =~= messages@);
    }
    enforce_prompt_safety(safety, joined.as_str())
}

/// The token budget a request resolves to: the requested count, or the
/// process default when absent, never above the process ceiling.
pub open spec fn spec_token_budget(requested: Option<usize>, ceiling: int) -> int {
    let req = match requested {
        Option::Some(t) => t as int,
        Option::None => ceiling,
    };
    if req < ceiling {
        req
    } else {
        ceiling
    }
}

/// Build a generation's parameters from a request, applying the
/// server-enforced token ceiling; a caller-supplied budget is never trusted
/// beyond it.
pub fn build_params(
    limits: &LimitConfig,
    prompt: String,
    max_tokens: &Option<usize>,
    stop: &Option<Vec<String>>,
) -> (r: GenerateParams)
    ensures
        r.prompt@ == prompt@,
        r.max_tokens == spec_token_budget(*max_tokens, limits.max_tokens as int),
        match (r.stop, *stop) {
            (Option::Some(a), Option::Some(b)) => a@.len() == b@.len() && forall|i: int|
                0 <= i < a@.len() ==> (#[trigger] a@[i])@ == b@[i]@,
            (Option::None, Option::None) => true,
            _ => false,
        },
{
    let requested: usize = match max_tokens {
        Option::Some(t) => *t,
        Option::None => limits.max_tokens,
    };
    let capped: usize = if requested < limits.max_tokens {
        requested
    } else {
        limits.max_tokens
    };
    let stop_copy: Option<Vec<String>> = match stop {
        Option::Some(v) => Some(clone_strings(v)),
        Option::None => None,
    };
    GenerateParams { prompt, max_tokens: capped, stop: stop_copy }
}

fn clone_strings(v: &Vec<String>) -> (r: Vec<String>)
    ensures
        r@.len() == v@.len(),
        forall|i: int| 0 <= i < v@.len() ==> (#[trigger] r@[i])@ == v@[i]@,
{
    let n = v.len();
    let mut r: Vec<String> = Vec::new();
    let mut k: usize = 0;
    while k < n
        invariant
            n == v@.len(),
            0 <= k <= n,
            r@.len() == k,
            forall|i: int| 0 <= i < k ==> (#[trigger] r@[i])@ == v@[i]@,
        decreases n - k,
    {
        r.push(v[k].clone());
        k = k + 1;
    }
    r
}

/// Whether a generation request streams when it does not say.
pub fn default_stream() -> (r: bool)
    ensures
        r,
{
    true
}

/// One streamed protocol chunk's delta: an optional role marker and optional
/// content.
pub struct ChatDelta {
    pub role: Option<String>,
    pub content: Option<String>,
}

/// One choice of a streamed protocol chunk.
pub struct ChatStreamDelta {
    pub index: usize,
    pub delta: ChatDelta,
    pub finish_reason: Option<String>,
}

/// The synthetic chunk sent before the first token: only the role marker.
pub fn initial_delta() -> (r: ChatStreamDelta)
    ensures
        r.index == 0,
        view_opt_string(r.delta.role) == Option::Some("assistant"@),
        r.delta.content is None,
        r.finish_reason is None,
{
    ChatStreamDelta {
        index: 0,
        delta: ChatDelta { role: Some("assistant".to_owned()), content: None },
        finish_reason: None,
    }
}

/// The protocol chunk one token event becomes: its text when nonempty, and a
/// `stop` finish reason exactly on the finished event.
pub fn delta_for_event(ev: &TokenEvent) -> (r: ChatStreamDelta)
    ensures
        r.index == 0,
        r.delta.role is None,
        view_opt_string(r.delta.content) == if ev.token@.len() == 0 {
            Option::<Seq<char>>::None
        } else {
            Option::Some(ev.token@)
        },
        view_opt_string(r.finish_reason) == if ev.finished {
            Option::Some("stop"@)
        } else {
            Option::<Seq<char>>::None
        },
{
    let content: Option<String> = if ev.token.as_str().is_empty() {
        None
    } else {
        Some(ev.token.clone())
    };
    let finish_reason: Option<String> = if ev.finished {
        Some("stop".to_owned())
    } else {
        None
    };
    ChatStreamDelta { index: 0, delta: ChatDelta { role: None, content }, finish_reason }
}

/// The aggregated text of an event sequence: every fragment before the first
/// finished event, in order; the finished event's own text is excluded.
pub open spec fn agg_content(evs: Seq<(Seq<char>, bool)>) -> Seq<char>
    decreases evs.len(),
{
    if evs.len() == 0 {
        Seq::empty()
    } else if evs[0].1 {
        Seq::empty()
    } else {
        evs[0].0 + agg_content(evs.drop_first())
    }
}

/// How many events an aggregating drain consumes: everything up to and
/// including the first finished event.
pub open spec fn agg_count(evs: Seq<(Seq<char>, bool)>) -> nat
    decreases evs.len(),
{
    if evs.len() == 0 {
        0
    } else if evs[0].1 {
        1
    } else {
        1 + agg_count(evs.drop_first())
    }
}

/// Aggregate mode: drain an event sequence into one response text and the
/// count of consumed events, stopping at the first finished event.
pub fn aggregate_events(events: &Vec<TokenEvent>) -> (r: (String, u64))
    ensures
        r.0@ == agg_content(events_view(events@)),
        r.1 == agg_count(events_view(events@)),
{
    let n = events.len();
    let ghost evs = events_view(events@);
    proof {
        lemma_events_view_index(events@);
    }
    let mut out = String::new();
    let mut count: u64 = 0;
    let mut k: usize = 0;
    proof {
        assert(evs.subrange(0, n as int) =~= evs);
    }
    loop
        invariant_except_break
            n == events@.len(),
            evs == events_view(events@),
            evs.len() == n,
            0 <= k <= n,
            count == k as u64,
            forall|i: int| 0 <= i < evs.len() ==> #[trigger] evs[i] == events@[i]@,
            agg_content(evs) == out@ + agg_content(evs.subrange(k as int, n as int)),
            agg_count(evs) == count + agg_count(evs.subrange(k as int, n as int)),
        ensures
            out@ == agg_content(evs),
            count == agg_count(evs),
        decreases n - k,
    {
        if k >= n {
            proof {
                assert(evs.subrange(k as int, n as int) =~= Seq::<(Seq<char>, bool)>::empty());
                assert(out@ + agg_content(evs.subrange(k as int, n as int)) =~= out@);
            }
            break ;
        }
        let ghost tail = evs.subrange(k as int, n as int);
        proof {
            assert(tail[0] == evs[k as int]);
            assert(tail.drop_first() =~= evs.subrange(k + 1, n as int));
        }
        count = count + 1;
        if events[k].finished {
            proof {
                assert(tail[0].1);
                assert(agg_content(tail) =~= Seq::<char>::empty());
                assert(out@ + agg_content(tail) =~= out@);
            }
            break ;
        }
        out.append(events[k].token.as_str());
        k = k + 1;
    }
    (out, count)
}

} // verus!
