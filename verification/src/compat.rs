//! Retries after an upstream rejects a request.
//!
//! When an upstream rejects a request, the field it stumbled over can often be
//! stripped or clamped and the request sent again. A retry is taken at most once
//! for each reason, so a request is only ever sent a bounded number of times.
use vstd::prelude::*;
use crate::json::{bool_in, member, members_in, text_at, Decimal, Json, Object, Tree};
use crate::reasoning::{
    bucket_of, canonical_effort, normalize_canonical_effort, select_bucket, Bucket,
    CanonicalEffort,
};
use crate::text::{contains, has, listed, lower, lowered, opt_text, same, text_or_empty};

verus! {

/// How reasoning parameters are sent on the current attempt.
#[derive(Debug, Clone, Copy, PartialEq, Eq, Structural)]
pub enum WireMode {
    /// None are sent.
    ProviderDefault,
    /// A `reasoning_effort` is sent.
    EffortOnly,
}

/// A request as it is retried: the body to send, its reasoning, and the reasons
/// for which it was already changed.
#[derive(Debug)]
pub struct ReasoningState {
    pub body: Object,
    canonical_effort: CanonicalEffort,
    wire_mode: WireMode,
    applied: Vec<&'static str>,
}

/// The model of a request as it is retried.
#[verifier::ext_equal]
pub ghost struct Attempt {
    pub body: Map<Seq<char>, Tree>,
    pub effort: CanonicalEffort,
    pub mode: WireMode,
    pub applied: Seq<Seq<char>>,
}

impl View for ReasoningState {
    type V = Attempt;

    closed spec fn view(&self) -> Attempt {
        Attempt {
            body: self.body@,
            effort: self.canonical_effort,
            mode: self.wire_mode,
            applied: crate::convert::semantics::name_texts(self.applied@),
        }
    }
}

/// The model that a body names.
pub open spec fn model_in(body: Map<Seq<char>, Tree>) -> Seq<char> {
    text_or_empty(text_at(body, "model"@))
}

/// The body without reasoning parameters.
pub open spec fn without_reasoning(body: Map<Seq<char>, Tree>) -> Map<Seq<char>, Tree> {
    body.remove("thinking"@).remove("reasoning_effort"@)
}

/// The effort that a body asks for: its `reasoning_effort`, or none where its
/// `thinking` is disabled.
pub open spec fn effort_in(body: Map<Seq<char>, Tree>) -> CanonicalEffort {
    let explicit = canonical_effort(text_at(body, "reasoning_effort"@));
    if explicit != CanonicalEffort::Unspecified {
        explicit
    } else {
        match members_in(member(body, "thinking"@)) {
            Some(t) => if text_at(t, "type"@) == Some("disabled"@) {
                CanonicalEffort::Off
            } else {
                CanonicalEffort::Unspecified
            },
            None => CanonicalEffort::Unspecified,
        }
    }
}

/// The first attempt of a body: reasoning parameters are encoded anew for models
/// that take an effort, and left out for all others.
pub open spec fn first_attempt(body: Map<Seq<char>, Tree>) -> Attempt {
    let effort = effort_in(body);
    let bare = without_reasoning(body);
    if effort == CanonicalEffort::Unspecified || bucket_of(model_in(body)) == Bucket::Passthrough {
        Attempt { body: bare, effort, mode: WireMode::ProviderDefault, applied: Seq::empty() }
    } else {
        Attempt {
            body: bare.insert("reasoning_effort"@, Tree::Str(effort.label())),
            effort,
            mode: WireMode::EffortOnly,
            applied: Seq::empty(),
        }
    }
}

/// Whether an error mentions a text, in any letter case.
pub open spec fn mentions(error: Seq<char>, needle: Seq<char>) -> bool {
    contains(lower(error), needle)
}

/// Whether a body has a member that is not null.
pub open spec fn sets(body: Map<Seq<char>, Tree>, k: Seq<char>) -> bool {
    member(body, k) matches Some(v) && v != Tree::Null
}

/// Whether a body asks for usage in its stream.
pub open spec fn asks_usage(body: Map<Seq<char>, Tree>) -> bool {
    match members_in(member(body, "stream_options"@)) {
        Some(o) => bool_in(member(o, "include_usage"@)) == Some(true),
        None => false,
    }
}

/// The body that asks for no usage in its stream.
pub open spec fn without_usage(body: Map<Seq<char>, Tree>) -> Map<Seq<char>, Tree> {
    let options = match members_in(member(body, "stream_options"@)) {
        Some(o) => o,
        None => Map::empty(),
    };
    body.insert("stream_options"@, Tree::Object(options.insert("include_usage"@, Tree::Bool(false))))
}

/// Why a request is changed.
#[derive(Debug, Clone, Copy, PartialEq, Eq, Structural)]
pub enum Reason {
    TopP,
    IncludeUsage,
    StreamOptions,
    ParallelToolCalls,
    ToolChoice,
    Effort,
    Thinking,
}

impl Reason {
    /// The label of the reason.
    pub open spec fn label_text(self) -> Seq<char> {
        match self {
            Reason::TopP => "top_p_out_of_range"@,
            Reason::IncludeUsage => "include_usage_rejected"@,
            Reason::StreamOptions => "stream_options_rejected"@,
            Reason::ParallelToolCalls => "parallel_tool_calls_rejected"@,
            Reason::ToolChoice => "explicit_tool_choice_disable_reasoning"@,
            Reason::Effort => "unsupported_reasoning_effort_to_provider_default"@,
            Reason::Thinking => "unsupported_thinking_strip_raw_thinking"@,
        }
    }

    /// The label of the reason.
    pub fn label(self) -> (r: &'static str)
        ensures
            r@ == self.label_text(),
    {
        match self {
            Reason::TopP => "top_p_out_of_range",
            Reason::IncludeUsage => "include_usage_rejected",
            Reason::StreamOptions => "stream_options_rejected",
            Reason::ParallelToolCalls => "parallel_tool_calls_rejected",
            Reason::ToolChoice => "explicit_tool_choice_disable_reasoning",
            Reason::Effort => "unsupported_reasoning_effort_to_provider_default",
            Reason::Thinking => "unsupported_thinking_strip_raw_thinking",
        }
    }
}

impl Attempt {
    /// Whether a request was already changed for a reason.
    pub open spec fn done(self, reason: Reason) -> bool {
        listed(self.applied, reason.label_text())
    }

    /// Whether an error with the given status is a reason to change the request.
    pub open spec fn calls_for(self, reason: Reason, error: Seq<char>, status: int) -> bool {
        !self.done(reason) && match reason {
            Reason::TopP => status == 400 && sets(self.body, "top_p"@) && mentions(
                error,
                "top_p"@,
            ),
            Reason::IncludeUsage => status == 400 && asks_usage(self.body) && mentions(
                error,
                "include_usage"@,
            ),
            Reason::StreamOptions => status == 400 && sets(self.body, "stream_options"@)
                && mentions(error, "stream_options"@),
            Reason::ParallelToolCalls => status == 400 && sets(self.body, "parallel_tool_calls"@)
                && mentions(error, "parallel_tool_calls"@),
            Reason::ToolChoice => {
                &&& self.effort == CanonicalEffort::Unspecified
                &&& members_in(member(self.body, "tool_choice"@)) is Some
                &&& if status == 400 {
                    mentions(error, "tool_choice"@) && mentions(error, "thinking mode"@)
                } else {
                    &&& status == 500 || status == 503
                    &&& bool_in(member(self.body, "stream"@)) == Some(true)
                    &&& mentions(error, "empty_stream"@) || mentions(
                        error,
                        "upstream stream closed before first payload"@,
                    )
                }
            },
            Reason::Effort => status == 400 && mentions(error, "reasoning_effort"@) && self.mode
                != WireMode::ProviderDefault,
            Reason::Thinking => status == 400 && self.mode == WireMode::ProviderDefault
                && self.body.contains_key("thinking"@) && mentions(error, "thinking"@),
        }
    }

    /// The request changed for a reason.
    pub open spec fn changed(self, reason: Reason) -> Attempt {
        let applied = self.applied.push(reason.label_text());
        match reason {
            Reason::TopP => Attempt {
                body: self.body.insert("top_p"@, Tree::Float("0.999"@)),
                applied,
                ..self
            },
            Reason::IncludeUsage => Attempt { body: without_usage(self.body), applied, ..self },
            Reason::StreamOptions => Attempt {
                body: self.body.remove("stream_options"@),
                applied,
                ..self
            },
            Reason::ParallelToolCalls => Attempt {
                body: self.body.remove("parallel_tool_calls"@),
                applied,
                ..self
            },
            Reason::ToolChoice => Attempt {
                body: self.body.remove("thinking"@).insert(
                    "reasoning_effort"@,
                    Tree::Str("none"@),
                ),
                effort: CanonicalEffort::Off,
                mode: WireMode::EffortOnly,
                applied,
            },
            Reason::Effort => Attempt {
                body: without_reasoning(self.body),
                mode: WireMode::ProviderDefault,
                applied,
                ..self
            },
            Reason::Thinking => Attempt { body: self.body.remove("thinking"@), applied, ..self },
        }
    }

    /// The first reason, in order of precedence, that an error is.
    pub open spec fn reason_for(self, error: Seq<char>, status: int) -> Option<Reason> {
        if self.calls_for(Reason::TopP, error, status) {
            Some(Reason::TopP)
        } else if self.calls_for(Reason::IncludeUsage, error, status) {
            Some(Reason::IncludeUsage)
        } else if self.calls_for(Reason::StreamOptions, error, status) {
            Some(Reason::StreamOptions)
        } else if self.calls_for(Reason::ParallelToolCalls, error, status) {
            Some(Reason::ParallelToolCalls)
        } else if self.calls_for(Reason::ToolChoice, error, status) {
            Some(Reason::ToolChoice)
        } else if self.calls_for(Reason::Effort, error, status) {
            Some(Reason::Effort)
        } else if self.calls_for(Reason::Thinking, error, status) {
            Some(Reason::Thinking)
        } else {
            None
        }
    }

    /// The next attempt after an error, if there is one.
    pub open spec fn retried(self, error: Seq<char>, status: int) -> Attempt {
        match self.reason_for(error, status) {
            Some(reason) => self.changed(reason),
            None => self,
        }
    }

    /// Whether every reason was applied at most once, and nothing else was.
    pub open spec fn sound(self) -> bool {
        &&& self.applied.no_duplicates()
        &&& forall|i: int|
            0 <= i < self.applied.len() ==> is_label(#[trigger] self.applied[i])
    }
}

/// Whether a text is the label of a reason.
pub open spec fn is_label(s: Seq<char>) -> bool {
    exists|reason: Reason| #[trigger] reason.label_text() == s
}

/// How often a request is changed at most.
pub const MAX_COMPAT_HOPS: usize = 7;

/// Whether an error mentions a text, in any letter case.
pub fn error_mentions(error: &str, needle: &str) -> (r: bool)
    ensures
        r == mentions(error@, needle@),
{
    has(lowered(error).as_str(), needle)
}

fn is_set(body: &Object, k: &str) -> (r: bool)
    ensures
        r == sets(body@, k@),
{
    match body.get(k) {
        Some(v) => !v.is_null(),
        None => false,
    }
}

fn usage_asked(body: &Object) -> (r: bool)
    ensures
        r == asks_usage(body@),
{
    match body.get("stream_options") {
        Some(Json::Object(o)) => match o.get("include_usage") {
            Some(v) => match v.as_bool() {
                Some(b) => b,
                None => false,
            },
            None => false,
        },
        _ => false,
    }
}

/// Whether a model is sent no reasoning parameters.
pub fn is_passthrough_model(model: &str) -> (r: bool)
    ensures
        r == (bucket_of(model@) == Bucket::Passthrough),
{
    match select_bucket(model) {
        Bucket::Passthrough => true,
        Bucket::Effort => false,
    }
}

/// The `reasoning_effort` text of an effort.
pub fn effort_wire_str(effort: CanonicalEffort) -> (r: &'static str)
    ensures
        r@ == effort.label(),
{
    effort.wire_str()
}

/// The effort that a body asks for.
pub fn infer_effort(body: &Object) -> (r: CanonicalEffort)
    ensures
        r == effort_in(body@),
{
    let explicit = normalize_canonical_effort(body.get_str("reasoning_effort"));
    if explicit != CanonicalEffort::Unspecified {
        return explicit;
    }
    if let Some(Json::Object(thinking)) = body.get("thinking") {
        if let Some(t) = thinking.get_str("type") {
            if same(t, "disabled") {
                return CanonicalEffort::Off;
            }
        }
    }
    CanonicalEffort::Unspecified
}

/// The first attempt of a freshly built body.
pub fn initial_state(body: Object) -> (r: ReasoningState)
    ensures
        r@ == first_attempt(body@),
{
    let canonical_effort = infer_effort(&body);
    let passthrough = match body.get_str("model") {
        Some(m) => is_passthrough_model(m),
        None => {
            proof {
                reveal_strlit("");
                assert(""@ =~= Seq::<char>::empty());
            }
            is_passthrough_model("")
        },
    };
    let mut body = body;
    body.remove("thinking");
    body.remove("reasoning_effort");
    let mut wire_mode = WireMode::ProviderDefault;
    if canonical_effort != CanonicalEffort::Unspecified && !passthrough {
        wire_mode = WireMode::EffortOnly;
        body.insert("reasoning_effort", Json::text(effort_wire_str(canonical_effort)));
    }
    let r = ReasoningState { body, canonical_effort, wire_mode, applied: Vec::new() };
    assert(r@.applied =~= Seq::<Seq<char>>::empty());
    r
}

impl ReasoningState {
    /// The body to send on the current attempt.
    pub fn body(&self) -> (r: &Object)
        ensures
            r@ == self@.body,
    {
        &self.body
    }

    fn is_done(&self, reason: Reason) -> (r: bool)
        ensures
            r == self@.done(reason),
    {
        let label = reason.label();
        let mut i: usize = 0;
        while i < self.applied.len()
            invariant
                i <= self.applied@.len(),
                label@ == reason.label_text(),
                forall|j: int| 0 <= j < i ==> #[trigger] self@.applied[j] != label@,
            decreases self.applied.len() - i,
        {
            assert(self@.applied[i as int] == self.applied@[i as int]@);
            if same(self.applied[i], label) {
                return true;
            }
            i += 1;
        }
        false
    }

    /// Whether an error is a reason to change the request.
    pub fn needs(&self, reason: Reason, error: &str, status: u16) -> (r: bool)
        ensures
            r == self@.calls_for(reason, error@, status as int),
    {
        if self.is_done(reason) {
            return false;
        }
        match reason {
            Reason::TopP => status == 400 && is_set(&self.body, "top_p") && error_mentions(
                error,
                "top_p",
            ),
            Reason::IncludeUsage => status == 400 && usage_asked(&self.body) && error_mentions(
                error,
                "include_usage",
            ),
            Reason::StreamOptions => status == 400 && is_set(&self.body, "stream_options")
                && error_mentions(error, "stream_options"),
            Reason::ParallelToolCalls => status == 400 && is_set(
                &self.body,
                "parallel_tool_calls",
            ) && error_mentions(error, "parallel_tool_calls"),
            Reason::ToolChoice => self.explicit_tool_choice_retry(error, status),
            Reason::Effort => status == 400 && error_mentions(error, "reasoning_effort")
                && self.wire_mode != WireMode::ProviderDefault,
            Reason::Thinking => status == 400 && self.wire_mode == WireMode::ProviderDefault
                && self.body.has("thinking") && error_mentions(error, "thinking"),
        }
    }

    fn explicit_tool_choice_retry(&self, error: &str, status: u16) -> (r: bool)
        requires
            !self@.done(Reason::ToolChoice),
        ensures
            r == self@.calls_for(Reason::ToolChoice, error@, status as int),
    {
        if self.canonical_effort != CanonicalEffort::Unspecified {
            return false;
        }
        let chosen = match self.body.get("tool_choice") {
            Some(v) => v.is_object(),
            None => false,
        };
        if !chosen {
            return false;
        }
        if status == 400 {
            return error_mentions(error, "tool_choice") && error_mentions(error, "thinking mode");
        }
        if status != 500 && status != 503 {
            return false;
        }
        let streamed = match self.body.get("stream") {
            Some(v) => match v.as_bool() {
                Some(b) => b,
                None => false,
            },
            None => false,
        };
        streamed && (error_mentions(error, "empty_stream") || error_mentions(
            error,
            "upstream stream closed before first payload",
        ))
    }

    /// Change the request for a reason.
    fn change(&mut self, reason: Reason)
        ensures
            final(self)@ == old(self)@.changed(reason),
    {
        match reason {
            Reason::TopP => self.body.insert("top_p", Json::Float(Decimal::almost_one())),
            Reason::IncludeUsage => {
                let mut options = match self.body.get("stream_options") {
                    Some(Json::Object(o)) => o.clone(),
                    _ => Object::new(),
                };
                options.insert("include_usage", Json::Bool(false));
                self.body.insert("stream_options", Json::Object(options));
            },
            Reason::StreamOptions => self.body.remove("stream_options"),
            Reason::ParallelToolCalls => self.body.remove("parallel_tool_calls"),
            Reason::ToolChoice => {
                self.body.remove("thinking");
                self.body.insert("reasoning_effort", Json::text("none"));
                self.canonical_effort = CanonicalEffort::Off;
                self.wire_mode = WireMode::EffortOnly;
            },
            Reason::Effort => {
                self.body.remove("thinking");
                self.body.remove("reasoning_effort");
                self.wire_mode = WireMode::ProviderDefault;
            },
            Reason::Thinking => self.body.remove("thinking"),
        }
        let label = reason.label();
        let ghost before = self.applied@;
        self.applied.push(label);
        assert(self@.applied =~= old(self)@.applied.push(reason.label_text()));
        assert(self@ =~= old(self)@.changed(reason));
    }
}

/// Change a request after an upstream error, and say for which reason, if there
/// is one. `status` is the upstream's status and `error` the text of its body.
pub fn next_retry(state: &mut ReasoningState, error: &str, status: u16) -> (r: Option<&'static str>)
    ensures
        final(state)@ == old(state)@.retried(error@, status as int),
        opt_text(r) == match old(state)@.reason_for(error@, status as int) {
            Some(reason) => Some(reason.label_text()),
            None => None,
        },
{
    let reason = if state.needs(Reason::TopP, error, status) {
        Reason::TopP
    } else if state.needs(Reason::IncludeUsage, error, status) {
        Reason::IncludeUsage
    } else if state.needs(Reason::StreamOptions, error, status) {
        Reason::StreamOptions
    } else if state.needs(Reason::ParallelToolCalls, error, status) {
        Reason::ParallelToolCalls
    } else if state.needs(Reason::ToolChoice, error, status) {
        Reason::ToolChoice
    } else if state.needs(Reason::Effort, error, status) {
        Reason::Effort
    } else if state.needs(Reason::Thinking, error, status) {
        Reason::Thinking
    } else {
        return None;
    };
    state.change(reason);
    Some(reason.label())
}

/// A first attempt has been changed for no reason yet.
pub proof fn first_attempts_are_sound(body: Map<Seq<char>, Tree>)
    ensures
        first_attempt(body).sound(),
        first_attempt(body).applied.len() == 0,
{
}

/// A request is never changed twice for the same reason: each retry applies one
/// that was not applied before, and the error that led to it does not lead to it
/// again.
pub proof fn retries_never_repeat(a: Attempt, error: Seq<char>, status: int)
    requires
        a.sound(),
    ensures
        a.retried(error, status).sound(),
        match a.reason_for(error, status) {
            Some(reason) => {
                &&& !a.done(reason)
                &&& a.retried(error, status).done(reason)
                &&& a.retried(error, status).applied.len() == a.applied.len() + 1
                &&& a.retried(error, status).reason_for(error, status) != Some(reason)
            },
            None => a.retried(error, status) == a,
        },
{
    if let Some(reason) = a.reason_for(error, status) {
        let next = a.changed(reason);
        let label = reason.label_text();
        assert(next.applied[a.applied.len() as int] == label);
        assert(next.done(reason));
        assert(!a.done(reason));
        assert(next.applied.no_duplicates()) by {
            assert forall|i: int, j: int|
                0 <= i < next.applied.len() && 0 <= j < next.applied.len() && i
                    != j implies next.applied[i] != next.applied[j] by {
                if i < a.applied.len() && j < a.applied.len() {
                } else if i < a.applied.len() {
                    assert(a.applied[i] != label);
                } else {
                    assert(a.applied[j] != label);
                }
            }
        }
        assert forall|i: int| 0 <= i < next.applied.len() implies is_label(
            #[trigger] next.applied[i],
        ) by {
            if i < a.applied.len() {
                assert(is_label(a.applied[i]));
            } else {
                assert(reason.label_text() == next.applied[i]);
            }
        }
    }
}

/// The labels of all reasons.
spec fn all_labels() -> Seq<Seq<char>> {
    seq![
        Reason::TopP.label_text(),
        Reason::IncludeUsage.label_text(),
        Reason::StreamOptions.label_text(),
        Reason::ParallelToolCalls.label_text(),
        Reason::ToolChoice.label_text(),
        Reason::Effort.label_text(),
        Reason::Thinking.label_text(),
    ]
}

/// However an upstream answers, a request is changed at most as often as there
/// are reasons.
pub proof fn retries_are_bounded(a: Attempt)
    requires
        a.sound(),
    ensures
        a.applied.len() <= MAX_COMPAT_HOPS,
{
    let labels = all_labels();
    a.applied.unique_seq_to_set();
    assert(a.applied.to_set().subset_of(labels.to_set())) by {
        assert forall|s: Seq<char>| a.applied.to_set().contains(s) implies labels.to_set().contains(
            s,
        ) by {
            let i = choose|i: int| 0 <= i < a.applied.len() && a.applied[i] == s;
            assert(is_label(a.applied[i]));
            let reason = choose|reason: Reason| #[trigger] reason.label_text() == s;
            let k: int = match reason {
                Reason::TopP => 0,
                Reason::IncludeUsage => 1,
                Reason::StreamOptions => 2,
                Reason::ParallelToolCalls => 3,
                Reason::ToolChoice => 4,
                Reason::Effort => 5,
                Reason::Thinking => 6,
            };
            assert(labels[k] == s);
        }
    }
    vstd::set_lib::lemma_len_subset(a.applied.to_set(), labels.to_set());
    vstd::seq_lib::seq_to_set_is_finite(labels);
    labels.lemma_cardinality_of_set();
}

} // verus!
