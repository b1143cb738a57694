//! What goes upstream, and what is done when upstream fails.
//!
//! A request that upstream rejects is changed and sent again, as long as there is a
//! reason to; one that upstream could not serve for the moment is sent again as it
//! is, as often as the settings allow.
use vstd::prelude::*;
use crate::compat::{
    first_attempt, initial_state, next_retry, Attempt, ReasoningState, MAX_COMPAT_HOPS,
};
use crate::error::{upstream_status, BridgeError};
use crate::json::{member, members_in, opt_value, parsed, text_at, Json, Object, Tree};
use crate::reasoning::is_blank;
use crate::text::{cat, decimal_digits, decimal_text, trim};

verus! {

/// Whether a status means that upstream could not serve the request for the moment.
pub open spec fn is_passing(status: int) -> bool {
    status == 429 || status >= 500
}

/// What to do after a failure.
#[derive(Debug, Clone, Copy, PartialEq, Eq, Structural)]
pub enum NextStep {
    /// Send the request again, which was changed.
    SendChanged,
    /// Wait, and send the request again as it is.
    SendAgain,
    /// Give up.
    GiveUp,
}

/// A request on its way upstream.
#[derive(Debug)]
pub struct Delivery {
    pub state: ReasoningState,
    hops: usize,
    retries: u32,
    max_retries: u32,
}

/// The model of a request on its way upstream: as it is sent, how often it was changed
/// and how often it was sent again as it was, and how often that may happen.
#[verifier::ext_equal]
pub ghost struct Journey {
    pub attempt: Attempt,
    pub hops: int,
    pub retries: int,
    pub max_retries: int,
}

impl View for Delivery {
    type V = Journey;

    closed spec fn view(&self) -> Journey {
        Journey {
            attempt: self.state@,
            hops: self.hops as int,
            retries: self.retries as int,
            max_retries: self.max_retries as int,
        }
    }
}

impl Journey {
    /// A request that is sent for the first time.
    pub open spec fn begin(body: Map<Seq<char>, Tree>, max_retries: int) -> Journey {
        Journey { attempt: first_attempt(body), hops: 0, retries: 0, max_retries }
    }

    /// What happens after upstream answered with an error.
    pub open spec fn rejected(self, error: Seq<char>, status: int) -> (Journey, NextStep) {
        if self.hops < MAX_COMPAT_HOPS && self.attempt.reason_for(error, status) is Some {
            (
                Journey {
                    attempt: self.attempt.retried(error, status),
                    hops: self.hops + 1,
                    ..self
                },
                NextStep::SendChanged,
            )
        } else if is_passing(status) {
            self.unreachable()
        } else {
            (self, NextStep::GiveUp)
        }
    }

    /// What happens after upstream could not be reached.
    pub open spec fn unreachable(self) -> (Journey, NextStep) {
        if self.retries < self.max_retries {
            (Journey { retries: self.retries + 1, ..self }, NextStep::SendAgain)
        } else {
            (self, NextStep::GiveUp)
        }
    }

    /// How often the request may still be sent.
    pub open spec fn budget(self) -> int {
        (MAX_COMPAT_HOPS - self.hops) + (self.max_retries - self.retries)
    }

    /// Whether the counts are within their limits.
    pub open spec fn within(self) -> bool {
        0 <= self.hops <= MAX_COMPAT_HOPS && 0 <= self.retries <= self.max_retries
    }
}

impl Delivery {
    /// A request that is sent for the first time.
    pub fn new(body: Object, max_retries: u32) -> (r: Delivery)
        ensures
            r@ == Journey::begin(body@, max_retries as int),
    {
        Delivery { state: initial_state(body), hops: 0, retries: 0, max_retries }
    }

    /// The body to send.
    pub fn body(&self) -> (r: &Object)
        ensures
            r@ == self@.attempt.body,
    {
        self.state.body()
    }

    /// Decide what to do after upstream answered with an error.
    pub fn after_rejection(&mut self, error: &str, status: u16) -> (r: NextStep)
        ensures
            (final(self)@, r) == old(self)@.rejected(error@, status as int),
    {
        if self.hops < MAX_COMPAT_HOPS {
            let changed = next_retry(&mut self.state, error, status).is_some();
            if changed {
                self.hops += 1;
                return NextStep::SendChanged;
            }
            assert(self@ == old(self)@);
        }
        if status == 429 || status >= 500 {
            self.after_fault()
        } else {
            NextStep::GiveUp
        }
    }

    /// Decide what to do after upstream could not be reached.
    pub fn after_fault(&mut self) -> (r: NextStep)
        ensures
            (final(self)@, r) == old(self)@.unreachable(),
    {
        if self.retries < self.max_retries {
            self.retries += 1;
            NextStep::SendAgain
        } else {
            NextStep::GiveUp
        }
    }
}

/// A request is sent only so often: each time that it is sent again, there is one time
/// less left.
pub proof fn deliveries_end(j: Journey, error: Seq<char>, status: int)
    requires
        j.within(),
    ensures
        j.rejected(error, status).0.within(),
        j.unreachable().0.within(),
        j.rejected(error, status).1 != NextStep::GiveUp ==> 0 <= j.rejected(
            error,
            status,
        ).0.budget() < j.budget(),
        j.unreachable().1 != NextStep::GiveUp ==> 0 <= j.unreachable().0.budget() < j.budget(),
{
}

/// The body that asks for a whole answer rather than a stream.
pub fn unstreamed(body: Object) -> (r: Object)
    ensures
        r@ == body@.remove("stream_options"@).insert("stream"@, Tree::Bool(false)),
{
    let mut out = body;
    out.remove("stream_options");
    out.with("stream", Json::Bool(false))
}

/// A body that is relayed as it is.
#[derive(Debug)]
pub struct Relay {
    body: Object,
    retries: u32,
    max_retries: u32,
}

/// The model of a body that is relayed: how often it was sent again, and how often that
/// may happen.
#[verifier::ext_equal]
pub ghost struct Passage {
    pub body: Map<Seq<char>, Tree>,
    pub retries: int,
    pub max_retries: int,
}

impl View for Relay {
    type V = Passage;

    closed spec fn view(&self) -> Passage {
        Passage {
            body: self.body@,
            retries: self.retries as int,
            max_retries: self.max_retries as int,
        }
    }
}

impl Passage {
    /// What happens after upstream answered with a status: the body is sent again where
    /// upstream could not serve it for the moment; any other answer is passed on.
    pub open spec fn answered(self, status: int) -> (Passage, NextStep) {
        if is_passing(status) {
            self.unreachable()
        } else {
            (self, NextStep::GiveUp)
        }
    }

    /// What happens after upstream could not be reached.
    pub open spec fn unreachable(self) -> (Passage, NextStep) {
        if self.retries < self.max_retries {
            (Passage { retries: self.retries + 1, ..self }, NextStep::SendAgain)
        } else {
            (self, NextStep::GiveUp)
        }
    }
}

impl Relay {
    /// A body that is relayed for the first time.
    pub fn new(body: Object, max_retries: u32) -> (r: Relay)
        ensures
            r@ == (Passage { body: body@, retries: 0, max_retries: max_retries as int }),
    {
        Relay { body, retries: 0, max_retries }
    }

    /// The body to send.
    pub fn body(&self) -> (r: &Object)
        ensures
            r@ == self@.body,
    {
        &self.body
    }

    /// Decide what to do after upstream answered with a status.
    pub fn after_answer(&mut self, status: u16) -> (r: NextStep)
        ensures
            (final(self)@, r) == old(self)@.answered(status as int),
    {
        if status == 429 || status >= 500 {
            self.after_fault()
        } else {
            NextStep::GiveUp
        }
    }

    /// Decide what to do after upstream could not be reached.
    pub fn after_fault(&mut self) -> (r: NextStep)
        ensures
            (final(self)@, r) == old(self)@.unreachable(),
    {
        if self.retries < self.max_retries {
            self.retries += 1;
            NextStep::SendAgain
        } else {
            NextStep::GiveUp
        }
    }
}

/// A relayed body is never changed, and it is sent only so often.
pub proof fn relayed_bodies_stay_as_they_are(p: Passage, status: int)
    requires
        0 <= p.retries <= p.max_retries,
    ensures
        p.answered(status).0.body == p.body,
        p.unreachable().0.body == p.body,
        p.answered(status).1 != NextStep::SendChanged,
        p.unreachable().1 != NextStep::SendChanged,
        p.answered(status).1 == NextStep::SendAgain ==> p.retries < p.answered(
            status,
        ).0.retries <= p.max_retries,
        p.unreachable().1 == NextStep::SendAgain ==> p.retries < p.unreachable().0.retries
            <= p.max_retries,
{
}

/// The message that an upstream error carries.
pub open spec fn error_message(denoted: Option<Tree>) -> Option<Seq<char>> {
    match members_in(denoted) {
        Some(m) => match members_in(member(m, "error"@)) {
            Some(e) => text_at(e, "message"@),
            None => None,
        },
        None => None,
    }
}

/// What is said of an upstream error: its own message, or else its status.
pub open spec fn failure_message(status: int, denoted: Option<Tree>) -> Seq<char> {
    match error_message(denoted) {
        Some(m) => m,
        None => "Upstream returned status "@ + decimal_digits(status as nat),
    }
}

/// The error that is answered where upstream answered with an error, by what its text
/// denotes.
pub fn failure_from(status: u16, denoted: Option<Json>) -> (r: BridgeError)
    ensures
        r matches BridgeError::Upstream { message, code, status: s, detail } && message@
            == failure_message(status as int, opt_value(denoted)) && code@
            == "upstream_request_failed"@ && s == upstream_status(status as int) && opt_value(
            detail,
        ) == opt_value(denoted),
{
    let own = match &denoted {
        Some(Json::Object(m)) => match m.get("error") {
            Some(Json::Object(e)) => match e.get_str("message") {
                Some(s) => Some(s.to_owned()),
                None => None,
            },
            _ => None,
        },
        _ => None,
    };
    let message = match own {
        Some(s) => s,
        None => cat("Upstream returned status ", decimal_text(status as u64).as_str()),
    };
    BridgeError::upstream_with_status(
        message.as_str(),
        "upstream_request_failed",
        status,
        denoted,
    )
}

/// The error that is answered where upstream answered with an error.
pub fn upstream_failure(status: u16, body: &str) -> (r: BridgeError)
    ensures
        r matches BridgeError::Upstream { message, code, status: s, detail } && message@
            == failure_message(status as int, parsed(body@)) && code@
            == "upstream_request_failed"@ && s == upstream_status(status as int) && opt_value(
            detail,
        ) == parsed(body@),
{
    failure_from(status, Json::parse(body))
}

/// Whether a body can be relayed: it is an object that names a model.
pub open spec fn can_be_relayed(denoted: Option<Tree>) -> bool {
    match members_in(denoted) {
        Some(m) => match text_at(m, "model"@) {
            Some(s) => trim(s).len() > 0,
            None => false,
        },
        None => false,
    }
}

/// How a body that cannot be relayed is refused.
pub open spec fn refuses_relay(e: BridgeError, denoted: Option<Tree>) -> bool {
    if members_in(denoted) is Some {
        e.refuses("Chat completion request is missing required field: model."@, "missing_model"@)
    } else {
        e.refuses("Request body must be a JSON object."@, "invalid_json"@)
    }
}

/// The body to relay, by what its text denotes, or why it is refused.
pub fn relay_from(denoted: Option<Json>) -> (r: Result<Object, BridgeError>)
    ensures
        match r {
            Ok(m) => can_be_relayed(opt_value(denoted)) && opt_value(denoted) == Some(
                Tree::Object(m@),
            ),
            Err(e) => !can_be_relayed(opt_value(denoted)) && refuses_relay(e, opt_value(denoted)),
        },
{
    match denoted {
        Some(Json::Object(m)) => {
            let named = match m.get_str("model") {
                Some(s) => !is_blank(s),
                None => false,
            };
            if named {
                Ok(m)
            } else {
                Err(
                    BridgeError::invalid_request(
                        "Chat completion request is missing required field: model.",
                        "missing_model",
                    ),
                )
            }
        },
        _ => Err(
            BridgeError::invalid_request("Request body must be a JSON object.", "invalid_json"),
        ),
    }
}

/// The body to relay, or why it is refused.
pub fn validate_relay_body(body: &str) -> (r: Result<Object, BridgeError>)
    ensures
        match r {
            Ok(m) => can_be_relayed(parsed(body@)) && parsed(body@) == Some(Tree::Object(m@)),
            Err(e) => !can_be_relayed(parsed(body@)) && refuses_relay(e, parsed(body@)),
        },
{
    relay_from(Json::parse(body))
}

/// The models of an upstream catalogue: its `data`, where that is an array.
pub open spec fn models_of(catalogue: Tree) -> Seq<Tree> {
    match crate::json::items_in(catalogue.at("data"@)) {
        Some(items) => items,
        None => Seq::empty(),
    }
}

/// The models of an upstream catalogue as a list of the bridge.
pub fn model_list(catalogue: &Json) -> (r: Json)
    ensures
        r@ == Tree::Object(
            Map::empty().insert("object"@, Tree::Str("list"@)).insert(
                "data"@,
                Tree::Array(models_of(catalogue@)),
            ),
        ),
{
    let data = match catalogue.get_array("data") {
        Some(items) => crate::json::clone_values(items),
        None => {
            let none: Vec<Json> = Vec::new();
            assert(crate::json::trees(none@) =~= Seq::empty());
            none
        },
    };
    Json::Object(Object::new().with("object", Json::text("list")).with("data", Json::Array(data)))
}

} // verus!
