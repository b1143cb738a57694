//! Request envelopes.
use vstd::prelude::*;
use crate::convert::semantics::name_texts;
use crate::json::{int_in, member, opt_int, opt_value, text_in, Json, Object, Tree};
use crate::text::opt_string;

verus! {

/// An inbound Responses request. Only the fields that the bridge inspects are
/// named; all others are kept in `extra`.
#[derive(Debug)]
pub struct ResponsesRequest {
    pub model: Option<String>,
    pub previous_response_id: Option<String>,
    pub input: Option<Json>,
    pub instructions: Option<Json>,
    pub stream: bool,
    pub stream_options: Option<Json>,
    pub tools: Option<Json>,
    pub tool_choice: Option<Json>,
    pub text: Option<Json>,
    pub response_format: Option<Json>,
    pub reasoning: Option<Json>,
    pub max_output_tokens: Option<i64>,
    pub temperature: Option<Json>,
    pub top_p: Option<Json>,
    pub n: Option<i64>,
    pub extra: Object,
}

/// The body of an outbound Chat Completions request.
#[derive(Debug)]
pub struct ChatRequest {
    pub body: Object,
}

/// The member `k` of a body, where it is there and not null.
pub open spec fn given(m: Map<Seq<char>, Tree>, k: Seq<char>) -> Option<Tree> {
    match member(m, k) {
        Some(Tree::Null) => None,
        other => other,
    }
}

/// The fields of a request that have a name of their own.
pub open spec fn named_fields() -> Seq<Seq<char>> {
    seq![
        "model"@,
        "previous_response_id"@,
        "input"@,
        "instructions"@,
        "stream"@,
        "stream_options"@,
        "tools"@,
        "tool_choice"@,
        "text"@,
        "response_format"@,
        "reasoning"@,
        "max_output_tokens"@,
        "temperature"@,
        "top_p"@,
        "n"@,
    ]
}

/// The members without those that are named.
pub open spec fn without(m: Map<Seq<char>, Tree>, names: Seq<Seq<char>>) -> Map<Seq<char>, Tree>
    decreases names.len(),
{
    if names.len() == 0 {
        m
    } else {
        without(m, names.drop_last()).remove(names.last())
    }
}

/// Whether a member is missing, null, or a text.
pub open spec fn text_or_none(o: Option<Tree>) -> bool {
    o is None || o->0 is Str
}

/// Whether a member is missing, null, or an integer of 64 bits.
pub open spec fn integer_or_none(o: Option<Tree>) -> bool {
    o is None || int_in(o) is Some
}

/// Whether a body is a request: its named fields have the types that they need.
pub open spec fn is_request(m: Map<Seq<char>, Tree>) -> bool {
    &&& text_or_none(given(m, "model"@))
    &&& text_or_none(given(m, "previous_response_id"@))
    &&& integer_or_none(given(m, "max_output_tokens"@))
    &&& integer_or_none(given(m, "n"@))
    &&& match member(m, "stream"@) {
        Some(v) => v is Bool,
        None => true,
    }
}

/// Whether a request holds what a body says.
pub open spec fn holds(req: ResponsesRequest, m: Map<Seq<char>, Tree>) -> bool {
    &&& opt_string(req.model) == text_in(given(m, "model"@))
    &&& opt_string(req.previous_response_id) == text_in(given(m, "previous_response_id"@))
    &&& opt_value(req.input) == given(m, "input"@)
    &&& opt_value(req.instructions) == given(m, "instructions"@)
    &&& req.stream == (member(m, "stream"@) == Some(Tree::Bool(true)))
    &&& opt_value(req.stream_options) == given(m, "stream_options"@)
    &&& opt_value(req.tools) == given(m, "tools"@)
    &&& opt_value(req.tool_choice) == given(m, "tool_choice"@)
    &&& opt_value(req.text) == given(m, "text"@)
    &&& opt_value(req.response_format) == given(m, "response_format"@)
    &&& opt_value(req.reasoning) == given(m, "reasoning"@)
    &&& opt_int(req.max_output_tokens) == int_in(given(m, "max_output_tokens"@))
    &&& opt_value(req.temperature) == given(m, "temperature"@)
    &&& opt_value(req.top_p) == given(m, "top_p"@)
    &&& opt_int(req.n) == int_in(given(m, "n"@))
    &&& req.extra@ == without(m, named_fields())
}

/// The members with `k` set, where there is a value.
pub open spec fn echoed(m: Map<Seq<char>, Tree>, k: Seq<char>, v: Option<Tree>) -> Map<
    Seq<char>,
    Tree,
> {
    match v {
        Some(t) => m.insert(k, t),
        None => m,
    }
}

/// The fields of a request that its response echoes.
pub open spec fn echo_map(req: ResponsesRequest) -> Map<Seq<char>, Tree> {
    let m = Map::empty();
    let m = echoed(m, "instructions"@, opt_value(req.instructions));
    let m = echoed(
        m,
        "max_output_tokens"@,
        match req.max_output_tokens {
            Some(n) => Some(Tree::Int(n as int)),
            None => None,
        },
    );
    let m = echoed(m, "tools"@, opt_value(req.tools));
    let m = echoed(m, "tool_choice"@, opt_value(req.tool_choice));
    let m = echoed(m, "reasoning"@, opt_value(req.reasoning));
    let m = echoed(m, "temperature"@, opt_value(req.temperature));
    let m = echoed(m, "top_p"@, opt_value(req.top_p));
    let m = echoed(
        m,
        "previous_response_id"@,
        match req.previous_response_id {
            Some(s) => Some(Tree::Str(s@)),
            None => None,
        },
    );
    let m = echoed(m, "parallel_tool_calls"@, member(req.extra@, "parallel_tool_calls"@));
    echoed(m, "metadata"@, member(req.extra@, "metadata"@))
}

fn echo(m: &mut Object, k: &str, v: Option<&Json>)
    ensures
        final(m)@ == echoed(old(m)@, k@, crate::json::opt_tree(v)),
{
    if let Some(t) = v {
        m.insert(k, t.clone());
    }
}

fn given_value(m: &Object, k: &str) -> (r: Option<Json>)
    ensures
        opt_value(r) == given(m@, k@),
{
    match m.get(k) {
        Some(v) => {
            if v.is_null() {
                None
            } else {
                Some(v.clone())
            }
        },
        None => None,
    }
}

fn given_text(m: &Object, k: &str) -> (r: Result<Option<String>, ()>)
    ensures
        match r {
            Ok(o) => text_or_none(given(m@, k@)) && opt_string(o) == text_in(given(m@, k@)),
            Err(_) => !text_or_none(given(m@, k@)),
        },
{
    match m.get(k) {
        None | Some(Json::Null) => Ok(None),
        Some(Json::Str(s)) => Ok(Some(s.clone())),
        Some(_) => Err(()),
    }
}

fn given_integer(m: &Object, k: &str) -> (r: Result<Option<i64>, ()>)
    ensures
        match r {
            Ok(o) => integer_or_none(given(m@, k@)) && opt_int(o) == int_in(given(m@, k@)),
            Err(_) => !integer_or_none(given(m@, k@)),
        },
{
    match m.get(k) {
        None => Ok(None),
        Some(v) => {
            if v.is_null() {
                Ok(None)
            } else {
                match v.as_i64() {
                    Some(n) => Ok(Some(n)),
                    None => Err(()),
                }
            }
        },
    }
}

fn without_named(m: &Object) -> (r: Object)
    ensures
        r@ == without(m@, named_fields()),
{
    let names: Vec<&'static str> = vec![
        "model",
        "previous_response_id",
        "input",
        "instructions",
        "stream",
        "stream_options",
        "tools",
        "tool_choice",
        "text",
        "response_format",
        "reasoning",
        "max_output_tokens",
        "temperature",
        "top_p",
        "n",
    ];
    let ghost all = name_texts(names@);
    assert(all =~= named_fields());
    let mut out = m.clone();
    let mut i: usize = 0;
    assert(all.take(0) =~= Seq::empty());
    while i < names.len()
        invariant
            i <= names@.len(),
            all == name_texts(names@),
            out@ == without(m@, all.take(i as int)),
        decreases names.len() - i,
    {
        assert(all.take(i as int + 1).drop_last() =~= all.take(i as int));
        assert(all.take(i as int + 1).last() == names@[i as int]@);
        out.remove(names[i]);
        i += 1;
    }
    assert(all.take(i as int) =~= all);
    out
}

impl ResponsesRequest {
    /// The request that a body says, or nothing where a named field has a type that
    /// it cannot have. Null counts as missing.
    pub fn from_object(m: &Object) -> (r: Option<ResponsesRequest>)
        ensures
            match r {
                Some(req) => is_request(m@) && holds(req, m@),
                None => !is_request(m@),
            },
    {
        let stream = match m.get("stream") {
            None => false,
            Some(Json::Bool(b)) => *b,
            Some(_) => {
                return None;
            },
        };
        match (
            given_text(m, "model"),
            given_text(m, "previous_response_id"),
            given_integer(m, "max_output_tokens"),
            given_integer(m, "n"),
        ) {
            (Ok(model), Ok(previous_response_id), Ok(max_output_tokens), Ok(n)) => Some(
                ResponsesRequest {
                    model,
                    previous_response_id,
                    input: given_value(m, "input"),
                    instructions: given_value(m, "instructions"),
                    stream,
                    stream_options: given_value(m, "stream_options"),
                    tools: given_value(m, "tools"),
                    tool_choice: given_value(m, "tool_choice"),
                    text: given_value(m, "text"),
                    response_format: given_value(m, "response_format"),
                    reasoning: given_value(m, "reasoning"),
                    max_output_tokens,
                    temperature: given_value(m, "temperature"),
                    top_p: given_value(m, "top_p"),
                    n,
                    extra: without_named(m),
                },
            ),
            _ => None,
        }
    }

    /// The fields of the request that its response echoes: those that it has.
    pub fn to_echo_map(&self) -> (r: Object)
        ensures
            r@ == echo_map(*self),
    {
        let mut m = Object::new();
        echo(&mut m, "instructions", self.instructions.as_ref());
        if let Some(n) = self.max_output_tokens {
            m.insert("max_output_tokens", Json::integer(n));
        }
        echo(&mut m, "tools", self.tools.as_ref());
        echo(&mut m, "tool_choice", self.tool_choice.as_ref());
        echo(&mut m, "reasoning", self.reasoning.as_ref());
        echo(&mut m, "temperature", self.temperature.as_ref());
        echo(&mut m, "top_p", self.top_p.as_ref());
        if let Some(s) = &self.previous_response_id {
            m.insert("previous_response_id", Json::text(s.as_str()));
        }
        echo(&mut m, "parallel_tool_calls", self.extra.get("parallel_tool_calls"));
        echo(&mut m, "metadata", self.extra.get("metadata"));
        m
    }
}

/// Only fields that a response echoes are kept of a request.
pub proof fn echo_maps_hold_echo_fields(req: ResponsesRequest)
    ensures
        forall|k: Seq<char>| #[trigger]
            echo_map(req).contains_key(k) ==> crate::text::listed(
                crate::convert::semantics::request_echo_fields(),
                k,
            ),
{
    let f = crate::convert::semantics::request_echo_fields();
    assert(f[0] == "instructions"@);
    assert(f[1] == "max_output_tokens"@);
    assert(f[2] == "parallel_tool_calls"@);
    assert(f[3] == "previous_response_id"@);
    assert(f[4] == "reasoning"@);
    assert(f[5] == "temperature"@);
    assert(f[6] == "tool_choice"@);
    assert(f[7] == "tools"@);
    assert(f[8] == "top_p"@);
    assert(f[9] == "metadata"@);
}

} // verus!
