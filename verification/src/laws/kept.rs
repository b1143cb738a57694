//! What is kept of a turn, and what a later turn goes on from.
use vstd::prelude::*;
use crate::context::Registry;
use crate::json::Tree;
use crate::laws::answers::answers_with;
use crate::session_bridge::{assistant_of, past_of, record_of};
use crate::stream_responses_state::Stream;
use crate::stream_tools::{chat_calls, Call};
use crate::text::trim;

verus! {

/// What an answer says, what it calls and what it reasons is kept as one message of the
/// assistant; of an answer without any of it nothing is kept.
pub proof fn answers_are_kept_as_they_came(
    body: Tree,
    message: Map<Seq<char>, Tree>,
    text: Seq<char>,
    calls: Seq<Tree>,
    reasoning: Seq<char>,
)
    requires
        answers_with(body, message),
        !message.contains_key("role"@) || message["role"@] == Tree::Str("assistant"@),
        !message.contains_key("refusal"@),
        !message.contains_key("reasoning"@),
        text.len() > 0 ==> message.contains_key("content"@) && message["content"@] == Tree::Str(
            text,
        ),
        text.len() == 0 ==> !message.contains_key("content"@) || message["content"@] == Tree::Null,
        calls.len() > 0 ==> message.contains_key("tool_calls"@) && message["tool_calls"@]
            == Tree::Array(calls),
        calls.len() == 0 ==> !message.contains_key("tool_calls"@),
        trim(reasoning).len() > 0 ==> message.contains_key("reasoning_content"@)
            && message["reasoning_content"@] == Tree::Str(reasoning),
        trim(reasoning).len() == 0 ==> !message.contains_key("reasoning_content"@),
    ensures
        text.len() == 0 && calls.len() == 0 && trim(reasoning).len() == 0 <==> assistant_of(body)
            is None,
        assistant_of(body) matches Some(kept) ==> {
            &&& kept.at("role"@) == Some(Tree::Str("assistant"@))
            &&& kept.at("content"@) == Some(
                if text.len() > 0 {
                    Tree::Str(text)
                } else {
                    Tree::Null
                },
            )
            &&& kept.at("tool_calls"@) == if calls.len() > 0 {
                Some(Tree::Array(calls))
            } else {
                None
            }
            &&& kept.at("reasoning_content"@) == if trim(reasoning).len() > 0 {
                Some(Tree::Str(reasoning))
            } else {
                None
            }
        },
{
    reveal_strlit("role");
    reveal_strlit("content");
    reveal_strlit("tool_calls");
    reveal_strlit("reasoning_content");
    reveal_strlit("reasoning");
    reveal_strlit("refusal");
    reveal_strlit("message");
    reveal_strlit("choices");
    assert("role"@.len() == 4);
    assert("content"@.len() == 7);
    assert("tool_calls"@.len() == 10);
    assert("reasoning_content"@.len() == 17);
    assert("reasoning"@.len() == 9);
    assert("refusal"@.len() == 7);
    assert("message"@.len() == 7);
    assert("choices"@.len() == 7);
    assert("refusal"@[0] == 'r');
    assert("content"@[0] == 'c');
    assert("content"@[1] == 'o');
    assert("message"@[0] == 'm');
    assert("choices"@[0] == 'c');
    assert("choices"@[1] == 'h');
}

/// A refusal is kept as what the assistant said, and marked as one.
pub proof fn refusals_are_kept(body: Tree, message: Map<Seq<char>, Tree>, refusal: Seq<char>)
    requires
        answers_with(body, message),
        !message.contains_key("content"@),
        message.contains_key("refusal"@),
        message["refusal"@] == Tree::Str(refusal),
        refusal.len() > 0,
    ensures
        assistant_of(body) matches Some(kept) && kept.at("content"@) == Some(
            Tree::Str("[refusal]: "@ + refusal),
        ),
{
    reveal_strlit("role");
    reveal_strlit("content");
    reveal_strlit("tool_calls");
    reveal_strlit("reasoning_content");
    reveal_strlit("reasoning");
    reveal_strlit("refusal");
    assert("role"@.len() == 4);
    assert("content"@.len() == 7);
    assert("tool_calls"@.len() == 10);
    assert("reasoning_content"@.len() == 17);
    assert("reasoning"@.len() == 9);
    assert("refusal"@.len() == 7);
    assert("refusal"@[0] == 'r');
    assert("content"@[0] == 'c');
}

/// Whether an answer is kept is up to how it ended: one that was cut off is not kept, and
/// any other that holds a message is.
pub proof fn whole_answers_are_kept(
    body: Tree,
    message: Map<Seq<char>, Tree>,
    choices: Seq<Tree>,
    reason: Seq<char>,
)
    requires
        answers_with(body, message),
        body.at("choices"@) == Some(Tree::Array(choices)),
        choices[0].at("finish_reason"@) == Some(Tree::Str(reason)),
        assistant_of(body) is Some,
    ensures
        crate::service::is_kept(body) <==> reason != "length"@ && reason != "content_filter"@,
{
    reveal_strlit("length");
    reveal_strlit("content_filter");
    reveal_strlit("tool_calls");
    assert("length"@.len() == 6);
    assert("content_filter"@.len() == 14);
    assert("tool_calls"@.len() == 10);
}

/// Whether a message asks for a call.
pub open spec fn asks_for(m: Tree, call: Call) -> bool {
    &&& m.at("tool_calls"@) matches Some(Tree::Array(calls))
    &&& one_is_chat_form(calls, call)
}

/// Whether one of some Chat tool calls is that of a streamed call.
pub open spec fn one_is_chat_form(calls: Seq<Tree>, call: Call) -> bool {
    exists|i: int| 0 <= i < calls.len() && is_chat_form(#[trigger] calls[i], call)
}

/// Whether a Chat tool call is that of a streamed call.
pub open spec fn is_chat_form(t: Tree, call: Call) -> bool {
    &&& t.at("id"@) == Some(Tree::Str(call.call_id))
    &&& t.at("type"@) == Some(Tree::Str("function"@))
    &&& t.at("function"@) matches Some(f)
    &&& f.at("name"@) == Some(Tree::Str(call.name))
    &&& f.at("arguments"@) == Some(Tree::Str(crate::sanitize::sanitized(call.arguments)))
}

proof fn lemma_chat_calls(calls: Seq<(int, Call)>, k: int)
    requires
        0 <= k < calls.len(),
        calls[k].1.name.len() > 0,
        calls[k].1.call_id.len() > 0,
    ensures
        exists|i: int|
            0 <= i < chat_calls(calls).len() && is_chat_form(
                #[trigger] chat_calls(calls)[i],
                calls[k].1,
            ),
    decreases calls.len(),
{
    reveal_strlit("id");
    reveal_strlit("type");
    reveal_strlit("function");
    reveal_strlit("name");
    reveal_strlit("arguments");
    assert("id"@.len() == 2);
    assert("type"@.len() == 4);
    assert("function"@.len() == 8);
    assert("name"@.len() == 4);
    assert("arguments"@.len() == 9);
    assert("name"@[0] == 'n');
    assert("type"@[0] == 't');
    let front = calls.drop_last();
    if k < front.len() {
        lemma_chat_calls(front, k);
        let i = choose|i: int|
            0 <= i < chat_calls(front).len() && is_chat_form(
                #[trigger] chat_calls(front)[i],
                front[k].1,
            );
        assert(chat_calls(calls)[i] == chat_calls(front)[i]);
    } else {
        let last = chat_calls(calls).len() - 1;
        assert(is_chat_form(chat_calls(calls)[last], calls[k].1));
    }
}

/// Every named call of a streamed turn is kept, with its id, its name and its arguments, and
/// so is what the turn reasoned.
pub proof fn streamed_turns_are_kept(s: Stream, k: int)
    requires
        0 <= k < s.tools.calls.len(),
        s.tools.calls[k].1.name.len() > 0,
        s.tools.calls[k].1.call_id.len() > 0,
    ensures
        s.assistant_message() matches Some(m) && m.at("role"@) == Some(Tree::Str("assistant"@))
            && asks_for(m, s.tools.calls[k].1) && (trim(
            crate::sanitize::sanitized(s.reasoning.text),
        ).len() > 0 ==> m.at("reasoning_content"@) == Some(
            Tree::Str(trim(crate::sanitize::sanitized(s.reasoning.text))),
        )),
{
    reveal_strlit("role");
    reveal_strlit("content");
    reveal_strlit("tool_calls");
    reveal_strlit("reasoning_content");
    assert("role"@.len() == 4);
    assert("content"@.len() == 7);
    assert("tool_calls"@.len() == 10);
    assert("reasoning_content"@.len() == 17);
    lemma_chat_calls(s.tools.calls, k);
    let calls = chat_calls(s.tools.calls);
    assert(one_is_chat_form(calls, s.tools.calls[k].1));
    let m = s.assistant_message()->0;
    assert(m.at("tool_calls"@) == Some(Tree::Array(calls)));
    assert(asks_for(m, s.tools.calls[k].1));
}

/// A turn goes on from all that was said before it: the messages that were sent, then the
/// answer, each as it was but for reasoning that is put back where it is missing. The tools
/// and the model are those of the earlier turn too.
pub proof fn turns_go_on_from_what_was_said(
    messages: Seq<Tree>,
    registry: Registry,
    model: Seq<char>,
    answer: Tree,
    own: Registry,
    name: Seq<char>,
)
    requires
        name != "reasoning_content"@,
    ensures
        ({
            let past = past_of(record_of(messages, registry, model, Some(answer)), own).messages;
            &&& past.len() == messages.len() + 1
            &&& forall|i: int|
                0 <= i < messages.len() ==> (#[trigger] past[i]).at(name) == messages[i].at(name)
            &&& past[messages.len() as int].at(name) == answer.at(name)
            &&& past_of(record_of(messages, registry, model, Some(answer)), own).model == model
        }),
{
    let all = messages.push(answer);
    assert forall|i: int| 0 <= i < messages.len() implies all[i] == messages[i] by {}
    assert(all[messages.len() as int] == answer);
}

/// A request names the turn that it goes on from by an id that is not empty.
pub proof fn requests_name_their_turn(payload: crate::types::ResponsesRequest)
    ensures
        payload.previous_response_id is None ==> crate::session_bridge::previous_id(payload)
            is None,
        payload.previous_response_id matches Some(id) ==> (if id@.len() == 0 {
            crate::session_bridge::previous_id(payload) is None
        } else {
            crate::session_bridge::previous_id(payload) == Some(id@)
        }),
{
}

/// The bridge is open to all where it has no keys. Where it has some, a path of the API is
/// open to those who bring one of them as a bearer token, and to no one else.
pub proof fn keys_open_the_api(keys: Seq<Seq<char>>, rest: Seq<char>, key: Seq<char>)
    ensures
        ({
            let path = "/v1/"@ + rest;
            &&& crate::middleware::may_pass(Seq::empty(), path, None)
            &&& keys.len() > 0 ==> !crate::middleware::may_pass(keys, path, None)
            &&& keys.len() > 0 ==> (crate::middleware::may_pass(
                keys,
                path,
                Some("Bearer "@ + key),
            ) <==> exists|i: int| 0 <= i < keys.len() && #[trigger] keys[i] == key)
            &&& keys.len() > 0 && crate::middleware::may_pass(keys, path, Some(key)) ==> key.len()
                >= 7 && key.take(7) == "Bearer "@
        }),
{
    reveal_strlit("Bearer ");
    reveal_strlit("/v1/");
    let path = "/v1/"@ + rest;
    let header = "Bearer "@ + key;
    assert(header.take(7) =~= "Bearer "@);
    assert(header.skip(7) =~= key);
    assert(path.take(4) =~= "/v1/"@);
    assert(header.subrange(0, 7) =~= "Bearer "@);
    assert(path.subrange(0, 4) =~= "/v1/"@);
    if crate::text::begins(key, "Bearer "@) {
        assert(key.take(7) =~= "Bearer "@);
    }
}

/// What a refused request is answered: a status, and an error with a message, a kind and a
/// code that tell what was wrong.
pub proof fn errors_tell_what_was_wrong(e: crate::error::BridgeError)
    ensures
        ({
            let told = e.body().at("error"@);
            let is = |kind: Seq<char>, code: Seq<char>, message: Seq<char>|
                {
                    &&& told matches Some(t)
                    &&& t.at("type"@) == Some(Tree::Str(kind))
                    &&& t.at("code"@) == Some(Tree::Str(code))
                    &&& t.at("message"@) == Some(Tree::Str(message))
                };
            match e {
                crate::error::BridgeError::InvalidRequest { message, code, .. } => {
                    &&& e.status_code() == 400
                    &&& is("invalid_request_error"@, code@, message@)
                },
                crate::error::BridgeError::UnsupportedInputItem { message, item_type } => {
                    &&& e.status_code() == 400
                    &&& is("invalid_request_error"@, "unsupported_input_item"@, message@)
                    &&& told->0.at("item_type"@) == Some(Tree::Str(item_type@))
                },
                crate::error::BridgeError::Upstream { status, message, code, .. } => {
                    &&& e.status_code() == status
                    &&& is("upstream_error"@, code@, message@)
                },
                crate::error::BridgeError::Stream { message, code } => {
                    &&& e.status_code() == 500
                    &&& is("stream_error"@, code@, message@)
                },
                crate::error::BridgeError::SessionNotFound { message } => {
                    &&& e.status_code() == 404
                    &&& is("invalid_request_error"@, "previous_response_not_found"@, message@)
                },
                crate::error::BridgeError::RequestBodyTooLarge { message } => {
                    &&& e.status_code() == 413
                    &&& is("invalid_request_error"@, "request_too_large"@, message@)
                },
                crate::error::BridgeError::Overloaded { message } => {
                    &&& e.status_code() == 503
                    &&& is("overloaded_error"@, "bridge_overloaded"@, message@)
                },
                crate::error::BridgeError::Unauthorized { message } => {
                    &&& e.status_code() == 401
                    &&& is("authentication_error"@, "invalid_api_key"@, message@)
                },
            }
        }),
{
    reveal_strlit("error");
    reveal_strlit("message");
    reveal_strlit("type");
    reveal_strlit("code");
    reveal_strlit("item_type");
    reveal_strlit("detail");
    assert("error"@.len() == 5);
    assert("message"@.len() == 7);
    assert("type"@.len() == 4);
    assert("code"@.len() == 4);
    assert("item_type"@.len() == 9);
    assert("detail"@.len() == 6);
    assert("code"@[0] == 'c');
    assert("type"@[0] == 't');
}

} // verus!
