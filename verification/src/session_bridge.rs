//! Continuing earlier responses.
use vstd::prelude::*;
use crate::config::UnsupportedToolPolicy;
use crate::context::{build_tool_context_from_request, BridgeToolContext, Registry};
use crate::convert::message_normalization::{nonempty, nonempty_text};
use crate::convert::semantics::{first_choice, first_choice_of, is_text};
use crate::error::BridgeError;
use crate::json::{
    clone_values, items_in, lemma_trees_push, member, members_in, opt_value, text_at, trees, Json,
    Object, Tree,
};
use crate::reasoning::{extract_reasoning_field, reasoning_field};
use crate::reasoning_cache::{
    all_restored, apply_reasoning_cache, cached, extract_reasoning_cache,
};
use crate::session_store::{Record, SessionRecord, SessionStore, Sessions};
use crate::text::{borrow_opt, cat, cat3, opt_string, opt_text};
use crate::types::ResponsesRequest;

verus! {

broadcast use lemma_trees_push;

/// The role under which a message is kept: its own, or `assistant` where that is none
/// of the Chat roles.
pub open spec fn kept_role(role: Option<Seq<char>>) -> Seq<char> {
    if role == Some("system"@) || role == Some("user"@) || role == Some("tool"@) {
        role->0
    } else {
        "assistant"@
    }
}

/// The role under which a message is kept.
pub fn coerce_saved_chat_role(role: Option<&str>) -> (r: String)
    ensures
        r@ == kept_role(opt_text(role)),
{
    if is_text(role, "system") {
        "system".to_owned()
    } else if is_text(role, "user") {
        "user".to_owned()
    } else if is_text(role, "tool") {
        "tool".to_owned()
    } else {
        "assistant".to_owned()
    }
}

/// Whether content says anything.
pub open spec fn says_something(content: Option<Tree>) -> bool {
    match content {
        None | Some(Tree::Null) => false,
        Some(Tree::Str(s)) => s.len() > 0,
        Some(_) => true,
    }
}

/// The tool calls of a message, where it has some.
pub open spec fn message_calls(m: Map<Seq<char>, Tree>) -> Option<Seq<Tree>> {
    match items_in(member(m, "tool_calls"@)) {
        Some(calls) => if calls.len() > 0 {
            Some(calls)
        } else {
            None
        },
        None => None,
    }
}

/// The content under which a message is kept: its own, or else its refusal.
pub open spec fn kept_content(m: Map<Seq<char>, Tree>) -> Tree {
    if says_something(member(m, "content"@)) {
        member(m, "content"@)->0
    } else {
        match nonempty(text_at(m, "refusal"@)) {
            Some(r) => Tree::Str("[refusal]: "@ + r),
            None => Tree::Null,
        }
    }
}

/// A message as it is kept, where it holds anything.
pub open spec fn kept_message(m: Map<Seq<char>, Tree>) -> Option<Tree> {
    let calls = message_calls(m);
    let reasoning = reasoning_field(m);
    if !says_something(member(m, "content"@)) && calls is None && nonempty(
        text_at(m, "refusal"@),
    ) is None && reasoning is None {
        None
    } else {
        let base = Map::empty().insert(
            "role"@,
            Tree::Str(kept_role(text_at(m, "role"@))),
        ).insert("content"@, kept_content(m));
        let with_calls = match calls {
            Some(c) => base.insert("tool_calls"@, Tree::Array(c)),
            None => base,
        };
        Some(
            Tree::Object(
                match reasoning {
                    Some(r) => with_calls.insert("reasoning_content"@, Tree::Str(r)),
                    None => with_calls,
                },
            ),
        )
    }
}

/// The assistant message of a Chat body as it is kept for continuation.
pub open spec fn assistant_of(body: Tree) -> Option<Tree> {
    match first_choice(body) {
        Some(choice) => match members_in(choice.at("message"@)) {
            Some(m) => kept_message(m),
            None => None,
        },
        None => None,
    }
}

/// The assistant message of a Chat body as it is kept for continuation. There is none
/// where the body holds no content, tool call, refusal or reasoning.
pub fn assistant_message_from_chat_body(chat_body: &Json) -> (r: Option<Json>)
    ensures
        opt_value(r) == assistant_of(chat_body@),
{
    let choice = match first_choice_of(chat_body) {
        Some(c) => c,
        None => {
            return None;
        },
    };
    let message = match choice.get("message") {
        Some(Json::Object(m)) => m,
        _ => {
            return None;
        },
    };
    let content = match message.get("content") {
        None | Some(Json::Null) => None,
        Some(v) => match v {
            Json::Str(s) => {
                if s.as_str().is_empty() {
                    None
                } else {
                    Some(v)
                }
            },
            _ => Some(v),
        },
    };
    let calls = match message.get_array("tool_calls") {
        Some(calls) => {
            assert(trees(calls@).len() == calls@.len());
            if calls.len() > 0 {
                Some(calls)
            } else {
                None
            }
        },
        None => None,
    };
    let refusal = nonempty_text(message.get_str("refusal"));
    let reasoning = extract_reasoning_field(message);
    if content.is_none() && calls.is_none() && refusal.is_none() && reasoning.is_none() {
        return None;
    }
    let kept = match content {
        Some(v) => v.clone(),
        None => match refusal {
            Some(s) => Json::Str(cat("[refusal]: ", s)),
            None => Json::Null,
        },
    };
    let role = coerce_saved_chat_role(message.get_str("role"));
    let mut out = Object::new().with("role", Json::Str(role)).with("content", kept);
    if let Some(c) = calls {
        out.insert("tool_calls", Json::Array(clone_values(c)));
    }
    if let Some(s) = reasoning {
        out.insert("reasoning_content", Json::Str(s));
    }
    Some(Json::Object(out))
}

/// What a request goes on from: the messages, the tools and the model of the response
/// that it continues.
#[verifier::ext_equal]
pub ghost struct Past {
    pub messages: Seq<Tree>,
    pub registry: Registry,
    pub model: Seq<char>,
}

/// What a record is to a request that continues it: reasoning that was left out is given
/// back, and the tools that the request declares come on top.
pub open spec fn past_of(record: Record, own: Registry) -> Past {
    Past {
        messages: all_restored(record.messages, record.cache),
        registry: record.registry.merged(own),
        model: record.model,
    }
}

/// What a request goes on from, if it continues a response.
pub open spec fn past_view(
    r: (Option<Vec<Json>>, Option<BridgeToolContext>, Option<String>),
) -> Option<Past> {
    match r {
        (Some(messages), Some(context), Some(model)) => Some(
            Past { messages: trees(messages@), registry: context@, model: model@ },
        ),
        _ => None,
    }
}

/// The tools that a request declares.
pub open spec fn own_registry(payload: ResponsesRequest, policy: UnsupportedToolPolicy) -> Registry {
    Registry::of_request(opt_value(payload.tools), opt_value(payload.input), policy)
}

/// The id of the response that a request continues.
pub open spec fn previous_id(payload: ResponsesRequest) -> Option<Seq<char>> {
    nonempty(opt_string(payload.previous_response_id))
}

/// Find the response that a request continues: its messages, its tools and its model. A
/// request that names none begins anew; one that names an unknown one is refused.
pub fn resolve_session(
    payload: &ResponsesRequest,
    store: &mut SessionStore,
    now: u64,
    policy: UnsupportedToolPolicy,
) -> (r: Result<
    (Option<Vec<Json>>, Option<BridgeToolContext>, Option<String>),
    BridgeError,
>)
    ensures
        match previous_id(*payload) {
            None => {
                &&& final(store)@ == old(store)@
                &&& r matches Ok(t) && t.0 is None && t.1 is None && t.2 is None
            },
            Some(id) => {
                let (after, record) = old(store)@.looked_up(id, now as int);
                &&& final(store)@ == after
                &&& match record {
                    Some(rec) => r matches Ok(t) && past_view(t) == Some(
                        past_of(rec, own_registry(*payload, policy)),
                    ),
                    None => r matches Err(BridgeError::SessionNotFound { message }) && message@
                        == "Previous response "@ + id + " not found."@,
                }
            },
        },
{
    let id = match nonempty_text(borrow_opt(&payload.previous_response_id)) {
        Some(id) => id,
        None => {
            return Ok((None, None, None));
        },
    };
    match store.get(id, now) {
        Some(record) => {
            let messages = apply_reasoning_cache(record.messages, &record.reasoning_cache);
            let mut context = record.tool_context;
            context.merge(&build_tool_context_from_request(payload, policy));
            Ok((Some(messages), Some(context), Some(record.model)))
        },
        None => Err(
            BridgeError::SessionNotFound {
                message: cat3("Previous response ", id, " not found."),
            },
        ),
    }
}

/// The messages with one more, where there is one.
pub open spec fn with_assistant(messages: Seq<Tree>, assistant: Option<Tree>) -> Seq<Tree> {
    match assistant {
        Some(m) => messages.push(m),
        None => messages,
    }
}

/// The record of a turn.
pub open spec fn record_of(
    messages: Seq<Tree>,
    registry: Registry,
    model: Seq<char>,
    assistant: Option<Tree>,
) -> Record {
    let all = with_assistant(messages, assistant);
    Record { messages: all, registry, model, cache: cached(all) }
}

/// Keep a turn for continuation: the messages that were sent and the one that came back.
pub fn save_session(
    store: &mut SessionStore,
    now: u64,
    response_id: &str,
    messages: &Vec<Json>,
    tool_context: &BridgeToolContext,
    model: &str,
    assistant_message: Option<Json>,
)
    ensures
        final(store)@ == old(store)@.saved(
            response_id@,
            record_of(trees(messages@), tool_context@, model@, opt_value(assistant_message)),
            now as int,
        ),
{
    let mut all = clone_values(messages);
    if let Some(m) = assistant_message {
        all.push(m);
    }
    let cache = extract_reasoning_cache(&all);
    let record = SessionRecord::new(all, tool_context.clone(), model.to_owned(), cache);
    store.save(response_id, record, now);
}

/// A turn that was kept can be continued: a request that names it goes on from its
/// messages, its tools and its model, as long as it is not too old.
pub proof fn kept_turns_can_be_continued(
    s: Sessions,
    id: Seq<char>,
    messages: Seq<Tree>,
    registry: Registry,
    model: Seq<char>,
    assistant: Option<Tree>,
    own: Registry,
    now: int,
    later: int,
)
    requires
        s.cap > 0,
        s.ttl >= 0,
        s.distinct(),
        forall|i: int| 0 <= i < s.entries.len() ==> (#[trigger] s.entries[i]).at < now,
        crate::session_store::elapsed(later, now) <= s.ttl,
    ensures
        ({
            let record = record_of(messages, registry, model, assistant);
            let found = s.saved(id, record, now).looked_up(id, later).1;
            &&& found == Some(record)
            &&& past_of(found->0, own).model == model
            &&& past_of(found->0, own).registry == registry.merged(own)
            &&& past_of(found->0, own).messages.len() == with_assistant(messages, assistant).len()
        }),
{
    crate::session_store::saved_responses_are_found(
        s,
        id,
        record_of(messages, registry, model, assistant),
        now,
        later,
    );
}

} // verus!
