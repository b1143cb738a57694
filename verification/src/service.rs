//! Serving a Responses request: what is sent upstream for it, and what becomes of the
//! answer.
use vstd::prelude::*;
use crate::config::UnsupportedToolPolicy;
use crate::context::{build_tool_context_from_request, input_items, BridgeToolContext, Registry};
use crate::convert::chat_to_responses::{calls_of, chat_to_responses, message_of, response_of};
use crate::convert::responses_to_chat::{
    converted, fresh_ids, responses_to_chat_with_session,
};
use crate::convert::semantics::{
    at_opt, chat_finish_reason, first_choice, should_persist_finish_reason, status_of,
};
use crate::error::BridgeError;
use crate::json::{clone_values, items_in, member, opt_value, text_in, trees, Json, Object, Tree};
use crate::session_bridge::{
    assistant_message_from_chat_body, assistant_of, own_registry, past_of, past_view, previous_id,
    record_of, resolve_session, save_session, Past,
};
use crate::session_store::{SessionStore, Sessions};
use crate::stream_chat_to_responses::StreamPersist;
use crate::text::{borrow_opt, opt_string, opt_text, text_or_empty, trim, trimmed};
use crate::transform_loss::TransformLossCollector;
use crate::types::{echo_map, ChatRequest, ResponsesRequest};

verus! {

/// A request that is ready to go upstream.
#[derive(Debug)]
pub struct Prepared {
    pub chat: ChatRequest,
    pub losses: TransformLossCollector,
    pub tool_context: BridgeToolContext,
    pub model: String,
    pub echo: Object,
}

/// The model that a request is served by: the one that it names, or else that of the
/// response that it continues.
pub open spec fn chosen_model(requested: Option<Seq<char>>, earlier: Option<Seq<char>>) -> Seq<char> {
    let own = trim(text_or_empty(requested));
    if own.len() > 0 {
        own
    } else {
        trim(text_or_empty(earlier))
    }
}

/// The model that a request is served by.
pub fn resolve_model(requested: Option<&str>, earlier: Option<&str>) -> (r: String)
    ensures
        r@ == chosen_model(opt_text(requested), opt_text(earlier)),
{
    proof {
        crate::text::lemma_trim_empty();
    }
    let own = match requested {
        Some(m) => trimmed(m),
        None => String::new(),
    };
    if !own.as_str().is_empty() {
        return own;
    }
    match earlier {
        Some(m) => trimmed(m),
        None => String::new(),
    }
}

/// What a request goes on from, by what the store holds.
pub open spec fn past_in(
    store: Sessions,
    payload: ResponsesRequest,
    now: int,
    policy: UnsupportedToolPolicy,
) -> Option<Past> {
    match previous_id(payload) {
        Some(id) => match store.looked_up(id, now).1 {
            Some(record) => Some(past_of(record, own_registry(payload, policy))),
            None => None,
        },
        None => None,
    }
}

/// The store once a request has been prepared.
pub open spec fn store_after(store: Sessions, payload: ResponsesRequest, now: int) -> Sessions {
    match previous_id(payload) {
        Some(id) => store.looked_up(id, now).0,
        None => store,
    }
}

/// Whether a request asks for more than one answer, or for none.
pub open spec fn asks_for_many(payload: ResponsesRequest) -> bool {
    payload.n matches Some(n) && n != 1
}

/// Whether a request continues a response that is not known.
pub open spec fn continues_unknown(
    store: Sessions,
    payload: ResponsesRequest,
    now: int,
    policy: UnsupportedToolPolicy,
) -> bool {
    previous_id(payload) is Some && past_in(store, payload, now, policy) is None
}

/// The model that a request is served by, given what it goes on from.
pub open spec fn model_for(payload: ResponsesRequest, past: Option<Past>) -> Seq<char> {
    chosen_model(
        opt_string(payload.model),
        match past {
            Some(p) => Some(p.model),
            None => None,
        },
    )
}

/// The tools of a request, given what it goes on from.
pub open spec fn registry_for(
    payload: ResponsesRequest,
    past: Option<Past>,
    policy: UnsupportedToolPolicy,
) -> Registry {
    match past {
        Some(p) => p.registry,
        None => own_registry(payload, policy),
    }
}

/// The messages that a request goes on from.
pub open spec fn messages_for(past: Option<Past>) -> Seq<Tree> {
    match past {
        Some(p) => p.messages,
        None => Seq::empty(),
    }
}

/// Prepare a request: find what it continues, choose its model, and convert it. A request
/// that cannot be served is refused.
pub fn prepare(
    payload: &ResponsesRequest,
    store: &mut SessionStore,
    now: u64,
    policy: UnsupportedToolPolicy,
) -> (r: Result<Prepared, BridgeError>)
    ensures
        final(store)@ == if asks_for_many(*payload) {
            old(store)@
        } else {
            store_after(old(store)@, *payload, now as int)
        },
        ({
            let past = past_in(old(store)@, *payload, now as int, policy);
            let model = model_for(*payload, past);
            match r {
                Ok(p) => {
                    &&& !asks_for_many(*payload)
                    &&& !continues_unknown(old(store)@, *payload, now as int, policy)
                    &&& model.len() > 0
                    &&& p.model@ == model
                    &&& p.tool_context@ == registry_for(*payload, past, policy)
                    &&& p.echo@ == echo_map(*payload)
                    &&& exists|fresh: Seq<Seq<char>>| #[trigger]
                        fresh_ids(fresh, input_items(opt_value(payload.input)).len()) && (
                        p.chat.body@,
                        p.losses@,
                    ) == converted(
                            *payload,
                            model,
                            messages_for(past),
                            registry_for(*payload, past, policy),
                            fresh,
                        )
                },
                Err(e) => if asks_for_many(*payload) {
                    e.refuses(
                        "Responses requests with n != 1 are not supported by this bridge."@,
                        "unsupported_n"@,
                    )
                } else if continues_unknown(old(store)@, *payload, now as int, policy) {
                    e matches BridgeError::SessionNotFound { message } && message@
                        == "Previous response "@ + previous_id(*payload)->0 + " not found."@
                } else {
                    model.len() == 0 && e.refuses(
                        "Responses request is missing required field: model."@,
                        "missing_model"@,
                    )
                },
            }
        }),
{
    if let Some(n) = payload.n {
        if n != 1 {
            return Err(
                BridgeError::invalid_request(
                    "Responses requests with n != 1 are not supported by this bridge.",
                    "unsupported_n",
                ),
            );
        }
    }
    let ghost past = past_in(store@, *payload, now as int, policy);
    let (messages, context, earlier) = match resolve_session(payload, store, now, policy) {
        Ok(t) => t,
        Err(e) => {
            return Err(e);
        },
    };
    assert(past == past_view((messages, context, earlier)));
    let model = resolve_model(borrow_opt(&payload.model), borrow_opt(&earlier));
    if model.as_str().is_empty() {
        return Err(
            BridgeError::invalid_request(
                "Responses request is missing required field: model.",
                "missing_model",
            ),
        );
    }
    let tool_context = match context {
        Some(c) => c,
        None => build_tool_context_from_request(payload, policy),
    };
    let (chat, losses) = responses_to_chat_with_session(
        payload,
        model.as_str(),
        messages.as_ref(),
        &tool_context,
    );
    let echo = payload.to_echo_map();
    Ok(Prepared { chat, losses, tool_context, model, echo })
}

/// The messages that went upstream.
pub open spec fn sent_messages(body: Map<Seq<char>, Tree>) -> Seq<Tree> {
    match items_in(member(body, "messages"@)) {
        Some(items) => items,
        None => Seq::empty(),
    }
}

impl Prepared {
    /// The messages that go upstream.
    pub fn messages(&self) -> (r: Vec<Json>)
        ensures
            trees(r@) == sent_messages(self.chat.body@),
    {
        match self.chat.body.get_array("messages") {
            Some(items) => clone_values(items),
            None => {
                let none: Vec<Json> = Vec::new();
                assert(trees(none@) =~= Seq::empty());
                none
            },
        }
    }
}

/// Whether a turn that came as a whole is kept: it holds an assistant message, and its
/// finish reason lets it go on.
pub open spec fn is_kept(body: Tree) -> bool {
    assistant_of(body) is Some && status_of(
        text_in(at_opt(first_choice(body), "finish_reason"@)),
    ).persistable()
}

/// Keep a turn that came as a whole for continuation, where it may be kept.
pub fn keep_whole_turn(
    prepared: &Prepared,
    chat_body: &Json,
    response_id: &str,
    store: &mut SessionStore,
    now: u64,
)
    ensures
        final(store)@ == if is_kept(chat_body@) {
            old(store)@.saved(
                response_id@,
                record_of(
                    sent_messages(prepared.chat.body@),
                    prepared.tool_context@,
                    prepared.model@,
                    assistant_of(chat_body@),
                ),
                now as int,
            )
        } else {
            old(store)@
        },
{
    let assistant = assistant_message_from_chat_body(chat_body);
    let finish = chat_finish_reason(chat_body);
    if assistant.is_some() && should_persist_finish_reason(borrow_opt(&finish)) {
        save_session(
            store,
            now,
            response_id,
            &prepared.messages(),
            &prepared.tool_context,
            prepared.model.as_str(),
            assistant,
        );
    }
}

/// The response to a request whose answer came as a whole. The turn is kept for
/// continuation, where it may be.
pub fn complete(
    prepared: &Prepared,
    chat_body: &Json,
    response_id: &str,
    store: &mut SessionStore,
    now: u64,
) -> (r: Json)
    ensures
        exists|fresh: Seq<Seq<char>>| #[trigger]
            fresh_ids(fresh, calls_of(message_of(chat_body@)).len()) && r@ == Tree::Object(
                response_of(
                    chat_body@,
                    prepared.model@,
                    Some(prepared.echo@),
                    response_id@,
                    prepared.tool_context@,
                    fresh,
                ),
            ),
        final(store)@ == if is_kept(chat_body@) {
            old(store)@.saved(
                response_id@,
                record_of(
                    sent_messages(prepared.chat.body@),
                    prepared.tool_context@,
                    prepared.model@,
                    assistant_of(chat_body@),
                ),
                now as int,
            )
        } else {
            old(store)@
        },
{
    let response = chat_to_responses(
        chat_body,
        prepared.model.as_str(),
        Some(&prepared.echo),
        response_id,
        &prepared.tool_context,
    );
    keep_whole_turn(prepared, chat_body, response_id, store, now);
    response
}

/// What is needed to keep a streamed turn once it is over.
pub fn stream_persist(prepared: &Prepared, response_id: &str) -> (r: StreamPersist)
    ensures
        r.response_id@ == response_id@,
        trees(r.messages@) == sent_messages(prepared.chat.body@),
        r.tool_context@ == prepared.tool_context@,
        r.model@ == prepared.model@,
{
    StreamPersist {
        response_id: response_id.to_owned(),
        messages: prepared.messages(),
        tool_context: prepared.tool_context.clone(),
        model: prepared.model.clone(),
    }
}

/// A turn that was cut off by a limit or a filter is not kept, whatever it holds.
pub proof fn incomplete_turns_are_not_kept(body: Tree)
    requires
        text_in(at_opt(first_choice(body), "finish_reason"@)) == Some("length"@) || text_in(
            at_opt(first_choice(body), "finish_reason"@),
        ) == Some("content_filter"@),
    ensures
        !is_kept(body),
{
    crate::convert::semantics::incomplete_turns_are_not_persisted(
        text_in(at_opt(first_choice(body), "finish_reason"@)),
    );
}

} // verus!
