//! What the Chat body of a request carries beside its messages.
use vstd::prelude::*;
use crate::context::Registry;
use crate::convert::responses_to_chat::{chat_body, own_fields, passthrough_fields};
use crate::json::{member, opt_value, Tree};
use crate::types::ResponsesRequest;

verus! {

/// Whether a name is one of the settings that go upstream as they are.
pub open spec fn is_passed(k: Seq<char>) -> bool {
    k == "metadata"@ || k == "parallel_tool_calls"@ || k == "presence_penalty"@ || k
        == "frequency_penalty"@ || k == "seed"@ || k == "service_tier"@ || k == "stop"@ || k
        == "user"@ || k == "logit_bias"@ || k == "logprobs"@ || k == "top_logprobs"@
}

proof fn lemma_passed(i: int)
    requires
        0 <= i < passthrough_fields().len(),
    ensures
        is_passed(passthrough_fields()[i]),
{
    let f = passthrough_fields();
    assert(f[0] == "metadata"@ && f[1] == "parallel_tool_calls"@ && f[2] == "presence_penalty"@
        && f[3] == "frequency_penalty"@ && f[4] == "seed"@ && f[5] == "service_tier"@ && f[6]
        == "stop"@ && f[7] == "user"@ && f[8] == "logit_bias"@ && f[9] == "logprobs"@ && f[10]
        == "top_logprobs"@);
}

/// The settings of a request that have the same name upstream go there as they are, and
/// come from nowhere else.
pub proof fn settings_go_upstream(
    payload: ResponsesRequest,
    model: Seq<char>,
    messages: Seq<Tree>,
    registry: Registry,
    k: Seq<char>,
)
    requires
        is_passed(k),
    ensures
        member(chat_body(payload, model, messages, registry), k) == match member(
            payload.extra@,
            k,
        ) {
            Some(Tree::Null) => None,
            other => other,
        },
{
    reveal_strlit("metadata");
    reveal_strlit("parallel_tool_calls");
    reveal_strlit("presence_penalty");
    reveal_strlit("frequency_penalty");
    reveal_strlit("seed");
    reveal_strlit("service_tier");
    reveal_strlit("stop");
    reveal_strlit("user");
    reveal_strlit("logit_bias");
    reveal_strlit("logprobs");
    reveal_strlit("top_logprobs");
    reveal_strlit("model");
    reveal_strlit("messages");
    reveal_strlit("stream");
    reveal_strlit("stream_options");
    reveal_strlit("tools");
    reveal_strlit("tool_choice");
    reveal_strlit("max_completion_tokens");
    reveal_strlit("max_tokens");
    reveal_strlit("temperature");
    reveal_strlit("top_p");
    reveal_strlit("response_format");
    reveal_strlit("reasoning_effort");
    assert("metadata"@.len() == 8);
    assert("parallel_tool_calls"@.len() == 19);
    assert("presence_penalty"@.len() == 16);
    assert("frequency_penalty"@.len() == 17);
    assert("seed"@.len() == 4);
    assert("service_tier"@.len() == 12);
    assert("stop"@.len() == 4);
    assert("user"@.len() == 4);
    assert("logit_bias"@.len() == 10);
    assert("logprobs"@.len() == 8);
    assert("top_logprobs"@.len() == 12);
    assert("model"@.len() == 5);
    assert("messages"@.len() == 8);
    assert("stream"@.len() == 6);
    assert("stream_options"@.len() == 14);
    assert("tools"@.len() == 5);
    assert("tool_choice"@.len() == 11);
    assert("max_completion_tokens"@.len() == 21);
    assert("max_tokens"@.len() == 10);
    assert("temperature"@.len() == 11);
    assert("top_p"@.len() == 5);
    assert("response_format"@.len() == 15);
    assert("reasoning_effort"@.len() == 16);
    assert("logprobs"@[0] == 'l');
    assert("metadata"@[0] == 'm');
    assert("metadata"@[2] == 't');
    assert("messages"@[0] == 'm');
    assert("messages"@[2] == 's');
    assert("reasoning_effort"@[0] == 'r');
    assert("presence_penalty"@[0] == 'p');
    assert("stop"@[0] == 's');
    assert("stop"@[1] == 't');
    assert("seed"@[0] == 's');
    assert("seed"@[1] == 'e');
    assert("user"@[0] == 'u');
    assert("top_logprobs"@[0] == 't');
    assert("service_tier"@[0] == 's');
    assert("max_tokens"@[0] == 'm');
    assert("logit_bias"@[0] == 'l');
    assert("tools"@[0] == 't');
    assert("tools"@[2] == 'o');
    assert("model"@[0] == 'm');
    assert("top_p"@[0] == 't');
    assert("top_p"@[2] == 'p');
    assert("temperature"@[1] == 'e');
    assert("tool_choice"@[1] == 'o');
    let f = passthrough_fields();
    assert(f[0] == "metadata"@ && f[1] == "parallel_tool_calls"@ && f[2] == "presence_penalty"@
        && f[3] == "frequency_penalty"@ && f[4] == "seed"@ && f[5] == "service_tier"@ && f[6]
        == "stop"@ && f[7] == "user"@ && f[8] == "logit_bias"@ && f[9] == "logprobs"@ && f[10]
        == "top_logprobs"@);
    let i = if k == f[0] {
        0int
    } else if k == f[1] {
        1
    } else if k == f[2] {
        2
    } else if k == f[3] {
        3
    } else if k == f[4] {
        4
    } else if k == f[5] {
        5
    } else if k == f[6] {
        6
    } else if k == f[7] {
        7
    } else if k == f[8] {
        8
    } else if k == f[9] {
        9
    } else {
        10
    };
    let own = own_fields(payload, model, messages, registry);
    crate::laws::answers::lemma_copied_in(own, payload.extra@, f, i);
    assert(!own.contains_key(k));
}

proof fn lemma_own_field(
    payload: ResponsesRequest,
    model: Seq<char>,
    messages: Seq<Tree>,
    registry: Registry,
    k: Seq<char>,
)
    requires
        !is_passed(k),
        k != "reasoning_effort"@,
    ensures
        member(chat_body(payload, model, messages, registry), k) == member(
            own_fields(payload, model, messages, registry),
            k,
        ),
{
    let own = own_fields(payload, model, messages, registry);
    assert forall|i: int| 0 <= i < passthrough_fields().len() implies #[trigger]
    passthrough_fields()[i] != k by {
        lemma_passed(i);
    }
    crate::convert::semantics::lemma_copied_other(own, payload.extra@, passthrough_fields(), k);
}

/// A body is streamed where the request is, with usage asked for unless the request says
/// otherwise; it lists all tools that are registered, and a choice among them only with
/// them; and it limits and samples as the request does.
pub proof fn bodies_ask_for_what_the_request_asks(
    payload: ResponsesRequest,
    model: Seq<char>,
    messages: Seq<Tree>,
    registry: Registry,
)
    ensures
        ({
            let body = chat_body(payload, model, messages, registry);
            &&& member(body, "model"@) == Some(Tree::Str(model))
            &&& member(body, "messages"@) == Some(Tree::Array(messages))
            &&& member(body, "stream"@) == Some(Tree::Bool(payload.stream))
            &&& member(body, "stream_options"@) == if payload.stream {
                match opt_value(payload.stream_options) {
                    Some(o) => Some(o),
                    None => Some(
                        Tree::Object(
                            Map::<Seq<char>, Tree>::empty().insert(
                                "include_usage"@,
                                Tree::Bool(true),
                            ),
                        ),
                    ),
                }
            } else {
                None
            }
            &&& member(body, "tools"@) == if registry.chat_tools.len() > 0 {
                Some(Tree::Array(registry.chat_tools))
            } else {
                None
            }
            &&& registry.chat_tools.len() == 0 ==> member(body, "tool_choice"@) is None
            &&& registry.chat_tools.len() > 0 ==> match opt_value(payload.tool_choice) {
                Some(Tree::Str(s)) => member(body, "tool_choice"@) == Some(Tree::Str(s)),
                Some(_) => member(body, "tool_choice"@) is Some,
                None => member(body, "tool_choice"@) is None,
            }
            &&& payload.max_output_tokens is None ==> member(body, "max_tokens"@) is None
                && member(body, "max_completion_tokens"@) is None
            &&& payload.max_output_tokens matches Some(n) ==> {
                let low = crate::text::lower(model);
                if crate::text::begins(low, "o1"@) || crate::text::begins(low, "o3"@)
                    || crate::text::begins(low, "o4"@) {
                    member(body, "max_completion_tokens"@) == Some(Tree::Int(n as int)) && member(
                        body,
                        "max_tokens"@,
                    ) is None
                } else {
                    member(body, "max_tokens"@) == Some(Tree::Int(n as int)) && member(
                        body,
                        "max_completion_tokens"@,
                    ) is None
                }
            }
            &&& member(body, "temperature"@) == asked(opt_value(payload.temperature))
            &&& member(body, "top_p"@) == asked(opt_value(payload.top_p))
            &&& member(body, "response_format"@) == asked(opt_value(payload.response_format))
        }),
{
    reveal_strlit("metadata");
    reveal_strlit("parallel_tool_calls");
    reveal_strlit("presence_penalty");
    reveal_strlit("frequency_penalty");
    reveal_strlit("seed");
    reveal_strlit("service_tier");
    reveal_strlit("stop");
    reveal_strlit("user");
    reveal_strlit("logit_bias");
    reveal_strlit("logprobs");
    reveal_strlit("top_logprobs");
    reveal_strlit("model");
    reveal_strlit("messages");
    reveal_strlit("stream");
    reveal_strlit("stream_options");
    reveal_strlit("tools");
    reveal_strlit("tool_choice");
    reveal_strlit("max_completion_tokens");
    reveal_strlit("max_tokens");
    reveal_strlit("temperature");
    reveal_strlit("top_p");
    reveal_strlit("response_format");
    reveal_strlit("reasoning_effort");
    assert("metadata"@.len() == 8);
    assert("parallel_tool_calls"@.len() == 19);
    assert("presence_penalty"@.len() == 16);
    assert("frequency_penalty"@.len() == 17);
    assert("seed"@.len() == 4);
    assert("service_tier"@.len() == 12);
    assert("stop"@.len() == 4);
    assert("user"@.len() == 4);
    assert("logit_bias"@.len() == 10);
    assert("logprobs"@.len() == 8);
    assert("top_logprobs"@.len() == 12);
    assert("model"@.len() == 5);
    assert("messages"@.len() == 8);
    assert("stream"@.len() == 6);
    assert("stream_options"@.len() == 14);
    assert("tools"@.len() == 5);
    assert("tool_choice"@.len() == 11);
    assert("max_completion_tokens"@.len() == 21);
    assert("max_tokens"@.len() == 10);
    assert("temperature"@.len() == 11);
    assert("top_p"@.len() == 5);
    assert("response_format"@.len() == 15);
    assert("reasoning_effort"@.len() == 16);
    assert("logprobs"@[0] == 'l');
    assert("metadata"@[0] == 'm');
    assert("metadata"@[2] == 't');
    assert("messages"@[0] == 'm');
    assert("messages"@[2] == 's');
    assert("reasoning_effort"@[0] == 'r');
    assert("presence_penalty"@[0] == 'p');
    assert("stop"@[0] == 's');
    assert("stop"@[1] == 't');
    assert("seed"@[0] == 's');
    assert("seed"@[1] == 'e');
    assert("user"@[0] == 'u');
    assert("top_logprobs"@[0] == 't');
    assert("service_tier"@[0] == 's');
    assert("max_tokens"@[0] == 'm');
    assert("logit_bias"@[0] == 'l');
    assert("tools"@[0] == 't');
    assert("tools"@[2] == 'o');
    assert("model"@[0] == 'm');
    assert("top_p"@[0] == 't');
    assert("top_p"@[2] == 'p');
    assert("temperature"@[1] == 'e');
    assert("tool_choice"@[1] == 'o');
    lemma_own_field(payload, model, messages, registry, "model"@);
    lemma_own_field(payload, model, messages, registry, "messages"@);
    lemma_own_field(payload, model, messages, registry, "stream"@);
    lemma_own_field(payload, model, messages, registry, "stream_options"@);
    lemma_own_field(payload, model, messages, registry, "tools"@);
    lemma_own_field(payload, model, messages, registry, "tool_choice"@);
    lemma_own_field(payload, model, messages, registry, "max_completion_tokens"@);
    lemma_own_field(payload, model, messages, registry, "max_tokens"@);
    lemma_own_field(payload, model, messages, registry, "temperature"@);
    lemma_own_field(payload, model, messages, registry, "top_p"@);
    lemma_own_field(payload, model, messages, registry, "response_format"@);
}

/// A setting that is given and not null.
pub open spec fn asked(v: Option<Tree>) -> Option<Tree> {
    match v {
        Some(Tree::Null) => None,
        other => other,
    }
}

/// The effort that a request asks for goes upstream in the words that are known there, but
/// to none of the families that take none; a request that asks for none sends none.
pub proof fn efforts_go_upstream(
    payload: ResponsesRequest,
    model: Seq<char>,
    messages: Seq<Tree>,
    registry: Registry,
    effort: Seq<char>,
)
    ensures
        ({
            let body = chat_body(payload, model, messages, registry);
            let sent = member(body, "reasoning_effort"@);
            let deaf = crate::reasoning::names_family(
                crate::text::trim(model),
                seq!["kimi"@, "moonshot"@],
            );
            let wanted = match opt_value(payload.reasoning) {
                Some(r) => r.at("effort"@),
                None => None,
            };
            &&& deaf || wanted is None ==> sent is None
            &&& !deaf && wanted == Some(Tree::Str(effort)) ==> {
                &&& effort == "low"@ || effort == "medium"@ || effort == "high"@ ==> sent == Some(
                    Tree::Str("high"@),
                )
                &&& effort == "xhigh"@ || effort == "max"@ ==> sent == Some(Tree::Str("xhigh"@))
                &&& effort == "none"@ || effort == "minimal"@ ==> sent == Some(Tree::Str("none"@))
            }
        }),
{
    reveal_strlit("metadata");
    reveal_strlit("parallel_tool_calls");
    reveal_strlit("presence_penalty");
    reveal_strlit("frequency_penalty");
    reveal_strlit("seed");
    reveal_strlit("service_tier");
    reveal_strlit("stop");
    reveal_strlit("user");
    reveal_strlit("logit_bias");
    reveal_strlit("logprobs");
    reveal_strlit("top_logprobs");
    reveal_strlit("model");
    reveal_strlit("messages");
    reveal_strlit("stream");
    reveal_strlit("stream_options");
    reveal_strlit("tools");
    reveal_strlit("tool_choice");
    reveal_strlit("max_completion_tokens");
    reveal_strlit("max_tokens");
    reveal_strlit("temperature");
    reveal_strlit("top_p");
    reveal_strlit("response_format");
    reveal_strlit("reasoning_effort");
    assert("metadata"@.len() == 8);
    assert("parallel_tool_calls"@.len() == 19);
    assert("presence_penalty"@.len() == 16);
    assert("frequency_penalty"@.len() == 17);
    assert("seed"@.len() == 4);
    assert("service_tier"@.len() == 12);
    assert("stop"@.len() == 4);
    assert("user"@.len() == 4);
    assert("logit_bias"@.len() == 10);
    assert("logprobs"@.len() == 8);
    assert("top_logprobs"@.len() == 12);
    assert("model"@.len() == 5);
    assert("messages"@.len() == 8);
    assert("stream"@.len() == 6);
    assert("stream_options"@.len() == 14);
    assert("tools"@.len() == 5);
    assert("tool_choice"@.len() == 11);
    assert("max_completion_tokens"@.len() == 21);
    assert("max_tokens"@.len() == 10);
    assert("temperature"@.len() == 11);
    assert("top_p"@.len() == 5);
    assert("response_format"@.len() == 15);
    assert("reasoning_effort"@.len() == 16);
    assert("logprobs"@[0] == 'l');
    assert("metadata"@[0] == 'm');
    assert("metadata"@[2] == 't');
    assert("messages"@[0] == 'm');
    assert("messages"@[2] == 's');
    assert("reasoning_effort"@[0] == 'r');
    assert("presence_penalty"@[0] == 'p');
    assert("stop"@[0] == 's');
    assert("stop"@[1] == 't');
    assert("seed"@[0] == 's');
    assert("seed"@[1] == 'e');
    assert("user"@[0] == 'u');
    assert("top_logprobs"@[0] == 't');
    assert("service_tier"@[0] == 's');
    assert("max_tokens"@[0] == 'm');
    assert("logit_bias"@[0] == 'l');
    assert("tools"@[0] == 't');
    assert("tools"@[2] == 'o');
    assert("model"@[0] == 'm');
    assert("top_p"@[0] == 't');
    assert("top_p"@[2] == 'p');
    assert("temperature"@[1] == 'e');
    assert("tool_choice"@[1] == 'o');
    let own = own_fields(payload, model, messages, registry);
    assert forall|i: int| 0 <= i < passthrough_fields().len() implies #[trigger]
    passthrough_fields()[i] != "reasoning_effort"@ by {
        lemma_passed(i);
    }
    crate::convert::semantics::lemma_copied_other(
        own,
        payload.extra@,
        passthrough_fields(),
        "reasoning_effort"@,
    );
    lemma_efforts(effort);
}

proof fn lemma_efforts(effort: Seq<char>)
    ensures
        effort == "low"@ || effort == "medium"@ || effort == "high"@
            ==> crate::reasoning::canonical_effort(Some(effort))
            == crate::reasoning::CanonicalEffort::High,
        effort == "xhigh"@ || effort == "max"@ ==> crate::reasoning::canonical_effort(Some(effort))
            == crate::reasoning::CanonicalEffort::XHigh,
        effort == "none"@ || effort == "minimal"@ ==> crate::reasoning::canonical_effort(
            Some(effort),
        ) == crate::reasoning::CanonicalEffort::Off,
{
    reveal_strlit("low");
    reveal_strlit("medium");
    reveal_strlit("high");
    reveal_strlit("xhigh");
    reveal_strlit("max");
    reveal_strlit("none");
    reveal_strlit("minimal");
    reveal_strlit("off");
    reveal_strlit("disabled");
    reveal_strlit("false");
    assert("low"@.len() == 3);
    assert("medium"@.len() == 6);
    assert("high"@.len() == 4);
    assert("xhigh"@.len() == 5);
    assert("max"@.len() == 3);
    assert("none"@.len() == 4);
    assert("minimal"@.len() == 7);
    assert("off"@.len() == 3);
    assert("disabled"@.len() == 8);
    assert("false"@.len() == 5);
    assert("max"@[0] == 'm');
    assert("low"@[0] == 'l');
    assert("off"@[0] == 'o');
    assert("none"@[0] == 'n');
    assert("high"@[0] == 'h');
    assert("false"@[0] == 'f');
    assert("xhigh"@[0] == 'x');
    if effort == "low"@ || effort == "medium"@ || effort == "high"@ || effort == "xhigh"@ || effort
        == "max"@ || effort == "none"@ || effort == "minimal"@ {
        assert("low"@[0] == 'l' && "low"@[1] == 'o' && "low"@[2] == 'w');
        assert("medium"@[0] == 'm' && "medium"@[1] == 'e' && "medium"@[2] == 'd' && "medium"@[3]
            == 'i' && "medium"@[4] == 'u' && "medium"@[5] == 'm');
        assert("high"@[0] == 'h' && "high"@[1] == 'i' && "high"@[2] == 'g' && "high"@[3] == 'h');
        assert("xhigh"@[0] == 'x' && "xhigh"@[1] == 'h' && "xhigh"@[2] == 'i' && "xhigh"@[3] == 'g'
            && "xhigh"@[4] == 'h');
        assert("max"@[0] == 'm' && "max"@[1] == 'a' && "max"@[2] == 'x');
        assert("none"@[0] == 'n' && "none"@[1] == 'o' && "none"@[2] == 'n' && "none"@[3] == 'e');
        assert("minimal"@[0] == 'm' && "minimal"@[1] == 'i' && "minimal"@[2] == 'n' && "minimal"@[3]
            == 'i' && "minimal"@[4] == 'm' && "minimal"@[5] == 'a' && "minimal"@[6] == 'l');
        assert(!crate::text::is_space(effort[0]) && !crate::text::is_space(effort.last()));
        crate::laws::tools::lemma_trimmed(effort);
        assert(crate::text::lower(effort) =~= effort);
    }
}

/// A choice of a function by its name is a choice of the Chat function; any other choice
/// stays as it is.
pub proof fn choices_name_chat_functions(
    choice: Tree,
    m: Map<Seq<char>, Tree>,
    name: Seq<char>,
    registry: Registry,
)
    ensures
        ({
            let sent = crate::convert::responses_to_chat::chat_tool_choice(choice, registry);
            &&& !(choice is Object) ==> sent == choice
            &&& choice == Tree::Object(m) && m.contains_key("type"@) && (m["type"@] == Tree::Str(
                "function"@,
            ) || m["type"@] == Tree::Str("custom"@)) && m.contains_key("name"@) && m["name"@]
                == Tree::Str(name) && name.len() > 0 && !m.contains_key("namespace"@) ==> {
                &&& sent.at("type"@) == Some(Tree::Str("function"@))
                &&& sent.at("function"@) matches Some(f)
                &&& f.at("name"@) == Some(Tree::Str(name))
            }
            &&& choice == Tree::Object(m) && m.contains_key("type"@) && m["type"@] == Tree::Str(
                "tool_search"@,
            ) ==> (sent.at("function"@) matches Some(f) && f.at("name"@) == Some(
                Tree::Str("tool_search"@),
            ))
        }),
{
    reveal_strlit("type");
    reveal_strlit("function");
    reveal_strlit("custom");
    reveal_strlit("tool_search");
    reveal_strlit("name");
    reveal_strlit("namespace");
    assert("type"@.len() == 4);
    assert("function"@.len() == 8);
    assert("custom"@.len() == 6);
    assert("tool_search"@.len() == 11);
    assert("name"@.len() == 4);
    assert("namespace"@.len() == 9);
    assert("name"@[0] == 'n');
    assert("type"@[0] == 't');
}

} // verus!
