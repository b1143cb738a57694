//! What becomes of the parts of a whole Chat answer.
use vstd::prelude::*;
use crate::context::Registry;
use crate::convert::chat_to_responses::response_of;
use crate::json::Tree;

verus! {

/// Whether the first choice of an answer holds a message.
pub open spec fn answers_with(body: Tree, message: Map<Seq<char>, Tree>) -> bool {
    &&& body.at("choices"@) matches Some(Tree::Array(choices))
    &&& choices.len() > 0
    &&& choices[0].at("message"@) == Some(Tree::Object(message))
}

/// The output of a response.
pub open spec fn output_of(response: Map<Seq<char>, Tree>) -> Seq<Tree> {
    match response["output"@] {
        Tree::Array(items) => items,
        _ => Seq::empty(),
    }
}

/// Whether a tool call carries a call id and calls a function by a name.
pub open spec fn calls_by_name(call: Tree, id: Seq<char>, name: Seq<char>) -> bool {
    &&& call.at("id"@) == Some(Tree::Str(id))
    &&& call.at("function"@) matches Some(Tree::Object(f))
    &&& f.contains_key("name"@)
    &&& f["name"@] == Tree::Str(name)
}

/// Whether no tool of a registry has a name, which is not that of the tool search.
pub open spec fn is_unregistered(registry: Registry, name: Seq<char>) -> bool {
    &&& name != "tool_search"@
    &&& forall|i: int| 0 <= i < registry.tools.len() ==> (#[trigger] registry.tools[i]).0 != name
}

/// Each tool call of an answer has its own item, at the end of the output and in the order
/// of the calls: as many items as calls, the k-th with the call id, the name and the
/// arguments of the k-th call.
pub proof fn each_call_has_its_item(
    body: Tree,
    message: Map<Seq<char>, Tree>,
    calls: Seq<Tree>,
    ids: Seq<Seq<char>>,
    names: Seq<Seq<char>>,
    fallback_model: Seq<char>,
    request: Option<Map<Seq<char>, Tree>>,
    response_id: Seq<char>,
    registry: Registry,
    fresh: Seq<Seq<char>>,
)
    requires
        answers_with(body, message),
        message.contains_key("tool_calls"@),
        message["tool_calls"@] == Tree::Array(calls),
        ids.len() == calls.len(),
        names.len() == calls.len(),
        forall|k: int|
            0 <= k < calls.len() ==> calls_by_name(#[trigger] calls[k], ids[k], names[k]),
    ensures
        ({
            let output = output_of(
                response_of(body, fallback_model, request, response_id, registry, fresh),
            );
            let first = output.len() - calls.len();
            &&& 0 <= first <= 2
            &&& forall|k: int|
                0 <= k < calls.len() ==> {
                    let item = #[trigger] output[first + k];
                    &&& item.at("call_id"@) == Some(Tree::Str(ids[k]))
                    &&& is_unregistered(registry, names[k]) ==> {
                        &&& item.at("type"@) == Some(Tree::Str("function_call"@))
                        &&& item.at("id"@) == Some(Tree::Str("fc_"@ + ids[k]))
                        &&& item.at("status"@) == Some(Tree::Str("completed"@))
                        &&& item.at("name"@) == Some(Tree::Str(names[k]))
                        &&& carries(item, calls[k].at("function"@)->0)
                    }
                }
            &&& forall|k: int|
                0 <= k < first ==> (#[trigger] output[k]).at("call_id"@) is None
        }),
{
    reveal_strlit("tool_calls");
    reveal_strlit("id");
    reveal_strlit("function");
    reveal_strlit("name");
    reveal_strlit("arguments");
    reveal_strlit("call_id");
    reveal_strlit("type");
    reveal_strlit("status");
    reveal_strlit("execution");
    reveal_strlit("input");
    reveal_strlit("namespace");
    reveal_strlit("reasoning_content");
    reveal_strlit("role");
    reveal_strlit("content");
    reveal_strlit("summary");
    reveal_strlit("object");
    reveal_strlit("model");
    reveal_strlit("output");
    reveal_strlit("output_text");
    reveal_strlit("created_at");
    reveal_strlit("usage");
    reveal_strlit("incomplete_details");
    reveal_strlit("choices");
    reveal_strlit("message");
    assert("tool_calls"@.len() == 10);
    assert("id"@.len() == 2);
    assert("function"@.len() == 8);
    assert("name"@.len() == 4);
    assert("arguments"@.len() == 9);
    assert("call_id"@.len() == 7);
    assert("type"@.len() == 4);
    assert("status"@.len() == 6);
    assert("execution"@.len() == 9);
    assert("input"@.len() == 5);
    assert("namespace"@.len() == 9);
    assert("reasoning_content"@.len() == 17);
    assert("role"@.len() == 4);
    assert("content"@.len() == 7);
    assert("summary"@.len() == 7);
    assert("object"@.len() == 6);
    assert("model"@.len() == 5);
    assert("output"@.len() == 6);
    assert("output_text"@.len() == 11);
    assert("created_at"@.len() == 10);
    assert("usage"@.len() == 5);
    assert("incomplete_details"@.len() == 18);
    assert("choices"@.len() == 7);
    assert("message"@.len() == 7);
    assert("created_at"@[0] == 'c');
    assert("tool_calls"@[0] == 't');
    assert("type"@[0] == 't');
    assert("name"@[0] == 'n');
    assert("role"@[0] == 'r');
    assert("execution"@[0] == 'e');
    assert("arguments"@[0] == 'a');
    assert("namespace"@[0] == 'n');
    assert("content"@[0] == 'c');
    assert("content"@[1] == 'o');
    assert("call_id"@[0] == 'c');
    assert("call_id"@[1] == 'a');
    assert("summary"@[0] == 's');
    assert("choices"@[0] == 'c');
    assert("choices"@[1] == 'h');
    assert("message"@[0] == 'm');
    assert("object"@[0] == 'o');
    assert("object"@[1] == 'b');
    assert("status"@[0] == 's');
    assert("output"@[0] == 'o');
    assert("output"@[1] == 'u');
    assert("model"@[0] == 'm');
    assert("input"@[0] == 'i');
    assert("usage"@[0] == 'u');
    crate::convert::chat_to_responses::responses_are_well_formed(
        body,
        fallback_model,
        request,
        response_id,
        registry,
        fresh,
    );
    let r = response_of(body, fallback_model, request, response_id, registry, fresh);
    let output = output_of(r);
    let said = crate::convert::chat_to_responses::message_of(body);
    assert(said == Tree::Object(message));
    assert(crate::convert::chat_to_responses::calls_of(said) == calls);
    let reasoning = crate::sanitize::sanitized(
        crate::convert::chat_to_responses::message_reasoning(said),
    );
    lemma_call_items(calls, ids, names, reasoning, registry, fresh, calls.len() as int);
    let items = crate::convert::chat_to_responses::call_items(
        calls,
        calls.len() as int,
        reasoning,
        registry,
        fresh,
    );
    let first = output.len() - calls.len();
    assert(output == crate::convert::chat_to_responses::output_items(
        body,
        response_id,
        registry,
        fresh,
    ));
    assert forall|k: int| 0 <= k < calls.len() implies #[trigger] output[first + k]
        == items[k] by {}
}

/// Whether an item carries the arguments of a function that was called: written anew where
/// they denote a document, and as they are where they do not.
pub open spec fn carries(item: Tree, function: Tree) -> bool {
    &&& function.at("arguments"@) matches Some(Tree::Str(s)) ==> crate::text::trim(s).len() > 0
        ==> item.at("arguments"@) == Some(
        Tree::Str(
            match crate::json::parsed(s) {
                Some(t) => crate::json::rendered(t),
                None => s,
            },
        ),
    )
    &&& function.at("arguments"@) is None ==> item.at("arguments"@) == Some(Tree::Str("{}"@))
}

proof fn lemma_call_items(
    calls: Seq<Tree>,
    ids: Seq<Seq<char>>,
    names: Seq<Seq<char>>,
    reasoning: Seq<char>,
    registry: Registry,
    fresh: Seq<Seq<char>>,
    n: int,
)
    requires
        0 <= n <= calls.len(),
        ids.len() == calls.len(),
        names.len() == calls.len(),
        forall|k: int|
            0 <= k < calls.len() ==> calls_by_name(#[trigger] calls[k], ids[k], names[k]),
    ensures
        ({
            let items = crate::convert::chat_to_responses::call_items(
                calls,
                n,
                reasoning,
                registry,
                fresh,
            );
            &&& items.len() == n
            &&& forall|k: int|
                0 <= k < n ==> {
                    let item = #[trigger] items[k];
                    &&& item.at("call_id"@) == Some(Tree::Str(ids[k]))
                    &&& is_unregistered(registry, names[k]) ==> {
                        &&& item.at("type"@) == Some(Tree::Str("function_call"@))
                        &&& item.at("id"@) == Some(Tree::Str("fc_"@ + ids[k]))
                        &&& item.at("status"@) == Some(Tree::Str("completed"@))
                        &&& item.at("name"@) == Some(Tree::Str(names[k]))
                        &&& carries(item, calls[k].at("function"@)->0)
                    }
                }
        }),
    decreases n,
{
    if n > 0 {
        lemma_call_items(calls, ids, names, reasoning, registry, fresh, n - 1);
        reveal_strlit("id");
        reveal_strlit("function");
        reveal_strlit("name");
        reveal_strlit("arguments");
        reveal_strlit("call_id");
        reveal_strlit("type");
        reveal_strlit("status");
        reveal_strlit("execution");
        reveal_strlit("input");
        reveal_strlit("namespace");
        reveal_strlit("reasoning_content");
        assert("id"@.len() == 2);
        assert("function"@.len() == 8);
        assert("name"@.len() == 4);
        assert("arguments"@.len() == 9);
        assert("call_id"@.len() == 7);
        assert("type"@.len() == 4);
        assert("status"@.len() == 6);
        assert("execution"@.len() == 9);
        assert("input"@.len() == 5);
        assert("namespace"@.len() == 9);
        assert("reasoning_content"@.len() == 17);
        assert("type"@[0] == 't');
        assert("name"@[0] == 'n');
        assert("execution"@[0] == 'e');
        assert("arguments"@[0] == 'a');
        assert("namespace"@[0] == 'n');
        let call = calls[n - 1];
        assert(calls_by_name(call, ids[n - 1], names[n - 1]));
        if is_unregistered(registry, names[n - 1]) {
            lemma_no_origin(registry.tools, names[n - 1]);
        }
        let items = crate::convert::chat_to_responses::call_items(
            calls,
            n,
            reasoning,
            registry,
            fresh,
        );
        let before = crate::convert::chat_to_responses::call_items(
            calls,
            n - 1,
            reasoning,
            registry,
            fresh,
        );
        assert(items.drop_last() =~= before);
        assert forall|k: int| 0 <= k < n implies {
            let item = #[trigger] items[k];
            &&& item.at("call_id"@) == Some(Tree::Str(ids[k]))
            &&& is_unregistered(registry, names[k]) ==> {
                &&& item.at("type"@) == Some(Tree::Str("function_call"@))
                &&& item.at("id"@) == Some(Tree::Str("fc_"@ + ids[k]))
                &&& item.at("status"@) == Some(Tree::Str("completed"@))
                &&& item.at("name"@) == Some(Tree::Str(names[k]))
                &&& carries(item, calls[k].at("function"@)->0)
            }
        } by {
            if k < n - 1 {
                assert(items[k] == before[k]);
            }
        }
    }
}

/// A name that no tool has is that of none.
pub proof fn lemma_no_origin(
    tools: Seq<(Seq<char>, crate::context::Origin)>,
    name: Seq<char>,
)
    requires
        forall|i: int| 0 <= i < tools.len() ==> (#[trigger] tools[i]).0 != name,
    ensures
        crate::context::origin_in(tools, name) is None,
    decreases tools.len(),
{
    if tools.len() > 0 {
        let front = tools.drop_last();
        assert forall|i: int| 0 <= i < front.len() implies (#[trigger] front[i]).0 != name by {
            assert(front[i] == tools[i]);
        }
        lemma_no_origin(front, name);
        assert(tools[tools.len() - 1].0 != name);
    }
}

/// Whether a text holds no bracket that could begin a think tag, and only characters that
/// may go to a client.
pub open spec fn is_plain(s: Seq<char>) -> bool {
    forall|i: int|
        0 <= i < s.len() ==> #[trigger] s[i] != '<' && (s[i] >= ' ' || s[i] == '\n' || s[i] == '\r'
            || s[i] == '\t')
}

proof fn lemma_plain(s: Seq<char>)
    requires
        is_plain(s),
    ensures
        crate::reasoning::inline_think(s) is None,
        crate::sanitize::sanitized(s) == s,
{
    crate::sanitize::sanitizing_clean_text_changes_nothing(s);
    if crate::reasoning::first_tag(s, crate::reasoning::Tag::Open) is Some {
        let (i, j) = choose|i: int, j: int|
            crate::reasoning::first_tag_at(s, crate::reasoning::Tag::Open, i, j);
        assert(crate::reasoning::first_tag_at(s, crate::reasoning::Tag::Open, i, j));
    }
}

/// Whether an item is the reasoning item of a response and holds a text, but for white
/// space around it.
pub open spec fn is_thought(item: Tree, response_id: Seq<char>, text: Tree) -> bool {
    &&& item.at("type"@) == Some(Tree::Str("reasoning"@))
    &&& item.at("id"@) == Some(Tree::Str("rs_"@ + response_id))
    &&& item.at("summary"@) matches Some(Tree::Array(parts))
    &&& parts.len() == 1
    &&& parts[0].at("type"@) == Some(Tree::Str("summary_text"@))
    &&& text matches Tree::Str(s) && parts[0].at("text"@) == Some(Tree::Str(crate::text::trim(s)))
}

/// The text of an answer is the text of the response: it stands in one message of the
/// assistant, behind the reasoning where there is some, and it is the text of the output.
pub proof fn answers_are_told(
    body: Tree,
    message: Map<Seq<char>, Tree>,
    text: Seq<char>,
    fallback_model: Seq<char>,
    request: Option<Map<Seq<char>, Tree>>,
    response_id: Seq<char>,
    registry: Registry,
    fresh: Seq<Seq<char>>,
)
    requires
        answers_with(body, message),
        message.contains_key("content"@),
        message["content"@] == Tree::Str(text),
        text.len() > 0,
        is_plain(text),
        !message.contains_key("refusal"@),
        !message.contains_key("annotations"@),
        !message.contains_key("reasoning"@),
        message.contains_key("reasoning_content"@) ==> (message["reasoning_content"@] matches
            Tree::Str(s) && crate::text::trim(s).len() > 0 && is_plain(crate::text::trim(s))),
    ensures
        ({
            let r = response_of(body, fallback_model, request, response_id, registry, fresh);
            let output = output_of(r);
            let at = if message.contains_key("reasoning_content"@) {
                1int
            } else {
                0
            };
            &&& at < output.len()
            &&& at == 1 ==> is_thought(output[0], response_id, message["reasoning_content"@])
            &&& output[at].at("type"@) == Some(Tree::Str("message"@))
            &&& output[at].at("id"@) == Some(Tree::Str("msg_"@ + response_id))
            &&& output[at].at("role"@) == Some(Tree::Str("assistant"@))
            &&& output[at].at("status"@) == Some(Tree::Str("completed"@))
            &&& output[at].at("content"@) matches Some(Tree::Array(parts))
            &&& parts.len() == 1
            &&& parts[0].at("type"@) == Some(Tree::Str("output_text"@))
            &&& parts[0].at("text"@) == Some(Tree::Str(text))
            &&& r["output_text"@] == Tree::Str(text)
        }),
{
    reveal_strlit("tool_calls");
    reveal_strlit("id");
    reveal_strlit("type");
    reveal_strlit("status");
    reveal_strlit("role");
    reveal_strlit("content");
    reveal_strlit("summary");
    reveal_strlit("object");
    reveal_strlit("model");
    reveal_strlit("output");
    reveal_strlit("output_text");
    reveal_strlit("created_at");
    reveal_strlit("usage");
    reveal_strlit("incomplete_details");
    reveal_strlit("choices");
    reveal_strlit("message");
    reveal_strlit("refusal");
    reveal_strlit("annotations");
    reveal_strlit("text");
    reveal_strlit("reasoning");
    reveal_strlit("reasoning_content");
    assert("tool_calls"@.len() == 10);
    assert("id"@.len() == 2);
    assert("type"@.len() == 4);
    assert("status"@.len() == 6);
    assert("role"@.len() == 4);
    assert("content"@.len() == 7);
    assert("summary"@.len() == 7);
    assert("object"@.len() == 6);
    assert("model"@.len() == 5);
    assert("output"@.len() == 6);
    assert("output_text"@.len() == 11);
    assert("created_at"@.len() == 10);
    assert("usage"@.len() == 5);
    assert("incomplete_details"@.len() == 18);
    assert("choices"@.len() == 7);
    assert("message"@.len() == 7);
    assert("refusal"@.len() == 7);
    assert("annotations"@.len() == 11);
    assert("text"@.len() == 4);
    assert("reasoning"@.len() == 9);
    assert("reasoning_content"@.len() == 17);
    assert("created_at"@[0] == 'c');
    assert("tool_calls"@[0] == 't');
    assert("role"@[0] == 'r');
    assert("type"@[0] == 't');
    assert("type"@[1] == 'y');
    assert("text"@[0] == 't');
    assert("text"@[1] == 'e');
    assert("object"@[0] == 'o');
    assert("object"@[1] == 'b');
    assert("status"@[0] == 's');
    assert("output"@[0] == 'o');
    assert("output"@[1] == 'u');
    assert("summary"@[0] == 's');
    assert("content"@[0] == 'c');
    assert("content"@[1] == 'o');
    assert("choices"@[0] == 'c');
    assert("choices"@[1] == 'h');
    assert("message"@[0] == 'm');
    assert("refusal"@[0] == 'r');
    assert("usage"@[0] == 'u');
    assert("model"@[0] == 'm');
    assert("annotations"@[0] == 'a');
    assert("output_text"@[0] == 'o');
    lemma_plain(text);
    if message.contains_key("reasoning_content"@) {
        lemma_plain(crate::text::trim(message["reasoning_content"@]->Str_0));
    }
    lemma_own_members(body, fallback_model, request, response_id, registry, fresh);
    let said = crate::convert::chat_to_responses::message_of(body);
    assert(said == Tree::Object(message));
    let parts = crate::convert::chat_to_responses::content_parts(said);
    assert(parts.len() == 1);
    assert(parts.drop_last() =~= Seq::empty());
    reveal_with_fuel(crate::convert::chat_to_responses::part_texts, 2);
    reveal_with_fuel(crate::text::join, 2);
    let told = crate::convert::chat_to_responses::part_texts(parts);
    assert(told =~= seq![text]);
    assert(told.drop_last() =~= Seq::empty());
}

/// The members of a response that it does not echo.
pub proof fn lemma_own_members(
    body: Tree,
    fallback_model: Seq<char>,
    request: Option<Map<Seq<char>, Tree>>,
    response_id: Seq<char>,
    registry: Registry,
    fresh: Seq<Seq<char>>,
)
    ensures
        ({
            let output = crate::convert::chat_to_responses::output_items(
                body,
                response_id,
                registry,
                fresh,
            );
            let own = crate::convert::chat_to_responses::response_members(
                body,
                fallback_model,
                response_id,
                output,
            );
            let r = response_of(body, fallback_model, request, response_id, registry, fresh);
            &&& r.contains_key("id"@) && r["id"@] == own["id"@]
            &&& r.contains_key("object"@) && r["object"@] == own["object"@]
            &&& r.contains_key("status"@) && r["status"@] == own["status"@]
            &&& r.contains_key("model"@) && r["model"@] == own["model"@]
            &&& r.contains_key("output"@) && r["output"@] == Tree::Array(output)
            &&& r.contains_key("output_text"@) && r["output_text"@] == own["output_text"@]
            &&& r.contains_key("created_at"@) && r["created_at"@] == own["created_at"@]
            &&& r.contains_key("usage"@) && r["usage"@] == own["usage"@]
            &&& r.contains_key("incomplete_details"@) && r["incomplete_details"@]
                == own["incomplete_details"@]
        }),
{
    reveal_strlit("id");
    reveal_strlit("object");
    reveal_strlit("status");
    reveal_strlit("model");
    reveal_strlit("output");
    reveal_strlit("output_text");
    reveal_strlit("created_at");
    reveal_strlit("usage");
    reveal_strlit("incomplete_details");
    reveal_strlit("instructions");
    reveal_strlit("max_output_tokens");
    reveal_strlit("parallel_tool_calls");
    reveal_strlit("previous_response_id");
    reveal_strlit("reasoning");
    reveal_strlit("temperature");
    reveal_strlit("tool_choice");
    reveal_strlit("tools");
    reveal_strlit("top_p");
    reveal_strlit("metadata");
    assert("id"@.len() == 2);
    assert("object"@.len() == 6);
    assert("status"@.len() == 6);
    assert("model"@.len() == 5);
    assert("output"@.len() == 6);
    assert("output_text"@.len() == 11);
    assert("created_at"@.len() == 10);
    assert("usage"@.len() == 5);
    assert("incomplete_details"@.len() == 18);
    assert("instructions"@.len() == 12);
    assert("max_output_tokens"@.len() == 17);
    assert("parallel_tool_calls"@.len() == 19);
    assert("previous_response_id"@.len() == 20);
    assert("reasoning"@.len() == 9);
    assert("temperature"@.len() == 11);
    assert("tool_choice"@.len() == 11);
    assert("tools"@.len() == 5);
    assert("top_p"@.len() == 5);
    assert("metadata"@.len() == 8);
    assert("status"@[0] == 's');
    assert("object"@[0] == 'o');
    assert("object"@[1] == 'b');
    assert("output"@[0] == 'o');
    assert("output"@[1] == 'u');
    assert("usage"@[0] == 'u');
    assert("model"@[0] == 'm');
    assert("tools"@[0] == 't');
    assert("tools"@[2] == 'o');
    assert("top_p"@[0] == 't');
    assert("top_p"@[2] == 'p');
    assert("temperature"@[0] == 't');
    assert("temperature"@[1] == 'e');
    assert("output_text"@[0] == 'o');
    assert("tool_choice"@[0] == 't');
    assert("tool_choice"@[1] == 'o');
    let names = crate::convert::semantics::request_echo_fields();
    let output = crate::convert::chat_to_responses::output_items(
        body,
        response_id,
        registry,
        fresh,
    );
    let own = crate::convert::chat_to_responses::response_members(
        body,
        fallback_model,
        response_id,
        output,
    );
    assert forall|k: Seq<char>|
        own.contains_key(k) implies response_of(
        body,
        fallback_model,
        request,
        response_id,
        registry,
        fresh,
    ).contains_key(k) && #[trigger] response_of(
        body,
        fallback_model,
        request,
        response_id,
        registry,
        fresh,
    )[k] == own[k] by {
        assert forall|i: int| 0 <= i < names.len() implies #[trigger] names[i] != k by {
            assert(names[0] == "instructions"@ && names[1] == "max_output_tokens"@ && names[2]
                == "parallel_tool_calls"@ && names[3] == "previous_response_id"@ && names[4]
                == "reasoning"@ && names[5] == "temperature"@ && names[6] == "tool_choice"@
                && names[7] == "tools"@ && names[8] == "top_p"@ && names[9] == "metadata"@);
            assert(names[i] == names[0] || names[i] == names[1] || names[i] == names[2] || names[i]
                == names[3] || names[i] == names[4] || names[i] == names[5] || names[i] == names[6]
                || names[i] == names[7] || names[i] == names[8] || names[i] == names[9]);
        }
        crate::convert::chat_to_responses::lemma_nulled(own, names, k);
        let seeded = crate::convert::chat_to_responses::nulled(own, names);
        if let Some(q) = request {
            crate::convert::semantics::lemma_copied_other(seeded, q, names, k);
        }
    }
    let r = response_of(body, fallback_model, request, response_id, registry, fresh);
    assert(own.contains_key("id"@) && r["id"@] == own["id"@]);
    assert(own.contains_key("object"@) && r["object"@] == own["object"@]);
    assert(own.contains_key("status"@) && r["status"@] == own["status"@]);
    assert(own.contains_key("model"@) && r["model"@] == own["model"@]);
    assert(own.contains_key("output"@) && r["output"@] == own["output"@]);
    assert(own.contains_key("output_text"@) && r["output_text"@] == own["output_text"@]);
    assert(own.contains_key("created_at"@) && r["created_at"@] == own["created_at"@]);
    assert(own.contains_key("usage"@) && r["usage"@] == own["usage"@]);
    assert(own.contains_key("incomplete_details"@));
    assert(r["incomplete_details"@] == own["incomplete_details"@]);
}

/// A response tells how its turn ended, by the finish reason of the answer: a turn that
/// called tools goes on, one that was cut off is incomplete and says why, and any other is
/// completed.
pub proof fn finish_reasons_are_told(
    body: Tree,
    choices: Seq<Tree>,
    fallback_model: Seq<char>,
    request: Option<Map<Seq<char>, Tree>>,
    response_id: Seq<char>,
    registry: Registry,
    fresh: Seq<Seq<char>>,
)
    requires
        body.at("choices"@) == Some(Tree::Array(choices)),
        choices.len() > 0,
    ensures
        ({
            let r = response_of(body, fallback_model, request, response_id, registry, fresh);
            let reason = choices[0].at("finish_reason"@);
            let tells = |status: Seq<char>, details: Tree|
                r["status"@] == Tree::Str(status) && r["incomplete_details"@] == details;
            let why = |s: Seq<char>|
                Tree::Object(Map::<Seq<char>, Tree>::empty().insert("reason"@, Tree::Str(s)));
            &&& reason == Some(Tree::Str("tool_calls"@)) ==> tells("in_progress"@, Tree::Null)
            &&& reason == Some(Tree::Str("length"@)) ==> tells(
                "incomplete"@,
                why("max_output_tokens"@),
            )
            &&& reason == Some(Tree::Str("content_filter"@)) ==> tells(
                "incomplete"@,
                why("content_filter"@),
            )
            &&& reason == Some(Tree::Str("stop"@)) ==> tells("completed"@, Tree::Null)
            &&& reason is None ==> tells("completed"@, Tree::Null)
        }),
{
    reveal_strlit("tool_calls");
    reveal_strlit("length");
    reveal_strlit("content_filter");
    reveal_strlit("stop");
    reveal_strlit("id");
    reveal_strlit("object");
    reveal_strlit("status");
    reveal_strlit("model");
    reveal_strlit("output");
    reveal_strlit("output_text");
    reveal_strlit("created_at");
    reveal_strlit("usage");
    reveal_strlit("incomplete_details");
    assert("tool_calls"@.len() == 10);
    assert("length"@.len() == 6);
    assert("content_filter"@.len() == 14);
    assert("stop"@.len() == 4);
    assert("id"@.len() == 2);
    assert("object"@.len() == 6);
    assert("status"@.len() == 6);
    assert("model"@.len() == 5);
    assert("output"@.len() == 6);
    assert("output_text"@.len() == 11);
    assert("created_at"@.len() == 10);
    assert("usage"@.len() == 5);
    assert("incomplete_details"@.len() == 18);
    assert("created_at"@[0] == 'c');
    assert("tool_calls"@[0] == 't');
    assert("object"@[0] == 'o');
    assert("object"@[1] == 'b');
    assert("length"@[0] == 'l');
    assert("status"@[0] == 's');
    assert("output"@[0] == 'o');
    assert("output"@[1] == 'u');
    assert("usage"@[0] == 'u');
    assert("model"@[0] == 'm');
    lemma_own_members(body, fallback_model, request, response_id, registry, fresh);
    let d = crate::convert::semantics::incomplete_details(Some("length"@));
    assert(d == Some(
        Tree::Object(
            Map::<Seq<char>, Tree>::empty().insert("reason"@, Tree::Str("max_output_tokens"@)),
        ),
    ));
    let e = crate::convert::semantics::incomplete_details(Some("content_filter"@));
    assert(e == Some(
        Tree::Object(
            Map::<Seq<char>, Tree>::empty().insert("reason"@, Tree::Str("content_filter"@)),
        ),
    ));
}

/// A response names its model and its time as the answer does, the asked model where the
/// answer names none, and the tokens that were used under their own names.
pub proof fn answers_are_accounted_for(
    body: Tree,
    prompt: int,
    completion: int,
    usage: Map<Seq<char>, Tree>,
    fallback_model: Seq<char>,
    request: Option<Map<Seq<char>, Tree>>,
    response_id: Seq<char>,
    registry: Registry,
    fresh: Seq<Seq<char>>,
)
    requires
        body.at("usage"@) == Some(Tree::Object(usage)),
        counts(usage, prompt, completion),
    ensures
        ({
            let r = response_of(body, fallback_model, request, response_id, registry, fresh);
            &&& r["id"@] == Tree::Str(response_id)
            &&& r["object"@] == Tree::Str("response"@)
            &&& r["model"@] == match body.at("model"@) {
                Some(Tree::Str(m)) => Tree::Str(m),
                _ => Tree::Str(fallback_model),
            }
            &&& body.at("created"@) matches Some(Tree::Int(n)) ==> i64::MIN <= n <= i64::MAX ==> (
            r["created_at"@] == Tree::Int(n))
            &&& is_counted(r["usage"@], prompt, completion)
        }),
{
    reveal_strlit("id");
    reveal_strlit("object");
    reveal_strlit("status");
    reveal_strlit("model");
    reveal_strlit("output");
    reveal_strlit("output_text");
    reveal_strlit("created_at");
    reveal_strlit("usage");
    reveal_strlit("incomplete_details");
    assert("id"@.len() == 2);
    assert("object"@.len() == 6);
    assert("status"@.len() == 6);
    assert("model"@.len() == 5);
    assert("output"@.len() == 6);
    assert("output_text"@.len() == 11);
    assert("created_at"@.len() == 10);
    assert("usage"@.len() == 5);
    assert("incomplete_details"@.len() == 18);
    assert("status"@[0] == 's');
    assert("object"@[0] == 'o');
    assert("object"@[1] == 'b');
    assert("output"@[0] == 'o');
    assert("output"@[1] == 'u');
    assert("usage"@[0] == 'u');
    assert("model"@[0] == 'm');
    lemma_own_members(body, fallback_model, request, response_id, registry, fresh);
    lemma_counted(usage, prompt, completion);
}

/// Whether a Chat usage counts tokens, and nothing but them.
pub open spec fn counts(usage: Map<Seq<char>, Tree>, prompt: int, completion: int) -> bool {
    &&& 0 <= prompt
    &&& 0 <= completion
    &&& prompt + completion <= i64::MAX
    &&& usage.contains_key("prompt_tokens"@)
    &&& usage["prompt_tokens"@] == Tree::Int(prompt)
    &&& usage.contains_key("completion_tokens"@)
    &&& usage["completion_tokens"@] == Tree::Int(completion)
    &&& !usage.contains_key("input_tokens"@)
    &&& !usage.contains_key("output_tokens"@)
    &&& usage.contains_key("total_tokens"@) ==> usage["total_tokens"@] == Tree::Int(
        prompt + completion,
    )
}

/// Whether a Responses usage counts tokens.
pub open spec fn is_counted(usage: Tree, prompt: int, completion: int) -> bool {
    &&& usage.at("input_tokens"@) == Some(Tree::Int(prompt))
    &&& usage.at("output_tokens"@) == Some(Tree::Int(completion))
    &&& usage.at("total_tokens"@) == Some(Tree::Int(prompt + completion))
}

/// A Chat usage counts the same tokens as a Responses usage.
pub proof fn lemma_counted(usage: Map<Seq<char>, Tree>, prompt: int, completion: int)
    requires
        counts(usage, prompt, completion),
    ensures
        is_counted(
            crate::convert::semantics::mapped_usage(Some(Tree::Object(usage))),
            prompt,
            completion,
        ),
{
    reveal_strlit("prompt_tokens");
    reveal_strlit("completion_tokens");
    reveal_strlit("input_tokens");
    reveal_strlit("output_tokens");
    reveal_strlit("total_tokens");
    reveal_strlit("input_tokens_details");
    reveal_strlit("prompt_tokens_details");
    reveal_strlit("output_tokens_details");
    reveal_strlit("completion_tokens_details");
    assert("prompt_tokens"@.len() == 13);
    assert("completion_tokens"@.len() == 17);
    assert("input_tokens"@.len() == 12);
    assert("output_tokens"@.len() == 13);
    assert("total_tokens"@.len() == 12);
    assert("input_tokens_details"@.len() == 20);
    assert("prompt_tokens_details"@.len() == 21);
    assert("output_tokens_details"@.len() == 21);
    assert("completion_tokens_details"@.len() == 25);
    assert("output_tokens"@[0] == 'o');
    assert("prompt_tokens"@[0] == 'p');
    assert("total_tokens"@[0] == 't');
    assert("input_tokens"@[0] == 'i');
    assert("output_tokens_details"@[0] == 'o');
    assert("prompt_tokens_details"@[0] == 'p');
}

/// A response echoes each of the request's fields that it echoes at all as the request
/// has it, and null where the request has none.
pub proof fn requests_are_echoed(
    body: Tree,
    fallback_model: Seq<char>,
    request: Map<Seq<char>, Tree>,
    response_id: Seq<char>,
    registry: Registry,
    fresh: Seq<Seq<char>>,
    k: Seq<char>,
)
    requires
        k == "instructions"@ || k == "max_output_tokens"@ || k == "parallel_tool_calls"@ || k
            == "previous_response_id"@ || k == "reasoning"@ || k == "temperature"@ || k
            == "tool_choice"@ || k == "tools"@ || k == "top_p"@ || k == "metadata"@,
    ensures
        ({
            let r = response_of(body, fallback_model, Some(request), response_id, registry, fresh);
            &&& r.contains_key(k)
            &&& r[k] == if request.contains_key(k) {
                request[k]
            } else {
                Tree::Null
            }
        }),
{
    let names = crate::convert::semantics::request_echo_fields();
    assert(names[0] == "instructions"@ && names[1] == "max_output_tokens"@ && names[2]
        == "parallel_tool_calls"@ && names[3] == "previous_response_id"@ && names[4]
        == "reasoning"@ && names[5] == "temperature"@ && names[6] == "tool_choice"@ && names[7]
        == "tools"@ && names[8] == "top_p"@ && names[9] == "metadata"@);
    let i = if k == names[0] {
        0int
    } else if k == names[1] {
        1
    } else if k == names[2] {
        2
    } else if k == names[3] {
        3
    } else if k == names[4] {
        4
    } else if k == names[5] {
        5
    } else if k == names[6] {
        6
    } else if k == names[7] {
        7
    } else if k == names[8] {
        8
    } else {
        9
    };
    assert(names[i] == k);
    let own = crate::convert::chat_to_responses::response_members(
        body,
        fallback_model,
        response_id,
        crate::convert::chat_to_responses::output_items(body, response_id, registry, fresh),
    );
    crate::convert::chat_to_responses::lemma_nulled(own, names, k);
    let seeded = crate::convert::chat_to_responses::nulled(own, names);
    lemma_copied_in(seeded, request, names, i);
}

/// Copying a member that is named takes it over, unless it is missing or null.
pub proof fn lemma_copied_in(
    into: Map<Seq<char>, Tree>,
    from: Map<Seq<char>, Tree>,
    names: Seq<Seq<char>>,
    i: int,
)
    requires
        0 <= i < names.len(),
    ensures
        ({
            let all = crate::convert::semantics::copied(into, from, names);
            if from.contains_key(names[i]) && from[names[i]] != Tree::Null {
                all.contains_key(names[i]) && all[names[i]] == from[names[i]]
            } else {
                crate::json::member(all, names[i]) == crate::json::member(into, names[i])
            }
        }),
    decreases names.len(),
{
    let front = names.drop_last();
    if i < front.len() {
        assert(front[i] == names[i]);
        lemma_copied_in(into, from, front, i);
    } else if exists|j: int| 0 <= j < front.len() && #[trigger] front[j] == names[i] {
        let j = choose|j: int| 0 <= j < front.len() && #[trigger] front[j] == names[i];
        lemma_copied_in(into, from, front, j);
    } else {
        crate::convert::semantics::lemma_copied_other(into, from, front, names[i]);
    }
}

/// Whether a part of an answer is a text.
pub open spec fn says_text(part: Tree, text: Seq<char>) -> bool {
    &&& part is Object
    &&& part.at("type"@) == Some(Tree::Str("text"@))
    &&& part.at("text"@) == Some(Tree::Str(text))
    &&& part.at("annotations"@) is None
    &&& text.len() > 0
    &&& is_plain(text)
}

/// Every text part of an answer becomes a part of the message, in its order; a refusal comes
/// behind them.
pub proof fn every_part_is_told(
    message: Map<Seq<char>, Tree>,
    items: Seq<Tree>,
    texts: Seq<Seq<char>>,
    refusal: Seq<char>,
    k: int,
)
    requires
        message.contains_key("content"@),
        message["content"@] == Tree::Array(items),
        texts.len() == items.len(),
        forall|j: int| 0 <= j < items.len() ==> says_text(#[trigger] items[j], texts[j]),
        0 <= k < items.len(),
        is_plain(refusal),
        refusal.len() > 0 ==> message.contains_key("refusal"@) && message["refusal"@] == Tree::Str(
            refusal,
        ),
        refusal.len() == 0 ==> !message.contains_key("refusal"@),
    ensures
        ({
            let parts = crate::convert::chat_to_responses::content_parts(Tree::Object(message));
            &&& parts.len() == items.len() + if refusal.len() > 0 {
                1nat
            } else {
                0
            }
            &&& parts[k].at("type"@) == Some(Tree::Str("output_text"@))
            &&& parts[k].at("text"@) == Some(Tree::Str(texts[k]))
            &&& refusal.len() > 0 ==> parts.last().at("type"@) == Some(Tree::Str("refusal"@))
                && parts.last().at("refusal"@) == Some(Tree::Str(refusal))
        }),
{
    reveal_strlit("type");
    reveal_strlit("refusal");
    reveal_strlit("text");
    reveal_strlit("annotations");
    reveal_strlit("content");
    assert("type"@.len() == 4);
    assert("refusal"@.len() == 7);
    assert("text"@.len() == 4);
    assert("annotations"@.len() == 11);
    assert("content"@.len() == 7);
    assert("text"@[1] == 'e');
    assert("type"@[1] == 'y');
    assert("content"@[0] == 'c');
    assert("refusal"@[0] == 'r');
    lemma_plain(refusal);
    lemma_parts(
        items,
        texts,
        crate::convert::message_normalization::annotations_of(Tree::Object(message)),
        k,
    );
}

proof fn lemma_parts(items: Seq<Tree>, texts: Seq<Seq<char>>, annotations: Seq<Tree>, k: int)
    requires
        texts.len() == items.len(),
        forall|j: int| 0 <= j < items.len() ==> says_text(#[trigger] items[j], texts[j]),
        0 <= k < items.len(),
    ensures
        ({
            let parts = crate::convert::chat_to_responses::response_parts(items, annotations);
            &&& parts.len() == items.len()
            &&& parts[k].at("type"@) == Some(Tree::Str("output_text"@))
            &&& parts[k].at("text"@) == Some(Tree::Str(texts[k]))
        }),
    decreases items.len(),
{
    reveal_strlit("type");
    reveal_strlit("text");
    reveal_strlit("annotations");
    reveal_strlit("output_text");
    reveal_strlit("input_text");
    reveal_strlit("refusal");
    assert("type"@.len() == 4);
    assert("text"@.len() == 4);
    assert("annotations"@.len() == 11);
    assert("output_text"@.len() == 11);
    assert("input_text"@.len() == 10);
    assert("refusal"@.len() == 7);
    assert("text"@[1] == 'e');
    assert("type"@[1] == 'y');
    assert("output_text"@[0] == 'o');
    assert("annotations"@[0] == 'a');
    let front = items.drop_last();
    let some = texts.drop_last();
    assert forall|j: int| 0 <= j < front.len() implies says_text(#[trigger] front[j], some[j]) by {
        assert(front[j] == items[j] && some[j] == texts[j]);
    }
    assert(says_text(items[items.len() - 1], texts[texts.len() - 1]));
    lemma_plain(texts.last());
    let last = crate::convert::chat_to_responses::response_part(items.last(), annotations);
    assert(last is Some);
    assert(last->0.at("text"@) == Some(Tree::Str(texts.last())));
    if front.len() > 0 {
        lemma_parts(front, some, annotations, 0);
    }
    if k < front.len() {
        lemma_parts(front, some, annotations, k);
    }
}

} // verus!
