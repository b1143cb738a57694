//! What becomes of the parts of a request when it is converted.
use vstd::prelude::*;
use crate::context::Registry;
use crate::convert::responses_to_chat::Progress;
use crate::json::Tree;
use crate::transform_loss::TransformLoss;

verus! {

/// Whether an item is an output of a tool call that has a call id.
pub open spec fn is_output(m: Map<Seq<char>, Tree>, id: Seq<char>) -> bool {
    &&& m.contains_key("type"@)
    &&& m["type"@] == Tree::Str("function_call_output"@) || m["type"@] == Tree::Str(
        "custom_tool_call_output"@,
    ) || m["type"@] == Tree::Str("tool_search_output"@)
    &&& m.contains_key("call_id"@)
    &&& m["call_id"@] == Tree::Str(id)
    &&& id.len() > 0
}

/// Whether the call at position `j` of a list has an id.
pub open spec fn has_id(calls: Seq<Tree>, j: int, id: Seq<char>) -> bool {
    0 <= j < calls.len() && calls[j].at("id"@) == Some(Tree::Str(id))
}

/// Whether a message is an assistant's whose call at position `j` has an id.
pub open spec fn asks_at(message: Tree, j: int, id: Seq<char>) -> bool {
    &&& message.at("role"@) == Some(Tree::Str("assistant"@))
    &&& message.at("tool_calls"@) matches Some(Tree::Array(calls))
    &&& has_id(calls, j, id)
}

/// How many messages are written before an item that cannot join them: one for the tool
/// calls and the reasoning that wait.
pub open spec fn waiting(p: Progress) -> int {
    if p.calls.len() > 0 || p.reasoning is Some {
        1
    } else {
        0
    }
}

/// Each output of a call becomes a tool message that answers the call, wherever the call
/// stands: in any assistant message so far, at any position among its calls, or among
/// the calls that still wait for their message. Nothing is lost.
pub proof fn outputs_answer_their_calls(
    p: Progress,
    m: Map<Seq<char>, Tree>,
    id: Seq<char>,
    known: Seq<Seq<char>>,
    registry: Registry,
    fresh: Seq<char>,
    i: int,
    j: int,
)
    requires
        is_output(m, id),
        forall|k: int| 0 <= k < known.len() ==> #[trigger] known[k] != id,
        has_id(p.calls, j, id) || 0 <= i < p.messages.len() && asks_at(p.messages[i], j, id),
    ensures
        ({
            let q = p.after_item(Tree::Object(m), known, registry, fresh);
            &&& q.losses == p.losses
            &&& q.calls.len() == 0
            &&& q.messages.len() == p.messages.len() + waiting(p) + 1
            &&& q.messages.take(p.messages.len() as int) == p.messages
            &&& q.messages.last().at("role"@) == Some(Tree::Str("tool"@))
            &&& q.messages.last().at("tool_call_id"@) == Some(Tree::Str(id))
            &&& m["type"@] == Tree::Str("function_call_output"@) && m.contains_key("output"@)
                ==> match m["output"@] {
                Tree::Str(s) => q.messages.last().at("content"@) == Some(Tree::Str(s)),
                _ => true,
            }
        }),
{
    reveal_strlit("role");
    reveal_strlit("content");
    reveal_strlit("tool_calls");
    reveal_strlit("tool_call_id");
    reveal_strlit("reasoning_content");
    reveal_strlit("type");
    reveal_strlit("call_id");
    reveal_strlit("id");
    reveal_strlit("output");
    reveal_strlit("function_call_output");
    reveal_strlit("custom_tool_call_output");
    reveal_strlit("tool_search_output");
    reveal_strlit("tool");
    reveal_strlit("user");
    reveal_strlit("assistant");
    assert("role"@.len() == 4);
    assert("content"@.len() == 7);
    assert("tool_calls"@.len() == 10);
    assert("tool_call_id"@.len() == 12);
    assert("reasoning_content"@.len() == 17);
    assert("type"@.len() == 4);
    assert("call_id"@.len() == 7);
    assert("id"@.len() == 2);
    assert("output"@.len() == 6);
    assert("function_call_output"@.len() == 20);
    assert("custom_tool_call_output"@.len() == 23);
    assert("tool_search_output"@.len() == 18);
    assert("tool"@.len() == 4);
    assert("user"@.len() == 4);
    assert("assistant"@.len() == 9);
    assert("type"@[0] == 't');
    assert("type"@[1] == 'y');
    assert("role"@[0] == 'r');
    assert("tool"@[0] == 't');
    assert("tool"@[1] == 'o');
    assert("user"@[0] == 'u');
    assert("call_id"@[1] == 'a');
    assert("content"@[1] == 'o');
    lemma_output_kinds();
    let f = p.flushed();
    let q = p.after_item(Tree::Object(m), known, registry, fresh);
    assert(crate::convert::responses_to_chat::call_made(f.messages, id)) by {
        if has_id(p.calls, j, id) {
            let at = p.messages.len() as int;
            assert(f.messages[at].at("tool_calls"@) == Some(Tree::Array(p.calls)));
            let made = crate::json::items_in(f.messages[at].at("tool_calls"@))->0;
            assert(made == p.calls);
            assert(0 <= j < made.len() && crate::convert::responses_to_chat::call_has_id(
                made[j],
                id,
            ));
            assert(crate::convert::responses_to_chat::makes_call(f.messages[at], id));
        } else {
            assert(f.messages[i] == p.messages[i]);
            let made = crate::json::items_in(f.messages[i].at("tool_calls"@))->0;
            assert(0 <= j < made.len() && crate::convert::responses_to_chat::call_has_id(
                made[j],
                id,
            ));
            assert(crate::convert::responses_to_chat::makes_call(f.messages[i], id));
        }
    }
    assert(q.messages.take(p.messages.len() as int) =~= p.messages);
}

/// The output of a call that no assistant made is told by the user instead, with its call
/// id and its text, and that is recorded as a loss.
pub proof fn outputs_without_calls_are_told(
    p: Progress,
    m: Map<Seq<char>, Tree>,
    id: Seq<char>,
    text: Seq<char>,
    known: Seq<Seq<char>>,
    registry: Registry,
    fresh: Seq<char>,
)
    requires
        is_output(m, id),
        m["type"@] == Tree::Str("function_call_output"@),
        m.contains_key("output"@),
        m["output"@] == Tree::Str(text),
        forall|k: int| 0 <= k < known.len() ==> #[trigger] known[k] != id,
        forall|j: int| !has_id(p.calls, j, id),
        forall|i: int, j: int|
            0 <= i < p.messages.len() ==> !#[trigger] asks_at(p.messages[i], j, id),
    ensures
        ({
            let q = p.after_item(Tree::Object(m), known, registry, fresh);
            &&& q.messages.len() == p.messages.len() + waiting(p) + 1
            &&& q.messages.last().at("role"@) == Some(Tree::Str("user"@))
            &&& q.messages.last().at("content"@) == Some(
                Tree::Str("Function call output ("@ + id + "): "@ + text),
            )
            &&& q.losses.len() == p.losses.len() + 1
            &&& q.losses.drop_last() == p.losses
            &&& q.losses.last().kind == TransformLoss::DowngradedOrphanToolOutput
            &&& q.losses.last().item_type == Some("function_call_output"@)
        }),
{
    reveal_strlit("role");
    reveal_strlit("content");
    reveal_strlit("tool_calls");
    reveal_strlit("tool_call_id");
    reveal_strlit("reasoning_content");
    reveal_strlit("type");
    reveal_strlit("call_id");
    reveal_strlit("id");
    reveal_strlit("output");
    reveal_strlit("function_call_output");
    reveal_strlit("custom_tool_call_output");
    reveal_strlit("tool_search_output");
    reveal_strlit("tool");
    reveal_strlit("user");
    reveal_strlit("assistant");
    assert("role"@.len() == 4);
    assert("content"@.len() == 7);
    assert("tool_calls"@.len() == 10);
    assert("tool_call_id"@.len() == 12);
    assert("reasoning_content"@.len() == 17);
    assert("type"@.len() == 4);
    assert("call_id"@.len() == 7);
    assert("id"@.len() == 2);
    assert("output"@.len() == 6);
    assert("function_call_output"@.len() == 20);
    assert("custom_tool_call_output"@.len() == 23);
    assert("tool_search_output"@.len() == 18);
    assert("tool"@.len() == 4);
    assert("user"@.len() == 4);
    assert("assistant"@.len() == 9);
    assert("type"@[0] == 't');
    assert("type"@[1] == 'y');
    assert("role"@[0] == 'r');
    assert("tool"@[0] == 't');
    assert("tool"@[1] == 'o');
    assert("user"@[0] == 'u');
    assert("call_id"@[1] == 'a');
    assert("content"@[1] == 'o');
    lemma_output_kinds();
    let f = p.flushed();
    let q = p.after_item(Tree::Object(m), known, registry, fresh);
    if crate::convert::responses_to_chat::call_made(f.messages, id) {
        let i = choose|i: int|
            0 <= i < f.messages.len() && #[trigger] crate::convert::responses_to_chat::makes_call(
                f.messages[i],
                id,
            );
        let calls = f.messages[i].at("tool_calls"@)->0->Array_0;
        let j = choose|j: int|
            0 <= j < calls.len() && #[trigger] crate::convert::responses_to_chat::call_has_id(
                calls[j],
                id,
            );
        assert(has_id(calls, j, id));
        if i < p.messages.len() {
            assert(f.messages[i] == p.messages[i]);
            assert(asks_at(p.messages[i], j, id));
        } else {
            assert(calls == p.calls);
        }
    }
    assert(q.losses.drop_last() =~= p.losses);
}

/// A call or an output whose call id stood in earlier turns already says nothing new: it
/// is skipped and recorded.
pub proof fn known_calls_are_skipped(
    p: Progress,
    m: Map<Seq<char>, Tree>,
    id: Seq<char>,
    known: Seq<Seq<char>>,
    registry: Registry,
    fresh: Seq<char>,
    k: int,
)
    requires
        is_output(m, id) || is_call(m, id),
        0 <= k < known.len(),
        known[k] == id,
    ensures
        ({
            let q = p.after_item(Tree::Object(m), known, registry, fresh);
            &&& q.messages == p.messages
            &&& q.calls == p.calls
            &&& q.reasoning == p.reasoning
            &&& q.losses.drop_last() == p.losses
            &&& q.losses.last().kind == TransformLoss::SkippedDuplicateToolCall
        }),
{
    reveal_strlit("type");
    reveal_strlit("call_id");
    reveal_strlit("id");
    assert("type"@.len() == 4);
    assert("call_id"@.len() == 7);
    assert("id"@.len() == 2);
    lemma_output_kinds();
    assert(crate::text::listed(known, id));
    let q = p.after_item(Tree::Object(m), known, registry, fresh);
    assert(q.losses.drop_last() =~= p.losses);
}

/// The kinds of the items that have these tags.
pub proof fn lemma_output_kinds()
    ensures
        crate::protocol::item_kind("function_call_output"@)
            == crate::protocol::InputItemKind::FunctionCallOutput,
        crate::protocol::item_kind("custom_tool_call_output"@)
            == crate::protocol::InputItemKind::CustomToolCallOutput,
        crate::protocol::item_kind("tool_search_output"@)
            == crate::protocol::InputItemKind::ToolSearchOutput,
        crate::protocol::item_kind("function_call"@)
            == crate::protocol::InputItemKind::FunctionCall,
        crate::protocol::item_kind("custom_tool_call"@)
            == crate::protocol::InputItemKind::CustomToolCall,
        crate::protocol::item_kind("tool_search_call"@)
            == crate::protocol::InputItemKind::ToolSearchCall,
        crate::protocol::item_kind("message"@) == crate::protocol::InputItemKind::Message,
        crate::protocol::item_kind("input_text"@) == crate::protocol::InputItemKind::Text,
        crate::protocol::item_kind("reasoning"@) == crate::protocol::InputItemKind::Reasoning,
        crate::protocol::item_kind(Seq::empty()) == crate::protocol::InputItemKind::Other,
{
    reveal_strlit("reasoning");
    reveal_strlit("input_text");
    reveal_strlit("output_text");
    reveal_strlit("text");
    reveal_strlit("latest_reminder");
    reveal_strlit("input_image");
    reveal_strlit("input_audio");
    reveal_strlit("function_call");
    reveal_strlit("custom_tool_call");
    reveal_strlit("tool_search_call");
    reveal_strlit("function_call_output");
    reveal_strlit("custom_tool_call_output");
    reveal_strlit("tool_search_output");
    reveal_strlit("message");
    assert("reasoning"@.len() == 9);
    assert("input_text"@.len() == 10);
    assert("output_text"@.len() == 11);
    assert("text"@.len() == 4);
    assert("latest_reminder"@.len() == 15);
    assert("input_image"@.len() == 11);
    assert("input_audio"@.len() == 11);
    assert("function_call"@.len() == 13);
    assert("custom_tool_call"@.len() == 16);
    assert("tool_search_call"@.len() == 16);
    assert("function_call_output"@.len() == 20);
    assert("custom_tool_call_output"@.len() == 23);
    assert("tool_search_output"@.len() == 18);
    assert("message"@.len() == 7);
    assert("input_image"@[0] == 'i');
    assert("input_image"@[6] == 'i');
    assert("output_text"@[0] == 'o');
    assert("input_audio"@[0] == 'i');
    assert("input_audio"@[6] == 'a');
    assert("tool_search_call"@[0] == 't');
    assert("custom_tool_call"@[0] == 'c');
}

/// Whether an item is a function call that has a call id.
pub open spec fn is_call(m: Map<Seq<char>, Tree>, id: Seq<char>) -> bool {
    &&& m.contains_key("type"@)
    &&& m["type"@] == Tree::Str("function_call"@)
    &&& m.contains_key("call_id"@)
    &&& m["call_id"@] == Tree::Str(id)
    &&& id.len() > 0
}

/// Whether a list is another with one element more.
pub open spec fn grows<T>(before: Seq<T>, after: Seq<T>) -> bool {
    after.len() == before.len() + 1 && after.drop_last() == before
}

/// Whether a conversion has only one call more that waits.
pub open spec fn only_calls(p: Progress, q: Progress) -> bool {
    &&& q.messages == p.messages
    &&& q.losses == p.losses
    &&& grows(p.calls, q.calls)
}

/// Whether a Chat tool call has an id, a name and arguments.
pub open spec fn is_chat_call(
    call: Tree,
    id: Seq<char>,
    name: Seq<char>,
    arguments: Seq<char>,
) -> bool {
    &&& call.at("id"@) == Some(Tree::Str(id))
    &&& call.at("type"@) == Some(Tree::Str("function"@))
    &&& call.at("function"@) matches Some(f)
    &&& f.at("name"@) == Some(Tree::Str(name))
    &&& f.at("arguments"@) == Some(Tree::Str(arguments))
}

/// A custom tool call and a tool search are calls too: the first hands on its input under
/// its own name, the second its arguments under the name of the tool search.
pub proof fn custom_and_search_calls_are_made(
    p: Progress,
    m: Map<Seq<char>, Tree>,
    id: Seq<char>,
    name: Seq<char>,
    text: Seq<char>,
    known: Seq<Seq<char>>,
    registry: Registry,
    fresh: Seq<char>,
)
    requires
        m.contains_key("call_id"@),
        m["call_id"@] == Tree::Str(id),
        id.len() > 0,
        forall|k: int| 0 <= k < known.len() ==> #[trigger] known[k] != id,
        !m.contains_key("reasoning_content"@),
        m.contains_key("type"@),
    ensures
        ({
            let q = p.after_item(Tree::Object(m), known, registry, fresh);
            &&& m["type"@] == Tree::Str("custom_tool_call"@) && m.contains_key("name"@)
                && m["name"@] == Tree::Str(name) && m.contains_key("input"@) && m["input"@]
                == Tree::Str(text) ==> only_calls(p, q) && is_chat_call(
                q.calls.last(),
                id,
                name,
                text,
            )
            &&& m["type"@] == Tree::Str("tool_search_call"@) && m.contains_key("arguments"@)
                && m["arguments"@] is Object ==> only_calls(p, q) && is_chat_call(
                q.calls.last(),
                id,
                "tool_search"@,
                crate::json::rendered(m["arguments"@]),
            )
        }),
{
    reveal_strlit("id");
    reveal_strlit("type");
    reveal_strlit("function");
    reveal_strlit("name");
    reveal_strlit("arguments");
    reveal_strlit("call_id");
    reveal_strlit("input");
    reveal_strlit("reasoning_content");
    assert("id"@.len() == 2);
    assert("type"@.len() == 4);
    assert("function"@.len() == 8);
    assert("name"@.len() == 4);
    assert("arguments"@.len() == 9);
    assert("call_id"@.len() == 7);
    assert("input"@.len() == 5);
    assert("reasoning_content"@.len() == 17);
    assert("name"@[0] == 'n');
    assert("type"@[0] == 't');
    lemma_output_kinds();
    let q = p.after_item(Tree::Object(m), known, registry, fresh);
    assert(q.calls.len() == p.calls.len() + 1 ==> q.calls.drop_last() =~= p.calls);
}

/// A call to a function of a namespace goes upstream under the Chat name that the function
/// was registered under.
pub proof fn namespaced_calls_use_the_chat_name(
    p: Progress,
    m: Map<Seq<char>, Tree>,
    id: Seq<char>,
    name: Seq<char>,
    namespace: Seq<char>,
    known: Seq<Seq<char>>,
    registry: Registry,
    fresh: Seq<char>,
    i: int,
)
    requires
        is_call(m, id),
        forall|k: int| 0 <= k < known.len() ==> #[trigger] known[k] != id,
        m.contains_key("name"@),
        m["name"@] == Tree::Str(name),
        m.contains_key("namespace"@),
        m["namespace"@] == Tree::Str(namespace),
        0 <= i < registry.tools.len(),
        registry.tools[i].1.name == name,
        registry.tools[i].1.namespace == Some(namespace),
        forall|j: int|
            0 <= j < registry.tools.len() && (#[trigger] registry.tools[j]).1.name == name
                && registry.tools[j].1.namespace == Some(namespace) ==> j == i,
    ensures
        ({
            let q = p.after_item(Tree::Object(m), known, registry, fresh);
            &&& grows(p.calls, q.calls)
            &&& q.calls.last().at("function"@) matches Some(f)
            &&& f.at("name"@) == Some(Tree::Str(registry.tools[i].0))
        }),
{
    reveal_strlit("id");
    reveal_strlit("type");
    reveal_strlit("function");
    reveal_strlit("name");
    reveal_strlit("arguments");
    reveal_strlit("call_id");
    reveal_strlit("namespace");
    reveal_strlit("reasoning_content");
    assert("id"@.len() == 2);
    assert("type"@.len() == 4);
    assert("function"@.len() == 8);
    assert("name"@.len() == 4);
    assert("arguments"@.len() == 9);
    assert("call_id"@.len() == 7);
    assert("namespace"@.len() == 9);
    assert("reasoning_content"@.len() == 17);
    assert("name"@[0] == 'n');
    assert("type"@[0] == 't');
    assert("namespace"@[0] == 'n');
    assert("arguments"@[0] == 'a');
    lemma_output_kinds();
    lemma_chat_name(registry.tools, namespace, name, i);
    let q = p.after_item(Tree::Object(m), known, registry, fresh);
    assert(q.calls.drop_last() =~= p.calls);
}

proof fn lemma_chat_name(
    tools: Seq<(Seq<char>, crate::context::Origin)>,
    namespace: Seq<char>,
    name: Seq<char>,
    i: int,
)
    requires
        0 <= i < tools.len(),
        tools[i].1.name == name,
        tools[i].1.namespace == Some(namespace),
        forall|j: int|
            0 <= j < tools.len() && (#[trigger] tools[j]).1.name == name && tools[j].1.namespace
                == Some(namespace) ==> j == i,
    ensures
        crate::context::chat_name_in(tools, namespace, name) == Some(tools[i].0),
    decreases tools.len(),
{
    let n = tools.len() - 1;
    if i < n {
        let front = tools.drop_last();
        assert(tools[n].1.name != name || tools[n].1.namespace != Some(namespace));
        assert forall|j: int|
            0 <= j < front.len() && (#[trigger] front[j]).1.name == name && front[j].1.namespace
                == Some(namespace) implies j == i by {
            assert(front[j] == tools[j]);
        }
        lemma_chat_name(front, namespace, name, i);
    }
}

/// An image that is given as a `data:` URI of an image is shown by the user; one behind
/// plain `http` is not, and that is recorded.
pub proof fn images_are_shown_where_they_are_safe(
    p: Progress,
    m: Map<Seq<char>, Tree>,
    url: Seq<char>,
    known: Seq<Seq<char>>,
    registry: Registry,
    fresh: Seq<char>,
)
    requires
        m.contains_key("type"@),
        m["type"@] == Tree::Str("input_image"@),
        m.contains_key("image_url"@),
        m["image_url"@] == Tree::Str(url),
    ensures
        ({
            let q = p.after_item(Tree::Object(m), known, registry, fresh);
            &&& crate::text::begins(url, "data:image/"@) ==> {
                let said = q.messages.last();
                &&& q.losses == p.losses
                &&& q.messages.len() == p.messages.len() + waiting(p) + 1
                &&& said.at("role"@) == Some(Tree::Str("user"@))
                &&& said.at("content"@) matches Some(Tree::Array(parts))
                &&& parts.len() == 1
                &&& parts[0].at("type"@) == Some(Tree::Str("image_url"@))
                &&& parts[0].at("image_url"@) matches Some(image)
                &&& image.at("url"@) == Some(Tree::Str(url))
            }
            &&& crate::text::begins(url, "http://"@) ==> {
                &&& q.messages.len() == p.messages.len() + waiting(p)
                &&& grows(p.losses, q.losses)
                &&& q.losses.last().kind == TransformLoss::SkippedUnsupportedImage
            }
        }),
{
    reveal_strlit("role");
    reveal_strlit("content");
    reveal_strlit("tool_calls");
    reveal_strlit("tool_call_id");
    reveal_strlit("reasoning_content");
    reveal_strlit("type");
    reveal_strlit("image_url");
    reveal_strlit("url");
    reveal_strlit("detail");
    assert("role"@.len() == 4);
    assert("content"@.len() == 7);
    assert("tool_calls"@.len() == 10);
    assert("tool_call_id"@.len() == 12);
    assert("reasoning_content"@.len() == 17);
    assert("type"@.len() == 4);
    assert("image_url"@.len() == 9);
    assert("url"@.len() == 3);
    assert("detail"@.len() == 6);
    assert("type"@[0] == 't');
    assert("role"@[0] == 'r');
    reveal_strlit("input_image");
    reveal_strlit("data:");
    reveal_strlit("data:image/");
    reveal_strlit("http://");
    reveal_strlit("https://");
    lemma_media_kinds();
    let q = p.after_item(Tree::Object(m), known, registry, fresh);
    if crate::text::begins(url, "data:image/"@) {
        assert(url.subrange(0, 11)[0] == 'd');
        assert(url.subrange(0, 5) =~= "data:"@) by {
            assert forall|k: int| 0 <= k < 5 implies url.subrange(0, 5)[k] == "data:"@[k] by {
                assert(url.subrange(0, 11)[k] == "data:image/"@[k]);
            }
        }
        assert(crate::media::safe_url(url, Some("data:image/"@)));
    }
    if crate::text::begins(url, "http://"@) {
        assert(url.subrange(0, 7)[0] == 'h');
        assert(url.subrange(0, 7)[4] == ':');
        assert(!crate::text::begins(url, "data:"@)) by {
            if crate::text::begins(url, "data:"@) {
                assert(url.subrange(0, 5)[0] == "data:"@[0]);
            }
        }
        assert(!crate::text::begins(url, "https://"@)) by {
            if crate::text::begins(url, "https://"@) {
                assert(url.subrange(0, 8)[4] == "https://"@[4]);
            }
        }
        assert(q.losses.drop_last() =~= p.losses);
    }
}

proof fn lemma_media_kinds()
    ensures
        crate::protocol::item_kind("input_image"@) == crate::protocol::InputItemKind::Image,
        crate::protocol::item_kind("input_audio"@) == crate::protocol::InputItemKind::Audio,
        "input_audio"@ != "input_image"@,
{
    reveal_strlit("reasoning");
    reveal_strlit("input_text");
    reveal_strlit("output_text");
    reveal_strlit("text");
    reveal_strlit("latest_reminder");
    reveal_strlit("input_image");
    reveal_strlit("input_audio");
    reveal_strlit("function_call");
    reveal_strlit("custom_tool_call");
    reveal_strlit("tool_search_call");
    reveal_strlit("function_call_output");
    reveal_strlit("custom_tool_call_output");
    reveal_strlit("tool_search_output");
    reveal_strlit("message");
    assert("reasoning"@.len() == 9);
    assert("input_text"@.len() == 10);
    assert("output_text"@.len() == 11);
    assert("text"@.len() == 4);
    assert("latest_reminder"@.len() == 15);
    assert("input_image"@.len() == 11);
    assert("input_audio"@.len() == 11);
    assert("function_call"@.len() == 13);
    assert("custom_tool_call"@.len() == 16);
    assert("tool_search_call"@.len() == 16);
    assert("function_call_output"@.len() == 20);
    assert("custom_tool_call_output"@.len() == 23);
    assert("tool_search_output"@.len() == 18);
    assert("message"@.len() == 7);
    assert("input_image"@[0] == 'i');
    assert("input_image"@[6] == 'i');
    assert("output_text"@[0] == 'o');
    assert("input_audio"@[0] == 'i');
    assert("input_audio"@[6] == 'a');
    assert("tool_search_call"@[0] == 't');
    assert("custom_tool_call"@[0] == 'c');
}

/// Audio data of an accepted format is heard from the user as a `data:` URI of that format.
pub proof fn audio_is_heard(
    p: Progress,
    m: Map<Seq<char>, Tree>,
    data: Seq<char>,
    format: Seq<char>,
    known: Seq<Seq<char>>,
    registry: Registry,
    fresh: Seq<char>,
)
    requires
        m.contains_key("type"@),
        m["type"@] == Tree::Str("input_audio"@),
        !m.contains_key("input_audio"@),
        !m.contains_key("audio_url"@),
        m.contains_key("data"@),
        m["data"@] == Tree::Str(data),
        data.len() > 0,
        !crate::text::begins(data, "data:"@),
        m.contains_key("format"@),
        m["format"@] == Tree::Str(format),
        format == "wav"@ || format == "mp3"@ || format == "flac"@ || format == "ogg"@ || format
            == "m4a"@ || format == "aac"@,
    ensures
        ({
            let q = p.after_item(Tree::Object(m), known, registry, fresh);
            let said = q.messages.last();
            &&& q.losses == p.losses
            &&& q.messages.len() == p.messages.len() + waiting(p) + 1
            &&& said.at("role"@) == Some(Tree::Str("user"@))
            &&& said.at("content"@) matches Some(Tree::Array(parts))
            &&& parts.len() == 1
            &&& parts[0].at("type"@) == Some(Tree::Str("input_audio"@))
            &&& parts[0].at("input_audio"@) matches Some(audio)
            &&& audio.at("data"@) == Some(
                Tree::Str("data:audio/"@ + format + ";base64,"@ + data),
            )
        }),
{
    reveal_strlit("role");
    reveal_strlit("content");
    reveal_strlit("tool_calls");
    reveal_strlit("tool_call_id");
    reveal_strlit("reasoning_content");
    reveal_strlit("type");
    reveal_strlit("input_audio");
    reveal_strlit("audio_url");
    reveal_strlit("data");
    reveal_strlit("format");
    reveal_strlit("url");
    assert("role"@.len() == 4);
    assert("content"@.len() == 7);
    assert("tool_calls"@.len() == 10);
    assert("tool_call_id"@.len() == 12);
    assert("reasoning_content"@.len() == 17);
    assert("type"@.len() == 4);
    assert("input_audio"@.len() == 11);
    assert("audio_url"@.len() == 9);
    assert("data"@.len() == 4);
    assert("format"@.len() == 6);
    assert("url"@.len() == 3);
    assert("type"@[0] == 't');
    assert("role"@[0] == 'r');
    assert("data"@[0] == 'd');
    reveal_strlit("wav");
    reveal_strlit("mp3");
    reveal_strlit("flac");
    reveal_strlit("ogg");
    reveal_strlit("m4a");
    reveal_strlit("aac");
    assert("wav"@.len() == 3);
    assert("mp3"@.len() == 3);
    assert("flac"@.len() == 4);
    assert("ogg"@.len() == 3);
    assert("m4a"@.len() == 3);
    assert("aac"@.len() == 3);
    assert("mp3"@[0] == 'm');
    assert("mp3"@[1] == 'p');
    assert("wav"@[0] == 'w');
    assert("ogg"@[0] == 'o');
    assert("m4a"@[0] == 'm');
    assert("m4a"@[1] == '4');
    assert("aac"@[0] == 'a');
    lemma_media_kinds();
    assert(format.len() == 3 || format.len() == 4);
    assert(crate::text::lower(format) =~= format) by {
        assert forall|k: int| 0 <= k < format.len() implies crate::text::lower(format)[k]
            == format[k] by {
            assert("wav"@[0] == 'w' && "wav"@[1] == 'a' && "wav"@[2] == 'v');
            assert("mp3"@[0] == 'm' && "mp3"@[1] == 'p' && "mp3"@[2] == '3');
            assert("flac"@[0] == 'f' && "flac"@[1] == 'l' && "flac"@[2] == 'a' && "flac"@[3]
                == 'c');
            assert("ogg"@[0] == 'o' && "ogg"@[1] == 'g' && "ogg"@[2] == 'g');
            assert("m4a"@[0] == 'm' && "m4a"@[1] == '4' && "m4a"@[2] == 'a');
            assert("aac"@[0] == 'a' && "aac"@[1] == 'a' && "aac"@[2] == 'c');
        }
    }
    assert(crate::text::trim(format) == format) by {
        assert(!crate::text::is_space(format[0]) && !crate::text::is_space(format.last())) by {
            assert("wav"@[0] == 'w' && "wav"@[2] == 'v');
            assert("mp3"@[0] == 'm' && "mp3"@[2] == '3');
            assert("flac"@[0] == 'f' && "flac"@[3] == 'c');
            assert("ogg"@[0] == 'o' && "ogg"@[2] == 'g');
            assert("m4a"@[0] == 'm' && "m4a"@[2] == 'a');
            assert("aac"@[0] == 'a' && "aac"@[2] == 'c');
        }
        crate::laws::tools::lemma_trimmed(format);
    }
    let q = p.after_item(Tree::Object(m), known, registry, fresh);
}

/// The text of a reasoning item belongs to the assistant: it is added to the message of the
/// assistant that stands last, or waits for the next one.
pub proof fn reasoning_belongs_to_the_assistant(
    p: Progress,
    m: Map<Seq<char>, Tree>,
    text: Seq<char>,
    known: Seq<Seq<char>>,
    registry: Registry,
    fresh: Seq<char>,
)
    requires
        m.contains_key("type"@),
        m["type"@] == Tree::Str("reasoning"@),
        !m.contains_key("summary"@),
        m.contains_key("text"@),
        m["text"@] == Tree::Str(text),
        crate::text::trim(text).len() > 0,
        p.calls.len() == 0,
    ensures
        ({
            let q = p.after_item(Tree::Object(m), known, registry, fresh);
            let own = crate::text::trim(text);
            &&& q.losses == p.losses
            &&& p.messages.len() > 0 && p.messages.last().at("role"@) == Some(
                Tree::Str("assistant"@),
            ) && p.messages.last().at("reasoning_content"@) is None ==> {
                &&& q.reasoning == p.reasoning
                &&& q.messages.len() == p.messages.len()
                &&& q.messages.drop_last() == p.messages.drop_last()
                &&& q.messages.last().at("reasoning_content"@) == Some(Tree::Str(own))
                &&& q.messages.last().at("content"@) == p.messages.last().at("content"@)
            }
            &&& p.messages.len() == 0 || p.messages.last() is Object && p.messages.last().at(
                "role"@,
            ) != Some(Tree::Str("assistant"@)) ==> {
                &&& q.messages == p.messages
                &&& q.reasoning == match p.reasoning {
                    Some(before) => Some(before + "\n\n"@ + own),
                    None => Some(own),
                }
            }
        }),
{
    reveal_strlit("type");
    reveal_strlit("summary");
    reveal_strlit("text");
    reveal_strlit("reasoning_content");
    reveal_strlit("encrypted_content");
    reveal_strlit("role");
    reveal_strlit("content");
    assert("type"@.len() == 4);
    assert("summary"@.len() == 7);
    assert("text"@.len() == 4);
    assert("reasoning_content"@.len() == 17);
    assert("encrypted_content"@.len() == 17);
    assert("role"@.len() == 4);
    assert("content"@.len() == 7);
    assert("text"@[0] == 't');
    assert("text"@[1] == 'e');
    assert("type"@[0] == 't');
    assert("type"@[1] == 'y');
    assert("role"@[0] == 'r');
    assert("content"@[0] == 'c');
    assert("summary"@[0] == 's');
    assert("encrypted_content"@[0] == 'e');
    assert("reasoning_content"@[0] == 'r');
    lemma_output_kinds();
    crate::text::lemma_trim_empty();
    assert(text.len() > 0) by {
        if text.len() == 0 {
            assert(text =~= Seq::empty());
        }
    }
    let q = p.after_item(Tree::Object(m), known, registry, fresh);
    if p.messages.len() > 0 && p.messages.last().at("role"@) == Some(Tree::Str("assistant"@)) {
        assert(q.messages.drop_last() =~= p.messages.drop_last());
    }
}

/// What waits for its message goes into one message of the assistant as soon as the user
/// speaks: the calls in their order and the reasoning.
pub proof fn what_waits_is_said_before_the_user(
    p: Progress,
    m: Map<Seq<char>, Tree>,
    text: Seq<char>,
    known: Seq<Seq<char>>,
    registry: Registry,
    fresh: Seq<char>,
)
    requires
        m.contains_key("type"@),
        m["type"@] == Tree::Str("input_text"@),
        m.contains_key("text"@),
        m["text"@] == Tree::Str(text),
    ensures
        ({
            let q = p.after_item(Tree::Object(m), known, registry, fresh);
            let at = p.messages.len() as int;
            &&& q.losses == p.losses
            &&& q.calls.len() == 0
            &&& q.reasoning is None
            &&& q.messages.len() == at + waiting(p) + 1
            &&& q.messages.take(at) == p.messages
            &&& q.messages.last().at("role"@) == Some(Tree::Str("user"@))
            &&& q.messages.last().at("content"@) == Some(Tree::Str(text))
            &&& waiting(p) == 1 ==> q.messages[at].at("role"@) == Some(Tree::Str("assistant"@))
            &&& p.calls.len() > 0 ==> q.messages[at].at("tool_calls"@) == Some(
                Tree::Array(p.calls),
            )
            &&& p.reasoning matches Some(r) ==> q.messages[at].at("reasoning_content"@) == Some(
                Tree::Str(r),
            )
        }),
{
    reveal_strlit("type");
    reveal_strlit("text");
    reveal_strlit("role");
    reveal_strlit("content");
    reveal_strlit("tool_calls");
    reveal_strlit("tool_call_id");
    reveal_strlit("reasoning_content");
    assert("type"@.len() == 4);
    assert("text"@.len() == 4);
    assert("role"@.len() == 4);
    assert("content"@.len() == 7);
    assert("tool_calls"@.len() == 10);
    assert("tool_call_id"@.len() == 12);
    assert("reasoning_content"@.len() == 17);
    assert("text"@[0] == 't');
    assert("text"@[1] == 'e');
    assert("type"@[0] == 't');
    assert("type"@[1] == 'y');
    assert("role"@[0] == 'r');
    lemma_output_kinds();
    let q = p.after_item(Tree::Object(m), known, registry, fresh);
    assert(q.messages.take(p.messages.len() as int) =~= p.messages);
}

/// What is no object, and what has a type that is not known and says nothing, is skipped
/// and recorded.
pub proof fn unknown_items_are_skipped(
    p: Progress,
    item: Tree,
    known: Seq<Seq<char>>,
    registry: Registry,
    fresh: Seq<char>,
)
    ensures
        ({
            let q = p.after_item(item, known, registry, fresh);
            &&& !(item is Object) ==> q.messages.len() == p.messages.len() + waiting(p) && grows(
                p.losses,
                q.losses,
            ) && q.losses.last().kind == TransformLoss::SkippedNonDictItem
            &&& item is Object && item.at("type"@) is None && item.at("role"@) is None && item.at(
                "content"@,
            ) is None ==> q.messages.len() == p.messages.len() + waiting(p) && grows(
                p.losses,
                q.losses,
            ) && q.losses.last().kind == TransformLoss::SkippedUnknownItemType
        }),
{
    lemma_output_kinds();
    reveal_strlit("message");
    assert("message"@.len() == 7);
    let q = p.after_item(item, known, registry, fresh);
    assert(q.losses.len() == p.losses.len() + 1 ==> q.losses.drop_last() =~= p.losses);
}

} // verus!
