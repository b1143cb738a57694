//! How calls find their way back to the tools that the client declared.
use vstd::prelude::*;
use crate::context::{Origin, Registry, ToolKind};
use crate::convert::chat_to_responses::call_item;
use crate::json::{parsed, rendered, Tree};
use crate::stream_tools::{kind_of, Call};
use crate::text::trim;

verus! {

/// Whether a text denotes an object, and the compact text of that object does so too.
pub open spec fn denotes(text: Seq<char>, m: Map<Seq<char>, Tree>) -> bool {
    &&& trim(text).len() > 0
    &&& parsed(text) == Some(Tree::Object(m))
    &&& parsed(rendered(Tree::Object(m))) == Some(Tree::Object(m))
    &&& trim(rendered(Tree::Object(m))).len() > 0
}

/// Whether an item is the call of a tool with some arguments.
pub open spec fn reaches(
    item: Tree,
    o: Origin,
    call_id: Seq<char>,
    m: Map<Seq<char>, Tree>,
) -> bool {
    &&& item.at("call_id"@) == Some(Tree::Str(call_id))
    &&& item.at("status"@) == Some(Tree::Str("completed"@))
    &&& match o.kind {
        ToolKind::Custom => {
            &&& item.at("type"@) == Some(Tree::Str("custom_tool_call"@))
            &&& item.at("arguments"@) is None
            &&& m.contains_key("input"@) ==> m["input"@] is Str ==> item.at("input"@) == Some(
                m["input"@],
            )
            &&& !m.contains_key("input"@) ==> item.at("input"@) == Some(
                Tree::Str(rendered(Tree::Object(m))),
            )
        },
        ToolKind::ToolSearch => {
            &&& item.at("type"@) == Some(Tree::Str("tool_search_call"@))
            &&& item.at("execution"@) == Some(Tree::Str("client"@))
            &&& item.at("arguments"@) == Some(Tree::Object(m))
            &&& item.at("name"@) is None
        },
        ToolKind::Function => {
            &&& item.at("type"@) == Some(Tree::Str("function_call"@))
            &&& item.at("arguments"@) == Some(Tree::Str(rendered(Tree::Object(m))))
            &&& item.at("namespace"@) == match o.namespace {
                Some(n) => Some(Tree::Str(n)),
                None => None,
            }
            &&& item.at("name"@) == Some(Tree::Str(o.name))
        },
        _ => true,
    }
}

proof fn lemma_listed(tools: Seq<(Seq<char>, Origin)>, name: Seq<char>, o: Origin)
    requires
        crate::context::origin_in(tools, name) == Some(o),
    ensures
        exists|i: int| 0 <= i < tools.len() && (#[trigger] tools[i]).1 == o,
    decreases tools.len(),
{
    let front = tools.drop_last();
    if crate::context::origin_in(front, name) == Some(o) {
        lemma_listed(front, name, o);
        let i = choose|i: int| 0 <= i < front.len() && (#[trigger] front[i]).1 == o;
        assert(tools[i].1 == o);
    } else {
        assert(tools[tools.len() - 1].1 == o);
    }
}

/// A call of a registered tool in an answer goes back to the tool as the client declared
/// it: a custom tool gets its input, the tool search its query, and a function its
/// arguments, under its own name and in its namespace.
pub proof fn calls_reach_their_tools(
    call_id: Seq<char>,
    name: Seq<char>,
    arguments: Seq<char>,
    m: Map<Seq<char>, Tree>,
    reasoning: Seq<char>,
    registry: Registry,
    o: Origin,
)
    requires
        registry.origin(name) == Some(o),
        o.kind == ToolKind::ToolSearch <==> name == "tool_search"@,
        name.len() > 0,
        denotes(arguments, m),
    ensures
        ({
            let item = call_item(call_id, name, Some(Tree::Str(arguments)), reasoning, registry);
            &&& reaches(item, o, call_id, m)
            &&& o.kind == ToolKind::Custom ==> item.at("name"@) == Some(Tree::Str(o.name))
            &&& item.at("reasoning_content"@) == if reasoning.len() > 0 {
                Some(Tree::Str(crate::sanitize::sanitized(reasoning)))
            } else {
                None
            }
        }),
{
    reveal_strlit("id");
    reveal_strlit("type");
    reveal_strlit("status");
    reveal_strlit("call_id");
    reveal_strlit("name");
    reveal_strlit("namespace");
    reveal_strlit("execution");
    reveal_strlit("arguments");
    reveal_strlit("input");
    reveal_strlit("reasoning_content");
    assert("id"@.len() == 2);
    assert("type"@.len() == 4);
    assert("status"@.len() == 6);
    assert("call_id"@.len() == 7);
    assert("name"@.len() == 4);
    assert("namespace"@.len() == 9);
    assert("execution"@.len() == 9);
    assert("arguments"@.len() == 9);
    assert("input"@.len() == 5);
    assert("reasoning_content"@.len() == 17);
    assert("name"@[0] == 'n');
    assert("type"@[0] == 't');
    assert("execution"@[0] == 'e');
    assert("namespace"@[0] == 'n');
    assert("arguments"@[0] == 'a');
    lemma_listed(registry.tools, name, o);
}

/// A streamed call of a registered tool goes back to the tool in the same way.
pub proof fn streamed_calls_reach_their_tools(
    call: Call,
    m: Map<Seq<char>, Tree>,
    registry: Registry,
    o: Origin,
)
    requires
        registry.origin(call.name) == Some(o),
        o.kind == ToolKind::ToolSearch <==> call.name == "tool_search"@,
        call.name.len() > 0,
        call.namespace is None,
        o.namespace is None ==> o.name == call.name,
        denotes(call.arguments, m),
    ensures
        reaches(call.done_item(kind_of(registry, call.name), registry), o, call.call_id, m),
{
    reveal_strlit("id");
    reveal_strlit("type");
    reveal_strlit("status");
    reveal_strlit("call_id");
    reveal_strlit("name");
    reveal_strlit("namespace");
    reveal_strlit("execution");
    reveal_strlit("arguments");
    reveal_strlit("input");
    reveal_strlit("reasoning_content");
    assert("id"@.len() == 2);
    assert("type"@.len() == 4);
    assert("status"@.len() == 6);
    assert("call_id"@.len() == 7);
    assert("name"@.len() == 4);
    assert("namespace"@.len() == 9);
    assert("execution"@.len() == 9);
    assert("arguments"@.len() == 9);
    assert("input"@.len() == 5);
    assert("reasoning_content"@.len() == 17);
    assert("name"@[0] == 'n');
    assert("type"@[0] == 't');
    assert("execution"@[0] == 'e');
    assert("namespace"@[0] == 'n');
    assert("arguments"@[0] == 'a');
    lemma_listed(registry.tools, call.name, o);
}

} // verus!
