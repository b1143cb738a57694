//! What a conversation remembers: the reasoning behind its calls and the tools of its turns.
use vstd::prelude::*;
use crate::context::{Origin, Registry};
use crate::json::Tree;
use crate::reasoning_cache::{cached, first_kept, restored, with_calls};
use crate::text::trim;

verus! {

/// Whether a message of the assistant makes some calls.
pub open spec fn makes(m: Map<Seq<char>, Tree>, calls: Seq<Tree>) -> bool {
    &&& m.contains_key("role"@)
    &&& m["role"@] == Tree::Str("assistant"@)
    &&& m.contains_key("tool_calls"@)
    &&& m["tool_calls"@] == Tree::Array(calls)
}

/// Whether a call has an id.
pub open spec fn is_identified(call: Tree, id: Seq<char>) -> bool {
    call.at("id"@) == Some(Tree::Str(id)) && id.len() > 0
}

proof fn lemma_with_calls(
    cache: Map<Seq<char>, Seq<char>>,
    calls: Seq<Tree>,
    reasoning: Seq<char>,
    k: int,
    id: Seq<char>,
)
    requires
        0 <= k < calls.len(),
        is_identified(calls[k], id),
    ensures
        with_calls(cache, calls, reasoning).contains_key(id),
        with_calls(cache, calls, reasoning)[id] == reasoning,
    decreases calls.len(),
{
    let front = calls.drop_last();
    if k < front.len() {
        assert(front[k] == calls[k]);
        lemma_with_calls(cache, front, reasoning, k, id);
    }
}

/// The reasoning of a message is remembered under the id of every call that it makes, not
/// only of the first.
pub proof fn reasoning_is_remembered_for_every_call(
    messages: Seq<Tree>,
    m: Map<Seq<char>, Tree>,
    calls: Seq<Tree>,
    reasoning: Seq<char>,
    k: int,
    id: Seq<char>,
)
    requires
        makes(m, calls),
        m.contains_key("reasoning_content"@),
        m["reasoning_content"@] == Tree::Str(reasoning),
        trim(reasoning).len() > 0,
        0 <= k < calls.len(),
        is_identified(calls[k], id),
    ensures
        cached(messages.push(Tree::Object(m))).contains_key(id),
        cached(messages.push(Tree::Object(m)))[id] == reasoning,
{
    let all = messages.push(Tree::Object(m));
    assert(all.drop_last() =~= messages);
    assert(all.last() == Tree::Object(m));
    lemma_with_calls(cached(messages), calls, reasoning, k, id);
}

proof fn lemma_first_known(
    calls: Seq<Tree>,
    ids: Seq<Seq<char>>,
    cache: Map<Seq<char>, Seq<char>>,
    k: int,
)
    requires
        ids.len() == calls.len(),
        forall|j: int| 0 <= j < calls.len() ==> is_identified(#[trigger] calls[j], ids[j]),
        0 <= k < calls.len(),
        cache.contains_key(ids[k]),
        forall|j: int| 0 <= j < k ==> !cache.contains_key(#[trigger] ids[j]),
    ensures
        first_kept(calls, cache) == Some(cache[ids[k]]),
    decreases calls.len(),
{
    let front = calls.drop_last();
    let some = ids.drop_last();
    assert forall|j: int| 0 <= j < front.len() implies is_identified(
        #[trigger] front[j],
        some[j],
    ) by {
        assert(front[j] == calls[j] && some[j] == ids[j]);
    }
    assert(is_identified(calls[calls.len() - 1], ids[ids.len() - 1]));
    if k < front.len() {
        assert forall|j: int| 0 <= j < k implies !cache.contains_key(#[trigger] some[j]) by {
            assert(some[j] == ids[j]);
        }
        lemma_first_known(front, some, cache, k);
    } else {
        lemma_none_known(front, some, cache);
    }
}

proof fn lemma_none_known(
    calls: Seq<Tree>,
    ids: Seq<Seq<char>>,
    cache: Map<Seq<char>, Seq<char>>,
)
    requires
        ids.len() == calls.len(),
        forall|j: int| 0 <= j < calls.len() ==> is_identified(#[trigger] calls[j], ids[j]),
        forall|j: int| 0 <= j < ids.len() ==> !cache.contains_key(#[trigger] ids[j]),
    ensures
        first_kept(calls, cache) is None,
    decreases calls.len(),
{
    if calls.len() > 0 {
        let front = calls.drop_last();
        let some = ids.drop_last();
        assert forall|j: int| 0 <= j < front.len() implies is_identified(
            #[trigger] front[j],
            some[j],
        ) && !cache.contains_key(some[j]) by {
            assert(front[j] == calls[j] && some[j] == ids[j]);
        }
        assert forall|j: int| 0 <= j < some.len() implies !cache.contains_key(
            #[trigger] some[j],
        ) by {
            assert(some[j] == ids[j]);
        }
        lemma_none_known(front, some, cache);
        assert(is_identified(calls[calls.len() - 1], ids[ids.len() - 1]));
        assert(!cache.contains_key(ids[ids.len() - 1]));
    }
}

/// A message that makes calls and lacks its reasoning gets back what is remembered under the
/// first of its calls that is known; one of which no call is known stays as it is.
pub proof fn remembered_reasoning_is_given_back(
    m: Map<Seq<char>, Tree>,
    calls: Seq<Tree>,
    ids: Seq<Seq<char>>,
    cache: Map<Seq<char>, Seq<char>>,
    k: int,
)
    requires
        makes(m, calls),
        !m.contains_key("reasoning_content"@),
        ids.len() == calls.len(),
        forall|j: int| 0 <= j < calls.len() ==> is_identified(#[trigger] calls[j], ids[j]),
        0 <= k <= calls.len(),
        k < calls.len() ==> cache.contains_key(ids[k]),
        forall|j: int| 0 <= j < k ==> !cache.contains_key(#[trigger] ids[j]),
    ensures
        ({
            let after = restored(Tree::Object(m), cache);
            &&& k < calls.len() ==> after.at("reasoning_content"@) == Some(
                Tree::Str(cache[ids[k]]),
            )
            &&& k == calls.len() ==> after == Tree::Object(m)
            &&& forall|name: Seq<char>|
                name != "reasoning_content"@ ==> #[trigger] after.at(name) == Tree::Object(m).at(
                    name,
                )
        }),
{
    if k < calls.len() {
        lemma_first_known(calls, ids, cache, k);
    } else {
        lemma_none_known(calls, ids, cache);
    }
}

/// Whether a Chat tool is a function of a name.
pub open spec fn is_function_of(tool: Tree, name: Seq<char>) -> bool {
    &&& tool.at("type"@) == Some(Tree::Str("function"@))
    &&& tool.at("function"@) matches Some(f)
    &&& f.at("name"@) == Some(Tree::Str(name))
    &&& trim(name).len() > 0
}

proof fn lemma_only_from(r: Registry, other: Registry, tools: Seq<Tree>, name: Seq<char>, o: Origin)
    requires
        other.origin(name) == Some(o),
        forall|j: int| 0 <= j < r.tools.len() ==> (#[trigger] r.tools[j]).0 != name,
    ensures
        ({
            let after = r.with_merged_tools(other, tools);
            forall|j: int|
                0 <= j < after.tools.len() && (#[trigger] after.tools[j]).0 == name
                    ==> after.tools[j].1 == o
        }),
    decreases tools.len(),
{
    if tools.len() > 0 {
        lemma_only_from(r, other, tools.drop_last(), name, o);
    }
}

proof fn lemma_merged(
    r: Registry,
    other: Registry,
    tools: Seq<Tree>,
    i: int,
    name: Seq<char>,
    o: Origin,
)
    requires
        0 <= i < tools.len(),
        is_function_of(tools[i], name),
        other.origin(name) == Some(o),
        forall|j: int| 0 <= j < r.tools.len() ==> (#[trigger] r.tools[j]).0 != name,
    ensures
        r.with_merged_tools(other, tools).tools.contains((name, o)),
    decreases tools.len(),
{
    reveal_strlit("function");
    reveal_strlit("web_search");
    reveal_strlit("file_search");
    reveal_strlit("computer_use");
    reveal_strlit("computer_use_preview");
    reveal_strlit("code_interpreter");
    reveal_strlit("mcp");
    assert("function"@.len() == 8);
    assert("web_search"@.len() == 10);
    assert("file_search"@.len() == 11);
    assert("computer_use"@.len() == 12);
    assert("computer_use_preview"@.len() == 20);
    assert("code_interpreter"@.len() == 16);
    assert("mcp"@.len() == 3);
    let front = tools.drop_last();
    let before = r.with_merged_tools(other, front);
    let after = r.with_merged_tools(other, tools);
    if i < front.len() {
        assert(front[i] == tools[i]);
        lemma_merged(r, other, front, i, name, o);
        let j = choose|j: int| 0 <= j < before.tools.len() && before.tools[j] == (name, o);
        assert(after.tools[j] == (name, o));
    } else {
        lemma_only_from(r, other, front, name, o);
        if before.knows(name) {
            let j = choose|j: int| before.registered_at(name, j);
            assert(before.tools[j].0 == name);
            assert(before.tools[j] == (name, o));
            assert(after.tools[j] == (name, o));
        } else {
            assert(after.tools[before.tools.len() as int] == (name, o));
        }
    }
}

/// A turn that goes on from another has the tools of both: every function that it declares
/// itself is registered as it declares it, unless the earlier turn had one of that name.
pub proof fn tools_of_both_turns_are_registered(
    earlier: Registry,
    own: Registry,
    i: int,
    name: Seq<char>,
    o: Origin,
)
    requires
        0 <= i < own.chat_tools.len(),
        is_function_of(own.chat_tools[i], name),
        own.origin(name) == Some(o),
        forall|j: int| 0 <= j < earlier.tools.len() ==> (#[trigger] earlier.tools[j]).0 != name,
    ensures
        earlier.merged(own).tools.contains((name, o)),
        forall|j: int|
            0 <= j < earlier.tools.len() ==> earlier.merged(own).tools.contains(
                #[trigger] earlier.tools[j],
            ),
{
    lemma_merged(earlier, own, own.chat_tools, i, name, o);
    let all = earlier.with_merged_tools(own, own.chat_tools);
    let j = choose|j: int| 0 <= j < all.tools.len() && all.tools[j] == (name, o);
    assert(earlier.merged(own).tools[j] == (name, o));
    assert forall|j: int| 0 <= j < earlier.tools.len() implies earlier.merged(own).tools.contains(
        #[trigger] earlier.tools[j],
    ) by {
        crate::context::merging_keeps_registered_tools(earlier, own, j);
        assert(earlier.merged(own).tools[j] == earlier.tools[j]);
    }
}

} // verus!
