//! What becomes of the tool calls of a streamed Chat answer.
use vstd::prelude::*;
use crate::context::{Registry, ToolKind};
use crate::json::Tree;
use crate::laws::answers::is_unregistered;
use crate::stream_envelope::Envelope;
use crate::stream_responses_state::Stream;
use crate::stream_tools::{
    at_work, call_at, close_step, delta_step, has_call, place, place_from, sound, Call, Tools,
};

verus! {

/// Whether no tool of a registry is a namespace that is called as a whole.
pub open spec fn has_no_namespaces(r: Registry) -> bool {
    forall|i: int|
        0 <= i < r.tools.len() ==> (#[trigger] r.tools[i]).1.kind != ToolKind::Namespace
}

proof fn lemma_not_nested(r: Registry, name: Seq<char>)
    requires
        has_no_namespaces(r),
    ensures
        crate::stream_tools::nested_spec(r, name) is None,
{
    lemma_origin_kind(r.tools, name);
}

proof fn lemma_origin_kind(tools: Seq<(Seq<char>, crate::context::Origin)>, name: Seq<char>)
    requires
        forall|i: int| 0 <= i < tools.len() ==> (#[trigger] tools[i]).1.kind != ToolKind::Namespace,
    ensures
        crate::context::origin_in(tools, name) matches Some(o) ==> o.kind != ToolKind::Namespace,
    decreases tools.len(),
{
    if tools.len() > 0 {
        let front = tools.drop_last();
        assert forall|i: int| 0 <= i < front.len() implies (#[trigger] front[i]).1.kind
            != ToolKind::Namespace by {
            assert(front[i] == tools[i]);
        }
        lemma_origin_kind(front, name);
        assert(tools[tools.len() - 1].1.kind != ToolKind::Namespace);
    }
}

/// Whether a delta of a tool call brings an id, a name and arguments.
pub open spec fn brings(
    tool_call: Tree,
    index: int,
    id: Seq<char>,
    name: Seq<char>,
    arguments: Seq<char>,
) -> bool {
    &&& i64::MIN <= index <= i64::MAX
    &&& tool_call.at("index"@) == Some(Tree::Int(index))
    &&& tool_call.at("id"@) == Some(Tree::Str(id))
    &&& id.len() > 0
    &&& tool_call.at("function"@) matches Some(f)
    &&& f.at("name"@) == Some(Tree::Str(name))
    &&& name.len() > 0
    &&& f.at("arguments"@) == Some(Tree::Str(arguments))
    &&& f is Object
}

/// Whether a delta of a tool call brings more arguments and nothing else.
pub open spec fn brings_more(tool_call: Tree, index: int, arguments: Seq<char>) -> bool {
    &&& i64::MIN <= index <= i64::MAX
    &&& tool_call.at("index"@) == Some(Tree::Int(index))
    &&& tool_call.at("id"@) is None
    &&& tool_call.at("function"@) matches Some(f)
    &&& f.at("name"@) is None
    &&& f.at("arguments"@) == Some(Tree::Str(arguments))
    &&& f is Object
}

proof fn lemma_place(calls: Seq<(int, Call)>, index: int, from: int)
    requires
        0 <= from <= calls.len(),
    ensures
        from <= place_from(calls, index, from) <= calls.len(),
        forall|k: int|
            from <= k < place_from(calls, index, from) ==> (#[trigger] calls[k]).0 < index,
        place_from(calls, index, from) < calls.len() ==> calls[place_from(calls, index, from)].0
            >= index,
    decreases calls.len() - from,
{
    if from < calls.len() && calls[from].0 < index {
        lemma_place(calls, index, from + 1);
    }
}

proof fn lemma_step(
    call: Call,
    base: Option<int>,
    e: Envelope,
    r: Registry,
    index: int,
    a: Option<Seq<char>>,
)
    requires
        has_no_namespaces(r),
        !call.buffered,
    ensures
        ({
            let after = delta_step(at_work(call, base, e), r, index, a).state.call;
            &&& after.arguments == call.arguments
            &&& !after.buffered
            &&& after.done == call.done
            &&& after.namespace == call.namespace
            &&& call.call_id.len() > 0 ==> after.call_id == call.call_id
            &&& call.name.len() > 0 ==> after.name == call.name
        }),
{
    lemma_not_nested(r, call.name);
}

/// The first delta of a call opens it, with its id, its name and its arguments, and leaves
/// all other calls as they are.
pub proof fn calls_are_opened(
    t: Tools,
    e: Envelope,
    tool_call: Tree,
    index: int,
    id: Seq<char>,
    name: Seq<char>,
    arguments: Seq<char>,
    reasoning: Option<Seq<char>>,
    spare_id: Seq<char>,
)
    requires
        !t.finalized,
        sound(t),
        has_no_namespaces(t.registry),
        brings(tool_call, index, id, name, arguments),
        forall|k: int| 0 <= k < t.calls.len() ==> (#[trigger] t.calls[k]).0 != index,
    ensures
        ({
            let after = t.push(e, tool_call, reasoning, spare_id).state.calls;
            &&& after.len() == t.calls.len() + 1
            &&& exists|k: int|
                #![trigger after[k]]
                0 <= k < after.len() && after[k].0 == index && after[k].1.call_id == id
                    && after[k].1.name == name && after[k].1.arguments == arguments && after.remove(
                    k,
                ) == t.calls
        }),
{
    lemma_place(t.calls, index, 0);
    let p = place(t.calls, index);
    assert(!has_call(t.calls, index)) by {
        if has_call(t.calls, index) {
            assert(t.calls[p].0 == index);
        }
    }
    let call = call_at(t.calls, index, spare_id).with_delta(tool_call, reasoning);
    assert(call.arguments =~= arguments);
    lemma_step(
        call,
        t.base,
        e,
        t.registry,
        index,
        crate::stream_tools::arguments_of(tool_call),
    );
    let after = t.push(e, tool_call, reasoning, spare_id).state.calls;
    assert(after[p].0 == index);
    assert(after.remove(p) =~= t.calls);
}

/// A later delta of a call adds to its arguments, and changes nothing else that the client
/// is told in the end: neither its id nor its name, nor any other call.
pub proof fn arguments_add_up(
    t: Tools,
    e: Envelope,
    tool_call: Tree,
    index: int,
    arguments: Seq<char>,
    reasoning: Option<Seq<char>>,
    spare_id: Seq<char>,
    k: int,
)
    requires
        !t.finalized,
        sound(t),
        has_no_namespaces(t.registry),
        brings_more(tool_call, index, arguments),
        0 <= k < t.calls.len(),
        t.calls[k].0 == index,
        t.calls[k].1.call_id.len() > 0,
        t.calls[k].1.name.len() > 0,
        !t.calls[k].1.buffered,
    ensures
        ({
            let after = t.push(e, tool_call, reasoning, spare_id).state.calls;
            &&& after.len() == t.calls.len()
            &&& after[k].0 == index
            &&& after[k].1.arguments == t.calls[k].1.arguments + arguments
            &&& after[k].1.call_id == t.calls[k].1.call_id
            &&& after[k].1.name == t.calls[k].1.name
            &&& forall|j: int|
                0 <= j < after.len() && j != k ==> #[trigger] after[j] == t.calls[j]
        }),
{
    lemma_place(t.calls, index, 0);
    let p = place(t.calls, index);
    assert(p == k) by {
        if p < k {
            assert(t.calls[p].0 < t.calls[k].0);
        }
        if p > k {
            assert(t.calls[k].0 < index);
        }
    }
    assert(has_call(t.calls, index));
    let call = call_at(t.calls, index, spare_id).with_delta(tool_call, reasoning);
    lemma_step(
        call,
        t.base,
        e,
        t.registry,
        index,
        crate::stream_tools::arguments_of(tool_call),
    );
}

/// Whether a call of an index is among some calls.
pub open spec fn is_among(calls: Seq<(int, Call)>, index: int) -> bool {
    exists|k: int| 0 <= k < calls.len() && (#[trigger] calls[k]).0 == index
}

proof fn lemma_pushed(
    t: Tools,
    e: Envelope,
    tool_call: Tree,
    reasoning: Option<Seq<char>>,
    spare_id: Seq<char>,
    index: int,
)
    requires
        !t.finalized,
    ensures
        ({
            let after = t.push(e, tool_call, reasoning, spare_id).state;
            &&& !after.finalized
            &&& is_among(t.calls, index) ==> is_among(after.calls, index)
            &&& tool_call.at("index"@) == Some(Tree::Int(index)) && i64::MIN <= index <= i64::MAX
                ==> is_among(after.calls, index)
        }),
{
    let own = crate::stream_tools::index_of(tool_call);
    lemma_place(t.calls, own, 0);
    let p = place(t.calls, own);
    let after = t.push(e, tool_call, reasoning, spare_id).state.calls;
    assert(after[p].0 == own);
    if is_among(t.calls, index) {
        let k = choose|k: int| 0 <= k < t.calls.len() && (#[trigger] t.calls[k]).0 == index;
        if has_call(t.calls, own) {
            assert(after[k].0 == index);
        } else if k < p {
            assert(after[k] == t.calls[k]);
        } else {
            assert(after[k + 1] == t.calls[k]);
        }
    }
}

proof fn lemma_all_taken(
    s: Stream,
    calls: Seq<Tree>,
    reasoning: Option<Seq<char>>,
    fresh: Seq<Seq<char>>,
    j: int,
    index: int,
)
    requires
        !s.tools.finalized,
        0 <= j < calls.len(),
        calls[j] is Object,
        calls[j].at("index"@) == Some(Tree::Int(index)),
        i64::MIN <= index <= i64::MAX,
    ensures
        is_among(s.take_calls(calls, reasoning, fresh).stream.tools.calls, index),
        !s.take_calls(calls, reasoning, fresh).stream.tools.finalized,
    decreases calls.len(),
{
    let front = calls.drop_last();
    lemma_still_open(s, front, reasoning, fresh);
    let before = s.take_calls(front, reasoning, fresh).stream;
    let f = before.force().stream;
    let spare = crate::stream_chat_to_responses::spare_at(fresh, calls.len() - 1);
    lemma_pushed(f.tools, f.envelope, calls.last(), reasoning, spare, index);
    if j < front.len() {
        assert(front[j] == calls[j]);
        lemma_all_taken(s, front, reasoning, fresh, j, index);
    }
}

proof fn lemma_still_open(
    s: Stream,
    calls: Seq<Tree>,
    reasoning: Option<Seq<char>>,
    fresh: Seq<Seq<char>>,
)
    requires
        !s.tools.finalized,
    ensures
        !s.take_calls(calls, reasoning, fresh).stream.tools.finalized,
    decreases calls.len(),
{
    if calls.len() > 0 {
        lemma_still_open(s, calls.drop_last(), reasoning, fresh);
        let before = s.take_calls(calls.drop_last(), reasoning, fresh).stream;
        let f = before.force().stream;
        let spare = crate::stream_chat_to_responses::spare_at(fresh, calls.len() - 1);
        lemma_pushed(f.tools, f.envelope, calls.last(), reasoning, spare, 0);
    }
}

/// All tool calls of a chunk are taken in, not only the first: each of them is among the
/// calls of the turn then.
pub proof fn every_call_of_a_chunk_is_taken(
    s: Stream,
    payload: Map<Seq<char>, Tree>,
    delta: Map<Seq<char>, Tree>,
    calls: Seq<Tree>,
    event: Option<Seq<char>>,
    fresh: Seq<Seq<char>>,
    j: int,
    index: int,
)
    requires
        crate::laws::streams::is_sound(payload, event),
        crate::laws::streams::has_delta(payload, delta),
        delta.contains_key("tool_calls"@),
        delta["tool_calls"@] == Tree::Array(calls),
        !delta.contains_key("content"@),
        !delta.contains_key("reasoning_content"@),
        !delta.contains_key("reasoning"@),
        !delta.contains_key("annotations"@),
        !delta.contains_key("refusal"@),
        !s.tools.finalized,
        0 <= j < calls.len(),
        calls[j] is Object,
        calls[j].at("index"@) == Some(Tree::Int(index)),
        i64::MIN <= index <= i64::MAX,
    ensures
        is_among(s.take_chunk(payload, event, fresh).stream.tools.calls, index),
{
    reveal_strlit("content");
    reveal_strlit("reasoning_content");
    reveal_strlit("reasoning");
    reveal_strlit("annotations");
    reveal_strlit("tool_calls");
    reveal_strlit("refusal");
    assert("content"@.len() == 7);
    assert("reasoning_content"@.len() == 17);
    assert("reasoning"@.len() == 9);
    assert("annotations"@.len() == 11);
    assert("tool_calls"@.len() == 10);
    assert("refusal"@.len() == 7);
    assert("refusal"@[0] == 'r');
    assert("content"@[0] == 'c');
    let choice = crate::stream_chat_to_responses::chunk_choice(payload);
    assert(crate::stream_chat_to_responses::delta_of(choice) == delta);
    assert(crate::reasoning::reasoning_field(delta) is None);
    let a = s.with_metadata(Tree::Object(payload)).start().stream;
    crate::laws::streams::lemma_members_parts(a, delta, Seq::empty(), fresh);
    assert(a.take_reasoning(Seq::empty()).stream == a);
    assert(a.with_annotations(None) == a);
    let active = a.reasoning.for_tools();
    let x = if active.len() == 0 {
        a.rest()
    } else {
        a.settle()
    };
    let y = x.followed_by(x.stream.force()).stream;
    let hint = if active.len() == 0 {
        None
    } else {
        Some(crate::sanitize::sanitized(active))
    };
    lemma_all_taken(y, calls, hint, fresh, j, index);
}

/// Whether a call can be told as a plain function call.
pub open spec fn is_tellable(call: Call, r: Registry) -> bool {
    &&& !call.done
    &&& !call.buffered
    &&& call.namespace is None
    &&& !call.resolved
    &&& call.call_id.len() > 0
    &&& call.name.len() > 0
    &&& is_unregistered(r, call.name)
    &&& !is_within_a_namespace(r, call.name)
}

/// Whether a name is made of a namespace of a registry, two underscores and more.
pub open spec fn is_within_a_namespace(r: Registry, name: Seq<char>) -> bool {
    exists|namespace: Seq<char>, rest: Seq<char>|
        crate::text::listed(r.namespaces, namespace) && name == #[trigger] (namespace + "__"@
            + rest)
}

proof fn lemma_not_restored(r: Registry, name: Seq<char>)
    requires
        is_unregistered(r, name),
        !is_within_a_namespace(r, name),
    ensures
        r.restored(name) == (None::<Seq<char>>, name),
{
    crate::laws::answers::lemma_no_origin(r.tools, name);
    lemma_last_split(name, name.len() as int);
    match crate::context::last_split(name, name.len() as int) {
        Some(p) => {
            let namespace = name.take(p);
            let rest = name.skip(p + 2);
            reveal_strlit("__");
            assert(name =~= namespace + "__"@ + rest) by {
                assert(name.subrange(p, p + 2) =~= "__"@);
                assert(name[p] == name.subrange(p, p + 2)[0]);
                assert(name[p + 1] == name.subrange(p, p + 2)[1]);
            }
        },
        None => {},
    }
}

proof fn lemma_last_split(s: Seq<char>, n: int)
    ensures
        crate::context::last_split(s, n) matches Some(p) ==> 0 <= p < n && crate::text::occurs_at(
            s,
            "__"@,
            p,
        ),
    decreases n,
{
    if n > 0 {
        lemma_last_split(s, n - 1);
    }
}

/// Whether an item tells of a call.
pub open spec fn tells_of(item: Tree, call: Call) -> bool {
    &&& item.at("type"@) == Some(Tree::Str("function_call"@))
    &&& item.at("status"@) == Some(Tree::Str("completed"@))
    &&& item.at("call_id"@) == Some(Tree::Str(call.call_id))
    &&& item.at("name"@) == Some(Tree::Str(call.name))
    &&& crate::text::trim(call.arguments).len() > 0 ==> item.at("arguments"@) == Some(
        Tree::Str(
            match crate::json::parsed(call.arguments) {
                Some(t) => crate::json::rendered(t),
                None => call.arguments,
            },
        ),
    )
}

/// Whether one of some items tells of a call.
pub open spec fn one_tells_of(items: Seq<Tree>, call: Call) -> bool {
    exists|i: int| 0 <= i < items.len() && tells_of(#[trigger] items[i], call)
}

proof fn lemma_told(call: Call, base: Option<int>, e: Envelope, r: Registry, index: int)
    requires
        is_tellable(call, r),
    ensures
        ({
            let after = close_step(at_work(call, base, e), r, index).envelope;
            &&& after.items.len() == e.items.len() + 1
            &&& after.items.drop_last() == e.items
            &&& tells_of(after.items.last().1, call)
        }),
{
    reveal_strlit("id");
    reveal_strlit("type");
    reveal_strlit("status");
    reveal_strlit("call_id");
    reveal_strlit("name");
    reveal_strlit("namespace");
    reveal_strlit("execution");
    reveal_strlit("arguments");
    reveal_strlit("input");
    reveal_strlit("reasoning_content");
    assert("id"@.len() == 2);
    assert("type"@.len() == 4);
    assert("status"@.len() == 6);
    assert("call_id"@.len() == 7);
    assert("name"@.len() == 4);
    assert("namespace"@.len() == 9);
    assert("execution"@.len() == 9);
    assert("arguments"@.len() == 9);
    assert("input"@.len() == 5);
    assert("reasoning_content"@.len() == 17);
    assert("name"@[0] == 'n');
    assert("type"@[0] == 't');
    assert("execution"@[0] == 'e');
    assert("namespace"@[0] == 'n');
    assert("arguments"@[0] == 'a');
    crate::laws::answers::lemma_no_origin(r.tools, call.name);
    lemma_not_restored(r, call.name);
    let after = close_step(at_work(call, base, e), r, index).envelope;
    assert(after.items.drop_last() =~= e.items);
}

proof fn lemma_all_told(t: Tools, e: Envelope, n: int)
    requires
        0 <= n <= t.calls.len(),
        forall|k: int|
            0 <= k < t.calls.len() ==> is_tellable((#[trigger] t.calls[k]).1, t.registry),
    ensures
        ({
            let s = t.close_first(e, n);
            &&& s.state.registry == t.registry
            &&& s.state.calls.len() == t.calls.len()
            &&& forall|k: int| n <= k < t.calls.len() ==> #[trigger] s.state.calls[k] == t.calls[k]
            &&& s.envelope.items.len() == e.items.len() + n
            &&& forall|k: int|
                0 <= k < e.items.len() ==> #[trigger] s.envelope.items[k] == e.items[k]
            &&& forall|k: int|
                0 <= k < n ==> tells_of(
                    (#[trigger] s.envelope.items[e.items.len() + k]).1,
                    t.calls[k].1,
                )
        }),
    decreases n,
{
    if n > 0 {
        lemma_all_told(t, e, n - 1);
        let before = t.close_first(e, n - 1);
        let (index, call) = before.state.calls[n - 1];
        assert(t.calls[n - 1] == (index, call));
        assert(is_tellable(t.calls[n - 1].1, t.registry));
        lemma_told(call, before.state.base, before.envelope, t.registry, index);
        let s = t.close_first(e, n);
        assert forall|k: int| 0 <= k < e.items.len() + n - 1 implies #[trigger] s.envelope.items[k]
            == before.envelope.items[k] by {
            assert(s.envelope.items.drop_last()[k] == s.envelope.items[k]);
        }
        assert forall|k: int| 0 <= k < n implies tells_of(
            (#[trigger] s.envelope.items[e.items.len() + k]).1,
            t.calls[k].1,
        ) by {
            if k < n - 1 {
                assert(s.envelope.items[e.items.len() + k] == before.envelope.items[e.items.len()
                    + k]);
            }
        }
    }
}

/// The output of a response holds every completed item.
proof fn lemma_output_holds(e: Envelope, k: int)
    requires
        0 <= k < e.items.len(),
    ensures
        e.output().contains(e.items[k].1),
        e.output().len() == e.items.len(),
{
    broadcast use vstd::seq_lib::group_to_multiset_ensures;

    crate::stream_envelope::output_items_are_in_order(e.items);
    let list = crate::stream_envelope::in_order(e.items);
    assert(e.items.contains(e.items[k]));
    assert(e.items.to_multiset().count(e.items[k]) > 0);
    assert(list.to_multiset().count(e.items[k]) > 0);
    assert(list.contains(e.items[k]));
    let j = choose|j: int| 0 <= j < list.len() && list[j] == e.items[k];
    assert(e.output()[j] == e.items[k].1);
    assert(list.to_multiset().len() == list.len());
    assert(e.items.to_multiset().len() == e.items.len());
}

/// The event that ends a turn tells of every call of the turn: its output holds an item
/// with the call id, the name and the arguments of each.
pub proof fn ends_tell_every_call(s: Stream, ended_cleanly: bool, k: int)
    requires
        !s.envelope.completed,
        !s.tools.finalized,
        s.envelope.finish_reason is Some || ended_cleanly,
        0 <= k < s.tools.calls.len(),
        forall|j: int|
            0 <= j < s.tools.calls.len() ==> is_tellable(
                (#[trigger] s.tools.calls[j]).1,
                s.tools.registry,
            ),
    ensures
        ({
            let r = crate::laws::streams::carried(s.finalize(ended_cleanly).events.last());
            r.at("output"@) matches Some(Tree::Array(output)) && one_tells_of(
                output,
                s.tools.calls[k].1,
            )
        }),
{
    let o = s.over();
    let a = o.start();
    let b = a.followed_by(
        a.stream.spoken(crate::stream_inline_think::ended(a.stream.speech())),
    );
    let c = b.followed_by(b.stream.settle());
    let d = c.followed_by(c.stream.messaged(c.stream.message.close(c.stream.envelope)));
    let t = d.stream.tools;
    assert(t == s.tools);
    let base = Tools { finalized: true, ..t };
    assert forall|j: int| 0 <= j < base.calls.len() implies is_tellable(
        (#[trigger] base.calls[j]).1,
        base.registry,
    ) by {
        assert(base.calls[j] == s.tools.calls[j]);
    }
    lemma_all_told(base, d.stream.envelope, t.calls.len() as int);
    let f = o.close_items();
    let e = f.stream.envelope;
    let at = d.stream.envelope.items.len() + k;
    assert(tells_of(e.items[at].1, s.tools.calls[k].1));
    lemma_output_holds(e, at);
    let i = choose|i: int| 0 <= i < e.output().len() && e.output()[i] == e.items[at].1;
    assert(tells_of(e.output()[i], s.tools.calls[k].1));
    assert(one_tells_of(e.output(), s.tools.calls[k].1));
    crate::laws::streams::lemma_end_output(s, ended_cleanly);
    let r = crate::laws::streams::carried(s.finalize(ended_cleanly).events.last());
    assert(r.at("output"@) == Some(Tree::Array(e.output())));
}

/// The event that ends a turn tells its text and its reasoning: its output holds a message
/// whose parts are those of the turn, and an item with the whole reasoning.
pub proof fn ends_tell_text_and_reasoning(s: Stream, ended_cleanly: bool, text: Seq<char>)
    requires
        !s.envelope.completed,
        s.envelope.finish_reason is Some || ended_cleanly,
        s.think.phase == crate::stream_inline_think::Phase::Text,
    ensures
        ({
            let r = crate::laws::streams::carried(s.finalize(ended_cleanly).events.last());
            let id = s.envelope.response_id;
            &&& s.reasoning.phase == crate::stream_reasoning::Lifecycle::Open ==> (r.at("output"@)
                matches Some(Tree::Array(output)) && one_tells_reasoning(
                output,
                id,
                s.reasoning.text,
            ))
            &&& s.message.phase == crate::stream_reasoning::Lifecycle::Open
                && s.message.segments.len() == 1 && is_text(s.message.segments[0], text) ==> (r.at(
                "output"@,
            ) matches Some(Tree::Array(output)) && one_tells_text(output, id, text))
        }),
{
    reveal_strlit("id");
    reveal_strlit("type");
    reveal_strlit("status");
    reveal_strlit("role");
    reveal_strlit("content");
    reveal_strlit("summary");
    reveal_strlit("text");
    reveal_strlit("annotations");
    assert("id"@.len() == 2);
    assert("type"@.len() == 4);
    assert("status"@.len() == 6);
    assert("role"@.len() == 4);
    assert("content"@.len() == 7);
    assert("summary"@.len() == 7);
    assert("text"@.len() == 4);
    assert("annotations"@.len() == 11);
    assert("role"@[0] == 'r');
    assert("type"@[0] == 't');
    assert("type"@[1] == 'y');
    assert("text"@[0] == 't');
    assert("text"@[1] == 'e');
    assert("summary"@[0] == 's');
    assert("content"@[0] == 'c');
    let o = s.over();
    let a = o.start();
    let b = a.followed_by(
        a.stream.spoken(crate::stream_inline_think::ended(a.stream.speech())),
    );
    let c = b.followed_by(b.stream.settle());
    let d = c.followed_by(c.stream.messaged(c.stream.message.close(c.stream.envelope)));
    let t = d.stream.tools;
    assert(b.stream == a.stream);
    let f = o.close_items();
    let e = f.stream.envelope;
    lemma_items_stay(Tools { finalized: true, ..t }, d.stream.envelope, t.calls.len() as int);
    crate::laws::streams::lemma_end_output(s, ended_cleanly);
    let r = crate::laws::streams::carried(s.finalize(ended_cleanly).events.last());
    if s.reasoning.phase == crate::stream_reasoning::Lifecycle::Open {
        let at = a.stream.envelope.items.len() as int;
        let item = c.stream.envelope.items[at].1;
        assert(tells_reasoning(item, s.envelope.response_id, s.reasoning.text));
        assert(d.stream.envelope.items[at] == c.stream.envelope.items[at]);
        assert(e.items[at] == d.stream.envelope.items[at]);
        lemma_output_holds(e, at);
        let i = choose|i: int| 0 <= i < e.output().len() && e.output()[i] == item;
        assert(tells_reasoning(e.output()[i], s.envelope.response_id, s.reasoning.text));
        assert(one_tells_reasoning(e.output(), s.envelope.response_id, s.reasoning.text));
        assert(r.at("output"@) == Some(Tree::Array(e.output())));
    }
    if s.message.phase == crate::stream_reasoning::Lifecycle::Open && s.message.segments.len() == 1
        && is_text(s.message.segments[0], text) {
        let at = c.stream.envelope.items.len() as int;
        let item = d.stream.envelope.items[at].1;
        let segments = s.message.segments;
        assert(crate::stream_message::parts_of(segments)[0].at("text"@) == Some(Tree::Str(text)));
        assert(tells_text(item, s.envelope.response_id, text));
        assert(e.items[at] == d.stream.envelope.items[at]);
        lemma_output_holds(e, at);
        let i = choose|i: int| 0 <= i < e.output().len() && e.output()[i] == item;
        assert(tells_text(e.output()[i], s.envelope.response_id, text));
        assert(one_tells_text(e.output(), s.envelope.response_id, text));
        assert(r.at("output"@) == Some(Tree::Array(e.output())));
    }
}

/// Whether a content part is a text.
pub open spec fn is_text(p: crate::stream_message::Piece, text: Seq<char>) -> bool {
    p matches crate::stream_message::Piece::Text { text: t, .. } && t == text
}

/// Whether an item is the reasoning of a response.
pub open spec fn tells_reasoning(item: Tree, response_id: Seq<char>, text: Seq<char>) -> bool {
    &&& item.at("type"@) == Some(Tree::Str("reasoning"@))
    &&& item.at("id"@) == Some(Tree::Str("rs_"@ + response_id))
    &&& item.at("summary"@) matches Some(Tree::Array(parts))
    &&& parts.len() == 1
    &&& parts[0].at("type"@) == Some(Tree::Str("summary_text"@))
    &&& parts[0].at("text"@) == Some(Tree::Str(text))
}

/// Whether an item is the message of a response and says a text.
pub open spec fn tells_text(item: Tree, response_id: Seq<char>, text: Seq<char>) -> bool {
    &&& item.at("type"@) == Some(Tree::Str("message"@))
    &&& item.at("id"@) == Some(Tree::Str("msg_"@ + response_id))
    &&& item.at("role"@) == Some(Tree::Str("assistant"@))
    &&& item.at("status"@) == Some(Tree::Str("completed"@))
    &&& item.at("content"@) matches Some(Tree::Array(parts))
    &&& parts.len() == 1
    &&& parts[0].at("type"@) == Some(Tree::Str("output_text"@))
    &&& parts[0].at("text"@) == Some(Tree::Str(text))
}

/// Whether one of some items is the reasoning of a response.
pub open spec fn one_tells_reasoning(
    items: Seq<Tree>,
    response_id: Seq<char>,
    text: Seq<char>,
) -> bool {
    exists|i: int| 0 <= i < items.len() && tells_reasoning(#[trigger] items[i], response_id, text)
}

/// Whether one of some items is the message of a response and says a text.
pub open spec fn one_tells_text(items: Seq<Tree>, response_id: Seq<char>, text: Seq<char>) -> bool {
    exists|i: int| 0 <= i < items.len() && tells_text(#[trigger] items[i], response_id, text)
}

proof fn lemma_items_stay(t: Tools, e: Envelope, n: int)
    ensures
        t.close_first(e, n).envelope.items.len() >= e.items.len(),
        forall|k: int|
            0 <= k < e.items.len() ==> #[trigger] t.close_first(e, n).envelope.items[k]
                == e.items[k],
    decreases n,
{
    if n > 0 {
        lemma_items_stay(t, e, n - 1);
    }
}

/// The tool calls of a whole message are counted through: the k-th has the index k, and
/// all its other members stay.
pub proof fn whole_calls_are_counted_through(calls: Seq<Tree>, k: int)
    requires
        forall|j: int| 0 <= j < calls.len() ==> #[trigger] calls[j] is Object,
        0 <= k < calls.len(),
    ensures
        ({
            let counted = crate::stream_chat_to_responses::indexed_calls(calls);
            &&& counted.len() == calls.len()
            &&& counted[k].at("index"@) == Some(Tree::Int(k))
            &&& forall|name: Seq<char>|
                name != "index"@ ==> #[trigger] counted[k].at(name) == calls[k].at(name)
        }),
    decreases calls.len(),
{
    let front = calls.drop_last();
    assert forall|j: int| 0 <= j < front.len() implies #[trigger] front[j] is Object by {
        assert(front[j] == calls[j]);
    }
    assert(calls[calls.len() - 1] is Object);
    if front.len() > 0 {
        whole_calls_are_counted_through(front, 0);
    }
    if k < front.len() {
        whole_calls_are_counted_through(front, k);
        assert(front[k] == calls[k]);
    }
}

} // verus!
