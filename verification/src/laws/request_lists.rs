//! What becomes of the input of a request as a whole.
use vstd::prelude::*;
use crate::context::{input_items, Registry};
use crate::convert::responses_to_chat::{appended, known_call_ids, Progress};
use crate::json::Tree;
use crate::laws::requests::{is_call, lemma_output_kinds};
use crate::transform_loss::Loss;

verus! {

/// Where the conversion of input begins.
spec fn begun(messages: Seq<Tree>) -> Progress {
    Progress { messages, calls: Seq::empty(), reasoning: None, losses: Seq::empty() }
}

proof fn lemma_items(list: Seq<Tree>)
    requires
        forall|k: int| 0 <= k < list.len() ==> !(#[trigger] list[k] is Str),
    ensures
        input_items(Some(Tree::Array(list))) == list,
{
    assert(input_items(Some(Tree::Array(list))) =~= list);
}

/// Texts in the input become messages of the user, one for each and in their order,
/// behind the messages that were there.
pub proof fn texts_become_user_messages(
    messages: Seq<Tree>,
    texts: Seq<Seq<char>>,
    registry: Registry,
    fresh: Seq<Seq<char>>,
)
    ensures
        ({
            let input = Some(Tree::Array(texts.map_values(|s: Seq<char>| Tree::Str(s))));
            let end = appended(messages, input, registry, fresh);
            &&& end.losses == Seq::<Loss>::empty()
            &&& end.messages.len() == messages.len() + texts.len()
            &&& end.messages.take(messages.len() as int) == messages
            &&& forall|k: int|
                0 <= k < texts.len() ==> {
                    let said = #[trigger] end.messages[messages.len() + k];
                    &&& said.at("role"@) == Some(Tree::Str("user"@))
                    &&& said.at("content"@) == Some(Tree::Str(texts[k]))
                }
        }),
{
    let list = texts.map_values(|s: Seq<char>| Tree::Str(s));
    let items = input_items(Some(Tree::Array(list)));
    lemma_texts(messages, items, texts, registry, fresh, texts.len() as int);
    let end = appended(messages, Some(Tree::Array(list)), registry, fresh);
    assert(items.len() == texts.len());
    assert(end.messages.take(messages.len() as int) =~= messages);
}

proof fn lemma_texts(
    messages: Seq<Tree>,
    items: Seq<Tree>,
    texts: Seq<Seq<char>>,
    registry: Registry,
    fresh: Seq<Seq<char>>,
    n: int,
)
    requires
        items == input_items(
            Some(Tree::Array(texts.map_values(|s: Seq<char>| Tree::Str(s)))),
        ),
        0 <= n <= texts.len(),
    ensures
        ({
            let q = begun(messages).after_items(
                items,
                n,
                known_call_ids(messages),
                registry,
                fresh,
            );
            &&& q.losses == Seq::<Loss>::empty()
            &&& q.calls.len() == 0
            &&& q.reasoning is None
            &&& q.messages.len() == messages.len() + n
            &&& forall|k: int|
                0 <= k < messages.len() ==> #[trigger] q.messages[k] == messages[k]
            &&& forall|k: int|
                0 <= k < n ==> {
                    let said = #[trigger] q.messages[messages.len() + k];
                    &&& said.at("role"@) == Some(Tree::Str("user"@))
                    &&& said.at("content"@) == Some(Tree::Str(texts[k]))
                }
        }),
    decreases n,
{
    if n > 0 {
        lemma_texts(messages, items, texts, registry, fresh, n - 1);
        reveal_strlit("role");
        reveal_strlit("content");
        reveal_strlit("type");
        reveal_strlit("text");
        assert("role"@.len() == 4);
        assert("content"@.len() == 7);
        assert("type"@.len() == 4);
        assert("text"@.len() == 4);
        assert("type"@[0] == 't');
        assert("type"@[1] == 'y');
        assert("role"@[0] == 'r');
        assert("text"@[0] == 't');
        assert("text"@[1] == 'e');
        lemma_output_kinds();
        let p = begun(messages).after_items(
            items,
            n - 1,
            known_call_ids(messages),
            registry,
            fresh,
        );
        let item = items[n - 1];
        assert(item.at("text"@) == Some(Tree::Str(texts[n - 1])));
        let q = p.after_item(item, known_call_ids(messages), registry, fresh[n - 1]);
        assert(q.messages.drop_last() =~= p.messages);
        assert forall|k: int| 0 <= k < n implies {
            let said = #[trigger] q.messages[messages.len() + k];
            &&& said.at("role"@) == Some(Tree::Str("user"@))
            &&& said.at("content"@) == Some(Tree::Str(texts[k]))
        } by {
            if k < n - 1 {
                assert(q.messages[messages.len() + k] == p.messages[messages.len() + k]);
            }
        }
    }
}

/// Whether an item is a message of a role that says a text, and no more.
pub open spec fn is_plain_message(item: Tree, role: Seq<char>, text: Seq<char>) -> bool {
    &&& item is Object
    &&& item.at("type"@) is None || item.at("type"@) == Some(Tree::Str("message"@))
    &&& item.at("role"@) == Some(Tree::Str(role))
    &&& item.at("content"@) == Some(Tree::Str(text))
    &&& item.at("tool_calls"@) is None
    &&& item.at("tool_call_id"@) is None
    &&& item.at("reasoning_content"@) is None
}

/// Whether a message is an object with a role and content, and nothing beside them.
pub open spec fn says_no_more(message: Tree) -> bool {
    &&& message is Object
    &&& message.at("tool_calls"@) is None
    &&& message.at("tool_call_id"@) is None
    &&& message.at("reasoning_content"@) is None
}

/// Messages in the input stay messages, one for each and in their order, with the same
/// text and the same role; a developer speaks as the system.
pub proof fn messages_stay_messages(
    messages: Seq<Tree>,
    items: Seq<Tree>,
    roles: Seq<Seq<char>>,
    texts: Seq<Seq<char>>,
    registry: Registry,
    fresh: Seq<Seq<char>>,
)
    requires
        roles.len() == items.len(),
        texts.len() == items.len(),
        forall|k: int|
            0 <= k < items.len() ==> is_plain_message(#[trigger] items[k], roles[k], texts[k]) && (
            roles[k] == "user"@ || roles[k] == "assistant"@ || roles[k] == "system"@ || roles[k]
                == "developer"@),
    ensures
        ({
            let end = appended(messages, Some(Tree::Array(items)), registry, fresh);
            &&& end.losses == Seq::<Loss>::empty()
            &&& end.messages.len() == messages.len() + items.len()
            &&& end.messages.take(messages.len() as int) == messages
            &&& forall|k: int|
                0 <= k < items.len() ==> {
                    let said = #[trigger] end.messages[messages.len() + k];
                    &&& said.at("role"@) == Some(
                        Tree::Str(
                            if roles[k] == "developer"@ {
                                "system"@
                            } else {
                                roles[k]
                            },
                        ),
                    )
                    &&& said.at("content"@) == Some(Tree::Str(texts[k]))
                    &&& says_no_more(said)
                }
        }),
{
    lemma_items(items);
    lemma_messages(messages, items, roles, texts, registry, fresh, items.len() as int);
    let end = appended(messages, Some(Tree::Array(items)), registry, fresh);
    assert(end.messages.take(messages.len() as int) =~= messages);
}

proof fn lemma_messages(
    messages: Seq<Tree>,
    items: Seq<Tree>,
    roles: Seq<Seq<char>>,
    texts: Seq<Seq<char>>,
    registry: Registry,
    fresh: Seq<Seq<char>>,
    n: int,
)
    requires
        roles.len() == items.len(),
        texts.len() == items.len(),
        0 <= n <= items.len(),
        forall|k: int|
            0 <= k < items.len() ==> is_plain_message(#[trigger] items[k], roles[k], texts[k]) && (
            roles[k] == "user"@ || roles[k] == "assistant"@ || roles[k] == "system"@ || roles[k]
                == "developer"@),
    ensures
        ({
            let q = begun(messages).after_items(
                items,
                n,
                known_call_ids(messages),
                registry,
                fresh,
            );
            &&& q.losses == Seq::<Loss>::empty()
            &&& q.calls.len() == 0
            &&& q.reasoning is None
            &&& q.messages.len() == messages.len() + n
            &&& forall|k: int|
                0 <= k < messages.len() ==> #[trigger] q.messages[k] == messages[k]
            &&& forall|k: int|
                0 <= k < n ==> {
                    let said = #[trigger] q.messages[messages.len() + k];
                    &&& said.at("role"@) == Some(
                        Tree::Str(
                            if roles[k] == "developer"@ {
                                "system"@
                            } else {
                                roles[k]
                            },
                        ),
                    )
                    &&& said.at("content"@) == Some(Tree::Str(texts[k]))
                    &&& says_no_more(said)
                }
        }),
    decreases n,
{
    if n > 0 {
        lemma_messages(messages, items, roles, texts, registry, fresh, n - 1);
        reveal_strlit("role");
        reveal_strlit("content");
        reveal_strlit("type");
        reveal_strlit("message");
        reveal_strlit("tool_calls");
        reveal_strlit("tool_call_id");
        reveal_strlit("reasoning_content");
        reveal_strlit("user");
        reveal_strlit("assistant");
        reveal_strlit("system");
        reveal_strlit("developer");
        reveal_strlit("tool");
        assert("role"@.len() == 4);
        assert("content"@.len() == 7);
        assert("type"@.len() == 4);
        assert("message"@.len() == 7);
        assert("tool_calls"@.len() == 10);
        assert("tool_call_id"@.len() == 12);
        assert("reasoning_content"@.len() == 17);
        assert("user"@.len() == 4);
        assert("assistant"@.len() == 9);
        assert("system"@.len() == 6);
        assert("developer"@.len() == 9);
        assert("tool"@.len() == 4);
        assert("type"@[0] == 't');
        assert("type"@[1] == 'y');
        assert("role"@[0] == 'r');
        assert("user"@[0] == 'u');
        assert("tool"@[0] == 't');
        assert("tool"@[1] == 'o');
        assert("message"@[0] == 'm');
        assert("content"@[0] == 'c');
        assert("developer"@[0] == 'd');
        assert("assistant"@[0] == 'a');
        lemma_output_kinds();
        let p = begun(messages).after_items(
            items,
            n - 1,
            known_call_ids(messages),
            registry,
            fresh,
        );
        let item = items[n - 1];
        assert(is_plain_message(item, roles[n - 1], texts[n - 1]));
        let q = p.after_item(item, known_call_ids(messages), registry, fresh[n - 1]);
        assert(q.messages.drop_last() =~= p.messages);
        assert forall|k: int| 0 <= k < n implies {
            let said = #[trigger] q.messages[messages.len() + k];
            &&& said.at("role"@) == Some(
                Tree::Str(
                    if roles[k] == "developer"@ {
                        "system"@
                    } else {
                        roles[k]
                    },
                ),
            )
            &&& said.at("content"@) == Some(Tree::Str(texts[k]))
            &&& says_no_more(said)
        } by {
            if k < n - 1 {
                assert(q.messages[messages.len() + k] == p.messages[messages.len() + k]);
            }
        }
    }
}

/// Function calls that follow each other are made in one message of the assistant, all of
/// them and in their order, each with its call id, its name and its arguments.
pub proof fn calls_are_made_together(
    messages: Seq<Tree>,
    items: Seq<Tree>,
    ids: Seq<Seq<char>>,
    names: Seq<Seq<char>>,
    registry: Registry,
    fresh: Seq<Seq<char>>,
)
    requires
        items.len() > 0,
        ids.len() == items.len(),
        names.len() == items.len(),
        forall|k: int|
            0 <= k < items.len() ==> is_named_call(#[trigger] items[k], ids[k], names[k]),
        forall|k: int, i: int|
            #![trigger ids[k], messages[i]]
            0 <= k < ids.len() && 0 <= i < messages.len() ==> !mentions(messages[i], ids[k]),
    ensures
        ({
            let end = appended(messages, Some(Tree::Array(items)), registry, fresh);
            &&& end.losses == Seq::<Loss>::empty()
            &&& end.messages.len() == messages.len() + 1
            &&& end.messages.drop_last() == messages
            &&& end.messages.last().at("role"@) == Some(Tree::Str("assistant"@))
            &&& end.messages.last().at("tool_calls"@) matches Some(Tree::Array(calls))
            &&& calls.len() == items.len()
            &&& forall|k: int|
                0 <= k < calls.len() ==> makes(#[trigger] calls[k], ids[k], names[k], items[k])
        }),
{
    lemma_items(items);
    lemma_calls(messages, items, ids, names, registry, fresh, items.len() as int);
    reveal_strlit("role");
    reveal_strlit("content");
    reveal_strlit("tool_calls");
    reveal_strlit("tool_call_id");
    reveal_strlit("reasoning_content");
    assert("role"@.len() == 4);
    assert("content"@.len() == 7);
    assert("tool_calls"@.len() == 10);
    assert("tool_call_id"@.len() == 12);
    assert("reasoning_content"@.len() == 17);
    let end = appended(messages, Some(Tree::Array(items)), registry, fresh);
    assert(end.messages.drop_last() =~= messages);
}

/// Whether an item is a function call with a call id and a name, in no namespace and
/// without reasoning.
pub open spec fn is_named_call(item: Tree, id: Seq<char>, name: Seq<char>) -> bool {
    &&& item matches Tree::Object(m)
    &&& is_call(m, id)
    &&& item.at("name"@) == Some(Tree::Str(name))
    &&& item.at("namespace"@) is None
    &&& item.at("reasoning_content"@) is None
}

/// Whether a Chat tool call makes the call of an item. Arguments that denote a document
/// are written anew; other texts stay as they are.
pub open spec fn makes(call: Tree, id: Seq<char>, name: Seq<char>, item: Tree) -> bool {
    &&& call.at("id"@) == Some(Tree::Str(id))
    &&& call.at("type"@) == Some(Tree::Str("function"@))
    &&& call.at("function"@) matches Some(f)
    &&& f.at("name"@) == Some(Tree::Str(name))
    &&& item.at("arguments"@) matches Some(Tree::Str(s)) ==> crate::text::trim(s).len() > 0
        ==> f.at("arguments"@) == Some(
        Tree::Str(
            match crate::json::parsed(s) {
                Some(t) => crate::json::rendered(t),
                None => s,
            },
        ),
    )
    &&& item.at("arguments"@) is None ==> f.at("arguments"@) == Some(Tree::Str("{}"@))
}

proof fn lemma_calls(
    messages: Seq<Tree>,
    items: Seq<Tree>,
    ids: Seq<Seq<char>>,
    names: Seq<Seq<char>>,
    registry: Registry,
    fresh: Seq<Seq<char>>,
    n: int,
)
    requires
        ids.len() == items.len(),
        names.len() == items.len(),
        0 <= n <= items.len(),
        forall|k: int|
            0 <= k < items.len() ==> is_named_call(#[trigger] items[k], ids[k], names[k]),
        forall|k: int, i: int|
            #![trigger ids[k], messages[i]]
            0 <= k < ids.len() && 0 <= i < messages.len() ==> !mentions(messages[i], ids[k]),
    ensures
        ({
            let q = begun(messages).after_items(
                items,
                n,
                known_call_ids(messages),
                registry,
                fresh,
            );
            &&& q.losses == Seq::<Loss>::empty()
            &&& q.calls.len() == n
            &&& q.reasoning is None
            &&& q.messages == messages
            &&& forall|k: int|
                0 <= k < n ==> makes(#[trigger] q.calls[k], ids[k], names[k], items[k])
        }),
    decreases n,
{
    if n > 0 {
        lemma_calls(messages, items, ids, names, registry, fresh, n - 1);
        reveal_strlit("id");
        reveal_strlit("type");
        reveal_strlit("function");
        reveal_strlit("name");
        reveal_strlit("arguments");
        reveal_strlit("call_id");
        reveal_strlit("namespace");
        reveal_strlit("reasoning_content");
        assert("id"@.len() == 2);
        assert("type"@.len() == 4);
        assert("function"@.len() == 8);
        assert("name"@.len() == 4);
        assert("arguments"@.len() == 9);
        assert("call_id"@.len() == 7);
        assert("namespace"@.len() == 9);
        assert("reasoning_content"@.len() == 17);
        assert("name"@[0] == 'n');
        assert("type"@[0] == 't');
        assert("namespace"@[0] == 'n');
        assert("arguments"@[0] == 'a');
        lemma_output_kinds();
        let known = known_call_ids(messages);
        let p = begun(messages).after_items(items, n - 1, known, registry, fresh);
        let item = items[n - 1];
        assert(is_named_call(item, ids[n - 1], names[n - 1]));
        assert(!crate::text::listed(known, ids[n - 1])) by {
            if crate::text::listed(known, ids[n - 1]) {
                known_calls_are_those_of_earlier_messages(messages, ids[n - 1]);
                let i = choose|i: int|
                    0 <= i < messages.len() && mentions(#[trigger] messages[i], ids[n - 1]);
                assert(!mentions(messages[i], ids[n - 1]));
            }
        }
        let q = p.after_item(item, known, registry, fresh[n - 1]);
        assert(q.calls.drop_last() =~= p.calls);
        assert forall|k: int| 0 <= k < n implies makes(
            #[trigger] q.calls[k],
            ids[k],
            names[k],
            items[k],
        ) by {
            if k < n - 1 {
                assert(q.calls[k] == p.calls[k]);
            }
        }
    }
}

/// Whether a message mentions a call: it makes it, or it answers it.
pub open spec fn mentions(message: Tree, id: Seq<char>) -> bool {
    ||| message.at("tool_call_id"@) == Some(Tree::Str(id))
    ||| message.at("tool_calls"@) matches Some(Tree::Array(calls)) && exists|j: int|
        0 <= j < calls.len() && is_the_call(#[trigger] calls[j], id)
}

/// Whether a tool call has an id, under `id` or else under `call_id`.
pub open spec fn is_the_call(call: Tree, id: Seq<char>) -> bool {
    match call.at("id"@) {
        Some(Tree::Str(s)) => s == id,
        _ => call.at("call_id"@) == Some(Tree::Str(id)),
    }
}

/// The calls that count as known when input is converted are those that the messages
/// before it mention, made or answered, and no others.
pub proof fn known_calls_are_those_of_earlier_messages(messages: Seq<Tree>, id: Seq<char>)
    requires
        id.len() > 0,
    ensures
        known_call_ids(messages).contains(id) == exists|i: int|
            0 <= i < messages.len() && mentions(#[trigger] messages[i], id),
    decreases messages.len(),
{
    if messages.len() > 0 {
        let front = messages.drop_last();
        let last = messages.last();
        known_calls_are_those_of_earlier_messages(front, id);
        lemma_message_ids(last, id);
        let a = known_call_ids(front);
        let b = crate::convert::responses_to_chat::message_call_ids(last);
        assert(known_call_ids(messages) == a + b);
        assert((a + b).contains(id) == (a.contains(id) || b.contains(id))) by {
            if a.contains(id) {
                let k = choose|k: int| 0 <= k < a.len() && a[k] == id;
                assert((a + b)[k] == id);
            }
            if b.contains(id) {
                let k = choose|k: int| 0 <= k < b.len() && b[k] == id;
                assert((a + b)[a.len() + k] == id);
            }
            if (a + b).contains(id) {
                let k = choose|k: int| 0 <= k < (a + b).len() && (a + b)[k] == id;
                if k < a.len() {
                    assert(a[k] == id);
                } else {
                    assert(b[k - a.len()] == id);
                }
            }
        }
        if a.contains(id) {
            let i = choose|i: int| 0 <= i < front.len() && mentions(#[trigger] front[i], id);
            assert(mentions(messages[i], id));
        }
        if b.contains(id) {
            assert(mentions(messages[messages.len() - 1], id));
        }
        if exists|i: int| 0 <= i < messages.len() && mentions(#[trigger] messages[i], id) {
            let i = choose|i: int| 0 <= i < messages.len() && mentions(#[trigger] messages[i], id);
            if i < front.len() {
                assert(mentions(front[i], id));
            }
        }
    }
}

proof fn lemma_message_ids(message: Tree, id: Seq<char>)
    requires
        id.len() > 0,
    ensures
        crate::convert::responses_to_chat::message_call_ids(message).contains(id) == mentions(
            message,
            id,
        ),
{
    let all = crate::convert::responses_to_chat::message_call_ids(message);
    if let Tree::Object(m) = message {
        let own = match message.at("tool_call_id"@) {
            Some(Tree::Str(s)) if s.len() > 0 => seq![s],
            _ => Seq::empty(),
        };
        let rest = match message.at("tool_calls"@) {
            Some(Tree::Array(calls)) => crate::convert::responses_to_chat::listed_call_ids(calls),
            _ => Seq::empty(),
        };
        assert(all =~= own + rest);
        if let Some(Tree::Array(calls)) = message.at("tool_calls"@) {
            lemma_listed_ids(calls, id);
        }
        if all.contains(id) {
            let k = choose|k: int| 0 <= k < all.len() && all[k] == id;
            if k < own.len() {
                assert(own[k] == id);
            } else {
                assert(rest[k - own.len()] == id);
                assert(rest.contains(id));
            }
        }
        if message.at("tool_call_id"@) == Some(Tree::Str(id)) {
            assert(all[0] == id);
        }
        if rest.contains(id) {
            let k = choose|k: int| 0 <= k < rest.len() && rest[k] == id;
            assert(all[own.len() + k] == id);
        }
    }
}

proof fn lemma_listed_ids(calls: Seq<Tree>, id: Seq<char>)
    requires
        id.len() > 0,
    ensures
        crate::convert::responses_to_chat::listed_call_ids(calls).contains(id) == exists|j: int|
            0 <= j < calls.len() && is_the_call(#[trigger] calls[j], id),
    decreases calls.len(),
{
    if calls.len() > 0 {
        let front = calls.drop_last();
        lemma_listed_ids(front, id);
        let a = crate::convert::responses_to_chat::listed_call_ids(front);
        let all = crate::convert::responses_to_chat::listed_call_ids(calls);
        if all.contains(id) {
            let k = choose|k: int| 0 <= k < all.len() && all[k] == id;
            if k < a.len() {
                assert(a[k] == id);
                assert(a.contains(id));
                let j = choose|j: int| 0 <= j < front.len() && is_the_call(#[trigger] front[j], id);
                assert(is_the_call(calls[j], id));
            } else {
                assert(is_the_call(calls[calls.len() - 1], id));
            }
        }
        if exists|j: int| 0 <= j < calls.len() && is_the_call(#[trigger] calls[j], id) {
            let j = choose|j: int| 0 <= j < calls.len() && is_the_call(#[trigger] calls[j], id);
            if j < front.len() {
                assert(is_the_call(front[j], id));
                let k = choose|k: int| 0 <= k < a.len() && a[k] == id;
                assert(all[k] == id);
            } else {
                assert(all[all.len() - 1] == id);
            }
        }
    }
}

} // verus!
