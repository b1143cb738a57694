//! What becomes of the messages of a request on their way upstream.
use vstd::prelude::*;
use crate::context::Registry;
use crate::convert::message_normalization::{
    clean_call, clean_message, collapsed, is_system, kept_messages, merged_systems, other_messages,
    sanitized_messages, system_chunks,
};
use crate::convert::responses_to_chat::converted;
use crate::json::{member, opt_value, Tree};
use crate::laws::request_lists::{is_plain_message, says_no_more};
use crate::transform_loss::Loss;
use crate::types::ResponsesRequest;

verus! {

/// Whether a text holds only characters that may go upstream.
pub open spec fn is_clean(s: Seq<char>) -> bool {
    forall|i: int|
        0 <= i < s.len() ==> #[trigger] s[i] >= ' ' || s[i] == '\n' || s[i] == '\r' || s[i] == '\t'
}

proof fn lemma_clean(s: Seq<char>)
    requires
        is_clean(s),
    ensures
        crate::sanitize::sanitized(s) == s,
{
    crate::sanitize::sanitizing_clean_text_changes_nothing(s);
}

/// Whether a member is missing or a clean text.
pub open spec fn clean_or_missing(v: Option<Tree>) -> bool {
    match v {
        None => true,
        Some(Tree::Str(s)) => is_clean(s),
        Some(_) => false,
    }
}

/// Whether a tool call calls a function by a clean name with clean arguments.
pub open spec fn calls_cleanly(call: Tree) -> bool {
    &&& call.at("function"@) matches Some(Tree::Object(f))
    &&& f.contains_key("name"@)
    &&& f["name"@] matches Tree::Str(name)
    &&& is_clean(name)
    &&& f.contains_key("arguments"@)
    &&& f["arguments"@] matches Tree::Str(arguments)
    &&& is_clean(arguments)
}

/// Whether a message says something, cleanly, and not as the system.
pub open spec fn speaks(message: Tree) -> bool {
    &&& message.at("role"@) == Some(Tree::Str("user"@)) || message.at("role"@) == Some(
        Tree::Str("assistant"@),
    ) || message.at("role"@) == Some(Tree::Str("tool"@))
    &&& message.at("content"@) == Some(Tree::Null) || message.at("content"@) is None || (
    message.at("content"@) matches Some(Tree::Str(c)) && is_clean(c))
    &&& (message.at("content"@) matches Some(Tree::Str(c)) && c.len() > 0) || (message.at(
        "tool_calls"@,
    ) matches Some(Tree::Array(calls)) && calls.len() > 0)
    &&& clean_or_missing(message.at("reasoning_content"@))
    &&& clean_or_missing(message.at("tool_call_id"@))
    &&& match message.at("tool_calls"@) {
        None => true,
        Some(Tree::Array(calls)) => forall|j: int|
            0 <= j < calls.len() ==> calls_cleanly(#[trigger] calls[j]),
        Some(_) => false,
    }
}

proof fn lemma_clean_call(call: Tree)
    requires
        calls_cleanly(call),
    ensures
        clean_call(call) == call,
{
    reveal_strlit("function");
    reveal_strlit("name");
    reveal_strlit("arguments");
    assert("function"@.len() == 8);
    assert("name"@.len() == 4);
    assert("arguments"@.len() == 9);
    let c = call->Object_0;
    let f = c["function"@]->Object_0;
    lemma_clean(f["name"@]->Str_0);
    lemma_clean(f["arguments"@]->Str_0);
    assert(f.insert("name"@, f["name"@]).insert("arguments"@, f["arguments"@]) =~= f);
    assert(c.insert("function"@, c["function"@]) =~= c);
}

proof fn lemma_clean_message(message: Tree)
    requires
        speaks(message),
    ensures
        clean_message(message) == message,
        !is_system(message),
        crate::convert::message_normalization::kept_message(message) == Some(message),
{
    reveal_strlit("role");
    reveal_strlit("content");
    reveal_strlit("tool_calls");
    reveal_strlit("tool_call_id");
    reveal_strlit("reasoning_content");
    assert("role"@.len() == 4);
    assert("content"@.len() == 7);
    assert("tool_calls"@.len() == 10);
    assert("tool_call_id"@.len() == 12);
    assert("reasoning_content"@.len() == 17);
    assert("user"@ != "system"@ && "assistant"@ != "system"@ && "tool"@ != "system"@ && "tool"@
        != "assistant"@ && "user"@ != "assistant"@) by {
        reveal_strlit("user");
        reveal_strlit("assistant");
        reveal_strlit("tool");
        reveal_strlit("system");
        assert("user"@.len() == 4);
        assert("assistant"@.len() == 9);
        assert("tool"@.len() == 4);
        assert("system"@.len() == 6);
        assert("tool"@[0] == 't');
        assert("user"@[0] == 'u');
    }
    let m = message->Object_0;
    let a = match member(m, "content"@) {
        Some(Tree::Str(c)) => {
            lemma_clean(c);
            assert(m.insert("content"@, Tree::Str(c)) =~= m);
            m
        },
        _ => m,
    };
    if let Some(Tree::Str(s)) = member(m, "reasoning_content"@) {
        lemma_clean(s);
        assert(m.insert("reasoning_content"@, Tree::Str(s)) =~= m);
    }
    if let Some(Tree::Str(s)) = member(m, "tool_call_id"@) {
        lemma_clean(s);
        assert(m.insert("tool_call_id"@, Tree::Str(s)) =~= m);
    }
    if let Some(Tree::Array(calls)) = member(m, "tool_calls"@) {
        assert forall|j: int| 0 <= j < calls.len() implies clean_call(#[trigger] calls[j])
            == calls[j] by {
            lemma_clean_call(calls[j]);
        }
        assert(calls.map_values(|c: Tree| clean_call(c)) =~= calls);
        assert(m.insert("tool_calls"@, Tree::Array(calls)) =~= m);
    }
    if let Some(Tree::Str(c)) = member(m, "content"@) {
        if c.len() > 0 {
            assert(Tree::Str(c) != Tree::Str(Seq::empty()));
        }
    }
}

proof fn lemma_all_kept(s: Seq<Tree>)
    requires
        forall|k: int| 0 <= k < s.len() ==> speaks(#[trigger] s[k]),
    ensures
        kept_messages(s) == s,
        merged_systems(s) == s,
        system_chunks(s).len() == 0,
        other_messages(s) == s,
    decreases s.len(),
{
    reveal(Seq::filter);
    if s.len() > 0 {
        let front = s.drop_last();
        assert forall|k: int| 0 <= k < front.len() implies speaks(#[trigger] front[k]) by {
            assert(front[k] == s[k]);
        }
        lemma_all_kept(front);
        assert(speaks(s[s.len() - 1]));
        lemma_clean_message(s.last());
        assert(front.push(s.last()) =~= s);
    } else {
        assert(s =~= Seq::empty());
    }
}

/// Messages that say something go upstream as they are: all of them, in their order, and
/// each with all its members.
pub proof fn spoken_messages_go_upstream(s: Seq<Tree>)
    requires
        forall|k: int| 0 <= k < s.len() ==> speaks(#[trigger] s[k]),
    ensures
        collapsed(sanitized_messages(s)) == s,
{
    lemma_all_kept(s);
    assert forall|k: int| 0 <= k < s.len() implies clean_message(#[trigger] s[k]) == s[k] by {
        lemma_clean_message(s[k]);
    }
    assert(sanitized_messages(s) =~= s);
}

/// What the system says stands at the head, whatever follows it.
pub proof fn the_system_speaks_first(text: Seq<char>, s: Seq<Tree>)
    requires
        is_clean(text),
        crate::text::trim(text).len() > 0,
        forall|k: int| 0 <= k < s.len() ==> speaks(#[trigger] s[k]),
    ensures
        ({
            let head = Tree::Object(
                Map::<Seq<char>, Tree>::empty().insert("role"@, Tree::Str("system"@)).insert(
                    "content"@,
                    Tree::Str(text),
                ),
            );
            let sent = collapsed(sanitized_messages(seq![head] + s));
            &&& sent.len() == s.len() + 1
            &&& sent[0].at("role"@) == Some(Tree::Str("system"@))
            &&& sent[0].at("content"@) == Some(Tree::Str(crate::text::trim(text)))
            &&& sent.skip(1) == s
        }),
{
    let head = Tree::Object(
        Map::<Seq<char>, Tree>::empty().insert("role"@, Tree::Str("system"@)).insert(
            "content"@,
            Tree::Str(text),
        ),
    );
    let all = seq![head] + s;
    lemma_clean_head(text);
    lemma_headed(head, s, text);
    reveal(is_headed);
    assert forall|k: int| 0 <= k < all.len() implies clean_message(#[trigger] all[k])
        == all[k] by {
        if k > 0 {
            assert(all[k] == s[k - 1]);
            lemma_clean_message(s[k - 1]);
        }
    }
    assert(sanitized_messages(all) =~= all);
    lemma_told(all, s, text);
}

proof fn lemma_clean_head(text: Seq<char>)
    requires
        is_clean(text),
    ensures
        ({
            let head = Tree::Object(
                Map::<Seq<char>, Tree>::empty().insert("role"@, Tree::Str("system"@)).insert(
                    "content"@,
                    Tree::Str(text),
                ),
            );
            &&& clean_message(head) == head
            &&& head.at("role"@) == Some(Tree::Str("system"@))
            &&& head.at("content"@) == Some(Tree::Str(text))
        }),
{
    reveal_strlit("role");
    reveal_strlit("content");
    reveal_strlit("tool_calls");
    reveal_strlit("tool_call_id");
    reveal_strlit("reasoning_content");
    assert("role"@.len() == 4);
    assert("content"@.len() == 7);
    assert("tool_calls"@.len() == 10);
    assert("tool_call_id"@.len() == 12);
    assert("reasoning_content"@.len() == 17);
    lemma_clean(text);
    let m = Map::<Seq<char>, Tree>::empty().insert("role"@, Tree::Str("system"@)).insert(
        "content"@,
        Tree::Str(text),
    );
    assert(m.insert("content"@, Tree::Str(text)) =~= m);
}

proof fn lemma_told(all: Seq<Tree>, s: Seq<Tree>, text: Seq<char>)
    requires
        system_chunks(all) == seq![crate::text::trim(text)],
        other_messages(all) == s,
    ensures
        collapsed(all).len() == s.len() + 1,
        collapsed(all)[0].at("role"@) == Some(Tree::Str("system"@)),
        collapsed(all)[0].at("content"@) == Some(Tree::Str(crate::text::trim(text))),
        collapsed(all).skip(1) == s,
{
    assert("role"@ != "content"@) by {
        reveal_strlit("role");
        reveal_strlit("content");
        assert("role"@.len() == 4);
        assert("content"@.len() == 7);
    }
    assert(collapsed(all).skip(1) =~= s);
}

/// Whether a list is kept as it is, what the system says in it is one text, and the rest
/// of it is another list.
#[verifier::opaque]
spec fn is_headed(all: Seq<Tree>, s: Seq<Tree>, text: Seq<char>) -> bool {
    &&& kept_messages(all) == all
    &&& merged_systems(all) == all
    &&& system_chunks(all) == seq![crate::text::trim(text)]
    &&& other_messages(all) == s
}

proof fn lemma_headed(head: Tree, s: Seq<Tree>, text: Seq<char>)
    requires
        head is Object,
        head.at("role"@) == Some(Tree::Str("system"@)),
        head.at("content"@) == Some(Tree::Str(text)),
        crate::text::trim(text).len() > 0,
        forall|k: int| 0 <= k < s.len() ==> speaks(#[trigger] s[k]),
    ensures
        is_headed(seq![head] + s, s, text),
    decreases s.len(),
{
    let all = seq![head] + s;
    if s.len() > 0 {
        let front = s.drop_last();
        assert forall|k: int| 0 <= k < front.len() implies speaks(#[trigger] front[k]) by {
            assert(front[k] == s[k]);
        }
        lemma_headed(head, front, text);
        assert(speaks(s[s.len() - 1]));
        lemma_headed_more(seq![head] + front, front, text, s.last());
        assert((seq![head] + front).push(s.last()) =~= all);
        assert(front.push(s.last()) =~= s);
    } else {
        assert(s =~= Seq::empty());
        assert(all =~= seq![head]);
        lemma_alone(head, text);
        reveal(is_headed);
    }
}

proof fn lemma_headed_more(all: Seq<Tree>, s: Seq<Tree>, text: Seq<char>, x: Tree)
    requires
        is_headed(all, s, text),
        speaks(x),
    ensures
        is_headed(all.push(x), s.push(x), text),
{
    reveal(is_headed);
    lemma_one_more(all, x);
}

proof fn lemma_one_more(front: Seq<Tree>, x: Tree)
    requires
        speaks(x),
    ensures
        kept_messages(front.push(x)) == kept_messages(front).push(x),
        merged_systems(front.push(x)) == merged_systems(front).push(x),
        system_chunks(front.push(x)) == system_chunks(front),
        other_messages(front.push(x)) == other_messages(front).push(x),
{
    lemma_clean_message(x);
    assert(front.push(x).drop_last() =~= front);
    assert(front.push(x).last() == x);
    assert(other_messages(front.push(x)) =~= other_messages(front).push(x)) by {
        reveal(Seq::filter);
    }
}

proof fn lemma_alone(head: Tree, text: Seq<char>)
    requires
        head is Object,
        head.at("role"@) == Some(Tree::Str("system"@)),
        head.at("content"@) == Some(Tree::Str(text)),
        crate::text::trim(text).len() > 0,
    ensures
        kept_messages(seq![head]) == seq![head],
        merged_systems(seq![head]) == seq![head],
        system_chunks(seq![head]) == seq![crate::text::trim(text)],
        other_messages(seq![head]) == Seq::<Tree>::empty(),
{
    let all = seq![head];
    let none = Seq::<Tree>::empty();
    assert(all.drop_last() =~= none);
    assert(kept_messages(none) =~= none);
    assert(merged_systems(none) =~= none);
    assert(system_chunks(none) =~= Seq::empty());
    assert("assistant"@ != "system"@) by {
        reveal_strlit("assistant");
        reveal_strlit("system");
        assert("assistant"@.len() == 9);
        assert("system"@.len() == 6);
    }
    assert(kept_messages(all) =~= all);
    assert(merged_systems(all) =~= all);
    assert(system_chunks(all) =~= seq![crate::text::trim(text)]);
    assert(other_messages(none) =~= none) by {
        reveal(Seq::filter);
    }
    assert(other_messages(all) =~= none) by {
        reveal(Seq::filter);
    }
}

/// A conversation goes upstream as it was: the instructions as what the system says, at the
/// head, and then each message with its role and its text, in their order. Nothing is lost.
pub proof fn conversations_go_upstream(
    payload: ResponsesRequest,
    model: Seq<char>,
    registry: Registry,
    fresh: Seq<Seq<char>>,
    instructions: Option<Seq<char>>,
    items: Seq<Tree>,
    roles: Seq<Seq<char>>,
    texts: Seq<Seq<char>>,
)
    requires
        opt_value(payload.input) == Some(Tree::Array(items)),
        match instructions {
            Some(i) => opt_value(payload.instructions) == Some(Tree::Str(i)) && is_clean(i)
                && crate::text::trim(i).len() > 0,
            None => opt_value(payload.instructions) is None,
        },
        roles.len() == items.len(),
        texts.len() == items.len(),
        forall|k: int|
            0 <= k < items.len() ==> is_plain_message(#[trigger] items[k], roles[k], texts[k]) && (
            roles[k] == "user"@ || roles[k] == "assistant"@) && is_clean(texts[k])
                && texts[k].len() > 0,
    ensures
        ({
            let (body, losses) = converted(payload, model, Seq::empty(), registry, fresh);
            let head = if instructions is Some {
                1int
            } else {
                0
            };
            &&& losses == Seq::<Loss>::empty()
            &&& member(body, "messages"@) matches Some(Tree::Array(sent))
            &&& sent.len() == head + items.len()
            &&& instructions matches Some(i) ==> sent[0].at("role"@) == Some(Tree::Str("system"@))
                && sent[0].at("content"@) == Some(Tree::Str(crate::text::trim(i)))
            &&& forall|k: int|
                0 <= k < items.len() ==> {
                    let said = #[trigger] sent[head + k];
                    &&& said.at("role"@) == Some(Tree::Str(roles[k]))
                    &&& said.at("content"@) == Some(Tree::Str(texts[k]))
                }
        }),
{
    assert("user"@ != "developer"@ && "assistant"@ != "developer"@) by {
        reveal_strlit("user");
        reveal_strlit("assistant");
        reveal_strlit("developer");
        assert("user"@.len() == 4);
        assert("assistant"@.len() == 9);
        assert("developer"@.len() == 9);
        assert("developer"@[0] == 'd');
        assert("assistant"@[0] == 'a');
    }
    let before = crate::convert::responses_to_chat::instructed(
        Seq::empty(),
        opt_value(payload.instructions),
    );
    crate::laws::request_lists::messages_stay_messages(
        before,
        items,
        roles,
        texts,
        registry,
        fresh,
    );
    let end = crate::convert::responses_to_chat::appended(
        before,
        Some(Tree::Array(items)),
        registry,
        fresh,
    );
    let said = end.messages.skip(before.len() as int);
    assert forall|k: int| 0 <= k < said.len() implies speaks(#[trigger] said[k]) by {
        assert(said[k] == end.messages[before.len() + k]);
        assert(says_no_more(end.messages[before.len() + k]));
        assert(is_plain_message(items[k], roles[k], texts[k]));
    }
    let sent = collapsed(sanitized_messages(end.messages));
    match instructions {
        Some(i) => {
            let head = Tree::Object(
                Map::<Seq<char>, Tree>::empty().insert("role"@, Tree::Str("system"@)).insert(
                    "content"@,
                    Tree::Str(i),
                ),
            );
            assert(before.len() == 1);
            assert(before[0] == head) by {
                assert(before[0]->Object_0 =~= head->Object_0);
            }
            assert(end.messages.take(1)[0] == end.messages[0]);
            assert(end.messages =~= seq![head] + said);
            the_system_speaks_first(i, said);
            assert forall|k: int| 0 <= k < items.len() implies #[trigger] sent[1 + k]
                == said[k] by {
                assert(sent.skip(1)[k] == sent[1 + k]);
            }
        },
        None => {
            assert(before =~= Seq::empty());
            assert(end.messages =~= said);
            spoken_messages_go_upstream(said);
        },
    }
    crate::convert::responses_to_chat::chat_bodies_are_well_formed(payload, model, sent, registry);
    let head = if instructions is Some {
        1int
    } else {
        0
    };
    assert forall|k: int| 0 <= k < items.len() implies {
        let told = #[trigger] sent[head + k];
        &&& told.at("role"@) == Some(Tree::Str(roles[k]))
        &&& told.at("content"@) == Some(Tree::Str(texts[k]))
    } by {
        assert(sent[head + k] == said[k]);
        assert(said[k] == end.messages[before.len() + k]);
        assert(is_plain_message(items[k], roles[k], texts[k]));
    }
}

/// Whether a content part is a text.
pub open spec fn is_text_part(part: Tree, text: Seq<char>) -> bool {
    &&& part.at("type"@) == Some(Tree::Str("input_text"@)) || part.at("type"@) == Some(
        Tree::Str("output_text"@),
    ) || part.at("type"@) == Some(Tree::Str("text"@))
    &&& part.at("text"@) == Some(Tree::Str(text))
    &&& text.len() > 0
    &&& is_clean(text)
}

/// Content in parts goes upstream as one text, with the texts of all parts as its lines.
pub proof fn parts_become_lines(parts: Seq<Tree>, texts: Seq<Seq<char>>)
    requires
        texts.len() == parts.len(),
        forall|k: int| 0 <= k < parts.len() ==> is_text_part(#[trigger] parts[k], texts[k]),
    ensures
        crate::convert::message_normalization::chat_content(Some(Tree::Array(parts)))
            == Tree::Str(crate::text::join(texts, "\n"@)),
        parts.len() > 0 ==> crate::convert::message_normalization::output_text(
            Some(Tree::Array(parts)),
        ) == crate::text::join(texts, "\n"@),
{
    lemma_chunks(parts, texts);
    if parts.len() > 0 {
        assert(is_text_part(parts[0], texts[0]));
        lemma_join_len(texts);
    }
}

proof fn lemma_join_len(texts: Seq<Seq<char>>)
    requires
        texts.len() > 0,
        texts[0].len() > 0,
    ensures
        crate::text::join(texts, "\n"@).len() > 0,
    decreases texts.len(),
{
    if texts.len() > 1 {
        assert(texts.drop_last()[0] == texts[0]);
        lemma_join_len(texts.drop_last());
    }
}

proof fn lemma_chunks(parts: Seq<Tree>, texts: Seq<Seq<char>>)
    requires
        texts.len() == parts.len(),
        forall|k: int| 0 <= k < parts.len() ==> is_text_part(#[trigger] parts[k], texts[k]),
    ensures
        crate::convert::message_normalization::chat_chunks(parts) == texts,
        crate::convert::message_normalization::content_chunks(parts) == texts,
    decreases parts.len(),
{
    if parts.len() == 0 {
        assert(texts =~= Seq::empty());
    } else {
        let front = parts.drop_last();
        let some = texts.drop_last();
        assert forall|k: int| 0 <= k < front.len() implies is_text_part(
            #[trigger] front[k],
            some[k],
        ) by {
            assert(front[k] == parts[k] && some[k] == texts[k]);
        }
        lemma_chunks(front, some);
        let n = parts.len() - 1;
        assert(is_text_part(parts[n], texts[n]));
        lemma_clean(texts[n]);
        reveal_strlit("type");
        reveal_strlit("text");
        assert("type"@.len() == 4);
        assert("text"@.len() == 4);
        assert("text"@[1] == 'e');
        assert("type"@[1] == 'y');
        assert(crate::protocol::part_type("input_text"@).carries_text()
            && crate::protocol::part_type("output_text"@).carries_text()
            && crate::protocol::part_type("text"@).carries_text()) by {
            reveal_strlit("input_text");
            reveal_strlit("output_text");
            reveal_strlit("text");
            reveal_strlit("refusal");
            assert("input_text"@.len() == 10);
            assert("output_text"@.len() == 11);
            assert("text"@.len() == 4);
            assert("refusal"@.len() == 7);
        }
        assert(some.push(texts[n]) =~= texts);
    }
}

} // verus!
