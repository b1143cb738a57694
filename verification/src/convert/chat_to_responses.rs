//! A Chat Completions body as a Responses object.
use vstd::prelude::*;
use crate::context::{
    custom_input, custom_tool_input_from_chat_arguments, parse_tool_arguments_object,
    resolve_nested_namespace_arguments, resolved, search_arguments, BridgeToolContext, Registry,
};
use crate::convert::message_normalization::{
    annotations_of, extract_message_annotations, nonempty, nonempty_text, type_of,
};
use crate::convert::responses_to_chat::fresh_ids;
use crate::convert::semantics::{
    copied, echo_field_names, echo_request_fields, first_choice, first_choice_of,
    incomplete_details, incomplete_reason_from_finish_reason, lemma_copied_other, map_chat_usage,
    mapped_usage, name_texts, request_echo_fields, response_status_from_finish_reason, status_of,
};
use crate::convert::tool_arguments::{
    canonical_arguments, canonicalize_tool_arguments, denoted_arguments,
};
use crate::id_gen::{
    custom_tool_call_id, custom_tool_call_item_id, function_call_id, function_call_item_id,
    is_synthetic_call_id, message_id, message_item_id, reasoning_id, reasoning_item_id,
    synthetic_tool_call_ids,
};
use crate::json::{
    clone_values, has_equal, in_values, int_in, items_in, lemma_trees_push, list_of, member,
    members_in, opt_tree, opt_value, parsed, text_at, text_in, trees, Json, Object, Tree,
};
use crate::protocol::{part_type, ContentPartType};
use crate::reasoning::{extract_reasoning_field, inline_think, reasoning_field, split_inline_think};
use crate::sanitize::{sanitize_string, sanitized};
use crate::text::{join, joined, lemma_texts_push, same, text_or_empty, texts, trim, trimmed};

verus! {

broadcast use {lemma_trees_push, lemma_texts_push};

/// The reasoning of a message: that of its reasoning fields, or else that of a
/// think block in its content.
pub open spec fn message_reasoning(message: Tree) -> Seq<char> {
    let field = match members_in(Some(message)) {
        Some(m) => match reasoning_field(m) {
            Some(f) => trim(f),
            None => Seq::empty(),
        },
        None => Seq::empty(),
    };
    if field.len() > 0 {
        field
    } else {
        match text_in(message.at("content"@)) {
            Some(content) => match inline_think(content) {
                Some((reasoning, _)) => reasoning,
                None => Seq::empty(),
            },
            None => Seq::empty(),
        }
    }
}

/// The reasoning of a message.
pub fn extract_reasoning_text(message: &Json) -> (r: String)
    ensures
        r@ == message_reasoning(message@),
{
    if let Some(obj) = message.as_object() {
        if let Some(field) = extract_reasoning_field(obj) {
            let clean = trimmed(field.as_str());
            if !clean.as_str().is_empty() {
                return clean;
            }
        }
    }
    if let Some(content) = message.get_str("content") {
        if let Some((reasoning, _)) = split_inline_think(content) {
            return reasoning;
        }
    }
    String::new()
}

/// A text part of a response.
pub open spec fn output_text_part(text: Seq<char>, annotations: Seq<Tree>) -> Tree {
    Tree::Object(
        map![
            "type"@ => Tree::Str("output_text"@),
            "text"@ => Tree::Str(text),
            "annotations"@ => Tree::Array(annotations),
        ],
    )
}

/// A refusal part of a response.
pub open spec fn refusal_part(refusal: Seq<char>) -> Tree {
    Tree::Object(map!["type"@ => Tree::Str("refusal"@), "refusal"@ => Tree::Str(refusal)])
}

/// A text part of a response.
pub fn make_output_text_part(text: &str, annotations: Vec<Json>) -> (r: Json)
    ensures
        r@ == output_text_part(text@, trees(annotations@)),
{
    Json::Object(
        Object::new().with("type", Json::text("output_text")).with("text", Json::text(text)).with(
            "annotations",
            Json::Array(annotations),
        ),
    )
}

/// A refusal part of a response.
pub fn make_refusal_part(refusal: &str) -> (r: Json)
    ensures
        r@ == refusal_part(refusal@),
{
    Json::Object(
        Object::new().with("type", Json::text("refusal")).with("refusal", Json::text(refusal)),
    )
}

/// The annotations with those of a part that are not among them yet.
pub open spec fn merged_annotations(base: Seq<Tree>, more: Seq<Tree>) -> Seq<Tree>
    decreases more.len(),
{
    if more.len() == 0 {
        base
    } else {
        let before = merged_annotations(base, more.drop_last());
        if has_equal(before, more.last()) {
            before
        } else {
            before.push(more.last())
        }
    }
}

/// One part of a message's content as a part of a response.
pub open spec fn response_part(part: Tree, annotations: Seq<Tree>) -> Option<Tree> {
    match part {
        Tree::Object(p) => match part_type(text_or_empty(text_at(p, "type"@))) {
            ContentPartType::Text | ContentPartType::OutputText => match nonempty(
                text_at(p, "text"@),
            ) {
                Some(text) => {
                    let own = match items_in(member(p, "annotations"@)) {
                        Some(a) => a,
                        None => Seq::empty(),
                    };
                    Some(output_text_part(sanitized(text), merged_annotations(annotations, own)))
                },
                None => None,
            },
            ContentPartType::Refusal => match nonempty(text_at(p, "refusal"@)) {
                Some(refusal) => Some(refusal_part(sanitized(refusal))),
                None => None,
            },
            ContentPartType::InputText | ContentPartType::Other => None,
        },
        _ => None,
    }
}

/// The parts of a message's content as parts of a response.
pub open spec fn response_parts(parts: Seq<Tree>, annotations: Seq<Tree>) -> Seq<Tree>
    decreases parts.len(),
{
    if parts.len() == 0 {
        Seq::empty()
    } else {
        let before = response_parts(parts.drop_last(), annotations);
        match response_part(parts.last(), annotations) {
            Some(p) => before.push(p),
            None => before,
        }
    }
}

/// The content of a message as parts of a response, without its think block, and
/// with its refusal at the end.
pub open spec fn content_parts(message: Tree) -> Seq<Tree> {
    let annotations = annotations_of(message);
    let parts = match message.at("content"@) {
        Some(Tree::Str(raw)) => {
            let answer = match inline_think(raw) {
                Some((_, answer)) => answer,
                None => raw,
            };
            if answer.len() > 0 {
                seq![output_text_part(sanitized(answer), annotations)]
            } else {
                Seq::empty()
            }
        },
        Some(Tree::Array(items)) => response_parts(items, annotations),
        _ => Seq::empty(),
    };
    match nonempty(text_in(message.at("refusal"@))) {
        Some(refusal) => parts.push(refusal_part(sanitized(refusal))),
        None => parts,
    }
}

fn merge_annotations(base: &Vec<Json>, more: &Vec<Json>) -> (r: Vec<Json>)
    ensures
        trees(r@) == merged_annotations(trees(base@), trees(more@)),
{
    let mut out = clone_values(base);
    let ghost all = trees(more@);
    let mut i: usize = 0;
    assert(all.take(0) =~= Seq::<Tree>::empty());
    while i < more.len()
        invariant
            i <= more@.len(),
            all == trees(more@),
            trees(out@) == merged_annotations(trees(base@), all.take(i as int)),
        decreases more.len() - i,
    {
        assert(all.take(i as int + 1).drop_last() =~= all.take(i as int));
        assert(all.take(i as int + 1).last() == more@[i as int]@);
        if !in_values(&out, &more[i]) {
            out.push(more[i].clone());
        }
        i += 1;
    }
    assert(all.take(i as int) =~= all);
    out
}

fn make_response_part(part: &Json, annotations: &Vec<Json>) -> (r: Option<Json>)
    ensures
        opt_value(r) == response_part(part@, trees(annotations@)),
{
    let p = match part.as_object() {
        Some(p) => p,
        None => {
            return None;
        },
    };
    match ContentPartType::classify(type_of(p)) {
        ContentPartType::Text | ContentPartType::OutputText => match nonempty_text(
            p.get_str("text"),
        ) {
            Some(text) => {
                let none: Vec<Json> = Vec::new();
                assert(trees(none@) =~= Seq::<Tree>::empty());
                let own: &Vec<Json> = match p.get_array("annotations") {
                    Some(a) => a,
                    None => &none,
                };
                let merged = merge_annotations(annotations, own);
                Some(make_output_text_part(sanitize_string(text).as_str(), merged))
            },
            None => None,
        },
        ContentPartType::Refusal => match nonempty_text(p.get_str("refusal")) {
            Some(refusal) => Some(make_refusal_part(sanitize_string(refusal).as_str())),
            None => None,
        },
        ContentPartType::InputText | ContentPartType::Other => None,
    }
}

/// The content of a message as parts of a response.
pub fn message_content_parts(message: &Json) -> (r: Vec<Json>)
    ensures
        trees(r@) == content_parts(message@),
{
    let annotations = extract_message_annotations(message);
    let mut parts: Vec<Json> = Vec::new();
    assert(trees(parts@) =~= Seq::<Tree>::empty());
    match message.get("content") {
        Some(Json::Str(raw)) => {
            let answer = match split_inline_think(raw.as_str()) {
                Some((_, answer)) => answer,
                None => raw.clone(),
            };
            if !answer.as_str().is_empty() {
                let part = make_output_text_part(
                    sanitize_string(answer.as_str()).as_str(),
                    clone_values(&annotations),
                );
                parts.push(part);
                assert(trees(parts@) =~= seq![part@]);
            }
        },
        Some(Json::Array(items)) => {
            let ghost all = trees(items@);
            let mut i: usize = 0;
            assert(all.take(0) =~= Seq::<Tree>::empty());
            while i < items.len()
                invariant
                    i <= items@.len(),
                    all == trees(items@),
                    trees(parts@) == response_parts(all.take(i as int), trees(annotations@)),
                decreases items.len() - i,
            {
                assert(all.take(i as int + 1).drop_last() =~= all.take(i as int));
                assert(all.take(i as int + 1).last() == items@[i as int]@);
                if let Some(p) = make_response_part(&items[i], &annotations) {
                    parts.push(p);
                }
                i += 1;
            }
            assert(all.take(i as int) =~= all);
        },
        _ => {},
    }
    if let Some(refusal) = nonempty_text(message.get_str("refusal")) {
        parts.push(make_refusal_part(sanitize_string(refusal).as_str()));
    }
    parts
}

/// The texts of the text parts of a response.
pub open spec fn part_texts(parts: Seq<Tree>) -> Seq<Seq<char>>
    decreases parts.len(),
{
    if parts.len() == 0 {
        Seq::empty()
    } else {
        let before = part_texts(parts.drop_last());
        let p = parts.last();
        match text_in(p.at("text"@)) {
            Some(t) => if text_in(p.at("type"@)) == Some("output_text"@) {
                before.push(t)
            } else {
                before
            },
            None => before,
        }
    }
}

/// The text of the text parts of a response, as lines.
pub fn output_text_from_parts(parts: &Vec<Json>) -> (r: String)
    ensures
        r@ == join(part_texts(trees(parts@)), "\n"@),
{
    let ghost all = trees(parts@);
    let mut lines: Vec<String> = Vec::new();
    let mut i: usize = 0;
    assert(all.take(0) =~= Seq::<Tree>::empty());
    assert(texts(lines@) =~= Seq::<Seq<char>>::empty());
    while i < parts.len()
        invariant
            i <= parts@.len(),
            all == trees(parts@),
            texts(lines@) == part_texts(all.take(i as int)),
        decreases parts.len() - i,
    {
        assert(all.take(i as int + 1).drop_last() =~= all.take(i as int));
        assert(all.take(i as int + 1).last() == parts@[i as int]@);
        let is_text = match parts[i].get_str("type") {
            Some(t) => same(t, "output_text"),
            None => false,
        };
        if is_text {
            if let Some(t) = parts[i].get_str("text") {
                lines.push(t.to_owned());
            }
        }
        i += 1;
    }
    assert(all.take(i as int) =~= all);
    joined(&lines, "\n")
}

/// The members with `k` set to a text, where there is one.
pub open spec fn with_text(
    m: Map<Seq<char>, Tree>,
    k: Seq<char>,
    v: Option<Seq<char>>,
) -> Map<Seq<char>, Tree> {
    match v {
        Some(s) => m.insert(k, Tree::Str(s)),
        None => m,
    }
}

/// A completed call item of a response, up to what it calls.
pub open spec fn call_item_head(
    id: Seq<char>,
    item_type: Seq<char>,
    call_id: Seq<char>,
) -> Map<Seq<char>, Tree> {
    map![
        "id"@ => Tree::Str(id),
        "type"@ => Tree::Str(item_type),
        "status"@ => Tree::Str("completed"@),
        "call_id"@ => Tree::Str(call_id),
    ]
}

/// The members of a call item that say what it calls, by the registry: the tool
/// search, a custom tool, an action of a nested namespace, or a function.
pub open spec fn call_item_members(
    call_id: Seq<char>,
    name: Seq<char>,
    canonical: Seq<char>,
    denoted: Option<Tree>,
    registry: Registry,
) -> Map<Seq<char>, Tree> {
    let origin = registry.origin(name);
    let own = match origin {
        Some(o) => o.name,
        None => name,
    };
    let function = call_item_head(function_call_id(call_id), "function_call"@, call_id);
    if registry.search(Some(name)) {
        call_item_head(function_call_id(call_id), "tool_search_call"@, call_id).insert(
            "execution"@,
            Tree::Str("client"@),
        ).insert("arguments"@, search_arguments(canonical, denoted))
    } else if registry.custom(Some(name)) {
        call_item_head(custom_tool_call_id(call_id), "custom_tool_call"@, call_id).insert(
            "name"@,
            Tree::Str(own),
        ).insert("input"@, Tree::Str(custom_input(canonical, denoted)))
    } else if origin matches Some(o) && o.nested_namespace() {
        let o = origin->0;
        let (action, arguments) = resolved(o, canonical, denoted);
        with_text(
            function.insert(
                "name"@,
                Tree::Str(
                    match action {
                        Some(a) => a,
                        None => own,
                    },
                ),
            ).insert("arguments"@, Tree::Str(arguments)),
            "namespace"@,
            o.namespace,
        )
    } else {
        with_text(
            function.insert("name"@, Tree::Str(own)).insert("arguments"@, Tree::Str(canonical)),
            "namespace"@,
            match origin {
                Some(o) => o.namespace,
                None => None,
            },
        )
    }
}

/// The item with reasoning, where there is some.
pub open spec fn with_item_reasoning(
    m: Map<Seq<char>, Tree>,
    reasoning: Seq<char>,
) -> Map<Seq<char>, Tree> {
    if reasoning.len() == 0 {
        m
    } else {
        m.insert("reasoning_content"@, Tree::Str(sanitized(reasoning)))
    }
}

/// The response item of a tool call.
pub open spec fn call_item(
    call_id: Seq<char>,
    name: Seq<char>,
    arguments: Option<Tree>,
    reasoning: Seq<char>,
    registry: Registry,
) -> Tree {
    let canonical = canonical_arguments(arguments, denoted_arguments(arguments));
    Tree::Object(
        with_item_reasoning(
            call_item_members(call_id, name, canonical, parsed(canonical), registry),
            reasoning,
        ),
    )
}

fn make_call_item_head(id: &str, item_type: &str, call_id: &str) -> (r: Object)
    ensures
        r@ == call_item_head(id@, item_type@, call_id@),
{
    Object::new().with("id", Json::text(id)).with("type", Json::text(item_type)).with(
        "status",
        Json::text("completed"),
    ).with("call_id", Json::text(call_id))
}

/// The response item of a tool call.
pub fn tool_call_to_response_item(
    call_id: &str,
    name: &str,
    arguments: Option<&Json>,
    reasoning: &str,
    tool_context: &BridgeToolContext,
) -> (r: Json)
    ensures
        r@ == call_item(call_id@, name@, opt_tree(arguments), reasoning@, tool_context@),
{
    let canonical = canonicalize_tool_arguments(arguments);
    let spec = tool_context.lookup_chat_name(Some(name));
    let own = match spec {
        Some(s) => s.name.clone(),
        None => name.to_owned(),
    };
    let fc = function_call_item_id(call_id);
    let nested = match spec {
        Some(s) => s.is_nested_namespace(),
        None => false,
    };
    let mut item = if tool_context.is_tool_search(Some(name)) {
        make_call_item_head(fc.as_str(), "tool_search_call", call_id).with(
            "execution",
            Json::text("client"),
        ).with("arguments", parse_tool_arguments_object(canonical.as_str()))
    } else if tool_context.is_custom_tool(Some(name)) {
        let id = custom_tool_call_item_id(call_id);
        make_call_item_head(id.as_str(), "custom_tool_call", call_id).with(
            "name",
            Json::Str(own),
        ).with("input", Json::Str(custom_tool_input_from_chat_arguments(canonical.as_str())))
    } else {
        let (called, args) = match spec {
            Some(s) => {
                if nested {
                    let resolution = resolve_nested_namespace_arguments(s, canonical.as_str());
                    (
                        match resolution.action_name {
                            Some(a) => a,
                            None => own,
                        },
                        resolution.normalized_arguments,
                    )
                } else {
                    (own, canonical)
                }
            },
            None => (own, canonical),
        };
        let mut func = make_call_item_head(fc.as_str(), "function_call", call_id).with(
            "name",
            Json::Str(called),
        ).with("arguments", Json::Str(args));
        if let Some(s) = spec {
            if let Some(ns) = &s.namespace {
                func.insert("namespace", Json::text(ns.as_str()));
            }
        }
        func
    };
    if !reasoning.is_empty() {
        item.insert("reasoning_content", Json::Str(sanitize_string(reasoning)));
    }
    Json::Object(item)
}

/// The response item of one tool call of a message; `fresh` is its call id where
/// it has none.
pub open spec fn message_call_item(
    call: Map<Seq<char>, Tree>,
    reasoning: Seq<char>,
    registry: Registry,
    fresh: Seq<char>,
) -> Tree {
    let function = members_in(member(call, "function"@));
    let id = match text_at(call, "id"@) {
        Some(s) => s,
        None => fresh,
    };
    let name = match text_in(crate::context::opt_member(function, "name"@)) {
        Some(n) => n,
        None => "unknown_tool"@,
    };
    call_item(id, name, crate::context::opt_member(function, "arguments"@), reasoning, registry)
}

/// The response items of the first `n` tool calls of a message.
pub open spec fn call_items(
    calls: Seq<Tree>,
    n: int,
    reasoning: Seq<char>,
    registry: Registry,
    fresh: Seq<Seq<char>>,
) -> Seq<Tree>
    decreases n,
{
    if n <= 0 {
        Seq::empty()
    } else {
        let before = call_items(calls, n - 1, reasoning, registry, fresh);
        match calls[n - 1] {
            Tree::Object(call) => before.push(
                message_call_item(call, reasoning, registry, fresh[n - 1]),
            ),
            _ => before,
        }
    }
}

/// The tool calls of a message.
pub open spec fn calls_of(message: Tree) -> Seq<Tree> {
    match items_in(message.at("tool_calls"@)) {
        Some(calls) => calls,
        None => Seq::empty(),
    }
}

/// The response items of the tool calls of a message; `fresh` holds a call id
/// for each that has none.
pub fn chat_tool_calls_to_response_items(
    message: &Json,
    reasoning: &str,
    tool_context: &BridgeToolContext,
    fresh: &Vec<String>,
) -> (r: Vec<Json>)
    requires
        fresh@.len() == calls_of(message@).len(),
    ensures
        trees(r@) == call_items(
            calls_of(message@),
            calls_of(message@).len() as int,
            reasoning@,
            tool_context@,
            texts(fresh@),
        ),
{
    let mut output: Vec<Json> = Vec::new();
    assert(trees(output@) =~= Seq::<Tree>::empty());
    if let Some(calls) = message.get_array("tool_calls") {
        let ghost all = trees(calls@);
        assert(all.len() == calls@.len());
        let mut i: usize = 0;
        while i < calls.len()
            invariant
                i <= calls@.len(),
                fresh@.len() == calls@.len(),
                all == trees(calls@),
                trees(output@) == call_items(
                    all,
                    i as int,
                    reasoning@,
                    tool_context@,
                    texts(fresh@),
                ),
            decreases calls.len() - i,
        {
            assert(all[i as int] == calls@[i as int]@);
            assert(texts(fresh@)[i as int] == fresh@[i as int]@);
            if let Some(call) = calls[i].as_object() {
                let function: Option<&Object> = match call.get("function") {
                    Some(f) => f.as_object(),
                    None => None,
                };
                let id = match call.get_str("id") {
                    Some(s) => s,
                    None => fresh[i].as_str(),
                };
                let (name, arguments): (Option<&str>, Option<&Json>) = match function {
                    Some(f) => (f.get_str("name"), f.get("arguments")),
                    None => (None, None),
                };
                let name = match name {
                    Some(n) => n,
                    None => "unknown_tool",
                };
                output.push(
                    tool_call_to_response_item(id, name, arguments, reasoning, tool_context),
                );
            }
            i += 1;
        }
    }
    output
}

/// A reasoning item of a response.
pub open spec fn reasoning_item(response_id: Seq<char>, text: Seq<char>) -> Tree {
    Tree::Object(
        map![
            "id"@ => Tree::Str(reasoning_id(response_id)),
            "type"@ => Tree::Str("reasoning"@),
            "summary"@ => Tree::Array(seq![summary_part(text)]),
        ],
    )
}

/// The part of a reasoning summary.
pub open spec fn summary_part(text: Seq<char>) -> Tree {
    Tree::Object(map!["type"@ => Tree::Str("summary_text"@), "text"@ => Tree::Str(text)])
}

/// A message item of a response.
pub open spec fn message_item(response_id: Seq<char>, status: Seq<char>, content: Seq<Tree>) -> Tree {
    Tree::Object(
        map![
            "id"@ => Tree::Str(message_id(response_id)),
            "type"@ => Tree::Str("message"@),
            "status"@ => Tree::Str(status),
            "role"@ => Tree::Str("assistant"@),
            "content"@ => Tree::Array(content),
        ],
    )
}

/// The part of a reasoning summary.
pub fn make_summary_part(text: &str) -> (r: Json)
    ensures
        r@ == summary_part(text@),
{
    Json::Object(
        Object::new().with("type", Json::text("summary_text")).with("text", Json::text(text)),
    )
}

/// A reasoning item of a response.
pub fn make_reasoning_item(response_id: &str, text: &str) -> (r: Json)
    ensures
        r@ == reasoning_item(response_id@, text@),
{
    let id = reasoning_item_id(response_id);
    Json::Object(
        Object::new().with("id", Json::Str(id)).with("type", Json::text("reasoning")).with(
            "summary",
            list_of(make_summary_part(text)),
        ),
    )
}

/// A message item of a response.
pub fn make_message_item(response_id: &str, status: &str, content: Vec<Json>) -> (r: Json)
    ensures
        r@ == message_item(response_id@, status@, trees(content@)),
{
    let id = message_item_id(response_id);
    Json::Object(
        Object::new().with("id", Json::Str(id)).with("type", Json::text("message")).with(
            "status",
            Json::text(status),
        ).with("role", Json::text("assistant")).with("content", Json::Array(content)),
    )
}

/// An object without members.
pub open spec fn nothing() -> Tree {
    Tree::Object(Map::empty())
}

/// The first choice of a Chat body, or nothing.
pub open spec fn choice_of(body: Tree) -> Tree {
    match first_choice(body) {
        Some(c) => c,
        None => nothing(),
    }
}

/// The message of the first choice of a Chat body, or nothing.
pub open spec fn message_of(body: Tree) -> Tree {
    match choice_of(body).at("message"@) {
        Some(m) => m,
        None => nothing(),
    }
}

/// The output items of a response: its reasoning, its message, then its calls.
pub open spec fn output_items(
    body: Tree,
    response_id: Seq<char>,
    registry: Registry,
    fresh: Seq<Seq<char>>,
) -> Seq<Tree> {
    let message = message_of(body);
    let reasoning = sanitized(message_reasoning(message));
    let parts = content_parts(message);
    let thought = if reasoning.len() > 0 {
        seq![reasoning_item(response_id, reasoning)]
    } else {
        Seq::empty()
    };
    let said = if parts.len() > 0 {
        thought.push(message_item(response_id, "completed"@, parts))
    } else {
        thought
    };
    let calls = calls_of(message);
    said + call_items(calls, calls.len() as int, reasoning, registry, fresh)
}

/// The members of a response that do not echo the request.
pub open spec fn response_members(
    body: Tree,
    fallback_model: Seq<char>,
    response_id: Seq<char>,
    output: Seq<Tree>,
) -> Map<Seq<char>, Tree> {
    let finish = text_in(choice_of(body).at("finish_reason"@));
    map![
        "id"@ => Tree::Str(response_id),
        "object"@ => Tree::Str("response"@),
        "status"@ => Tree::Str(status_of(finish).label()),
        "model"@ => Tree::Str(match text_in(body.at("model"@)) {
            Some(m) => m,
            None => fallback_model,
        }),
        "output"@ => Tree::Array(output),
        "output_text"@ => Tree::Str(join(part_texts(content_parts(message_of(body))), "\n"@)),
        "created_at"@ => match int_in(body.at("created"@)) {
            Some(n) => Tree::Int(n),
            None => Tree::Null,
        },
        "usage"@ => mapped_usage(body.at("usage"@)),
        "incomplete_details"@ => match incomplete_details(finish) {
            Some(d) => d,
            None => Tree::Null,
        },
    ]
}

/// The members with each of `names` set to null.
pub open spec fn nulled(m: Map<Seq<char>, Tree>, names: Seq<Seq<char>>) -> Map<Seq<char>, Tree>
    decreases names.len(),
{
    if names.len() == 0 {
        m
    } else {
        nulled(m, names.drop_last()).insert(names.last(), Tree::Null)
    }
}

/// The response of a Chat body: every echoed request field is there, as null
/// where the request did not have it. `fresh` holds a call id for each tool call
/// that has none.
pub open spec fn response_of(
    body: Tree,
    fallback_model: Seq<char>,
    request: Option<Map<Seq<char>, Tree>>,
    response_id: Seq<char>,
    registry: Registry,
    fresh: Seq<Seq<char>>,
) -> Map<Seq<char>, Tree> {
    let own = response_members(
        body,
        fallback_model,
        response_id,
        output_items(body, response_id, registry, fresh),
    );
    let seeded = nulled(own, request_echo_fields());
    match request {
        Some(r) => copied(seeded, r, request_echo_fields()),
        None => seeded,
    }
}

fn null_members(m: &mut Object, names: &Vec<&'static str>)
    ensures
        final(m)@ == nulled(old(m)@, name_texts(names@)),
{
    let ghost start = m@;
    let ghost all = name_texts(names@);
    let mut i: usize = 0;
    assert(all.take(0) =~= Seq::<Seq<char>>::empty());
    while i < names.len()
        invariant
            i <= names@.len(),
            all == name_texts(names@),
            m@ == nulled(start, all.take(i as int)),
        decreases names.len() - i,
    {
        assert(all.take(i as int + 1).drop_last() =~= all.take(i as int));
        m.insert(names[i], Json::Null);
        i += 1;
    }
    assert(all.take(i as int) =~= all);
}

/// Render a Chat body as a response; `fresh` holds a call id for each tool call
/// that has none.
pub fn render_response(
    chat_body: &Json,
    fallback_model: &str,
    original_request: Option<&Object>,
    response_id: &str,
    tool_context: &BridgeToolContext,
    fresh: &Vec<String>,
) -> (r: Json)
    requires
        fresh@.len() == calls_of(message_of(chat_body@)).len(),
    ensures
        r@ == Tree::Object(
            response_of(
                chat_body@,
                fallback_model@,
                crate::json::opt_members(original_request),
                response_id@,
                tool_context@,
                texts(fresh@),
            ),
        ),
{
    let empty = Json::Object(Object::new());
    let choice: &Json = match first_choice_of(chat_body) {
        Some(c) => c,
        None => &empty,
    };
    let message: &Json = match choice.get("message") {
        Some(m) => m,
        None => &empty,
    };
    let reasoning = sanitize_string(extract_reasoning_text(message).as_str());
    let mut output: Vec<Json> = Vec::new();
    assert(trees(output@) =~= Seq::<Tree>::empty());
    if !reasoning.as_str().is_empty() {
        let item = make_reasoning_item(response_id, reasoning.as_str());
        output.push(item);
        assert(trees(output@) =~= seq![item@]);
    }
    let parts = message_content_parts(message);
    assert(trees(parts@).len() == parts@.len());
    let output_text = output_text_from_parts(&parts);
    if parts.len() > 0 {
        output.push(make_message_item(response_id, "completed", parts));
    }
    let calls = chat_tool_calls_to_response_items(
        message,
        reasoning.as_str(),
        tool_context,
        fresh,
    );
    crate::json::append_copies(&mut output, &calls);
    let model = match chat_body.get_str("model") {
        Some(m) => m,
        None => fallback_model,
    };
    let finish = choice.get_str("finish_reason");
    let created = match chat_body.get("created") {
        Some(c) => match c.as_i64() {
            Some(n) => Json::integer(n),
            None => Json::Null,
        },
        None => Json::Null,
    };
    let details = match incomplete_reason_from_finish_reason(finish) {
        Some(d) => d,
        None => Json::Null,
    };
    let mut response = Object::new().with("id", Json::text(response_id)).with(
        "object",
        Json::text("response"),
    ).with("status", Json::text(response_status_from_finish_reason(finish).as_str())).with(
        "model",
        Json::text(model),
    ).with("output", Json::Array(output)).with("output_text", Json::Str(output_text)).with(
        "created_at",
        created,
    ).with("usage", map_chat_usage(chat_body.get("usage"))).with("incomplete_details", details);
    null_members(&mut response, &echo_field_names());
    echo_request_fields(&mut response, original_request);
    Json::Object(response)
}

/// Render a Chat body as a response. A tool call without an id gets a synthetic
/// one.
pub fn chat_to_responses(
    chat_body: &Json,
    fallback_model: &str,
    original_request: Option<&Object>,
    response_id: &str,
    tool_context: &BridgeToolContext,
) -> (r: Json)
    ensures
        exists|fresh: Seq<Seq<char>>| #[trigger]
            fresh_ids(fresh, calls_of(message_of(chat_body@)).len()) && r@ == Tree::Object(
                response_of(
                    chat_body@,
                    fallback_model@,
                    crate::json::opt_members(original_request),
                    response_id@,
                    tool_context@,
                    fresh,
                ),
            ),
{
    let calls: usize = match first_choice_of(chat_body) {
        Some(c) => match c.get("message") {
            Some(m) => match m.get_array("tool_calls") {
                Some(v) => {
                    assert(trees(v@).len() == v@.len());
                    v.len()
                },
                None => 0,
            },
            None => 0,
        },
        None => 0,
    };
    let ids = synthetic_tool_call_ids(calls);
    proof {
        let fresh = texts(ids@);
        assert forall|i: int| 0 <= i < fresh.len() implies is_synthetic_call_id(
            #[trigger] fresh[i],
        ) by {
            assert(fresh[i] == ids@[i]@);
        }
        assert(fresh_ids(fresh, calls_of(message_of(chat_body@)).len()));
    }
    render_response(
        chat_body,
        fallback_model,
        original_request,
        response_id,
        tool_context,
        &ids,
    )
}

/// Setting members to null leaves all others alone.
pub proof fn lemma_nulled(m: Map<Seq<char>, Tree>, names: Seq<Seq<char>>, k: Seq<char>)
    ensures
        crate::text::listed(names, k) ==> member(nulled(m, names), k) == Some(Tree::Null),
        !crate::text::listed(names, k) ==> member(nulled(m, names), k) == member(m, k),
    decreases names.len(),
{
    if names.len() > 0 {
        let rest = names.drop_last();
        lemma_nulled(m, rest, k);
        if crate::text::listed(rest, k) {
            let i = choose|i: int| 0 <= i < rest.len() && #[trigger] rest[i] == k;
            assert(names[i] == k);
        } else if names.last() == k {
            assert(names[names.len() - 1] == k);
        } else {
            assert forall|i: int| 0 <= i < names.len() implies #[trigger] names[i] != k by {
                if i < rest.len() {
                    assert(rest[i] == names[i]);
                }
            }
        }
    }
}

proof fn lemma_copied_keeps(
    into: Map<Seq<char>, Tree>,
    from: Map<Seq<char>, Tree>,
    names: Seq<Seq<char>>,
    k: Seq<char>,
)
    requires
        into.contains_key(k),
    ensures
        copied(into, from, names).contains_key(k),
    decreases names.len(),
{
    if names.len() > 0 {
        lemma_copied_keeps(into, from, names.drop_last(), k);
    }
}

proof fn lemma_envelope_not_echoed(k: Seq<char>)
    requires
        k == "id"@ || k == "object"@ || k == "status"@ || k == "output"@,
    ensures
        forall|i: int| 0 <= i < request_echo_fields().len() ==> #[trigger]
            request_echo_fields()[i] != k,
{
    reveal_strlit("id");
    reveal_strlit("object");
    reveal_strlit("status");
    reveal_strlit("output");
    reveal_strlit("instructions");
    reveal_strlit("max_output_tokens");
    reveal_strlit("parallel_tool_calls");
    reveal_strlit("previous_response_id");
    reveal_strlit("reasoning");
    reveal_strlit("temperature");
    reveal_strlit("tool_choice");
    reveal_strlit("tools");
    reveal_strlit("top_p");
    reveal_strlit("metadata");
    assert(k.len() == 2 || k.len() == 6);
    assert forall|i: int| 0 <= i < request_echo_fields().len() implies #[trigger]
    request_echo_fields()[i] != k by {
        let f = request_echo_fields()[i];
        assert(f == "instructions"@ || f == "max_output_tokens"@ || f == "parallel_tool_calls"@
            || f == "previous_response_id"@ || f == "reasoning"@ || f == "temperature"@ || f
            == "tool_choice"@ || f == "tools"@ || f == "top_p"@ || f == "metadata"@);
        assert(f.len() == 12 || f.len() == 17 || f.len() == 19 || f.len() == 20 || f.len() == 9
            || f.len() == 11 || f.len() == 5 || f.len() == 8);
    }
}

proof fn lemma_envelope_names()
    ensures
        "id"@ != "object"@,
        "id"@ != "status"@,
        "id"@ != "output"@,
        "object"@ != "status"@,
        "object"@ != "output"@,
        "status"@ != "output"@,
        forall|k: Seq<char>| #![trigger k.len()]
            k == "model"@ || k == "output_text"@ || k == "created_at"@ || k == "usage"@ || k
                == "incomplete_details"@ ==> k.len() != 2 && k.len() != 6,
        "id"@.len() == 2,
        "object"@.len() == 6,
        "status"@.len() == 6,
        "output"@.len() == 6,
{
    reveal_strlit("id");
    reveal_strlit("object");
    reveal_strlit("status");
    reveal_strlit("output");
    reveal_strlit("model");
    reveal_strlit("output_text");
    reveal_strlit("created_at");
    reveal_strlit("usage");
    reveal_strlit("incomplete_details");
    assert("object"@[1] == 'b' && "status"@[1] == 't' && "output"@[1] == 'u');
    assert("model"@.len() == 5 && "output_text"@.len() == 11 && "created_at"@.len() == 10
        && "usage"@.len() == 5 && "incomplete_details"@.len() == 18);
}

/// Whatever an upstream answers, its rendering is a response: it has its id, its
/// object type, the text of a status and an array of output items, and it echoes
/// every request field.
pub proof fn responses_are_well_formed(
    body: Tree,
    fallback_model: Seq<char>,
    request: Option<Map<Seq<char>, Tree>>,
    response_id: Seq<char>,
    registry: Registry,
    fresh: Seq<Seq<char>>,
)
    ensures
        ({
            let r = response_of(body, fallback_model, request, response_id, registry, fresh);
            &&& member(r, "id"@) == Some(Tree::Str(response_id))
            &&& member(r, "object"@) == Some(Tree::Str("response"@))
            &&& member(r, "status"@) == Some(
                Tree::Str(status_of(text_in(choice_of(body).at("finish_reason"@))).label()),
            )
            &&& member(r, "output"@) == Some(
                Tree::Array(output_items(body, response_id, registry, fresh)),
            )
            &&& forall|i: int|
                0 <= i < request_echo_fields().len() ==> r.contains_key(
                    #[trigger] request_echo_fields()[i],
                )
        }),
{
    let output = output_items(body, response_id, registry, fresh);
    let own = response_members(body, fallback_model, response_id, output);
    let names = request_echo_fields();
    let seeded = nulled(own, names);
    let r = response_of(body, fallback_model, request, response_id, registry, fresh);
    lemma_envelope_names();
    lemma_envelope_not_echoed("id"@);
    lemma_envelope_not_echoed("object"@);
    lemma_envelope_not_echoed("status"@);
    lemma_envelope_not_echoed("output"@);
    lemma_nulled(own, names, "id"@);
    lemma_nulled(own, names, "object"@);
    lemma_nulled(own, names, "status"@);
    lemma_nulled(own, names, "output"@);
    assert("model"@.len() != 6 && "output_text"@.len() != 6 && "created_at"@.len() != 6
        && "usage"@.len() != 6 && "incomplete_details"@.len() != 6);
    assert("model"@.len() != 2 && "output_text"@.len() != 2 && "created_at"@.len() != 2
        && "usage"@.len() != 2 && "incomplete_details"@.len() != 2);
    if let Some(q) = request {
        lemma_copied_other(seeded, q, names, "id"@);
        lemma_copied_other(seeded, q, names, "object"@);
        lemma_copied_other(seeded, q, names, "status"@);
        lemma_copied_other(seeded, q, names, "output"@);
    }
    assert forall|i: int| 0 <= i < names.len() implies r.contains_key(#[trigger] names[i]) by {
        lemma_nulled(own, names, names[i]);
        assert(crate::text::listed(names, names[i]));
        if let Some(q) = request {
            lemma_copied_keeps(seeded, q, names, names[i]);
        }
    }
}

} // verus!
