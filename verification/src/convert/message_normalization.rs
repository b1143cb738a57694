//! Message content: flattening, sanitization, system messages and reasoning.
use vstd::prelude::*;
use crate::convert::tool_arguments::canonical_json_string;
use crate::json::{
    items_in, lemma_trees_push, member, opt_tree, rendered, text_at, text_in, trees, Json, Object,
    Tree,
};
use crate::protocol::{part_type, ContentPartType};
use crate::sanitize::{sanitize_string, sanitized};
use crate::text::{
    cat, cat3, join, joined, lemma_texts_push, opt_string, opt_text, same, text_or_empty, texts,
    trim, trimmed,
};

verus! {

broadcast use {lemma_trees_push, lemma_texts_push};

/// A text that is not empty.
pub open spec fn nonempty(o: Option<Seq<char>>) -> Option<Seq<char>> {
    match o {
        Some(s) if s.len() > 0 => Some(s),
        _ => None,
    }
}

/// A text that is not empty.
pub fn nonempty_text(o: Option<&str>) -> (r: Option<&str>)
    ensures
        opt_text(r) == nonempty(opt_text(o)),
{
    match o {
        Some(s) => {
            if s.is_empty() {
                None
            } else {
                Some(s)
            }
        },
        None => None,
    }
}

/// An item `type`, where it has one.
pub fn non_empty(item_type: &str) -> (r: Option<&str>)
    ensures
        opt_text(r) == nonempty(Some(item_type@)),
{
    if item_type.is_empty() {
        None
    } else {
        Some(item_type)
    }
}

/// The objects among documents.
pub open spec fn objects_of(s: Seq<Tree>) -> Seq<Tree> {
    s.filter(|t: Tree| t is Object)
}

/// The annotations of a message.
pub open spec fn annotations_of(message: Tree) -> Seq<Tree> {
    match items_in(message.at("annotations"@)) {
        Some(items) => objects_of(items),
        None => Seq::empty(),
    }
}

/// Copies of the objects among documents.
pub fn copy_objects(items: &Vec<Json>) -> (r: Vec<Json>)
    ensures
        trees(r@) == objects_of(trees(items@)),
{
    let mut out: Vec<Json> = Vec::new();
    let mut i: usize = 0;
    reveal(Seq::filter);
    assert(trees(items@).take(0) =~= Seq::<Tree>::empty());
    assert(trees(out@) =~= Seq::<Tree>::empty());
    while i < items.len()
        invariant
            i <= items@.len(),
            trees(out@) == objects_of(trees(items@).take(i as int)),
        decreases items.len() - i,
    {
        reveal(Seq::filter);
        assert(trees(items@).take(i as int + 1).drop_last() =~= trees(items@).take(i as int));
        assert(trees(items@).take(i as int + 1).last() == items@[i as int]@);
        if items[i].is_object() {
            out.push(items[i].clone());
        }
        i += 1;
    }
    assert(trees(items@).take(i as int) =~= trees(items@));
    out
}

/// The annotations of a message: the objects among its `annotations`.
pub fn extract_message_annotations(message: &Json) -> (r: Vec<Json>)
    ensures
        trees(r@) == annotations_of(message@),
{
    match message.get_array("annotations") {
        Some(items) => copy_objects(items),
        None => {
            let none: Vec<Json> = Vec::new();
            assert(trees(none@) =~= Seq::<Tree>::empty());
            none
        },
    }
}

/// The text of one part of instructions.
pub open spec fn instruction_chunk(part: Tree) -> Option<Seq<char>> {
    match part {
        Tree::Str(s) => nonempty(Some(s)),
        Tree::Object(o) => nonempty(text_at(o, "text"@)),
        _ => None,
    }
}

/// The texts of the parts of instructions.
pub open spec fn instruction_chunks(parts: Seq<Tree>) -> Seq<Seq<char>>
    decreases parts.len(),
{
    if parts.len() == 0 {
        Seq::empty()
    } else {
        let before = instruction_chunks(parts.drop_last());
        match instruction_chunk(parts.last()) {
            Some(s) => before.push(s),
            None => before,
        }
    }
}

/// The text of instructions: a text as it is, the texts of a list as paragraphs,
/// nothing for null, and the compact text of anything else.
pub open spec fn instructions_text(value: Tree) -> Seq<char> {
    match value {
        Tree::Str(s) => s,
        Tree::Array(items) => join(instruction_chunks(items), "\n\n"@),
        Tree::Null => Seq::empty(),
        other => rendered(other),
    }
}

/// The text of instructions.
pub fn instruction_text(value: &Json) -> (r: String)
    ensures
        r@ == instructions_text(value@),
{
    match value {
        Json::Str(s) => s.clone(),
        Json::Array(items) => {
            let mut chunks: Vec<String> = Vec::new();
            let mut i: usize = 0;
            assert(trees(items@).take(0) =~= Seq::<Tree>::empty());
            assert(texts(chunks@) =~= Seq::<Seq<char>>::empty());
            while i < items.len()
                invariant
                    i <= items@.len(),
                    texts(chunks@) == instruction_chunks(trees(items@).take(i as int)),
                decreases items.len() - i,
            {
                assert(trees(items@).take(i as int + 1).drop_last() =~= trees(items@).take(
                    i as int,
                ));
                assert(trees(items@).take(i as int + 1).last() == items@[i as int]@);
                let chunk = match &items[i] {
                    Json::Str(s) => nonempty_text(Some(s.as_str())),
                    Json::Object(o) => nonempty_text(o.get_str("text")),
                    _ => None,
                };
                if let Some(s) = chunk {
                    chunks.push(s.to_owned());
                }
                i += 1;
            }
            assert(trees(items@).take(i as int) =~= trees(items@));
            joined(&chunks, "\n\n")
        },
        Json::Null => String::new(),
        other => other.render(),
    }
}

/// The text of one part of message content, where it is a text part.
pub open spec fn content_chunk(part: Tree) -> Option<Seq<char>> {
    match part {
        Tree::Str(s) => nonempty(Some(s)),
        Tree::Object(o) => if part_type(text_or_empty(text_at(o, "type"@))).carries_text() {
            nonempty(text_at(o, "text"@))
        } else {
            None
        },
        _ => None,
    }
}

/// The texts of the text parts of message content.
pub open spec fn content_chunks(parts: Seq<Tree>) -> Seq<Seq<char>>
    decreases parts.len(),
{
    if parts.len() == 0 {
        Seq::empty()
    } else {
        let before = content_chunks(parts.drop_last());
        match content_chunk(parts.last()) {
            Some(s) => before.push(s),
            None => before,
        }
    }
}

/// The text of message content: a text as it is, the text parts of a list as
/// lines, and nothing for anything else.
pub open spec fn flat_text(content: Tree) -> Seq<char> {
    match content {
        Tree::Str(s) => s,
        Tree::Array(items) => join(content_chunks(items), "\n"@),
        _ => Seq::empty(),
    }
}

/// The `type` of an object, or the empty text.
pub fn type_of(o: &Object) -> (r: &str)
    ensures
        r@ == text_or_empty(text_at(o@, "type"@)),
{
    match o.get_str("type") {
        Some(t) => t,
        None => {
            proof {
                reveal_strlit("");
                assert(""@ =~= Seq::<char>::empty());
            }
            ""
        },
    }
}

/// The text of message content.
pub fn flatten_text_content(content: &Json) -> (r: String)
    ensures
        r@ == flat_text(content@),
{
    match content {
        Json::Str(s) => s.clone(),
        Json::Array(items) => {
            let mut chunks: Vec<String> = Vec::new();
            let mut i: usize = 0;
            assert(trees(items@).take(0) =~= Seq::<Tree>::empty());
            assert(texts(chunks@) =~= Seq::<Seq<char>>::empty());
            while i < items.len()
                invariant
                    i <= items@.len(),
                    texts(chunks@) == content_chunks(trees(items@).take(i as int)),
                decreases items.len() - i,
            {
                assert(trees(items@).take(i as int + 1).drop_last() =~= trees(items@).take(
                    i as int,
                ));
                assert(trees(items@).take(i as int + 1).last() == items@[i as int]@);
                let chunk = match &items[i] {
                    Json::Str(s) => nonempty_text(Some(s.as_str())),
                    Json::Object(o) => {
                        if ContentPartType::classify(type_of(o)).is_text() {
                            nonempty_text(o.get_str("text"))
                        } else {
                            None
                        }
                    },
                    _ => None,
                };
                if let Some(s) = chunk {
                    chunks.push(s.to_owned());
                }
                i += 1;
            }
            assert(trees(items@).take(i as int) =~= trees(items@));
            joined(&chunks, "\n")
        },
        _ => String::new(),
    }
}

/// The texts of a reasoning summary.
pub open spec fn summary_chunks(parts: Seq<Tree>) -> Seq<Seq<char>>
    decreases parts.len(),
{
    if parts.len() == 0 {
        Seq::empty()
    } else {
        let before = summary_chunks(parts.drop_last());
        match nonempty(text_in(parts.last().at("text"@))) {
            Some(s) => before.push(s),
            None => before,
        }
    }
}

/// The text of a reasoning item: its summary, or else the first of its text
/// fields that is not empty.
pub open spec fn reasoning_text(item: Map<Seq<char>, Tree>) -> Seq<char> {
    let summary = match items_in(member(item, "summary"@)) {
        Some(parts) => join(summary_chunks(parts), "\n\n"@),
        None => Seq::empty(),
    };
    if summary.len() > 0 {
        summary
    } else {
        match nonempty(text_at(item, "text"@)) {
            Some(s) => s,
            None => match nonempty(text_at(item, "reasoning_content"@)) {
                Some(s) => s,
                None => text_or_empty(nonempty(text_at(item, "encrypted_content"@))),
            },
        }
    }
}

/// The text of a reasoning item.
pub fn reasoning_item_text(item: &Object) -> (r: String)
    ensures
        r@ == reasoning_text(item@),
{
    if let Some(parts) = item.get_array("summary") {
        let mut chunks: Vec<String> = Vec::new();
        let mut i: usize = 0;
        assert(trees(parts@).take(0) =~= Seq::<Tree>::empty());
        assert(texts(chunks@) =~= Seq::<Seq<char>>::empty());
        while i < parts.len()
            invariant
                i <= parts@.len(),
                texts(chunks@) == summary_chunks(trees(parts@).take(i as int)),
            decreases parts.len() - i,
        {
            assert(trees(parts@).take(i as int + 1).drop_last() =~= trees(parts@).take(i as int));
            assert(trees(parts@).take(i as int + 1).last() == parts@[i as int]@);
            if let Some(s) = nonempty_text(parts[i].get_str("text")) {
                chunks.push(s.to_owned());
            }
            i += 1;
        }
        assert(trees(parts@).take(i as int) =~= trees(parts@));
        let text = joined(&chunks, "\n\n");
        if !text.as_str().is_empty() {
            return text;
        }
    }
    if let Some(s) = nonempty_text(item.get_str("text")) {
        return s.to_owned();
    }
    if let Some(s) = nonempty_text(item.get_str("reasoning_content")) {
        return s.to_owned();
    }
    if let Some(s) = nonempty_text(item.get_str("encrypted_content")) {
        return s.to_owned();
    }
    String::new()
}

/// The sanitized text of one part of Responses content. A refusal is a text that
/// says so.
pub open spec fn chat_chunk(part: Tree) -> Option<Seq<char>> {
    match part {
        Tree::Str(s) => match nonempty(Some(s)) {
            Some(s) => nonempty(Some(sanitized(s))),
            None => None,
        },
        Tree::Object(o) => {
            let t = part_type(text_or_empty(text_at(o, "type"@)));
            if t.carries_text() {
                match text_at(o, "text"@) {
                    Some(s) => nonempty(Some(sanitized(s))),
                    None => None,
                }
            } else if t == ContentPartType::Refusal {
                match nonempty(text_at(o, "refusal"@)) {
                    Some(s) => Some("[refusal]: "@ + sanitized(s)),
                    None => None,
                }
            } else {
                None
            }
        },
        _ => None,
    }
}

/// The sanitized texts of the parts of Responses content.
pub open spec fn chat_chunks(parts: Seq<Tree>) -> Seq<Seq<char>>
    decreases parts.len(),
{
    if parts.len() == 0 {
        Seq::empty()
    } else {
        let before = chat_chunks(parts.drop_last());
        match chat_chunk(parts.last()) {
            Some(s) => before.push(s),
            None => before,
        }
    }
}

/// The Chat content of Responses content: nothing stays null, a text stays as it
/// is, and the texts of a list become lines.
pub open spec fn chat_content(content: Option<Tree>) -> Tree {
    match content {
        None | Some(Tree::Null) => Tree::Null,
        Some(Tree::Str(s)) => Tree::Str(s),
        Some(Tree::Array(items)) => Tree::Str(join(chat_chunks(items), "\n"@)),
        Some(other) => Tree::Str(flat_text(other)),
    }
}

fn make_chat_chunk(part: &Json) -> (r: Option<String>)
    ensures
        opt_string(r) == chat_chunk(part@),
{
    match part {
        Json::Str(s) => {
            if s.as_str().is_empty() {
                return None;
            }
            let clean = sanitize_string(s.as_str());
            if clean.as_str().is_empty() {
                None
            } else {
                Some(clean)
            }
        },
        Json::Object(o) => {
            let t = ContentPartType::classify(type_of(o));
            if t.is_text() {
                match o.get_str("text") {
                    Some(s) => {
                        let clean = sanitize_string(s);
                        if clean.as_str().is_empty() {
                            None
                        } else {
                            Some(clean)
                        }
                    },
                    None => None,
                }
            } else if t == ContentPartType::Refusal {
                match nonempty_text(o.get_str("refusal")) {
                    Some(s) => Some(cat("[refusal]: ", sanitize_string(s).as_str())),
                    None => None,
                }
            } else {
                None
            }
        },
        _ => None,
    }
}

/// The Chat content of Responses content.
pub fn chat_message_content_from_response_content(content: Option<&Json>) -> (r: Json)
    ensures
        r@ == chat_content(opt_tree(content)),
{
    match content {
        None | Some(Json::Null) => Json::Null,
        Some(Json::Str(s)) => Json::text(s.as_str()),
        Some(Json::Array(items)) => {
            let mut chunks: Vec<String> = Vec::new();
            let mut i: usize = 0;
            assert(trees(items@).take(0) =~= Seq::<Tree>::empty());
            assert(texts(chunks@) =~= Seq::<Seq<char>>::empty());
            while i < items.len()
                invariant
                    i <= items@.len(),
                    texts(chunks@) == chat_chunks(trees(items@).take(i as int)),
                decreases items.len() - i,
            {
                assert(trees(items@).take(i as int + 1).drop_last() =~= trees(items@).take(
                    i as int,
                ));
                assert(trees(items@).take(i as int + 1).last() == items@[i as int]@);
                if let Some(s) = make_chat_chunk(&items[i]) {
                    chunks.push(s);
                }
                i += 1;
            }
            assert(trees(items@).take(i as int) =~= trees(items@));
            Json::text(joined(&chunks, "\n").as_str())
        },
        Some(other) => Json::text(flatten_text_content(other).as_str()),
    }
}

/// The text of a tool's output: a text as it is, the text of its content where
/// it has some, and else its compact text.
pub open spec fn output_text(value: Option<Tree>) -> Seq<char> {
    match value {
        None | Some(Tree::Null) => Seq::empty(),
        Some(Tree::Str(s)) => s,
        Some(Tree::Object(o)) => {
            let flat = match member(o, "content"@) {
                Some(Tree::Array(items)) => flat_text(Tree::Array(items)),
                _ => Seq::empty(),
            };
            if flat.len() > 0 {
                flat
            } else if part_type(text_or_empty(text_at(o, "type"@))).carries_text() && text_at(
                o,
                "text"@,
            ) is Some {
                text_at(o, "text"@)->0
            } else {
                rendered(Tree::Object(o))
            }
        },
        Some(Tree::Array(items)) => if flat_text(Tree::Array(items)).len() > 0 {
            flat_text(Tree::Array(items))
        } else {
            rendered(Tree::Array(items))
        },
        Some(other) => rendered(other),
    }
}

/// The text of a tool's output.
pub fn normalize_tool_output_content(value: Option<&Json>) -> (r: String)
    ensures
        r@ == output_text(opt_tree(value)),
{
    match value {
        None => String::new(),
        Some(v) => match v {
            Json::Null => String::new(),
            Json::Str(s) => s.clone(),
            Json::Object(o) => {
                if let Some(content) = o.get("content") {
                    if content.is_array() {
                        let flat = flatten_text_content(content);
                        if !flat.as_str().is_empty() {
                            return flat;
                        }
                    }
                }
                if ContentPartType::classify(type_of(o)).is_text() {
                    if let Some(text) = o.get_str("text") {
                        return text.to_owned();
                    }
                }
                canonical_json_string(v)
            },
            Json::Array(_) => {
                let flat = flatten_text_content(v);
                if !flat.as_str().is_empty() {
                    flat
                } else {
                    canonical_json_string(v)
                }
            },
            other => canonical_json_string(other),
        },
    }
}

/// Whether a message has content.
pub open spec fn has_content(m: Map<Seq<char>, Tree>) -> bool {
    match member(m, "content"@) {
        Some(c) => c != Tree::Null && c != Tree::Str(Seq::empty()) && c != Tree::Array(
            Seq::empty(),
        ),
        None => false,
    }
}

/// Whether a message has tool calls.
pub open spec fn has_tool_calls(m: Map<Seq<char>, Tree>) -> bool {
    items_in(member(m, "tool_calls"@)) matches Some(calls) && calls.len() > 0
}

/// Whether a message answers a tool call.
pub open spec fn has_call_id(m: Map<Seq<char>, Tree>) -> bool {
    nonempty(text_at(m, "tool_call_id"@)) is Some
}

/// An assistant message without content, which keeps its reasoning.
pub open spec fn separator(m: Map<Seq<char>, Tree>) -> Tree {
    let bare = map!["role"@ => Tree::Str("assistant"@), "content"@ => Tree::Str(Seq::empty())];
    Tree::Object(
        match member(m, "reasoning_content"@) {
            Some(rc) => bare.insert("reasoning_content"@, rc),
            None => bare,
        },
    )
}

/// What is kept of a message: one that says nothing is dropped, unless a user or
/// the system sent it; an assistant's becomes a separator.
pub open spec fn kept_message(t: Tree) -> Option<Tree> {
    match t {
        Tree::Object(m) => {
            let role = text_or_empty(text_at(m, "role"@));
            let says = has_content(m) || has_tool_calls(m) || has_call_id(m);
            if role == "assistant"@ && !says {
                Some(separator(m))
            } else if role == "user"@ || role == "system"@ || says {
                Some(t)
            } else {
                None
            }
        },
        _ => None,
    }
}

/// What is kept of a list of messages.
pub open spec fn kept_messages(s: Seq<Tree>) -> Seq<Tree>
    decreases s.len(),
{
    if s.len() == 0 {
        Seq::empty()
    } else {
        let before = kept_messages(s.drop_last());
        match kept_message(s.last()) {
            Some(t) => before.push(t),
            None => before,
        }
    }
}

/// Whether a message is a system message.
pub open spec fn is_system(t: Tree) -> bool {
    text_in(t.at("role"@)) == Some("system"@)
}

/// The text of a message.
pub open spec fn message_text(t: Tree) -> Seq<char> {
    match t.at("content"@) {
        Some(c) => flat_text(c),
        None => Seq::empty(),
    }
}

/// Two paragraphs, or the one that is not empty.
pub open spec fn two_paragraphs(a: Seq<char>, b: Seq<char>) -> Seq<char> {
    if a.len() == 0 {
        b
    } else if b.len() == 0 {
        a
    } else {
        a + "\n\n"@ + b
    }
}

/// Two system messages as one.
pub open spec fn merged_system(a: Tree, b: Tree) -> Tree {
    let text = two_paragraphs(trim(message_text(a)), trim(message_text(b)));
    Tree::Object(
        map![
            "role"@ => Tree::Str("system"@),
            "content"@ => if text.len() == 0 {
                Tree::Null
            } else {
                Tree::Str(text)
            },
        ],
    )
}

/// The messages with neighbouring system messages as one.
pub open spec fn merged_systems(s: Seq<Tree>) -> Seq<Tree>
    decreases s.len(),
{
    if s.len() == 0 {
        Seq::empty()
    } else {
        let before = merged_systems(s.drop_last());
        if before.len() > 0 && is_system(before.last()) && is_system(s.last()) {
            before.drop_last().push(merged_system(before.last(), s.last()))
        } else {
            before.push(s.last())
        }
    }
}

/// The members with the text under `k` sanitized.
pub open spec fn clean_member(m: Map<Seq<char>, Tree>, k: Seq<char>) -> Map<Seq<char>, Tree> {
    match text_at(m, k) {
        Some(s) => m.insert(k, Tree::Str(sanitized(s))),
        None => m,
    }
}

/// A content part with its text sanitized.
pub open spec fn clean_part(part: Tree) -> Tree {
    match part {
        Tree::Object(o) => Tree::Object(clean_member(o, "text"@)),
        _ => part,
    }
}

/// A tool call with its name and its arguments sanitized.
pub open spec fn clean_call(call: Tree) -> Tree {
    match call {
        Tree::Object(c) => match member(c, "function"@) {
            Some(Tree::Object(f)) => {
                let name = sanitized(text_or_empty(text_at(f, "name"@)));
                let arguments = sanitized(text_or_empty(text_at(f, "arguments"@)));
                Tree::Object(
                    c.insert(
                        "function"@,
                        Tree::Object(
                            f.insert("name"@, Tree::Str(name)).insert(
                                "arguments"@,
                                Tree::Str(arguments),
                            ),
                        ),
                    ),
                )
            },
            _ => call,
        },
        _ => call,
    }
}

/// A message with all its texts sanitized.
pub open spec fn clean_message(t: Tree) -> Tree {
    match t {
        Tree::Object(m) => {
            let content = match member(m, "content"@) {
                Some(Tree::Str(s)) => m.insert("content"@, Tree::Str(sanitized(s))),
                Some(Tree::Array(items)) => m.insert(
                    "content"@,
                    Tree::Array(items.map_values(|p: Tree| clean_part(p))),
                ),
                _ => m,
            };
            let texts = clean_member(
                clean_member(content, "reasoning_content"@),
                "tool_call_id"@,
            );
            Tree::Object(
                match member(texts, "tool_calls"@) {
                    Some(Tree::Array(calls)) => texts.insert(
                        "tool_calls"@,
                        Tree::Array(calls.map_values(|c: Tree| clean_call(c))),
                    ),
                    _ => texts,
                },
            )
        },
        _ => t,
    }
}

/// The messages that go upstream: those that say something, neighbouring system
/// messages as one, and every text sanitized.
pub open spec fn sanitized_messages(s: Seq<Tree>) -> Seq<Tree> {
    merged_systems(kept_messages(s)).map_values(|t: Tree| clean_message(t))
}

fn content_present(obj: &Object) -> (r: bool)
    ensures
        r == has_content(obj@),
{
    match obj.get("content") {
        Some(Json::Null) => false,
        Some(Json::Str(s)) => {
            if s.as_str().is_empty() {
                assert(s@ =~= Seq::<char>::empty());
                false
            } else {
                true
            }
        },
        Some(Json::Array(items)) => {
            if items.len() == 0 {
                assert(trees(items@) =~= Seq::<Tree>::empty());
                false
            } else {
                assert(trees(items@).len() > 0);
                true
            }
        },
        Some(_) => true,
        None => false,
    }
}

fn tool_calls_present(obj: &Object) -> (r: bool)
    ensures
        r == has_tool_calls(obj@),
{
    match obj.get_array("tool_calls") {
        Some(items) => {
            assert(trees(items@).len() == items@.len());
            items.len() > 0
        },
        None => false,
    }
}

fn keep_message(msg: &Json) -> (r: Option<Json>)
    ensures
        crate::json::opt_value(r) == kept_message(msg@),
{
    let obj = match msg.as_object() {
        Some(o) => o,
        None => {
            return None;
        },
    };
    let role = obj.get_str("role");
    let says = content_present(obj) || tool_calls_present(obj) || match nonempty_text(
        obj.get_str("tool_call_id"),
    ) {
        Some(_) => true,
        None => false,
    };
    proof {
        reveal_strlit("assistant");
        reveal_strlit("user");
        reveal_strlit("system");
        assert("assistant"@.len() > 0 && "user"@.len() > 0 && "system"@.len() > 0);
    }
    let (assistant, other) = match role {
        Some(r) => (same(r, "assistant"), same(r, "user") || same(r, "system")),
        None => (false, false),
    };
    if assistant && !says {
        let mut sep = Object::new().with("role", Json::text("assistant")).with(
            "content",
            Json::Str(String::new()),
        );
        if let Some(rc) = obj.get("reasoning_content") {
            sep.insert("reasoning_content", rc.clone());
        }
        Some(Json::Object(sep))
    } else if other || says {
        Some(msg.clone())
    } else {
        None
    }
}

fn system_role(msg: &Json) -> (r: bool)
    ensures
        r == is_system(msg@),
{
    match msg.get_str("role") {
        Some(r) => same(r, "system"),
        None => false,
    }
}

/// The text of a message.
pub fn text_of_message(msg: &Json) -> (r: String)
    ensures
        r@ == message_text(msg@),
{
    match msg.get("content") {
        Some(c) => flatten_text_content(c),
        None => String::new(),
    }
}

fn paragraphs(a: &str, b: &str) -> (r: String)
    ensures
        r@ == two_paragraphs(a@, b@),
{
    if a.is_empty() {
        b.to_owned()
    } else if b.is_empty() {
        a.to_owned()
    } else {
        cat3(a, "\n\n", b)
    }
}

fn merge_system(a: &Json, b: &Json) -> (r: Json)
    ensures
        r@ == merged_system(a@, b@),
{
    let text = paragraphs(
        trimmed(text_of_message(a).as_str()).as_str(),
        trimmed(text_of_message(b).as_str()).as_str(),
    );
    let content = if text.as_str().is_empty() {
        Json::Null
    } else {
        Json::text(text.as_str())
    };
    Json::Object(Object::new().with("role", Json::text("system")).with("content", content))
}

fn clean_text_member(obj: &mut Object, k: &str)
    ensures
        final(obj)@ == clean_member(old(obj)@, k@),
{
    let clean: Option<String> = match obj.get_str(k) {
        Some(s) => Some(sanitize_string(s)),
        None => None,
    };
    if let Some(s) = clean {
        obj.insert(k, Json::Str(s));
    }
}

fn make_clean_part(part: &Json) -> (r: Json)
    ensures
        r@ == clean_part(part@),
{
    match part {
        Json::Object(o) => {
            let mut np = o.clone();
            clean_text_member(&mut np, "text");
            Json::Object(np)
        },
        other => other.clone(),
    }
}

fn make_clean_call(call: &Json) -> (r: Json)
    ensures
        r@ == clean_call(call@),
{
    match call {
        Json::Object(c) => match c.get("function") {
            Some(Json::Object(f)) => {
                let name = match f.get_str("name") {
                    Some(s) => sanitize_string(s),
                    None => {
                        proof {
                            crate::sanitize::sanitizing_clean_text_changes_nothing(Seq::empty());
                        }
                        String::new()
                    },
                };
                let arguments = match f.get_str("arguments") {
                    Some(s) => sanitize_string(s),
                    None => {
                        proof {
                            crate::sanitize::sanitizing_clean_text_changes_nothing(Seq::empty());
                        }
                        String::new()
                    },
                };
                let nf = f.clone().with("name", Json::Str(name)).with(
                    "arguments",
                    Json::Str(arguments),
                );
                Json::Object(c.clone().with("function", Json::Object(nf)))
            },
            _ => call.clone(),
        },
        _ => call.clone(),
    }
}

fn clean_parts(items: &Vec<Json>) -> (r: Vec<Json>)
    ensures
        trees(r@) == trees(items@).map_values(|p: Tree| clean_part(p)),
{
    let ghost all = trees(items@).map_values(|p: Tree| clean_part(p));
    let mut out: Vec<Json> = Vec::new();
    let mut i: usize = 0;
    while i < items.len()
        invariant
            i <= items@.len(),
            i == out@.len(),
            all == trees(items@).map_values(|p: Tree| clean_part(p)),
            trees(out@) == all.take(i as int),
        decreases items.len() - i,
    {
        out.push(make_clean_part(&items[i]));
        i += 1;
        assert(trees(out@) =~= all.take(i as int));
    }
    assert(all.take(i as int) =~= all);
    out
}

fn clean_calls(items: &Vec<Json>) -> (r: Vec<Json>)
    ensures
        trees(r@) == trees(items@).map_values(|c: Tree| clean_call(c)),
{
    let ghost all = trees(items@).map_values(|c: Tree| clean_call(c));
    let mut out: Vec<Json> = Vec::new();
    let mut i: usize = 0;
    while i < items.len()
        invariant
            i <= items@.len(),
            i == out@.len(),
            all == trees(items@).map_values(|c: Tree| clean_call(c)),
            trees(out@) == all.take(i as int),
        decreases items.len() - i,
    {
        out.push(make_clean_call(&items[i]));
        i += 1;
        assert(trees(out@) =~= all.take(i as int));
    }
    assert(all.take(i as int) =~= all);
    out
}

/// A message with all its texts sanitized.
pub fn sanitize_message_strings(msg: &Json) -> (r: Json)
    ensures
        r@ == clean_message(msg@),
{
    let obj = match msg.as_object() {
        Some(o) => o,
        None => {
            return msg.clone();
        },
    };
    let mut out = obj.clone();
    match obj.get("content") {
        Some(Json::Str(s)) => {
            out.insert("content", Json::Str(sanitize_string(s.as_str())));
        },
        Some(Json::Array(items)) => {
            out.insert("content", Json::Array(clean_parts(items)));
        },
        _ => {},
    }
    clean_text_member(&mut out, "reasoning_content");
    clean_text_member(&mut out, "tool_call_id");
    let calls: Option<Vec<Json>> = match out.get_array("tool_calls") {
        Some(items) => Some(clean_calls(items)),
        None => None,
    };
    if let Some(v) = calls {
        out.insert("tool_calls", Json::Array(v));
    }
    Json::Object(out)
}

/// The messages that go upstream: those that say something, neighbouring system
/// messages as one, and every text sanitized.
pub fn sanitize_messages(messages: Vec<Json>) -> (r: Vec<Json>)
    ensures
        trees(r@) == sanitized_messages(trees(messages@)),
{
    let ghost all = trees(messages@);
    let mut kept: Vec<Json> = Vec::new();
    let mut i: usize = 0;
    assert(all.take(0) =~= Seq::<Tree>::empty());
    assert(trees(kept@) =~= Seq::<Tree>::empty());
    while i < messages.len()
        invariant
            i <= messages@.len(),
            all == trees(messages@),
            trees(kept@) == kept_messages(all.take(i as int)),
        decreases messages.len() - i,
    {
        assert(all.take(i as int + 1).drop_last() =~= all.take(i as int));
        assert(all.take(i as int + 1).last() == messages@[i as int]@);
        if let Some(m) = keep_message(&messages[i]) {
            kept.push(m);
        }
        i += 1;
    }
    assert(all.take(i as int) =~= all);
    let ghost some = trees(kept@);
    let mut merged: Vec<Json> = Vec::new();
    let mut i: usize = 0;
    assert(some.take(0) =~= Seq::<Tree>::empty());
    assert(trees(merged@) =~= Seq::<Tree>::empty());
    while i < kept.len()
        invariant
            i <= kept@.len(),
            some == trees(kept@),
            trees(merged@) == merged_systems(some.take(i as int)),
        decreases kept.len() - i,
    {
        assert(some.take(i as int + 1).drop_last() =~= some.take(i as int));
        assert(some.take(i as int + 1).last() == kept@[i as int]@);
        let n: usize = merged.len();
        assert(trees(merged@).len() == merged@.len());
        if n > 0 && system_role(&merged[n - 1]) && system_role(&kept[i]) {
            assert(trees(merged@).last() == merged@[n - 1]@);
            let one = merge_system(&merged[n - 1], &kept[i]);
            let ghost before = merged@;
            merged.pop();
            assert(trees(merged@) =~= trees(before).drop_last());
            merged.push(one);
        } else {
            if n > 0 {
                assert(trees(merged@).last() == merged@[n - 1]@);
            }
            merged.push(kept[i].clone());
        }
        i += 1;
    }
    assert(some.take(i as int) =~= some);
    let ghost few = trees(merged@);
    let ghost clean = few.map_values(|t: Tree| clean_message(t));
    let mut out: Vec<Json> = Vec::new();
    let mut i: usize = 0;
    while i < merged.len()
        invariant
            i <= merged@.len(),
            i == out@.len(),
            few == trees(merged@),
            clean == few.map_values(|t: Tree| clean_message(t)),
            trees(out@) == clean.take(i as int),
        decreases merged.len() - i,
    {
        out.push(sanitize_message_strings(&merged[i]));
        i += 1;
        assert(trees(out@) =~= clean.take(i as int));
    }
    assert(clean.take(i as int) =~= clean);
    out
}

/// The texts of the system messages that say something.
pub open spec fn system_chunks(s: Seq<Tree>) -> Seq<Seq<char>>
    decreases s.len(),
{
    if s.len() == 0 {
        Seq::empty()
    } else {
        let before = system_chunks(s.drop_last());
        let text = trim(message_text(s.last()));
        if is_system(s.last()) && text.len() > 0 {
            before.push(text)
        } else {
            before
        }
    }
}

/// The messages that are no system messages.
pub open spec fn other_messages(s: Seq<Tree>) -> Seq<Tree> {
    s.filter(|t: Tree| !is_system(t))
}

/// The messages with all system messages as one at the head.
pub open spec fn collapsed(s: Seq<Tree>) -> Seq<Tree> {
    let chunks = system_chunks(s);
    if chunks.len() == 0 {
        other_messages(s)
    } else {
        seq![
            Tree::Object(
                map![
                    "role"@ => Tree::Str("system"@),
                    "content"@ => Tree::Str(join(chunks, "\n\n"@)),
                ],
            ),
        ] + other_messages(s)
    }
}

/// Gather all system messages into one at the head.
pub fn collapse_system_messages_to_head(messages: Vec<Json>) -> (r: Vec<Json>)
    ensures
        trees(r@) == collapsed(trees(messages@)),
{
    let ghost all = trees(messages@);
    let mut chunks: Vec<String> = Vec::new();
    let mut rest: Vec<Json> = Vec::new();
    let mut i: usize = 0;
    reveal(Seq::filter);
    assert(all.take(0) =~= Seq::<Tree>::empty());
    assert(trees(rest@) =~= Seq::<Tree>::empty());
    assert(texts(chunks@) =~= Seq::<Seq<char>>::empty());
    while i < messages.len()
        invariant
            i <= messages@.len(),
            all == trees(messages@),
            texts(chunks@) == system_chunks(all.take(i as int)),
            trees(rest@) == other_messages(all.take(i as int)),
        decreases messages.len() - i,
    {
        reveal(Seq::filter);
        assert(all.take(i as int + 1).drop_last() =~= all.take(i as int));
        assert(all.take(i as int + 1).last() == messages@[i as int]@);
        if system_role(&messages[i]) {
            let text = trimmed(text_of_message(&messages[i]).as_str());
            if !text.as_str().is_empty() {
                chunks.push(text);
            }
        } else {
            rest.push(messages[i].clone());
        }
        i += 1;
    }
    assert(all.take(i as int) =~= all);
    if chunks.len() == 0 {
        assert(texts(chunks@).len() == 0);
        return rest;
    }
    assert(texts(chunks@).len() > 0);
    let head = Json::Object(
        Object::new().with("role", Json::text("system")).with(
            "content",
            Json::text(joined(&chunks, "\n\n").as_str()),
        ),
    );
    let mut result: Vec<Json> = Vec::new();
    result.push(head);
    assert(trees(result@) =~= seq![head@]);
    crate::json::append_copies(&mut result, &rest);
    result
}

/// After collapsing, at most the first message is a system message.
pub proof fn collapsed_systems_stand_first(s: Seq<Tree>)
    ensures
        forall|i: int| 0 < i < collapsed(s).len() ==> !is_system(#[trigger] collapsed(s)[i]),
{
    lemma_no_other_system(s);
    let others = other_messages(s);
    if system_chunks(s).len() > 0 {
        assert forall|i: int| 0 < i < collapsed(s).len() implies !is_system(
            #[trigger] collapsed(s)[i],
        ) by {
            assert(collapsed(s)[i] == others[i - 1]);
        }
    }
}

proof fn lemma_no_other_system(s: Seq<Tree>)
    ensures
        forall|i: int| 0 <= i < other_messages(s).len() ==> !is_system(
            #[trigger] other_messages(s)[i],
        ),
    decreases s.len(),
{
    reveal(Seq::filter);
    if s.len() > 0 {
        lemma_no_other_system(s.drop_last());
    }
}

/// The position of the last message that is an object, if it is an assistant's.
pub open spec fn last_assistant(s: Seq<Tree>) -> Option<int>
    decreases s.len(),
{
    if s.len() == 0 {
        None
    } else {
        match s.last() {
            Tree::Object(m) => if text_at(m, "role"@) == Some("assistant"@) {
                Some(s.len() - 1)
            } else {
                None
            },
            _ => last_assistant(s.drop_last()),
        }
    }
}

/// A message with a paragraph of reasoning more.
pub open spec fn with_reasoning(t: Tree, text: Seq<char>) -> Tree {
    match t {
        Tree::Object(m) => Tree::Object(
            m.insert(
                "reasoning_content"@,
                Tree::Str(
                    match nonempty(text_at(m, "reasoning_content"@)) {
                        Some(prev) => prev + "\n\n"@ + text,
                        None => text,
                    },
                ),
            ),
        ),
        _ => t,
    }
}

/// The messages with reasoning added to the assistant message at their end, if
/// there is one.
pub open spec fn reasoning_appended(s: Seq<Tree>, text: Seq<char>) -> Option<Seq<Tree>> {
    match last_assistant(s) {
        Some(i) => Some(s.update(i, with_reasoning(s[i], text))),
        None => None,
    }
}

/// Add reasoning to the assistant message at the end, if there is one. Says
/// whether there was.
pub fn append_reasoning_to_last_assistant(messages: &mut Vec<Json>, text: &str) -> (r: bool)
    ensures
        match reasoning_appended(trees(old(messages)@), text@) {
            Some(s) => r && trees(final(messages)@) == s,
            None => !r && final(messages)@ == old(messages)@,
        },
{
    let ghost all = trees(messages@);
    let mut i: usize = messages.len();
    assert(all.take(i as int) =~= all);
    while i > 0
        invariant
            i <= messages@.len(),
            messages@ == old(messages)@,
            all == trees(messages@),
            last_assistant(all) == last_assistant(all.take(i as int)),
        decreases i,
    {
        assert(all.take(i as int).last() == messages@[i - 1]@);
        assert(all.take(i as int).drop_last() =~= all.take(i - 1));
        let next: Option<Option<Object>> = match &messages[i - 1] {
            Json::Object(o) => {
                let assistant = match o.get_str("role") {
                    Some(r) => same(r, "assistant"),
                    None => false,
                };
                if assistant {
                    let combined = match nonempty_text(o.get_str("reasoning_content")) {
                        Some(prev) => cat3(prev, "\n\n", text),
                        None => text.to_owned(),
                    };
                    Some(Some(o.clone().with("reasoning_content", Json::Str(combined))))
                } else {
                    Some(None)
                }
            },
            _ => None,
        };
        match next {
            Some(Some(o)) => {
                messages.set(i - 1, Json::Object(o));
                assert(trees(messages@) =~= all.update(
                    i - 1,
                    with_reasoning(all[i - 1], text@),
                ));
                return true;
            },
            Some(None) => {
                return false;
            },
            None => {},
        }
        i -= 1;
    }
    false
}

} // verus!
