//! A Responses request as a Chat Completions request.
use vstd::prelude::*;
use crate::context::{input_items, iter_request_input_items, BridgeToolContext, Registry};
use crate::convert::message_normalization::{
    append_reasoning_to_last_assistant, chat_content, chat_message_content_from_response_content,
    collapse_system_messages_to_head, collapsed, instruction_text, instructions_text, non_empty,
    nonempty, nonempty_text, normalize_tool_output_content, output_text, reasoning_appended,
    reasoning_item_text, reasoning_text, sanitize_messages, sanitized_messages, type_of,
};
use crate::convert::semantics::{copied, copy_members, lemma_copied_other, name_texts};
use crate::convert::tool_arguments::{
    call_id_of, canonical_arguments, canonicalize_tool_arguments, custom_arguments,
    custom_tool_input_to_chat_arguments, denoted_arguments, resolve_tool_call_id,
};
use crate::id_gen::{is_synthetic_call_id, synthetic_tool_call_ids};
use crate::json::{
    clone_values, items_in, lemma_trees_push, list_of, member, object_of, opt_value, rendered,
    text_at, text_in, trees, Json, Object, Tree,
};
use crate::media::{
    audio_part, audio_part_from_input_item, image_part, image_part_from_input_item,
    MediaConversion,
};
use crate::protocol::{item_kind, InputItemKind, ToolCallKind};
use crate::reasoning::{
    canonical_effort, is_blank, normalize_canonical_effort, wire_effort, wire_reasoning_effort,
};
use crate::text::{
    begins, cat, cat3, clone_opt, debug_text, in_list, join, joined, lemma_texts_push, listed,
    lower, lowered, opt_string, opt_text, own_opt, quoted, same, starts, text_or_empty, texts, trim,
    trimmed,
};
use crate::transform_loss::{Loss, TransformLoss, TransformLossCollector};
use crate::types::{ChatRequest, ResponsesRequest};

verus! {

broadcast use {lemma_trees_push, lemma_texts_push};

/// A Chat message: its role and content, and its tool calls, call id and
/// reasoning where it has them.
pub open spec fn chat_message(
    role: Seq<char>,
    content: Tree,
    calls: Seq<Tree>,
    call_id: Option<Seq<char>>,
    reasoning: Option<Seq<char>>,
) -> Tree {
    let bare = map!["role"@ => Tree::Str(role), "content"@ => content];
    let called = if calls.len() > 0 {
        bare.insert("tool_calls"@, Tree::Array(calls))
    } else {
        bare
    };
    let answering = match call_id {
        Some(id) => called.insert("tool_call_id"@, Tree::Str(id)),
        None => called,
    };
    Tree::Object(
        match reasoning {
            Some(rc) => answering.insert("reasoning_content"@, Tree::Str(rc)),
            None => answering,
        },
    )
}

/// A Chat message of a role and content alone.
pub open spec fn plain_message(role: Seq<char>, content: Tree) -> Tree {
    chat_message(role, content, Seq::empty(), None, None)
}

/// A Chat message under construction.
#[derive(Debug)]
struct ChatMessageBuilder {
    role: String,
    content: Json,
    tool_calls: Vec<Json>,
    tool_call_id: Option<String>,
    reasoning_content: Option<String>,
}

impl ChatMessageBuilder {
    spec fn message(self) -> Tree {
        chat_message(
            self.role@,
            self.content@,
            trees(self.tool_calls@),
            opt_string(self.tool_call_id),
            opt_string(self.reasoning_content),
        )
    }

    fn new(role: &str) -> (r: ChatMessageBuilder)
        ensures
            r.role@ == role@,
            r.content@ == Tree::Null,
            trees(r.tool_calls@) == Seq::<Tree>::empty(),
            r.tool_call_id is None,
            r.reasoning_content is None,
    {
        let tool_calls: Vec<Json> = Vec::new();
        assert(trees(tool_calls@) =~= Seq::<Tree>::empty());
        ChatMessageBuilder {
            role: role.to_owned(),
            content: Json::Null,
            tool_calls,
            tool_call_id: None,
            reasoning_content: None,
        }
    }

    fn with_content(role: &str, content: Json) -> (r: ChatMessageBuilder)
        ensures
            r.role@ == role@,
            r.content@ == content@,
            trees(r.tool_calls@) == Seq::<Tree>::empty(),
            r.tool_call_id is None,
            r.reasoning_content is None,
    {
        let mut m = ChatMessageBuilder::new(role);
        m.content = content;
        m
    }

    fn into_value(self) -> (r: Json)
        ensures
            r@ == self.message(),
    {
        let mut obj = Object::new().with("role", Json::Str(self.role)).with(
            "content",
            self.content,
        );
        assert(trees(self.tool_calls@).len() == self.tool_calls@.len());
        if self.tool_calls.len() > 0 {
            obj.insert("tool_calls", Json::Array(self.tool_calls));
        }
        if let Some(id) = self.tool_call_id {
            obj.insert("tool_call_id", Json::Str(id));
        }
        if let Some(rc) = self.reasoning_content {
            obj.insert("reasoning_content", Json::Str(rc));
        }
        Json::Object(obj)
    }
}

fn make_plain_message(role: &str, content: Json) -> (r: Json)
    ensures
        r@ == plain_message(role@, content@),
{
    ChatMessageBuilder::with_content(role, content).into_value()
}

/// The call id of a tool call in a Chat message.
pub open spec fn listed_call_id(call: Tree) -> Option<Seq<char>> {
    match text_in(call.at("id"@)) {
        Some(id) => nonempty(Some(id)),
        None => nonempty(text_in(call.at("call_id"@))),
    }
}

/// The call ids of tool calls.
pub open spec fn listed_call_ids(calls: Seq<Tree>) -> Seq<Seq<char>>
    decreases calls.len(),
{
    if calls.len() == 0 {
        Seq::empty()
    } else {
        let before = listed_call_ids(calls.drop_last());
        match listed_call_id(calls.last()) {
            Some(id) => before.push(id),
            None => before,
        }
    }
}

/// The call ids that a message mentions.
pub open spec fn message_call_ids(msg: Tree) -> Seq<Seq<char>> {
    match msg {
        Tree::Object(m) => {
            let own = match nonempty(text_at(m, "tool_call_id"@)) {
                Some(id) => seq![id],
                None => Seq::empty(),
            };
            own + match items_in(member(m, "tool_calls"@)) {
                Some(calls) => listed_call_ids(calls),
                None => Seq::empty(),
            }
        },
        _ => Seq::empty(),
    }
}

/// The call ids that messages mention.
pub open spec fn known_call_ids(messages: Seq<Tree>) -> Seq<Seq<char>>
    decreases messages.len(),
{
    if messages.len() == 0 {
        Seq::empty()
    } else {
        known_call_ids(messages.drop_last()) + message_call_ids(messages.last())
    }
}

fn collect_call_ids(msg: &Json, ids: &mut Vec<String>)
    ensures
        texts(final(ids)@) == texts(old(ids)@) + message_call_ids(msg@),
{
    let ghost start = texts(ids@);
    let obj = match msg.as_object() {
        Some(o) => o,
        None => {
            assert(start + Seq::<Seq<char>>::empty() =~= start);
            return;
        },
    };
    let ghost mut own: Seq<Seq<char>> = Seq::empty();
    assert(start + own =~= start);
    if let Some(id) = nonempty_text(obj.get_str("tool_call_id")) {
        ids.push(id.to_owned());
        proof {
            own = seq![id@];
            assert(texts(ids@) =~= start + own);
        }
    }
    if let Some(calls) = obj.get_array("tool_calls") {
        let ghost all = trees(calls@);
        let mut i: usize = 0;
        assert(all.take(0) =~= Seq::<Tree>::empty());
        assert(start + own + Seq::<Seq<char>>::empty() =~= start + own);
        while i < calls.len()
            invariant
                i <= calls@.len(),
                all == trees(calls@),
                texts(ids@) == start + own + listed_call_ids(all.take(i as int)),
            decreases calls.len() - i,
        {
            assert(all.take(i as int + 1).drop_last() =~= all.take(i as int));
            assert(all.take(i as int + 1).last() == calls@[i as int]@);
            let ghost before = listed_call_ids(all.take(i as int));
            let id = match calls[i].get_str("id") {
                Some(id) => nonempty_text(Some(id)),
                None => nonempty_text(calls[i].get_str("call_id")),
            };
            if let Some(id) = id {
                ids.push(id.to_owned());
                assert(texts(ids@) =~= start + own + before.push(id@));
            }
            i += 1;
        }
        assert(all.take(i as int) =~= all);
        assert(start + own + listed_call_ids(all) =~= start + (own + listed_call_ids(all)));
    } else {
        assert(start + own =~= start + (own + Seq::<Seq<char>>::empty()));
    }
}

/// The call ids that messages mention.
pub fn existing_call_ids(messages: &Vec<Json>) -> (r: Vec<String>)
    ensures
        texts(r@) == known_call_ids(trees(messages@)),
{
    let ghost all = trees(messages@);
    let mut ids: Vec<String> = Vec::new();
    let mut i: usize = 0;
    assert(all.take(0) =~= Seq::<Tree>::empty());
    assert(texts(ids@) =~= Seq::<Seq<char>>::empty());
    while i < messages.len()
        invariant
            i <= messages@.len(),
            all == trees(messages@),
            texts(ids@) == known_call_ids(all.take(i as int)),
        decreases messages.len() - i,
    {
        assert(all.take(i as int + 1).drop_last() =~= all.take(i as int));
        assert(all.take(i as int + 1).last() == messages@[i as int]@);
        collect_call_ids(&messages[i], &mut ids);
        i += 1;
    }
    assert(all.take(i as int) =~= all);
    ids
}

/// Whether an item's call id is already known.
pub open spec fn already_known(item: Map<Seq<char>, Tree>, known: Seq<Seq<char>>) -> bool {
    let id = match text_at(item, "call_id"@) {
        Some(s) => Some(s),
        None => text_at(item, "id"@),
    };
    id matches Some(s) && listed(known, s)
}

/// Whether an item's call id is already known.
pub fn should_skip(obj: &Object, skip_ids: &Vec<String>) -> (r: bool)
    ensures
        r == already_known(obj@, texts(skip_ids@)),
{
    let id = match obj.get_str("call_id") {
        Some(s) => Some(s),
        None => obj.get_str("id"),
    };
    match id {
        Some(s) => in_list(skip_ids, s),
        None => false,
    }
}

/// Whether a tool call has the given id.
pub open spec fn call_has_id(call: Tree, id: Seq<char>) -> bool {
    text_in(call.at("id"@)) == Some(id)
}

/// Whether a message is an assistant's that makes the given call.
pub open spec fn makes_call(msg: Tree, id: Seq<char>) -> bool {
    &&& text_in(msg.at("role"@)) == Some("assistant"@)
    &&& items_in(msg.at("tool_calls"@)) matches Some(calls)
    &&& exists|j: int| 0 <= j < calls.len() && #[trigger] call_has_id(calls[j], id)
}

/// Whether some message makes the given call.
pub open spec fn call_made(messages: Seq<Tree>, id: Seq<char>) -> bool {
    exists|i: int| 0 <= i < messages.len() && #[trigger] makes_call(messages[i], id)
}

fn message_makes_call(msg: &Json, call_id: &str) -> (r: bool)
    ensures
        r == makes_call(msg@, call_id@),
{
    let assistant = match msg.get_str("role") {
        Some(r) => same(r, "assistant"),
        None => false,
    };
    if !assistant {
        return false;
    }
    match msg.get_array("tool_calls") {
        Some(calls) => {
            let ghost all = trees(calls@);
            let mut j: usize = 0;
            while j < calls.len()
                invariant
                    j <= calls@.len(),
                    all == trees(calls@),
                    all.len() == calls@.len(),
                    items_in(msg@.at("tool_calls"@)) == Some(all),
                    text_in(msg@.at("role"@)) == Some("assistant"@),
                    forall|k: int| 0 <= k < j ==> !#[trigger] call_has_id(all[k], call_id@),
                decreases calls.len() - j,
            {
                assert(all[j as int] == calls@[j as int]@);
                let found = match calls[j].get_str("id") {
                    Some(id) => same(id, call_id),
                    None => false,
                };
                if found {
                    proof {
                        let made = items_in(msg@.at("tool_calls"@))->0;
                        let k = j as int;
                        assert(0 <= k < made.len() && call_has_id(made[k], call_id@));
                    }
                    return true;
                }
                j += 1;
            }
            false
        },
        None => false,
    }
}

/// Whether some message makes the given call.
pub fn has_matching_call(call_id: &str, messages: &Vec<Json>) -> (r: bool)
    ensures
        r == call_made(trees(messages@), call_id@),
{
    let ghost all = trees(messages@);
    let mut i: usize = 0;
    while i < messages.len()
        invariant
            i <= messages@.len(),
            all == trees(messages@),
            forall|k: int| 0 <= k < i ==> !#[trigger] makes_call(all[k], call_id@),
        decreases messages.len() - i,
    {
        assert(all[i as int] == messages@[i as int]@);
        if message_makes_call(&messages[i], call_id) {
            assert(makes_call(all[i as int], call_id@));
            return true;
        }
        i += 1;
    }
    false
}

/// Where the conversion of input items stands: the messages so far, the tool
/// calls and the reasoning that wait for their message, and the losses so far.
#[verifier::ext_equal]
pub ghost struct Progress {
    pub messages: Seq<Tree>,
    pub calls: Seq<Tree>,
    pub reasoning: Option<Seq<char>>,
    pub losses: Seq<Loss>,
}

impl Progress {
    /// With one message more.
    pub open spec fn said(self, message: Tree) -> Progress {
        Progress { messages: self.messages.push(message), ..self }
    }

    /// With one loss more.
    pub open spec fn lost(
        self,
        kind: TransformLoss,
        item_type: Option<Seq<char>>,
        reason: Seq<char>,
    ) -> Progress {
        Progress { losses: self.losses.push(Loss { kind, item_type, reason }), ..self }
    }

    /// With one paragraph more of waiting reasoning.
    pub open spec fn thought(self, text: Seq<char>) -> Progress {
        Progress {
            reasoning: Some(
                match self.reasoning {
                    Some(prev) => prev + "\n\n"@ + text,
                    None => text,
                },
            ),
            ..self
        }
    }

    /// With the waiting tool calls and reasoning in an assistant message.
    pub open spec fn flushed(self) -> Progress {
        if self.calls.len() == 0 && self.reasoning is None {
            self
        } else {
            let content = if self.calls.len() > 0 {
                Tree::Null
            } else {
                Tree::Str(Seq::empty())
            };
            Progress {
                messages: self.messages.push(
                    chat_message("assistant"@, content, self.calls, None, self.reasoning),
                ),
                calls: Seq::empty(),
                reasoning: None,
                losses: self.losses,
            }
        }
    }

    /// After a reasoning item.
    pub open spec fn after_reasoning(self, item: Map<Seq<char>, Tree>, t: Seq<char>) -> Progress {
        let text = trim(reasoning_text(item));
        if text.len() == 0 {
            self.lost(
                TransformLoss::DroppedEmptyReasoning,
                nonempty(Some(t)),
                "Reasoning item produced empty text after extraction and stripping"@,
            )
        } else {
            match reasoning_appended(self.messages, text) {
                Some(messages) => if self.calls.len() == 0 {
                    Progress { messages, ..self }
                } else {
                    self.thought(text)
                },
                None => self.thought(text),
            }
        }
    }

    /// After a media item.
    pub open spec fn after_media(self, item: Map<Seq<char>, Tree>, t: Seq<char>) -> Progress {
        let (part, kind) = if t == "input_image"@ {
            (image_part(item), TransformLoss::SkippedUnsupportedImage)
        } else {
            (audio_part(item), TransformLoss::SkippedUnsupportedAudio)
        };
        match part {
            Ok(p) => self.said(plain_message("user"@, Tree::Array(seq![p]))),
            Err(reason) => self.lost(kind, nonempty(Some(t)), reason),
        }
    }

    /// After a tool call item.
    pub open spec fn after_call(
        self,
        item: Map<Seq<char>, Tree>,
        kind: ToolCallKind,
        known: Seq<Seq<char>>,
        registry: Registry,
        fresh: Seq<char>,
    ) -> Progress {
        if already_known(item, known) {
            self.lost(
                TransformLoss::SkippedDuplicateToolCall,
                nonempty(Some(kind.tag())),
                "Duplicate tool call already in message history"@,
            )
        } else {
            let thinking = match text_at(item, "reasoning_content"@) {
                Some(rc) => self.thought(rc),
                None => self,
            };
            let (name, arguments) = called_function(item, kind, registry);
            Progress {
                calls: thinking.calls.push(
                    function_call(call_id_of(item, fresh), name, arguments),
                ),
                ..thinking
            }
        }
    }

    /// After a tool output item.
    pub open spec fn after_output(
        self,
        item: Map<Seq<char>, Tree>,
        t: Seq<char>,
        known: Seq<Seq<char>>,
        fresh: Seq<char>,
    ) -> Progress {
        let id = call_id_of(item, fresh);
        if already_known(item, known) {
            self.lost(
                TransformLoss::SkippedDuplicateToolCall,
                nonempty(Some(t)),
                "Duplicate tool output already in message history"@,
            )
        } else {
            let flushed = self.flushed();
            let content = if t == "function_call_output"@ {
                output_text(member(item, "output"@))
            } else {
                rendered(Tree::Object(item))
            };
            if call_made(flushed.messages, id) {
                flushed.said(
                    chat_message("tool"@, Tree::Str(content), Seq::empty(), Some(id), None),
                )
            } else {
                flushed.lost(
                    TransformLoss::DowngradedOrphanToolOutput,
                    nonempty(Some(t)),
                    "Tool output "@ + id + " has no matching preceding tool call"@,
                ).said(
                    plain_message(
                        "user"@,
                        Tree::Str("Function call output ("@ + id + "): "@ + content),
                    ),
                )
            }
        }
    }

    /// After a message item, or an item that is like one.
    pub open spec fn after_message(self, item: Map<Seq<char>, Tree>, t: Seq<char>) -> Progress {
        let role = match text_at(item, "role"@) {
            Some(r) => r,
            None => "user"@,
        };
        let (chat_role, recorded) = if role == "system"@ || role == "developer"@ {
            ("system"@, self)
        } else if role == "user"@ || role == "assistant"@ || role == "tool"@ {
            (role, self)
        } else {
            (
                "user"@,
                self.lost(
                    TransformLoss::DowngradedInvalidRole,
                    nonempty(Some(t)),
                    "Unrecognized message role "@ + debug_text(role) + " downgraded to user"@,
                ),
            )
        };
        let calls = if chat_role == "assistant"@ {
            match items_in(member(item, "tool_calls"@)) {
                Some(c) => c,
                None => Seq::empty(),
            }
        } else {
            Seq::empty()
        };
        recorded.said(
            chat_message(
                chat_role,
                chat_content(member(item, "content"@)),
                calls,
                text_at(item, "tool_call_id"@),
                text_at(item, "reasoning_content"@),
            ),
        )
    }

    /// After one input item.
    pub open spec fn after_item(
        self,
        item: Tree,
        known: Seq<Seq<char>>,
        registry: Registry,
        fresh: Seq<char>,
    ) -> Progress {
        match item {
            Tree::Object(m) => {
                let t = text_or_empty(text_at(m, "type"@));
                match item_kind(t) {
                    InputItemKind::Reasoning => self.after_reasoning(m, t),
                    InputItemKind::Text => self.flushed().said(
                        plain_message("user"@, Tree::Str(text_or_empty(text_at(m, "text"@)))),
                    ),
                    InputItemKind::Image | InputItemKind::Audio => self.flushed().after_media(m, t),
                    InputItemKind::FunctionCall => self.after_call(
                        m,
                        ToolCallKind::Function,
                        known,
                        registry,
                        fresh,
                    ),
                    InputItemKind::CustomToolCall => self.after_call(
                        m,
                        ToolCallKind::Custom,
                        known,
                        registry,
                        fresh,
                    ),
                    InputItemKind::ToolSearchCall => self.after_call(
                        m,
                        ToolCallKind::Search,
                        known,
                        registry,
                        fresh,
                    ),
                    InputItemKind::FunctionCallOutput
                    | InputItemKind::CustomToolCallOutput
                    | InputItemKind::ToolSearchOutput => self.after_output(m, t, known, fresh),
                    InputItemKind::Message | InputItemKind::Other => if t == "message"@
                        || m.contains_key("role"@) || m.contains_key("content"@) {
                        self.flushed().after_message(m, t)
                    } else {
                        self.flushed().lost(
                            TransformLoss::SkippedUnknownItemType,
                            nonempty(Some(t)),
                            "Unrecognized input item type: "@ + debug_text(t),
                        )
                    },
                }
            },
            _ => self.flushed().lost(
                TransformLoss::SkippedNonDictItem,
                None,
                "Non-object input item skipped"@,
            ),
        }
    }

    /// After the first `n` input items; `fresh` holds a call id for each item
    /// that has none.
    pub open spec fn after_items(
        self,
        items: Seq<Tree>,
        n: int,
        known: Seq<Seq<char>>,
        registry: Registry,
        fresh: Seq<Seq<char>>,
    ) -> Progress
        decreases n,
    {
        if n <= 0 {
            self
        } else {
            self.after_items(items, n - 1, known, registry, fresh).after_item(
                items[n - 1],
                known,
                registry,
                fresh[n - 1],
            )
        }
    }
}

/// The name and the arguments of the Chat function that a tool call item calls.
pub open spec fn called_function(
    item: Map<Seq<char>, Tree>,
    kind: ToolCallKind,
    registry: Registry,
) -> (Seq<char>, Seq<char>) {
    let own = match text_at(item, "name"@) {
        Some(n) => n,
        None => "unknown_tool"@,
    };
    let arguments = member(item, "arguments"@);
    match kind {
        ToolCallKind::Function => (
            registry.chat_name(own, text_at(item, "namespace"@)),
            canonical_arguments(arguments, denoted_arguments(arguments)),
        ),
        ToolCallKind::Custom => (own, custom_arguments(member(item, "input"@))),
        ToolCallKind::Search => (
            "tool_search"@,
            canonical_arguments(arguments, denoted_arguments(arguments)),
        ),
    }
}

/// A function call of a Chat message.
pub open spec fn function_call(id: Seq<char>, name: Seq<char>, arguments: Seq<char>) -> Tree {
    Tree::Object(
        map![
            "id"@ => Tree::Str(id),
            "type"@ => Tree::Str("function"@),
            "function"@ => Tree::Object(map![
                "name"@ => Tree::Str(name),
                "arguments"@ => Tree::Str(arguments),
            ]),
        ],
    )
}

/// A function call of a Chat message.
pub fn make_function_call(id: &str, name: &str, arguments: &str) -> (r: Json)
    ensures
        r@ == function_call(id@, name@, arguments@),
{
    let function = Object::new().with("name", Json::text(name)).with(
        "arguments",
        Json::text(arguments),
    );
    Json::Object(
        Object::new().with("id", Json::text(id)).with("type", Json::text("function")).with(
            "function",
            Json::Object(function),
        ),
    )
}

/// A conversion of input items under way.
struct Conversion {
    messages: Vec<Json>,
    calls: Vec<Json>,
    reasoning: Option<String>,
    losses: TransformLossCollector,
}

impl View for Conversion {
    type V = Progress;

    closed spec fn view(&self) -> Progress {
        Progress {
            messages: trees(self.messages@),
            calls: trees(self.calls@),
            reasoning: opt_string(self.reasoning),
            losses: self.losses@,
        }
    }
}

impl Conversion {
    fn say(&mut self, message: Json)
        ensures
            final(self)@ == old(self)@.said(message@),
    {
        self.messages.push(message);
        assert(self@ =~= old(self)@.said(message@));
    }

    fn lose(&mut self, kind: TransformLoss, item_type: Option<&str>, reason: String)
        ensures
            final(self)@ == old(self)@.lost(kind, opt_text(item_type), reason@),
    {
        self.losses.record(kind, item_type, reason);
        assert(self@ =~= old(self)@.lost(kind, opt_text(item_type), reason@));
    }

    fn think(&mut self, text: &str)
        ensures
            final(self)@ == old(self)@.thought(text@),
    {
        let combined = match &self.reasoning {
            Some(prev) => cat3(prev.as_str(), "\n\n", text),
            None => text.to_owned(),
        };
        self.reasoning = Some(combined);
        assert(self@ =~= old(self)@.thought(text@));
    }

    /// Put the waiting tool calls and reasoning into an assistant message.
    fn flush_pending(&mut self)
        ensures
            final(self)@ == old(self)@.flushed(),
    {
        assert(trees(self.calls@).len() == self.calls@.len());
        let idle = match self.reasoning {
            Some(_) => false,
            None => self.calls.len() == 0,
        };
        if idle {
            return;
        }
        let content = if self.calls.len() > 0 {
            Json::Null
        } else {
            Json::Str(String::new())
        };
        let mut m = ChatMessageBuilder::with_content("assistant", content);
        m.tool_calls = clone_values(&self.calls);
        m.reasoning_content = clone_opt(&self.reasoning);
        self.messages.push(m.into_value());
        self.calls = Vec::new();
        self.reasoning = None;
        assert(trees(self.calls@) =~= Seq::<Tree>::empty());
        assert(self@ =~= old(self)@.flushed());
    }

    fn reasoning_item(&mut self, obj: &Object, item_type: &str)
        ensures
            final(self)@ == old(self)@.after_reasoning(obj@, item_type@),
    {
        let text = trimmed(reasoning_item_text(obj).as_str());
        if text.as_str().is_empty() {
            self.lose(
                TransformLoss::DroppedEmptyReasoning,
                non_empty(item_type),
                "Reasoning item produced empty text after extraction and stripping".to_owned(),
            );
            return;
        }
        assert(trees(self.calls@).len() == self.calls@.len());
        if self.calls.len() == 0 {
            let ghost before = self@;
            if append_reasoning_to_last_assistant(&mut self.messages, text.as_str()) {
                assert(self@ =~= Progress {
                    messages: reasoning_appended(before.messages, text@)->0,
                    ..before
                });
                return;
            }
            assert(self@ =~= before);
        }
        self.think(text.as_str());
    }

    /// Convert a media item.
    fn handle_media_item(&mut self, obj: &Object, item_type: &str)
        ensures
            final(self)@ == old(self)@.after_media(obj@, item_type@),
    {
        let (conversion, kind) = if same(item_type, "input_image") {
            (image_part_from_input_item(obj), TransformLoss::SkippedUnsupportedImage)
        } else {
            (audio_part_from_input_item(obj), TransformLoss::SkippedUnsupportedAudio)
        };
        match conversion {
            MediaConversion::Part(part) => {
                self.say(make_plain_message("user", list_of(part)));
            },
            MediaConversion::Rejected(reason) => {
                self.lose(kind, non_empty(item_type), reason);
            },
        }
    }

    /// Convert a tool call item.
    fn handle_tool_call_item(
        &mut self,
        obj: &Object,
        kind: ToolCallKind,
        skip_call_ids: &Vec<String>,
        tool_context: &BridgeToolContext,
        fresh: &str,
    )
        ensures
            final(self)@ == old(self)@.after_call(
                obj@,
                kind,
                texts(skip_call_ids@),
                tool_context@,
                fresh@,
            ),
    {
        if should_skip(obj, skip_call_ids) {
            self.lose(
                TransformLoss::SkippedDuplicateToolCall,
                non_empty(kind.as_str()),
                "Duplicate tool call already in message history".to_owned(),
            );
            return;
        }
        let own = match obj.get_str("name") {
            Some(n) => n,
            None => "unknown_tool",
        };
        let (name, arguments): (String, String) = match kind {
            ToolCallKind::Function => (
                tool_context.chat_name_for_function(own, obj.get_str("namespace")),
                canonicalize_tool_arguments(obj.get("arguments")),
            ),
            ToolCallKind::Custom => (
                own.to_owned(),
                custom_tool_input_to_chat_arguments(obj.get("input")),
            ),
            ToolCallKind::Search => (
                "tool_search".to_owned(),
                canonicalize_tool_arguments(obj.get("arguments")),
            ),
        };
        if let Some(rc) = obj.get_str("reasoning_content") {
            self.think(rc);
        }
        let ghost thinking = self@;
        let call_id = resolve_tool_call_id(obj, fresh);
        let call = make_function_call(call_id.as_str(), name.as_str(), arguments.as_str());
        self.calls.push(call);
        assert(self@ =~= Progress { calls: thinking.calls.push(call@), ..thinking });
    }

    /// Convert a tool output item.
    fn handle_tool_output_item(
        &mut self,
        item: &Json,
        obj: &Object,
        item_type: &str,
        skip_call_ids: &Vec<String>,
        fresh: &str,
    )
        requires
            item@ == Tree::Object(obj@),
        ensures
            final(self)@ == old(self)@.after_output(
                obj@,
                item_type@,
                texts(skip_call_ids@),
                fresh@,
            ),
    {
        let call_id = resolve_tool_call_id(obj, fresh);
        if should_skip(obj, skip_call_ids) {
            self.lose(
                TransformLoss::SkippedDuplicateToolCall,
                non_empty(item_type),
                "Duplicate tool output already in message history".to_owned(),
            );
            return;
        }
        self.flush_pending();
        let content = if same(item_type, "function_call_output") {
            normalize_tool_output_content(obj.get("output"))
        } else {
            item.render()
        };
        if has_matching_call(call_id.as_str(), &self.messages) {
            let mut m = ChatMessageBuilder::with_content("tool", Json::Str(content));
            m.tool_call_id = Some(call_id);
            self.say(m.into_value());
        } else {
            self.lose(
                TransformLoss::DowngradedOrphanToolOutput,
                non_empty(item_type),
                cat3("Tool output ", call_id.as_str(), " has no matching preceding tool call"),
            );
            let mut text = cat3("Function call output (", call_id.as_str(), "): ");
            text.push_str(content.as_str());
            self.say(make_plain_message("user", Json::Str(text)));
        }
    }

    /// Convert a message item.
    fn build_generic_message(&mut self, obj: &Object, item_type: &str)
        ensures
            final(self)@ == old(self)@.after_message(obj@, item_type@),
    {
        let role = match obj.get_str("role") {
            Some(r) => r,
            None => "user",
        };
        let chat_role = if same(role, "system") || same(role, "developer") {
            "system"
        } else if same(role, "user") || same(role, "assistant") || same(role, "tool") {
            role
        } else {
            self.lose(
                TransformLoss::DowngradedInvalidRole,
                non_empty(item_type),
                cat3("Unrecognized message role ", quoted(role).as_str(), " downgraded to user"),
            );
            "user"
        };
        let content = chat_message_content_from_response_content(obj.get("content"));
        let mut m = ChatMessageBuilder::with_content(chat_role, content);
        m.tool_call_id = own_opt(obj.get_str("tool_call_id"));
        if same(chat_role, "assistant") {
            if let Some(calls) = obj.get_array("tool_calls") {
                m.tool_calls = clone_values(calls);
            }
        }
        m.reasoning_content = own_opt(obj.get_str("reasoning_content"));
        self.say(m.into_value());
    }

    /// Convert one input item.
    fn handle_item(
        &mut self,
        item: &Json,
        skip_call_ids: &Vec<String>,
        tool_context: &BridgeToolContext,
        fresh: &str,
    )
        ensures
            final(self)@ == old(self)@.after_item(
                item@,
                texts(skip_call_ids@),
                tool_context@,
                fresh@,
            ),
    {
        let obj = match item.as_object() {
            Some(o) => o,
            None => {
                self.flush_pending();
                self.lose(
                    TransformLoss::SkippedNonDictItem,
                    None,
                    "Non-object input item skipped".to_owned(),
                );
                return;
            },
        };
        let item_type = type_of(obj);
        let kind = InputItemKind::classify(item_type);
        match kind {
            InputItemKind::Reasoning => self.reasoning_item(obj, item_type),
            InputItemKind::Text => {
                self.flush_pending();
                let text = match obj.get_str("text") {
                    Some(s) => s.to_owned(),
                    None => String::new(),
                };
                self.say(make_plain_message("user", Json::Str(text)));
            },
            InputItemKind::Image | InputItemKind::Audio => {
                self.flush_pending();
                self.handle_media_item(obj, item_type);
            },
            InputItemKind::FunctionCall
            | InputItemKind::CustomToolCall
            | InputItemKind::ToolSearchCall => {
                if let Some(call_kind) = kind.as_tool_call() {
                    self.handle_tool_call_item(obj, call_kind, skip_call_ids, tool_context, fresh);
                }
            },
            InputItemKind::FunctionCallOutput
            | InputItemKind::CustomToolCallOutput
            | InputItemKind::ToolSearchOutput => {
                self.handle_tool_output_item(item, obj, item_type, skip_call_ids, fresh);
            },
            InputItemKind::Message | InputItemKind::Other => {
                self.flush_pending();
                if same(item_type, "message") || obj.has("role") || obj.has("content") {
                    self.build_generic_message(obj, item_type);
                } else {
                    self.lose(
                        TransformLoss::SkippedUnknownItemType,
                        non_empty(item_type),
                        cat("Unrecognized input item type: ", quoted(item_type).as_str()),
                    );
                }
            },
        }
    }
}

/// The messages and losses of converting input items after earlier messages;
/// `fresh` holds a call id for each item that has none.
pub open spec fn appended(
    messages: Seq<Tree>,
    input: Option<Tree>,
    registry: Registry,
    fresh: Seq<Seq<char>>,
) -> Progress {
    let items = input_items(input);
    Progress {
        messages,
        calls: Seq::empty(),
        reasoning: None,
        losses: Seq::empty(),
    }.after_items(
        items,
        items.len() as int,
        known_call_ids(messages),
        registry,
        fresh,
    ).flushed()
}

/// Convert input items and append them to earlier messages; `fresh` holds a call
/// id for each item that has none.
pub fn append_input_items(
    items: &Vec<Json>,
    messages: Vec<Json>,
    tool_context: &BridgeToolContext,
    fresh: &Vec<String>,
) -> (r: (Vec<Json>, TransformLossCollector))
    requires
        fresh@.len() == items@.len(),
    ensures
        ({
            let end = Progress {
                messages: trees(messages@),
                calls: Seq::empty(),
                reasoning: None,
                losses: Seq::empty(),
            }.after_items(
                trees(items@),
                items@.len() as int,
                known_call_ids(trees(messages@)),
                tool_context@,
                texts(fresh@),
            ).flushed();
            trees(r.0@) == end.messages && r.1@ == end.losses
        }),
{
    let skip_call_ids = existing_call_ids(&messages);
    let ghost known = known_call_ids(trees(messages@));
    let calls: Vec<Json> = Vec::new();
    assert(trees(calls@) =~= Seq::<Tree>::empty());
    let ghost start = Progress {
        messages: trees(messages@),
        calls: Seq::empty(),
        reasoning: None,
        losses: Seq::empty(),
    };
    let mut run = Conversion {
        messages,
        calls,
        reasoning: None,
        losses: TransformLossCollector::new(),
    };
    assert(run@ =~= start);
    let mut i: usize = 0;
    while i < items.len()
        invariant
            i <= items@.len(),
            fresh@.len() == items@.len(),
            texts(skip_call_ids@) == known,
            run@ == start.after_items(
                trees(items@),
                i as int,
                known,
                tool_context@,
                texts(fresh@),
            ),
        decreases items.len() - i,
    {
        assert(trees(items@)[i as int] == items@[i as int]@);
        assert(texts(fresh@)[i as int] == fresh@[i as int]@);
        run.handle_item(&items[i], &skip_call_ids, tool_context, fresh[i].as_str());
        i += 1;
    }
    run.flush_pending();
    (run.messages, run.losses)
}

/// A tool output only becomes a tool message where an assistant message before
/// it makes the call that it answers.
pub proof fn outputs_follow_their_calls(
    p: Progress,
    item: Map<Seq<char>, Tree>,
    t: Seq<char>,
    known: Seq<Seq<char>>,
    fresh: Seq<char>,
)
    requires
        !already_known(item, known),
    ensures
        ({
            let before = p.flushed().messages;
            let after = p.after_output(item, t, known, fresh).messages;
            after.len() == before.len() + 1 && after.drop_last() == before && (text_in(
                after.last().at("role"@),
            ) == Some("tool"@) ==> call_made(before, call_id_of(item, fresh)))
        }),
{
    let before = p.flushed().messages;
    let after = p.after_output(item, t, known, fresh).messages;
    assert(after.drop_last() =~= before);
    reveal_strlit("role");
    reveal_strlit("content");
    reveal_strlit("user");
    reveal_strlit("tool");
    assert("role"@.len() != "content"@.len());
    assert("user"@[0] != "tool"@[0]);
}

/// Whether a model takes `max_completion_tokens`.
pub open spec fn o_series(model: Seq<char>) -> bool {
    let m = lower(model);
    begins(m, "o1"@) || begins(m, "o3"@) || begins(m, "o4"@)
}

/// Whether a model takes `max_completion_tokens`.
pub fn is_openai_o_series(model: &str) -> (r: bool)
    ensures
        r == o_series(model@),
{
    let m = lowered(model);
    starts(m.as_str(), "o1") || starts(m.as_str(), "o3") || starts(m.as_str(), "o4")
}

/// The choice of a Chat function.
pub open spec fn function_choice(name: Seq<char>) -> Tree {
    Tree::Object(
        map![
            "type"@ => Tree::Str("function"@),
            "function"@ => Tree::Object(map!["name"@ => Tree::Str(name)]),
        ],
    )
}

/// The Chat tool choice of a Responses tool choice. Anything but the choice of a
/// named tool stays as it is.
pub open spec fn chat_tool_choice(choice: Tree, registry: Registry) -> Tree {
    match choice {
        Tree::Object(m) => {
            let t = text_at(m, "type"@);
            if t == Some("tool_search"@) {
                function_choice("tool_search"@)
            } else if t == Some("function"@) || t == Some("custom"@) {
                match nonempty(text_at(m, "name"@)) {
                    Some(name) => function_choice(
                        registry.chat_name(name, text_at(m, "namespace"@)),
                    ),
                    None => choice,
                }
            } else {
                choice
            }
        },
        _ => choice,
    }
}

fn make_function_choice(name: &str) -> (r: Json)
    ensures
        r@ == function_choice(name@),
{
    Json::Object(
        Object::new().with("type", Json::text("function")).with(
            "function",
            object_of("name", Json::text(name)),
        ),
    )
}

/// The Chat tool choice of a Responses tool choice.
pub fn responses_tool_choice_to_chat(
    tool_choice: &Json,
    tool_context: &BridgeToolContext,
) -> (r: Json)
    ensures
        r@ == chat_tool_choice(tool_choice@, tool_context@),
{
    let obj = match tool_choice.as_object() {
        Some(o) => o,
        None => {
            return tool_choice.clone();
        },
    };
    let t = match obj.get_str("type") {
        Some(t) => t,
        None => {
            return tool_choice.clone();
        },
    };
    if same(t, "tool_search") {
        make_function_choice("tool_search")
    } else if same(t, "function") || same(t, "custom") {
        match nonempty_text(obj.get_str("name")) {
            Some(name) => {
                let chat_name = tool_context.chat_name_for_function(
                    name,
                    obj.get_str("namespace"),
                );
                make_function_choice(chat_name.as_str())
            },
            None => tool_choice.clone(),
        }
    } else {
        tool_choice.clone()
    }
}

/// The request fields that go upstream as they are.
pub open spec fn passthrough_fields() -> Seq<Seq<char>> {
    seq![
        "metadata"@,
        "parallel_tool_calls"@,
        "presence_penalty"@,
        "frequency_penalty"@,
        "seed"@,
        "service_tier"@,
        "stop"@,
        "user"@,
        "logit_bias"@,
        "logprobs"@,
        "top_logprobs"@,
    ]
}

/// The names of the request fields that go upstream as they are.
fn passthrough_names() -> (r: Vec<&'static str>)
    ensures
        name_texts(r@) == passthrough_fields(),
{
    let r = vec![
        "metadata",
        "parallel_tool_calls",
        "presence_penalty",
        "frequency_penalty",
        "seed",
        "service_tier",
        "stop",
        "user",
        "logit_bias",
        "logprobs",
        "top_logprobs",
    ];
    assert(name_texts(r@) =~= passthrough_fields());
    r
}

/// The members with `k` set to a value that is there and not null.
pub open spec fn with_value(
    m: Map<Seq<char>, Tree>,
    k: Seq<char>,
    v: Option<Tree>,
) -> Map<Seq<char>, Tree> {
    match v {
        Some(t) => if t == Tree::Null {
            m
        } else {
            m.insert(k, t)
        },
        None => m,
    }
}

fn insert_value(m: &mut Object, k: &str, v: &Option<Json>)
    ensures
        final(m)@ == with_value(old(m)@, k@, opt_value(*v)),
{
    if let Some(t) = v {
        if !t.is_null() {
            m.insert(k, t.clone());
        }
    }
}

/// The earlier messages with the instructions of a request behind them.
pub open spec fn instructed(earlier: Seq<Tree>, instructions: Option<Tree>) -> Seq<Tree> {
    match instructions {
        Some(i) => if trim(instructions_text(i)).len() == 0 {
            earlier
        } else {
            earlier.push(plain_message("system"@, Tree::Str(instructions_text(i))))
        },
        None => earlier,
    }
}

/// The effort that a request asks for.
pub open spec fn requested_effort(reasoning: Option<Tree>) -> Option<Seq<char>> {
    match reasoning {
        Some(r) => text_in(r.at("effort"@)),
        None => None,
    }
}

/// The fields of a Chat body that the request names itself.
pub open spec fn own_fields(
    payload: ResponsesRequest,
    model: Seq<char>,
    messages: Seq<Tree>,
    registry: Registry,
) -> Map<Seq<char>, Tree> {
    let base = map![
        "model"@ => Tree::Str(model),
        "messages"@ => Tree::Array(messages),
        "stream"@ => Tree::Bool(payload.stream),
    ];
    let streamed = if payload.stream {
        base.insert(
            "stream_options"@,
            match opt_value(payload.stream_options) {
                Some(o) => o,
                None => Tree::Object(map!["include_usage"@ => Tree::Bool(true)]),
            },
        )
    } else {
        base
    };
    let tooled = if registry.chat_tools.len() > 0 {
        let listed = streamed.insert("tools"@, Tree::Array(registry.chat_tools));
        match opt_value(payload.tool_choice) {
            Some(tc) => listed.insert("tool_choice"@, chat_tool_choice(tc, registry)),
            None => listed,
        }
    } else {
        streamed
    };
    let limited = match payload.max_output_tokens {
        Some(n) => tooled.insert(
            if o_series(model) {
                "max_completion_tokens"@
            } else {
                "max_tokens"@
            },
            Tree::Int(n as int),
        ),
        None => tooled,
    };
    let sampled = with_value(
        with_value(limited, "temperature"@, opt_value(payload.temperature)),
        "top_p"@,
        opt_value(payload.top_p),
    );
    with_value(sampled, "response_format"@, opt_value(payload.response_format))
}

/// The Chat body of a request, with the messages already converted.
pub open spec fn chat_body(
    payload: ResponsesRequest,
    model: Seq<char>,
    messages: Seq<Tree>,
    registry: Registry,
) -> Map<Seq<char>, Tree> {
    let passed = copied(
        own_fields(payload, model, messages, registry),
        payload.extra@,
        passthrough_fields(),
    );
    match wire_effort(model, canonical_effort(requested_effort(opt_value(payload.reasoning)))) {
        Some(e) => passed.insert("reasoning_effort"@, Tree::Str(e)),
        None => passed,
    }
}

/// The Chat body and the losses of a request: the messages of earlier turns, the
/// instructions, then the input. `fresh` holds a call id for each input item
/// that has none.
pub open spec fn converted(
    payload: ResponsesRequest,
    model: Seq<char>,
    earlier: Seq<Tree>,
    registry: Registry,
    fresh: Seq<Seq<char>>,
) -> (Map<Seq<char>, Tree>, Seq<Loss>) {
    let end = appended(
        instructed(earlier, opt_value(payload.instructions)),
        opt_value(payload.input),
        registry,
        fresh,
    );
    (
        chat_body(payload, model, collapsed(sanitized_messages(end.messages)), registry),
        end.losses,
    )
}

/// The earlier messages of a conversation, if there is one.
pub open spec fn earlier_messages(existing: Option<&Vec<Json>>) -> Seq<Tree> {
    match existing {
        Some(v) => trees(v@),
        None => Seq::empty(),
    }
}

/// Whether `fresh` holds a synthetic call id for each of `n` items.
pub open spec fn fresh_ids(fresh: Seq<Seq<char>>, n: nat) -> bool {
    fresh.len() == n && forall|i: int|
        0 <= i < fresh.len() ==> is_synthetic_call_id(#[trigger] fresh[i])
}

/// Build the Chat body of a request around its converted messages.
pub fn build_chat_body(
    payload: &ResponsesRequest,
    resolved_model: &str,
    messages: Vec<Json>,
    tool_context: &BridgeToolContext,
) -> (r: ChatRequest)
    ensures
        r.body@ == chat_body(*payload, resolved_model@, trees(messages@), tool_context@),
{
    let mut body = Object::new().with("model", Json::text(resolved_model)).with(
        "messages",
        Json::Array(messages),
    ).with("stream", Json::Bool(payload.stream));
    if payload.stream {
        let options = match &payload.stream_options {
            Some(o) => o.clone(),
            None => object_of("include_usage", Json::Bool(true)),
        };
        body.insert("stream_options", options);
    }
    let chat_tools = tool_context.chat_tools();
    assert(trees(chat_tools@).len() == chat_tools@.len());
    if chat_tools.len() > 0 {
        body.insert("tools", Json::Array(clone_values(chat_tools)));
        if let Some(tc) = &payload.tool_choice {
            body.insert("tool_choice", responses_tool_choice_to_chat(tc, tool_context));
        }
    }
    if let Some(n) = payload.max_output_tokens {
        if is_openai_o_series(resolved_model) {
            body.insert("max_completion_tokens", Json::integer(n));
        } else {
            body.insert("max_tokens", Json::integer(n));
        }
    }
    insert_value(&mut body, "temperature", &payload.temperature);
    insert_value(&mut body, "top_p", &payload.top_p);
    insert_value(&mut body, "response_format", &payload.response_format);
    copy_members(&mut body, &payload.extra, &passthrough_names());
    let effort = match &payload.reasoning {
        Some(r) => r.get_str("effort"),
        None => None,
    };
    if let Some(e) = wire_reasoning_effort(resolved_model, normalize_canonical_effort(effort)) {
        body.insert("reasoning_effort", Json::text(e));
    }
    ChatRequest { body }
}

/// Convert a request to a Chat body; `fresh` holds a call id for each input item
/// that has none. The losses come with it.
pub fn convert_request(
    payload: &ResponsesRequest,
    resolved_model: &str,
    existing_messages: Option<&Vec<Json>>,
    tool_context: &BridgeToolContext,
    fresh: &Vec<String>,
) -> (r: (ChatRequest, TransformLossCollector))
    requires
        fresh@.len() == input_items(opt_value(payload.input)).len(),
    ensures
        (r.0.body@, r.1@) == converted(
            *payload,
            resolved_model@,
            earlier_messages(existing_messages),
            tool_context@,
            texts(fresh@),
        ),
{
    let mut messages: Vec<Json> = match existing_messages {
        Some(prev) => clone_values(prev),
        None => Vec::new(),
    };
    assert(trees(messages@) =~= earlier_messages(existing_messages));
    if let Some(instructions) = &payload.instructions {
        let text = instruction_text(instructions);
        if !is_blank(text.as_str()) {
            messages.push(make_plain_message("system", Json::Str(text)));
        }
    }
    let items = match &payload.input {
        Some(input) => iter_request_input_items(Some(input)),
        None => iter_request_input_items(None),
    };
    assert(trees(items@).len() == items@.len());
    let (all, losses) = append_input_items(&items, messages, tool_context, fresh);
    let clean = collapse_system_messages_to_head(sanitize_messages(all));
    (build_chat_body(payload, resolved_model, clean, tool_context), losses)
}

/// Convert a request to a Chat body, behind the messages of earlier turns. The
/// losses come with it. An input item that should carry a call id and does not
/// gets a synthetic one.
pub fn responses_to_chat_with_session(
    payload: &ResponsesRequest,
    resolved_model: &str,
    existing_messages: Option<&Vec<Json>>,
    tool_context: &BridgeToolContext,
) -> (r: (ChatRequest, TransformLossCollector))
    ensures
        exists|fresh: Seq<Seq<char>>| #[trigger]
            fresh_ids(fresh, input_items(opt_value(payload.input)).len()) && (r.0.body@, r.1@)
                == converted(
                *payload,
                resolved_model@,
                earlier_messages(existing_messages),
                tool_context@,
                fresh,
            ),
{
    let items = match &payload.input {
        Some(input) => iter_request_input_items(Some(input)),
        None => iter_request_input_items(None),
    };
    assert(trees(items@).len() == items@.len());
    let ids = synthetic_tool_call_ids(items.len());
    proof {
        let fresh = texts(ids@);
        assert forall|i: int| 0 <= i < fresh.len() implies is_synthetic_call_id(
            #[trigger] fresh[i],
        ) by {
            assert(fresh[i] == ids@[i]@);
        }
        assert(fresh_ids(fresh, input_items(opt_value(payload.input)).len()));
    }
    convert_request(payload, resolved_model, existing_messages, tool_context, &ids)
}

/// The registry that a request declares, and its conversion with no earlier
/// turns.
pub fn responses_to_chat(
    payload: &ResponsesRequest,
    resolved_model: &str,
    policy: crate::config::UnsupportedToolPolicy,
) -> (r: (ChatRequest, TransformLossCollector))
    ensures
        exists|fresh: Seq<Seq<char>>| #[trigger]
            fresh_ids(fresh, input_items(opt_value(payload.input)).len()) && (r.0.body@, r.1@)
                == converted(
                *payload,
                resolved_model@,
                Seq::empty(),
                Registry::of_request(
                    opt_value(payload.tools),
                    opt_value(payload.input),
                    policy,
                ),
                fresh,
            ),
{
    let tool_context = crate::context::build_tool_context_from_request(payload, policy);
    responses_to_chat_with_session(payload, resolved_model, None, &tool_context)
}

/// How a loss is told in a summary.
pub open spec fn loss_mention(l: Loss) -> Seq<char> {
    l.kind.label() + "("@ + match l.item_type {
        Some(t) => t,
        None => "n/a"@,
    } + ")"@
}

/// The mentions of losses.
pub open spec fn loss_mentions(losses: Seq<Loss>) -> Seq<Seq<char>> {
    losses.map_values(|l: Loss| loss_mention(l))
}

/// The summary of losses.
pub open spec fn loss_summary(losses: Seq<Loss>) -> Seq<char> {
    "responses_to_chat transform loss: "@ + crate::text::decimal_digits(losses.len())
        + " events ["@ + join(loss_mentions(losses), ", "@) + "]"@
}

/// The labels under which a loss is counted.
pub open spec fn loss_label(l: Loss) -> (Seq<char>, Seq<char>) {
    (
        l.kind.label(),
        match l.item_type {
            Some(t) => t,
            None => "none"@,
        },
    )
}

/// What is to be counted and logged of the losses of one conversion.
#[derive(Debug)]
pub struct LossReport {
    /// The kind and the item type of each loss.
    pub labels: Vec<(String, String)>,
    /// One line on all of them.
    pub summary: String,
}

/// The texts of labels.
pub open spec fn label_texts(s: Seq<(String, String)>) -> Seq<(Seq<char>, Seq<char>)> {
    s.map_values(|l: (String, String)| (l.0@, l.1@))
}

/// What is to be counted and logged of the losses of one conversion, if there
/// are any.
pub fn drain_transform_loss(loss: &TransformLossCollector) -> (r: Option<LossReport>)
    ensures
        match r {
            Some(report) => {
                &&& loss@.len() > 0
                &&& label_texts(report.labels@) == loss@.map_values(|l: Loss| loss_label(l))
                &&& report.summary@ == loss_summary(loss@)
            },
            None => loss@.len() == 0,
        },
{
    if loss.is_empty() {
        return None;
    }
    let events = loss.events();
    let ghost all = loss@;
    assert(all.len() == events@.len());
    let mut labels: Vec<(String, String)> = Vec::new();
    let mut mentions: Vec<String> = Vec::new();
    let mut i: usize = 0;
    while i < events.len()
        invariant
            i <= events@.len(),
            all.len() == events@.len(),
            forall|j: int| 0 <= j < all.len() ==> #[trigger] all[j] == events@[j]@,
            i == labels@.len(),
            i == mentions@.len(),
            label_texts(labels@) == all.map_values(|l: Loss| loss_label(l)).take(i as int),
            texts(mentions@) == loss_mentions(all).take(i as int),
        decreases events.len() - i,
    {
        let event = &events[i];
        let ghost l = all[i as int];
        assert(l == events@[i as int]@);
        let name = event.kind.name();
        let (counted, told) = match &event.item_type {
            Some(t) => (t.clone(), t.clone()),
            None => ("none".to_owned(), "n/a".to_owned()),
        };
        let mut mention = cat3(name, "(", told.as_str());
        mention.push_str(")");
        assert(mention@ == loss_mention(l));
        labels.push((name.to_owned(), counted));
        mentions.push(mention);
        i += 1;
        assert(label_texts(labels@) =~= all.map_values(|l: Loss| loss_label(l)).take(i as int));
        assert(texts(mentions@) =~= loss_mentions(all).take(i as int));
    }
    assert(loss_mentions(all).take(i as int) =~= loss_mentions(all));
    assert(label_texts(labels@) =~= all.map_values(|l: Loss| loss_label(l)));
    let mut summary = cat3(
        "responses_to_chat transform loss: ",
        crate::text::decimal_text(events.len() as u64).as_str(),
        " events [",
    );
    summary.push_str(joined(&mentions, ", ").as_str());
    summary.push_str("]");
    Some(LossReport { labels, summary })
}

/// Whether a name is none of those that a request sets besides its model, its
/// messages and whether it is streamed.
spec fn is_set_once(k: Seq<char>) -> bool {
    &&& k != "stream_options"@
    &&& k != "tools"@
    &&& k != "tool_choice"@
    &&& k != "max_completion_tokens"@
    &&& k != "max_tokens"@
    &&& k != "temperature"@
    &&& k != "top_p"@
    &&& k != "response_format"@
    &&& k != "reasoning_effort"@
    &&& forall|i: int| 0 <= i < passthrough_fields().len() ==> #[trigger] passthrough_fields()[i] != k
}

proof fn lemma_names_set_once()
    ensures
        is_set_once("model"@),
        is_set_once("messages"@),
        is_set_once("stream"@),
        "model"@ != "messages"@,
        "model"@ != "stream"@,
        "messages"@ != "stream"@,
{
    reveal_strlit("model");
    reveal_strlit("messages");
    reveal_strlit("stream");
    reveal_strlit("stream_options");
    reveal_strlit("tools");
    reveal_strlit("tool_choice");
    reveal_strlit("max_completion_tokens");
    reveal_strlit("max_tokens");
    reveal_strlit("temperature");
    reveal_strlit("top_p");
    reveal_strlit("response_format");
    reveal_strlit("reasoning_effort");
    reveal_strlit("metadata");
    reveal_strlit("parallel_tool_calls");
    reveal_strlit("presence_penalty");
    reveal_strlit("frequency_penalty");
    reveal_strlit("seed");
    reveal_strlit("service_tier");
    reveal_strlit("stop");
    reveal_strlit("user");
    reveal_strlit("logit_bias");
    reveal_strlit("logprobs");
    reveal_strlit("top_logprobs");
    assert("stream_options"@.len() == 14);
    assert("tools"@.len() == 5);
    assert("tool_choice"@.len() == 11);
    assert("max_completion_tokens"@.len() == 21);
    assert("max_tokens"@.len() == 10);
    assert("temperature"@.len() == 11);
    assert("top_p"@.len() == 5);
    assert("response_format"@.len() == 15);
    assert("reasoning_effort"@.len() == 16);
    assert("metadata"@.len() == 8);
    assert("parallel_tool_calls"@.len() == 19);
    assert("presence_penalty"@.len() == 16);
    assert("frequency_penalty"@.len() == 17);
    assert("seed"@.len() == 4);
    assert("service_tier"@.len() == 12);
    assert("stop"@.len() == 4);
    assert("user"@.len() == 4);
    assert("logit_bias"@.len() == 10);
    assert("logprobs"@.len() == 8);
    assert("top_logprobs"@.len() == 12);
    assert("model"@.len() == 5);
    assert("messages"@.len() == 8);
    assert("stream"@.len() == 6);
    assert("model"@[0] == 'm' && "tools"@[0] == 't' && "top_p"@[0] == 't');
    assert("messages"@[2] == 's' && "metadata"@[2] == 't' && "logprobs"@[2] == 'g');
    assert("model"@ != "tools"@ && "model"@ != "top_p"@);
    assert("messages"@ != "metadata"@ && "messages"@ != "logprobs"@);
    assert forall|i: int| 0 <= i < passthrough_fields().len() implies #[trigger]
    passthrough_fields()[i] != "model"@ && passthrough_fields()[i] != "messages"@ by {
        let f = passthrough_fields()[i];
        assert(f == "metadata"@ || f == "parallel_tool_calls"@ || f == "presence_penalty"@ || f
            == "frequency_penalty"@ || f == "seed"@ || f == "service_tier"@ || f == "stop"@ || f
            == "user"@ || f == "logit_bias"@ || f == "logprobs"@ || f == "top_logprobs"@);
    }
}

/// Whatever a request holds, its Chat body carries its model, its messages and
/// whether it is streamed.
pub proof fn chat_bodies_are_well_formed(
    payload: ResponsesRequest,
    model: Seq<char>,
    messages: Seq<Tree>,
    registry: Registry,
)
    ensures
        member(chat_body(payload, model, messages, registry), "model"@) == Some(Tree::Str(model)),
        member(chat_body(payload, model, messages, registry), "messages"@) == Some(
            Tree::Array(messages),
        ),
        member(chat_body(payload, model, messages, registry), "stream"@) == Some(
            Tree::Bool(payload.stream),
        ),
{
    lemma_names_set_once();
    let own = own_fields(payload, model, messages, registry);
    lemma_copied_other(own, payload.extra@, passthrough_fields(), "model"@);
    lemma_copied_other(own, payload.extra@, passthrough_fields(), "messages"@);
    lemma_copied_other(own, payload.extra@, passthrough_fields(), "stream"@);
}

} // verus!
