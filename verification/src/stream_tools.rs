//! The tool calls of a streamed response.
//!
//! A turn may hold several tool calls at once, each known by its upstream index.
//! The first delta that names a call opens its item; deltas of its arguments are
//! sent on; closing it hands the completed item to the envelope. A call to a
//! nested namespace is held back until its arguments say which action it selects.
//!
//! All calls of a turn take their output indices from one base, so that they
//! stand in the order of their upstream indices.
use vstd::prelude::*;
use vstd::utf8::encode_scalar;
use crate::context::{
    custom_input, custom_tool_input_from_chat_arguments,
    parse_tool_arguments_object, partial_custom_tool_input_from_chat_arguments, partial_input,
    resolve_nested_namespace_arguments, resolved, search_arguments, BridgeToolContext, Origin,
    Registry, ToolSpec,
};
use crate::convert::chat_to_responses::with_text;
use crate::convert::message_normalization::{nonempty, nonempty_text};
use crate::convert::responses_to_chat::{function_call, make_function_call};
use crate::convert::semantics::wrapped;
use crate::convert::tool_arguments::{
    canonical_arguments, canonicalize_tool_arguments, denoted_arguments,
};
use crate::id_gen::{
    self, custom_tool_call_id, custom_tool_call_item_id, function_call_id, function_call_item_id,
    is_synthetic_call_id,
};
use crate::json::{
    int_in, lemma_trees_push, members_in, opt_int, parsed, text_at, text_in, trees, Json, Object,
    Tree,
};
use crate::sanitize::{sanitize_string, sanitized};
use crate::stream_envelope::{Envelope, ResponseEnvelopeState};
use crate::stream_events::{
    self, arguments_delta, arguments_done, frames, input_delta, input_done, item_added, item_done,
    lemma_frames_push, lemma_no_wires, lemma_wires_concat, lemma_wires_push, nothing, single, wires,
    Event,
};
use crate::stream_reasoning::{idle, run_together, Step};
use crate::text::{after, begins, chars_of, clone_opt, opt_string, opt_text, same, starts, text_of};
use crate::utf8::{byte_len, char_width};

verus! {

broadcast use {
    lemma_frames_push,
    lemma_wires_push,
    lemma_wires_concat,
    lemma_no_wires,
    lemma_trees_push,
};

/// The most bytes of arguments that one delta carries.
pub const ARGUMENTS_CHUNK_SIZE: usize = 64;

/// The most bytes of arguments for which a call to a nested namespace is held back.
pub const NAMESPACE_BUFFER_MAX_BYTES: usize = 4096;

/// One tool call.
#[derive(Debug)]
pub struct ToolCallState {
    output_index: Option<i64>,
    item_id: String,
    call_id: String,
    name: String,
    namespace: Option<String>,
    arguments: String,
    added: bool,
    done: bool,
    reasoning_content: String,
    emitted_custom_input: String,
    emitted_arguments: String,
    nested_buffered: bool,
    nested_resolved: bool,
    spare_id: String,
}

/// The model of a tool call.
#[verifier::ext_equal]
pub ghost struct Call {
    /// Where its item stands, once that is known.
    pub output_index: Option<int>,
    pub item_id: Seq<char>,
    pub call_id: Seq<char>,
    pub name: Seq<char>,
    /// The namespace of an action, once it is selected.
    pub namespace: Option<Seq<char>>,
    pub arguments: Seq<char>,
    /// Whether its item was opened.
    pub added: bool,
    /// Whether its item was closed.
    pub done: bool,
    pub reasoning: Seq<char>,
    /// The input that was sent, of a custom tool.
    pub sent_input: Seq<char>,
    /// The arguments that were sent in full.
    pub sent_arguments: Seq<char>,
    /// Whether it is held back until an action is selected.
    pub buffered: bool,
    /// Whether it was held back and is no more.
    pub resolved: bool,
    /// The call id that it gets if it comes without one.
    pub spare_id: Seq<char>,
}

impl View for ToolCallState {
    type V = Call;

    closed spec fn view(&self) -> Call {
        Call {
            output_index: opt_int(self.output_index),
            item_id: self.item_id@,
            call_id: self.call_id@,
            name: self.name@,
            namespace: opt_string(self.namespace),
            arguments: self.arguments@,
            added: self.added,
            done: self.done,
            reasoning: self.reasoning_content@,
            sent_input: self.emitted_custom_input@,
            sent_arguments: self.emitted_arguments@,
            buffered: self.nested_buffered,
            resolved: self.nested_resolved,
            spare_id: self.spare_id@,
        }
    }
}

/// What a tool call calls.
#[derive(Debug, Clone, Copy, PartialEq, Eq, Structural)]
pub struct CallKind {
    pub is_custom: bool,
    pub is_tool_search: bool,
}

/// What a name stands for.
pub open spec fn kind_of(registry: Registry, name: Seq<char>) -> CallKind {
    CallKind {
        is_custom: registry.custom(nonempty(Some(name))),
        is_tool_search: registry.search(nonempty(Some(name))),
    }
}

/// The nested namespace that a name stands for, if it stands for one.
pub open spec fn nested_spec(registry: Registry, name: Seq<char>) -> Option<Origin> {
    if name.len() == 0 {
        None
    } else {
        match registry.origin(name) {
            Some(o) => if o.nested_namespace() {
                Some(o)
            } else {
                None
            },
            None => None,
        }
    }
}

impl CallKind {
    /// The type of the item.
    pub open spec fn item_type(self) -> Seq<char> {
        if self.is_custom {
            "custom_tool_call"@
        } else if self.is_tool_search {
            "tool_search_call"@
        } else {
            "function_call"@
        }
    }

    /// The type of the item.
    pub fn response_item_type(self) -> (r: &'static str)
        ensures
            r@ == self.item_type(),
    {
        if self.is_custom {
            "custom_tool_call"
        } else if self.is_tool_search {
            "tool_search_call"
        } else {
            "function_call"
        }
    }
}

/// How many characters at the front of a text fit in `room` bytes.
pub open spec fn fitting(s: Seq<char>, room: int) -> int
    decreases s.len(),
{
    if s.len() == 0 || encode_scalar(s[0] as u32).len() > room {
        0
    } else {
        1 + fitting(s.drop_first(), room - encode_scalar(s[0] as u32).len())
    }
}

/// A text cut into pieces that are as long as one delta may carry.
pub open spec fn chunks(s: Seq<char>) -> Seq<Seq<char>>
    decreases s.len(),
{
    let n = fitting(s, ARGUMENTS_CHUNK_SIZE as int);
    if s.len() == 0 {
        Seq::empty()
    } else if n <= 0 || n > s.len() {
        seq![s]
    } else {
        seq![s.take(n)] + chunks(s.skip(n))
    }
}

/// The deltas that carry the pieces of an argument text.
pub open spec fn chunk_events(list: Seq<Seq<char>>, item_id: Seq<char>, output_index: int) -> Seq<
    Event,
> {
    list.map_values(|c: Seq<char>| arguments_delta(item_id, output_index, c))
}

/// An optional index, or zero.
pub open spec fn index_or_zero(o: Option<int>) -> int {
    match o {
        Some(i) => i,
        None => 0,
    }
}

impl Call {
    /// A call of which nothing is known.
    pub open spec fn blank(spare_id: Seq<char>) -> Call {
        Call {
            output_index: None,
            item_id: Seq::empty(),
            call_id: Seq::empty(),
            name: Seq::empty(),
            namespace: None,
            arguments: Seq::empty(),
            added: false,
            done: false,
            reasoning: Seq::empty(),
            sent_input: Seq::empty(),
            sent_arguments: Seq::empty(),
            buffered: false,
            resolved: false,
            spare_id,
        }
    }

    /// Whether a call id or a name is known.
    pub open spec fn has_identity(self) -> bool {
        self.call_id.len() > 0 || self.name.len() > 0
    }

    /// The call with a delta: its id and its name are replaced, its arguments grow,
    /// and the first reasoning stays.
    pub open spec fn with_delta(self, tool_call: Tree, reasoning: Option<Seq<char>>) -> Call {
        let function = members_in(tool_call.at("function"@));
        let call_id = match nonempty(text_in(tool_call.at("id"@))) {
            Some(id) => id,
            None => self.call_id,
        };
        let name = match function {
            Some(f) => match nonempty(text_at(f, "name"@)) {
                Some(n) => n,
                None => self.name,
            },
            None => self.name,
        };
        let arguments = match arguments_of(tool_call) {
            Some(a) => self.arguments + a,
            None => self.arguments,
        };
        let reasoning = match nonempty(reasoning) {
            Some(r) => if self.reasoning.len() == 0 {
                r
            } else {
                self.reasoning
            },
            None => self.reasoning,
        };
        Call { call_id, name, arguments, reasoning, ..self }
    }

    /// The call with the action that its arguments select, if they select one.
    pub open spec fn try_resolve(self, registry: Registry) -> Option<Call> {
        match nested_spec(registry, self.name) {
            Some(o) => {
                let (action, arguments) = resolved(o, self.arguments, parsed(self.arguments));
                match action {
                    Some(a) => Some(
                        Call {
                            namespace: o.namespace,
                            name: a,
                            arguments,
                            buffered: false,
                            resolved: true,
                            ..self
                        },
                    ),
                    None => None,
                }
            },
            None => None,
        }
    }

    /// The call as one to the namespace itself.
    pub open spec fn degraded(self, registry: Registry) -> Call {
        let free = Call { buffered: false, resolved: true, ..self };
        match nested_spec(registry, self.name) {
            Some(o) => Call {
                namespace: o.namespace,
                name: o.name,
                arguments: resolved(o, self.arguments, parsed(self.arguments)).1,
                ..free
            },
            None => free,
        }
    }

    /// The call once it is not held back any longer.
    pub open spec fn unbuffered(self, registry: Registry) -> Call {
        if !self.buffered || self.added {
            self
        } else {
            match self.try_resolve(registry) {
                Some(c) => c,
                None => self.degraded(registry),
            }
        }
    }

    /// The call with a call id, a name and an item id.
    pub open spec fn identified(self, kind: CallKind) -> Call {
        let call_id = if self.call_id.len() == 0 {
            self.spare_id
        } else {
            self.call_id
        };
        Call {
            call_id,
            name: if self.name.len() == 0 {
                "unknown_tool"@
            } else {
                self.name
            },
            item_id: if kind.is_custom {
                custom_tool_call_id(call_id)
            } else {
                function_call_id(call_id)
            },
            ..self
        }
    }

    /// The name and the namespace of the item.
    pub open spec fn names(self, kind: CallKind, registry: Registry) -> (
        Option<Seq<char>>,
        Option<Seq<char>>,
    ) {
        if kind.is_tool_search {
            (None, None)
        } else if kind.is_custom {
            (Some(self.name), None)
        } else if self.namespace is Some {
            (Some(self.name), self.namespace)
        } else {
            let (namespace, name) = registry.restored(self.name);
            if namespace is Some {
                (Some(name), namespace)
            } else {
                (Some(self.name), None)
            }
        }
    }

    /// What every item of the call holds at a status.
    pub open spec fn item_head(self, kind: CallKind, registry: Registry, status: Seq<char>) -> Map<
        Seq<char>,
        Tree,
    > {
        let (name, namespace) = self.names(kind, registry);
        with_text(
            with_text(
                Map::empty().insert("id"@, Tree::Str(self.item_id)).insert(
                    "type"@,
                    Tree::Str(kind.item_type()),
                ).insert("status"@, Tree::Str(status)).insert("call_id"@, Tree::Str(self.call_id)),
                "name"@,
                name,
            ),
            "namespace"@,
            namespace,
        )
    }

    /// An item of the call with its reasoning.
    pub open spec fn reasoned(self, item: Map<Seq<char>, Tree>) -> Tree {
        Tree::Object(with_text(item, "reasoning_content"@, nonempty(Some(self.reasoning))))
    }

    /// The item as it is first sent.
    pub open spec fn open_item(self, kind: CallKind, registry: Registry) -> Tree {
        let head = self.item_head(kind, registry, "in_progress"@);
        self.reasoned(
            if kind.is_tool_search {
                head.insert("execution"@, Tree::Str("client"@)).insert(
                    "arguments"@,
                    Tree::Object(Map::empty()),
                )
            } else if kind.is_custom {
                head.insert("input"@, Tree::Str(""@))
            } else {
                head.insert("arguments"@, Tree::Str(""@))
            },
        )
    }

    /// The arguments in canonical form.
    pub open spec fn canonical(self) -> Seq<char> {
        let value = Some(Tree::Str(self.arguments));
        canonical_arguments(value, denoted_arguments(value))
    }

    /// The input of a custom tool.
    pub open spec fn input(self) -> Seq<char> {
        custom_input(self.canonical(), parsed(self.canonical()))
    }

    /// The completed item.
    pub open spec fn done_item(self, kind: CallKind, registry: Registry) -> Tree {
        let head = self.item_head(kind, registry, "completed"@);
        self.reasoned(
            if kind.is_custom {
                head.insert("input"@, Tree::Str(self.input()))
            } else if kind.is_tool_search {
                head.insert("execution"@, Tree::Str("client"@)).insert(
                    "arguments"@,
                    search_arguments(self.canonical(), parsed(self.canonical())),
                )
            } else {
                head.insert("arguments"@, Tree::Str(self.canonical()))
            },
        )
    }

    /// The arguments that were not sent yet.
    pub open spec fn pending_arguments(self) -> Seq<char> {
        if self.arguments == self.sent_arguments {
            Seq::empty()
        } else if begins(self.arguments, self.sent_arguments) {
            self.arguments.skip(self.sent_arguments.len() as int)
        } else {
            self.arguments
        }
    }

    /// The deltas of the arguments that were not sent yet.
    pub open spec fn argument_events(self) -> Seq<Event> {
        chunk_events(
            chunks(self.pending_arguments()),
            self.item_id,
            index_or_zero(self.output_index),
        )
    }

    /// The call once all its arguments are sent.
    pub open spec fn arguments_sent(self) -> Call {
        Call { sent_arguments: self.arguments, ..self }
    }

    /// How much of the input that is known was sent before, and is its front.
    pub open spec fn input_front(self, known: Seq<char>) -> Seq<char> {
        if begins(known, self.sent_input) {
            self.sent_input
        } else {
            Seq::empty()
        }
    }

    /// The delta of the input that is known by now and was not sent yet.
    pub open spec fn input_events(self) -> Seq<Event> {
        match partial_input(self.arguments) {
            Some(known) => {
                let delta = known.skip(self.input_front(known).len() as int);
                if known == self.sent_input || delta.len() == 0 {
                    Seq::empty()
                } else {
                    seq![input_delta(self.item_id, index_or_zero(self.output_index), delta)]
                }
            },
            None => Seq::empty(),
        }
    }

    /// The call once the input that is known is sent.
    pub open spec fn input_sent(self) -> Call {
        match partial_input(self.arguments) {
            Some(known) => {
                let delta = known.skip(self.input_front(known).len() as int);
                Call {
                    sent_input: if known == self.sent_input {
                        self.sent_input
                    } else if delta.len() == 0 {
                        self.input_front(known)
                    } else {
                        known
                    },
                    ..self
                }
            },
            None => self,
        }
    }
}

/// The upstream index of a delta.
pub open spec fn index_of(tool_call: Tree) -> int {
    match int_in(tool_call.at("index"@)) {
        Some(i) => i,
        None => 0,
    }
}

/// The arguments that a delta carries.
pub open spec fn arguments_of(tool_call: Tree) -> Option<Seq<char>> {
    match members_in(tool_call.at("function"@)) {
        Some(f) => nonempty(text_at(f, "arguments"@)),
        None => None,
    }
}

impl ToolCallState {
    /// A call of which nothing is known. `spare_id` is its call id if it comes
    /// without one.
    fn blank(spare_id: &str) -> (r: ToolCallState)
        ensures
            r@ == Call::blank(spare_id@),
    {
        ToolCallState {
            output_index: None,
            item_id: String::new(),
            call_id: String::new(),
            name: String::new(),
            namespace: None,
            arguments: String::new(),
            added: false,
            done: false,
            reasoning_content: String::new(),
            emitted_custom_input: String::new(),
            emitted_arguments: String::new(),
            nested_buffered: false,
            nested_resolved: false,
            spare_id: spare_id.to_owned(),
        }
    }

    fn has_identity(&self) -> (r: bool)
        ensures
            r == self@.has_identity(),
    {
        !self.call_id.as_str().is_empty() || !self.name.as_str().is_empty()
    }

    fn index_or_zero(&self) -> (r: i64)
        ensures
            r == index_or_zero(self@.output_index),
    {
        match self.output_index {
            Some(i) => i,
            None => 0,
        }
    }

    /// Take in a delta, and say which arguments it carries.
    fn apply_tool_call_delta(&mut self, tool_call: &Json, reasoning: Option<&str>) -> (r: Option<
        String,
    >)
        ensures
            final(self)@ == old(self)@.with_delta(tool_call@, opt_text(reasoning)),
            opt_string(r) == arguments_of(tool_call@),
    {
        if let Some(id) = nonempty_text(tool_call.get_str("id")) {
            self.call_id = id.to_owned();
        }
        if let Some(r) = nonempty_text(reasoning) {
            if self.reasoning_content.as_str().is_empty() {
                self.reasoning_content = r.to_owned();
            }
        }
        if let Some(Json::Object(function)) = tool_call.get("function") {
            if let Some(name) = nonempty_text(function.get_str("name")) {
                self.name = name.to_owned();
            }
            if let Some(arguments) = nonempty_text(function.get_str("arguments")) {
                self.arguments.push_str(arguments);
                return Some(arguments.to_owned());
            }
        }
        None
    }
}

/// A call that is at work, and the output index from which all calls count.
#[verifier::ext_equal]
pub ghost struct Slot {
    pub call: Call,
    pub base: Option<int>,
}

/// A step of a call that has done nothing yet.
pub open spec fn at_work(call: Call, base: Option<int>, e: Envelope) -> Step<Slot> {
    idle(Slot { call, base }, e)
}

/// The step with the call replaced.
pub open spec fn with_call(s: Step<Slot>, call: Call) -> Step<Slot> {
    Step { state: Slot { call, ..s.state }, ..s }
}

/// Then send events.
pub open spec fn sending(s: Step<Slot>, more: Seq<Event>) -> Step<Slot> {
    Step { events: s.events + more, ..s }
}

/// Then claim the output index of the call: its upstream index, counted from the
/// base. The first claim of a turn sets the base.
pub open spec fn claimed(s: Step<Slot>, index: int) -> Step<Slot> {
    let call = s.state.call;
    if call.output_index is Some {
        s
    } else {
        let base = match s.state.base {
            Some(b) => b,
            None => s.envelope.next,
        };
        let at = wrapped(base + index);
        Step {
            state: Slot {
                call: Call { output_index: Some(at), ..call },
                base: Some(base),
            },
            envelope: s.envelope.advanced(wrapped(at + 1)),
            ..s
        }
    }
}

/// Then open the item of the call, unless that was done.
pub open spec fn opened(s: Step<Slot>, registry: Registry, index: int) -> Step<Slot> {
    let call = s.state.call;
    let kind = kind_of(registry, call.name);
    if call.added {
        s
    } else {
        let t = claimed(with_call(s, Call { added: true, ..call }.identified(kind)), index);
        sending(
            t,
            seq![
                item_added(
                    index_or_zero(t.state.call.output_index),
                    t.state.call.open_item(kind, registry),
                ),
            ],
        )
    }
}

/// Then send the arguments that were not sent yet.
pub open spec fn with_arguments(s: Step<Slot>) -> Step<Slot> {
    sending(with_call(s, s.state.call.arguments_sent()), s.state.call.argument_events())
}

/// Then send the input that is known and was not sent yet.
pub open spec fn with_input(s: Step<Slot>) -> Step<Slot> {
    sending(with_call(s, s.state.call.input_sent()), s.state.call.input_events())
}

/// Then hold the call back, if it calls a nested namespace and was not held back
/// before.
pub open spec fn maybe_held(s: Step<Slot>, registry: Registry, index: int) -> Step<Slot> {
    let call = s.state.call;
    if !call.added && !call.buffered && !call.resolved && nested_spec(registry, call.name) is Some {
        let t = claimed(s, index);
        with_call(t, Call { buffered: true, ..t.state.call })
    } else {
        s
    }
}

/// Then go on with a call that is held back: it is released once its arguments
/// select an action, or once they are too long to wait any longer.
pub open spec fn held_step(s: Step<Slot>, registry: Registry, index: int) -> Step<Slot> {
    let call = s.state.call;
    match call.try_resolve(registry) {
        Some(c) => {
            let t = opened(with_call(s, c), registry, index);
            if call.added || kind_of(registry, c.name).is_custom {
                t
            } else {
                with_arguments(t)
            }
        },
        None => if byte_len(call.arguments) > NAMESPACE_BUFFER_MAX_BYTES {
            with_arguments(opened(with_call(s, call.degraded(registry)), registry, index))
        } else {
            s
        },
    }
}

/// What a delta does once the call has taken it in.
pub open spec fn delta_step(
    s: Step<Slot>,
    registry: Registry,
    index: int,
    arguments: Option<Seq<char>>,
) -> Step<Slot> {
    let call = s.state.call;
    let opens = !call.added && call.has_identity();
    let t = if opens {
        maybe_held(s, registry, index)
    } else {
        s
    };
    if t.state.call.buffered {
        held_step(t, registry, index)
    } else if !call.has_identity() {
        t
    } else {
        let o = opened(t, registry, index);
        if kind_of(registry, call.name).is_custom {
            with_input(o)
        } else if opens {
            with_arguments(o)
        } else {
            match arguments {
                Some(a) => sending(
                    o,
                    seq![
                        arguments_delta(
                            o.state.call.item_id,
                            index_or_zero(o.state.call.output_index),
                            a,
                        ),
                    ],
                ),
                None => o,
            }
        }
    }
}

/// The end of what a custom tool gets as input, which was not sent yet.
pub open spec fn input_rest(sent: Seq<char>, input: Seq<char>) -> Seq<char> {
    if begins(input, sent) {
        input.skip(sent.len() as int)
    } else {
        input
    }
}

/// The events that close the item of a call.
pub open spec fn closing_events(call: Call, kind: CallKind, item: Tree) -> Seq<Event> {
    let at = index_or_zero(call.output_index);
    if kind.is_custom {
        let rest = input_rest(call.sent_input, call.input());
        let tail = seq![input_done(call.item_id, at, call.input()), item_done(at, item)];
        if call.input() == call.sent_input || rest.len() == 0 {
            tail
        } else {
            seq![input_delta(call.item_id, at, rest)] + tail
        }
    } else {
        seq![arguments_done(call.item_id, at, call.canonical()), item_done(at, item)]
    }
}

/// What closing a call does: it is released and opened if need be, what was not
/// sent yet is sent, and the completed item is handed to the envelope. A call that has
/// neither a call id nor a name was never opened, and leaves nothing behind.
pub open spec fn close_step(s: Step<Slot>, registry: Registry, index: int) -> Step<Slot> {
    let free = with_call(s, s.state.call.unbuffered(registry));
    if !free.state.call.added && !free.state.call.has_identity() {
        with_call(free, Call { done: true, ..free.state.call })
    } else {
        close_opened(opened(free, registry, index), registry)
    }
}

/// What closing a call does once it is open.
pub open spec fn close_opened(o: Step<Slot>, registry: Registry) -> Step<Slot> {
    let kind = kind_of(registry, o.state.call.name);
    let t = if kind.is_custom {
        o
    } else {
        with_arguments(o)
    };
    let call = t.state.call;
    let item = call.done_item(kind, registry);
    let done = Call {
        done: true,
        sent_input: if kind.is_custom {
            call.input()
        } else {
            call.sent_input
        },
        ..call
    };
    Step {
        state: Slot { call: done, ..t.state },
        envelope: t.envelope.with_item(index_or_zero(call.output_index), item),
        events: t.events + closing_events(call, kind, item),
    }
}

fn resolve_tool_kind(ctx: &BridgeToolContext, name: &str) -> (r: CallKind)
    ensures
        r == kind_of(ctx@, name@),
{
    let known = nonempty_text(Some(name));
    CallKind { is_custom: ctx.is_custom_tool(known), is_tool_search: ctx.is_tool_search(known) }
}

fn nested_namespace_spec<'a>(ctx: &'a BridgeToolContext, name: &str) -> (r: Option<&'a ToolSpec>)
    ensures
        crate::context::opt_origin(r) == nested_spec(ctx@, name@),
{
    if name.is_empty() {
        return None;
    }
    match ctx.lookup_chat_name(Some(name)) {
        Some(spec) => if spec.is_nested_namespace() {
            Some(spec)
        } else {
            None
        },
        None => None,
    }
}

/// Cut a text into pieces that are as long as one delta may carry.
pub fn argument_chunks(s: &str) -> (r: Vec<String>)
    ensures
        crate::text::texts(r@) == chunks(s@),
{
    broadcast use crate::text::lemma_texts_push;

    let v = chars_of(s);
    let total: usize = v.len();
    let mut out: Vec<String> = Vec::new();
    let mut start: usize = 0;
    assert(v@.skip(0) =~= v@);
    assert(crate::text::texts(out@) + chunks(v@) =~= chunks(v@));
    while start < total
        invariant
            start <= total,
            total == v@.len(),
            crate::text::texts(out@) + chunks(v@.skip(start as int)) == chunks(v@),
        decreases total - start,
    {
        let ghost rest = v@.skip(start as int);
        let mut end: usize = start;
        let mut room: usize = ARGUMENTS_CHUNK_SIZE;
        assert(rest.skip(0) =~= rest);
        while end < total && char_width(v[end]) <= room
            invariant
                start <= end <= total,
                total == v@.len(),
                rest == v@.skip(start as int),
                room <= ARGUMENTS_CHUNK_SIZE,
                end == start ==> room == ARGUMENTS_CHUNK_SIZE,
                fitting(rest, ARGUMENTS_CHUNK_SIZE as int) == end - start + fitting(
                    rest.skip(end - start),
                    room as int,
                ),
            decreases total - end,
        {
            let ghost here = rest.skip(end - start);
            assert(here[0] == v@[end as int]);
            assert(here.drop_first() =~= rest.skip(end + 1 - start));
            room -= char_width(v[end]);
            end += 1;
        }
        proof {
            let here = rest.skip(end - start);
            if end < total {
                assert(here[0] == v@[end as int]);
            }
            assert(fitting(here, room as int) == 0);
            if end == start {
                crate::utf8::lemma_scalar_len(v@[end as int]);
            }
        }
        let piece = text_of(&v, start, end);
        proof {
            assert(piece@ =~= rest.take(end - start));
            assert(rest.skip(end - start) =~= v@.skip(end as int));
            assert(crate::text::texts(out@) + chunks(rest) =~= crate::text::texts(out@).push(
                piece@,
            ) + chunks(v@.skip(end as int)));
        }
        out.push(piece);
        start = end;
    }
    assert(v@.skip(start as int) =~= Seq::<char>::empty());
    assert(crate::text::texts(out@) + chunks(Seq::<char>::empty()) =~= crate::text::texts(out@));
    out
}

impl ToolCallState {
    /// Select the action that the arguments name, if they name one.
    fn try_resolve_nested_buffer(&mut self, ctx: &BridgeToolContext) -> (r: bool)
        ensures
            match old(self)@.try_resolve(ctx@) {
                Some(c) => r && final(self)@ == c,
                None => !r && final(self)@ == old(self)@,
            },
    {
        match nested_namespace_spec(ctx, self.name.as_str()) {
            Some(spec) => {
                let found = resolve_nested_namespace_arguments(spec, self.arguments.as_str());
                match found.action_name {
                    Some(action) => {
                        self.namespace = clone_opt(&spec.namespace);
                        self.name = action;
                        self.arguments = found.normalized_arguments;
                        self.nested_buffered = false;
                        self.nested_resolved = true;
                        true
                    },
                    None => false,
                }
            },
            None => false,
        }
    }

    /// Take the call as one to the namespace itself.
    fn degrade_buffered_namespace(&mut self, ctx: &BridgeToolContext)
        ensures
            final(self)@ == old(self)@.degraded(ctx@),
    {
        if let Some(spec) = nested_namespace_spec(ctx, self.name.as_str()) {
            let found = resolve_nested_namespace_arguments(spec, self.arguments.as_str());
            self.namespace = clone_opt(&spec.namespace);
            self.name = spec.name.clone();
            self.arguments = found.normalized_arguments;
        }
        self.nested_buffered = false;
        self.nested_resolved = true;
    }

    /// Release the call if it is held back.
    fn flush_buffered_nested_state(&mut self, ctx: &BridgeToolContext)
        ensures
            final(self)@ == old(self)@.unbuffered(ctx@),
    {
        if !self.nested_buffered || self.added {
            return;
        }
        if self.try_resolve_nested_buffer(ctx) {
            return;
        }
        self.degrade_buffered_namespace(ctx);
    }

    /// Give the call a call id, a name and an item id.
    fn ensure_tool_identity(&mut self, kind: CallKind)
        ensures
            final(self)@ == old(self)@.identified(kind),
    {
        if self.call_id.as_str().is_empty() {
            self.call_id = self.spare_id.clone();
        }
        if self.name.as_str().is_empty() {
            self.name = "unknown_tool".to_owned();
        }
        self.item_id = if kind.is_custom {
            custom_tool_call_item_id(self.call_id.as_str())
        } else {
            function_call_item_id(self.call_id.as_str())
        };
    }

    fn response_name_and_namespace(&self, kind: CallKind, ctx: &BridgeToolContext) -> (r: (
        Option<String>,
        Option<String>,
    ))
        ensures
            (opt_string(r.0), opt_string(r.1)) == self@.names(kind, ctx@),
    {
        if kind.is_tool_search {
            return (None, None);
        }
        if kind.is_custom {
            return (Some(self.name.clone()), None);
        }
        if let Some(ns) = &self.namespace {
            return (Some(self.name.clone()), Some(ns.clone()));
        }
        let (namespace, restored) = ctx.restore_namespace_and_name(self.name.as_str());
        match namespace {
            Some(ns) => (Some(restored), Some(ns)),
            None => (Some(self.name.clone()), None),
        }
    }

    fn make_item_head(&self, kind: CallKind, ctx: &BridgeToolContext, status: &str) -> (r: Object)
        ensures
            r@ == self@.item_head(kind, ctx@, status@),
    {
        let (name, namespace) = self.response_name_and_namespace(kind, ctx);
        let mut map = Object::new().with("id", Json::text(self.item_id.as_str())).with(
            "type",
            Json::text(kind.response_item_type()),
        ).with("status", Json::text(status)).with("call_id", Json::text(self.call_id.as_str()));
        if let Some(name) = name {
            map.insert("name", Json::Str(name));
        }
        if let Some(namespace) = namespace {
            map.insert("namespace", Json::Str(namespace));
        }
        map
    }

    fn with_reasoning_content(&self, item: Object) -> (r: Json)
        ensures
            r@ == self@.reasoned(item@),
    {
        let mut full = item;
        if !self.reasoning_content.as_str().is_empty() {
            full.insert("reasoning_content", Json::text(self.reasoning_content.as_str()));
        }
        assert(full@ =~= with_text(item@, "reasoning_content"@, nonempty(Some(self@.reasoning))));
        Json::Object(full)
    }

    /// The item as it is first sent.
    fn build_in_progress_item(&self, kind: CallKind, ctx: &BridgeToolContext) -> (r: Json)
        ensures
            r@ == self@.open_item(kind, ctx@),
    {
        let head = self.make_item_head(kind, ctx, "in_progress");
        let item = if kind.is_tool_search {
            head.with("execution", Json::text("client")).with(
                "arguments",
                Json::Object(Object::new()),
            )
        } else if kind.is_custom {
            head.with("input", Json::text(""))
        } else {
            head.with("arguments", Json::text(""))
        };
        self.with_reasoning_content(item)
    }

    /// The completed item, its arguments in canonical form, and the input of a
    /// custom tool.
    fn build_completed_item(&self, kind: CallKind, ctx: &BridgeToolContext) -> (r: (
        Json,
        String,
        String,
    ))
        ensures
            r.0@ == self@.done_item(kind, ctx@),
            r.1@ == self@.canonical(),
            kind.is_custom ==> r.2@ == self@.input(),
    {
        let value = Json::text(self.arguments.as_str());
        let arguments = canonicalize_tool_arguments(Some(&value));
        let head = self.make_item_head(kind, ctx, "completed");
        let mut input = String::new();
        let item = if kind.is_custom {
            input = custom_tool_input_from_chat_arguments(arguments.as_str());
            head.with("input", Json::text(input.as_str()))
        } else if kind.is_tool_search {
            head.with("execution", Json::text("client")).with(
                "arguments",
                parse_tool_arguments_object(arguments.as_str()),
            )
        } else {
            head.with("arguments", Json::text(arguments.as_str()))
        };
        (self.with_reasoning_content(item), arguments, input)
    }

    /// Send the arguments that were not sent yet, in pieces.
    pub fn emit_arguments_incremental(&mut self) -> (r: Vec<Vec<u8>>)
        ensures
            final(self)@ == old(self)@.arguments_sent(),
            frames(r@) == wires(old(self)@.argument_events()),
    {
        let ghost call = self@;
        let pending = if same(self.arguments.as_str(), self.emitted_arguments.as_str()) {
            String::new()
        } else if starts(self.arguments.as_str(), self.emitted_arguments.as_str()) {
            let sent = chars_of(self.emitted_arguments.as_str());
            after(self.arguments.as_str(), sent.len())
        } else {
            self.arguments.clone()
        };
        assert(pending@ =~= call.pending_arguments());
        let index = self.index_or_zero();
        let pieces = argument_chunks(pending.as_str());
        let ghost all = chunk_events(chunks(pending@), call.item_id, index as int);
        let mut events = nothing();
        let mut i: usize = 0;
        assert(all.take(0) =~= Seq::empty());
        while i < pieces.len()
            invariant
                i <= pieces@.len(),
                self@ == call,
                crate::text::texts(pieces@) == chunks(pending@),
                all == chunk_events(chunks(pending@), call.item_id, index as int),
                frames(events@) == wires(all.take(i as int)),
            decreases pieces.len() - i,
        {
            assert(chunks(pending@)[i as int] == pieces@[i as int]@);
            assert(all.take(i as int + 1) =~= all.take(i as int).push(all[i as int]));
            events.push(
                stream_events::function_arguments_delta(
                    self.item_id.as_str(),
                    index,
                    pieces[i].as_str(),
                ),
            );
            i += 1;
        }
        assert(all.take(i as int) =~= all);
        self.emitted_arguments = self.arguments.clone();
        events
    }

    /// Send the input that is known by now and was not sent yet.
    fn emit_custom_input_delta_events(&mut self) -> (r: Vec<Vec<u8>>)
        ensures
            final(self)@ == old(self)@.input_sent(),
            frames(r@) == wires(old(self)@.input_events()),
    {
        let ghost call = self@;
        let known = match partial_custom_tool_input_from_chat_arguments(self.arguments.as_str()) {
            Some(known) => known,
            None => {
                return nothing();
            },
        };
        if same(known.as_str(), self.emitted_custom_input.as_str()) {
            return nothing();
        }
        if !starts(known.as_str(), self.emitted_custom_input.as_str()) {
            self.emitted_custom_input = String::new();
        }
        let sent = chars_of(self.emitted_custom_input.as_str());
        assert(sent@ == call.input_front(known@));
        let delta = after(known.as_str(), sent.len());
        if delta.as_str().is_empty() {
            return nothing();
        }
        let index = self.index_or_zero();
        self.emitted_custom_input = known;
        let events = single(
            stream_events::custom_input_delta(self.item_id.as_str(), index, delta.as_str()),
        );
        assert(frames(events@) =~= wires(call.input_events()));
        events
    }

    /// Claim the output index of the call.
    fn ensure_output_index(
        &mut self,
        base: &mut Option<i64>,
        envelope: &mut ResponseEnvelopeState,
        index: i64,
    )
        ensures
            ({
                let s = claimed(
                    at_work(old(self)@, opt_int(*old(base)), old(envelope)@),
                    index as int,
                );
                &&& final(self)@ == s.state.call
                &&& opt_int(*final(base)) == s.state.base
                &&& final(envelope)@ == s.envelope
            }),
    {
        if self.output_index.is_some() {
            return;
        }
        let first: i64 = match *base {
            Some(b) => b,
            None => envelope.peek_next_output_index(),
        };
        *base = Some(first);
        let at: i64 = first.wrapping_add(index);
        envelope.advance_output_index_to(at.wrapping_add(1));
        self.output_index = Some(at);
    }

    /// Open the item of the call, unless that was done.
    fn ensure_added(
        &mut self,
        base: &mut Option<i64>,
        envelope: &mut ResponseEnvelopeState,
        ctx: &BridgeToolContext,
        index: i64,
    ) -> (r: Vec<Vec<u8>>)
        ensures
            ({
                let s = opened(
                    at_work(old(self)@, opt_int(*old(base)), old(envelope)@),
                    ctx@,
                    index as int,
                );
                &&& final(self)@ == s.state.call
                &&& opt_int(*final(base)) == s.state.base
                &&& final(envelope)@ == s.envelope
                &&& frames(r@) == wires(s.events)
            }),
    {
        if self.added {
            return nothing();
        }
        let kind = resolve_tool_kind(ctx, self.name.as_str());
        self.added = true;
        self.ensure_tool_identity(kind);
        let ghost named = self@;
        self.ensure_output_index(base, envelope, index);
        let item = self.build_in_progress_item(kind, ctx);
        let events = single(stream_events::output_item_added(self.index_or_zero(), item));
        proof {
            let s = at_work(old(self)@, opt_int(*old(base)), old(envelope)@);
            let t = claimed(with_call(s, named), index as int);
            assert(with_call(s, named) == at_work(named, s.state.base, s.envelope));
            assert(frames(events@) =~= wires(opened(s, ctx@, index as int).events));
        }
        events
    }

    /// Hold the call back, if it calls a nested namespace and was not held back
    /// before.
    fn maybe_start_nested_buffer(
        &mut self,
        base: &mut Option<i64>,
        envelope: &mut ResponseEnvelopeState,
        ctx: &BridgeToolContext,
        index: i64,
    )
        ensures
            ({
                let s = maybe_held(
                    at_work(old(self)@, opt_int(*old(base)), old(envelope)@),
                    ctx@,
                    index as int,
                );
                &&& final(self)@ == s.state.call
                &&& opt_int(*final(base)) == s.state.base
                &&& final(envelope)@ == s.envelope
                &&& s.events == Seq::<Event>::empty()
            }),
    {
        if self.added || self.nested_buffered || self.nested_resolved {
            return;
        }
        if nested_namespace_spec(ctx, self.name.as_str()).is_some() {
            self.ensure_output_index(base, envelope, index);
            self.nested_buffered = true;
        }
    }

    /// Go on with a call that is held back.
    fn emit_buffered_nested_events(
        &mut self,
        base: &mut Option<i64>,
        envelope: &mut ResponseEnvelopeState,
        ctx: &BridgeToolContext,
        index: i64,
    ) -> (r: Vec<Vec<u8>>)
        ensures
            ({
                let s = held_step(
                    at_work(old(self)@, opt_int(*old(base)), old(envelope)@),
                    ctx@,
                    index as int,
                );
                &&& final(self)@ == s.state.call
                &&& opt_int(*final(base)) == s.state.base
                &&& final(envelope)@ == s.envelope
                &&& frames(r@) == wires(s.events)
            }),
    {
        let ghost s = at_work(old(self)@, opt_int(*old(base)), old(envelope)@);
        let was_added = self.added;
        if self.try_resolve_nested_buffer(ctx) {
            let ghost c = self@;
            let kind = resolve_tool_kind(ctx, self.name.as_str());
            assert(with_call(s, c) == at_work(c, s.state.base, s.envelope));
            let mut events = self.ensure_added(base, envelope, ctx, index);
            if !was_added && !kind.is_custom {
                stream_events::extend(&mut events, self.emit_arguments_incremental());
            }
            return events;
        }
        let size: usize = self.arguments.as_str().as_bytes().len();
        if size > NAMESPACE_BUFFER_MAX_BYTES {
            self.degrade_buffered_namespace(ctx);
            let ghost c = self@;
            assert(with_call(s, c) == at_work(c, s.state.base, s.envelope));
            let mut events = self.ensure_added(base, envelope, ctx, index);
            stream_events::extend(&mut events, self.emit_arguments_incremental());
            return events;
        }
        nothing()
    }

    /// Send what a delta brings once the call has taken it in.
    fn advance(
        &mut self,
        base: &mut Option<i64>,
        envelope: &mut ResponseEnvelopeState,
        ctx: &BridgeToolContext,
        index: i64,
        arguments: Option<String>,
    ) -> (r: Vec<Vec<u8>>)
        ensures
            ({
                let s = delta_step(
                    at_work(old(self)@, opt_int(*old(base)), old(envelope)@),
                    ctx@,
                    index as int,
                    opt_string(arguments),
                );
                &&& final(self)@ == s.state.call
                &&& opt_int(*final(base)) == s.state.base
                &&& final(envelope)@ == s.envelope
                &&& frames(r@) == wires(s.events)
            }),
    {
        let ghost s = at_work(old(self)@, opt_int(*old(base)), old(envelope)@);
        let identified = self.has_identity();
        let opens = !self.added && identified;
        if opens {
            self.maybe_start_nested_buffer(base, envelope, ctx, index);
        }
        let ghost t = if opens {
            maybe_held(s, ctx@, index as int)
        } else {
            s
        };
        assert(t == at_work(self@, opt_int(*base), envelope@));
        if self.nested_buffered {
            return self.emit_buffered_nested_events(base, envelope, ctx, index);
        }
        if !identified {
            return nothing();
        }
        let kind = resolve_tool_kind(ctx, self.name.as_str());
        let mut events = self.ensure_added(base, envelope, ctx, index);
        if kind.is_custom {
            stream_events::extend(&mut events, self.emit_custom_input_delta_events());
        } else if opens {
            stream_events::extend(&mut events, self.emit_arguments_incremental());
        } else if let Some(a) = arguments {
            let more = single(
                stream_events::function_arguments_delta(
                    self.item_id.as_str(),
                    self.index_or_zero(),
                    a.as_str(),
                ),
            );
            assert(frames(more@) =~= wires(
                seq![
                    arguments_delta(self@.item_id, index_or_zero(self@.output_index), a@),
                ],
            ));
            stream_events::extend(&mut events, more);
        }
        events
    }

    /// The events that close the item of the call, which is then done.
    fn emit_closing_events(&mut self, kind: CallKind, item: &Json, arguments: &str, input: &str) -> (
    r: Vec<Vec<u8>>)
        requires
            arguments@ == old(self)@.canonical(),
            kind.is_custom ==> input@ == old(self)@.input(),
        ensures
            frames(r@) == wires(closing_events(old(self)@, kind, item@)),
            final(self)@ == (Call {
                done: true,
                sent_input: if kind.is_custom {
                    old(self)@.input()
                } else {
                    old(self)@.sent_input
                },
                ..old(self)@
            }),
    {
        let ghost call = self@;
        let index = self.index_or_zero();
        let mut events = nothing();
        assert(frames(events@) =~= Seq::empty());
        self.done = true;
        if kind.is_custom {
            if !same(input, self.emitted_custom_input.as_str()) {
                let rest = if starts(input, self.emitted_custom_input.as_str()) {
                    let sent = chars_of(self.emitted_custom_input.as_str());
                    after(input, sent.len())
                } else {
                    input.to_owned()
                };
                if !rest.as_str().is_empty() {
                    events.push(
                        stream_events::custom_input_delta(
                            self.item_id.as_str(),
                            index,
                            rest.as_str(),
                        ),
                    );
                }
                self.emitted_custom_input = input.to_owned();
            }
            events.push(stream_events::custom_input_done(self.item_id.as_str(), index, input));
        } else {
            events.push(
                stream_events::function_arguments_done(self.item_id.as_str(), index, arguments),
            );
        }
        events.push(stream_events::output_item_done(index, item.clone()));
        assert(frames(events@) =~= wires(closing_events(call, kind, item@)));
        events
    }

    /// Close the call.
    fn finalize_state(
        &mut self,
        base: &mut Option<i64>,
        envelope: &mut ResponseEnvelopeState,
        ctx: &BridgeToolContext,
        index: i64,
    ) -> (r: Vec<Vec<u8>>)
        ensures
            ({
                let s = close_step(
                    at_work(old(self)@, opt_int(*old(base)), old(envelope)@),
                    ctx@,
                    index as int,
                );
                &&& final(self)@ == s.state.call
                &&& opt_int(*final(base)) == s.state.base
                &&& final(envelope)@ == s.envelope
                &&& frames(r@) == wires(s.events)
            }),
    {
        let ghost s = at_work(old(self)@, opt_int(*old(base)), old(envelope)@);
        self.flush_buffered_nested_state(ctx);
        let ghost free = with_call(s, self@);
        assert(free == at_work(self@, s.state.base, s.envelope));
        if !self.added && !self.has_identity() {
            self.done = true;
            return nothing();
        }
        let mut events = self.ensure_added(base, envelope, ctx, index);
        let kind = resolve_tool_kind(ctx, self.name.as_str());
        if !kind.is_custom {
            stream_events::extend(&mut events, self.emit_arguments_incremental());
        }
        let (item, arguments, input) = self.build_completed_item(kind, ctx);
        let at = self.index_or_zero();
        stream_events::extend(
            &mut events,
            self.emit_closing_events(kind, &item, arguments.as_str(), input.as_str()),
        );
        envelope.append_completed_item(at, item);
        events
    }
}

/// The tool calls of a turn.
#[derive(Debug)]
pub struct ToolStateStore {
    tool_context: BridgeToolContext,
    tool_calls: Vec<(i64, ToolCallState)>,
    finalized: bool,
    tool_output_base: Option<i64>,
}

/// The model of the tool calls of a turn: the registry, the calls under their
/// upstream indices in ascending order, whether the turn is over, and the output
/// index from which the calls count.
#[verifier::ext_equal]
pub ghost struct Tools {
    pub registry: Registry,
    pub calls: Seq<(int, Call)>,
    pub finalized: bool,
    pub base: Option<int>,
}

/// The models of calls.
spec fn call_models(s: Seq<(i64, ToolCallState)>) -> Seq<(int, Call)> {
    s.map_values(|e: (i64, ToolCallState)| (e.0 as int, e.1@))
}

impl View for ToolStateStore {
    type V = Tools;

    closed spec fn view(&self) -> Tools {
        Tools {
            registry: self.tool_context@,
            calls: call_models(self.tool_calls@),
            finalized: self.finalized,
            base: opt_int(self.tool_output_base),
        }
    }
}

/// The first position from `from` on that an upstream index does not exceed.
pub open spec fn place_from(calls: Seq<(int, Call)>, index: int, from: int) -> int
    decreases calls.len() - from,
{
    if from >= calls.len() || calls[from].0 >= index {
        from
    } else {
        place_from(calls, index, from + 1)
    }
}

/// Where a call stands, or would stand, among the others.
pub open spec fn place(calls: Seq<(int, Call)>, index: int) -> int {
    place_from(calls, index, 0)
}

/// Whether there is a call with an upstream index.
pub open spec fn has_call(calls: Seq<(int, Call)>, index: int) -> bool {
    place(calls, index) < calls.len() && calls[place(calls, index)].0 == index
}

/// The call with an upstream index, or a blank one.
pub open spec fn call_at(calls: Seq<(int, Call)>, index: int, spare_id: Seq<char>) -> Call {
    if has_call(calls, index) {
        calls[place(calls, index)].1
    } else {
        Call::blank(spare_id)
    }
}

/// The calls with one of them replaced or added.
pub open spec fn put_call(calls: Seq<(int, Call)>, index: int, call: Call) -> Seq<(int, Call)> {
    if has_call(calls, index) {
        calls.update(place(calls, index), (index, call))
    } else {
        calls.insert(place(calls, index), (index, call))
    }
}

/// The Chat form of a call.
pub open spec fn chat_call(call: Call) -> Tree {
    function_call(
        if call.call_id.len() == 0 {
            call.spare_id
        } else {
            call.call_id
        },
        call.name,
        sanitized(call.arguments),
    )
}

/// The Chat forms of the calls that have a name.
pub open spec fn chat_calls(calls: Seq<(int, Call)>) -> Seq<Tree>
    decreases calls.len(),
{
    if calls.len() == 0 {
        Seq::empty()
    } else {
        let before = chat_calls(calls.drop_last());
        if calls.last().1.name.len() == 0 {
            before
        } else {
            before.push(chat_call(calls.last().1))
        }
    }
}

impl Tools {
    /// No calls yet.
    pub open spec fn none(registry: Registry) -> Tools {
        Tools { registry, calls: Seq::empty(), finalized: false, base: None }
    }

    /// Take in a delta. `spare_id` is the call id of a call that comes without one.
    pub open spec fn push(
        self,
        e: Envelope,
        tool_call: Tree,
        reasoning: Option<Seq<char>>,
        spare_id: Seq<char>,
    ) -> Step<Tools> {
        if self.finalized {
            idle(self, e)
        } else {
            let index = index_of(tool_call);
            let call = call_at(self.calls, index, spare_id).with_delta(tool_call, reasoning);
            let s = delta_step(
                at_work(call, self.base, e),
                self.registry,
                index,
                arguments_of(tool_call),
            );
            Step {
                state: Tools {
                    calls: put_call(self.calls, index, s.state.call),
                    base: s.state.base,
                    ..self
                },
                envelope: s.envelope,
                events: s.events,
            }
        }
    }

    /// Close the first `n` calls.
    pub open spec fn close_first(self, e: Envelope, n: int) -> Step<Tools>
        decreases n,
    {
        if n <= 0 {
            idle(self, e)
        } else {
            let before = self.close_first(e, n - 1);
            let t = before.state;
            let (index, call) = t.calls[n - 1];
            if call.done {
                before
            } else {
                let s = close_step(at_work(call, t.base, before.envelope), t.registry, index);
                Step {
                    state: Tools {
                        calls: t.calls.update(n - 1, (index, s.state.call)),
                        base: s.state.base,
                        ..t
                    },
                    envelope: s.envelope,
                    events: before.events + s.events,
                }
            }
        }
    }

    /// Close all calls, once.
    pub open spec fn close(self, e: Envelope) -> Step<Tools> {
        if self.finalized {
            idle(self, e)
        } else {
            Tools { finalized: true, ..self }.close_first(e, self.calls.len() as int)
        }
    }
}

impl ToolStateStore {
    /// No calls yet.
    pub fn new(tool_context: BridgeToolContext) -> (r: ToolStateStore)
        ensures
            r@ == Tools::none(tool_context@),
    {
        let r = ToolStateStore {
            tool_context,
            tool_calls: Vec::new(),
            finalized: false,
            tool_output_base: None,
        };
        assert(r@.calls =~= Seq::empty());
        r
    }

    fn find_place(&self, index: i64) -> (r: usize)
        ensures
            r == place(self@.calls, index as int),
            r <= self@.calls.len(),
    {
        let mut i: usize = 0;
        while i < self.tool_calls.len() && self.tool_calls[i].0 < index
            invariant
                i <= self.tool_calls@.len(),
                self@.calls == call_models(self.tool_calls@),
                place(self@.calls, index as int) == place_from(
                    self@.calls,
                    index as int,
                    i as int,
                ),
            decreases self.tool_calls.len() - i,
        {
            assert(self@.calls[i as int].0 == self.tool_calls@[i as int].0);
            i += 1;
        }
        if i < self.tool_calls.len() {
            assert(self@.calls[i as int].0 == self.tool_calls@[i as int].0);
        }
        i
    }

    /// Take in a delta and send what it brings. `spare_id` is the call id of a call
    /// that comes without one.
    pub fn push_delta_with(
        &mut self,
        envelope: &mut ResponseEnvelopeState,
        tool_call: &Json,
        reasoning: Option<&str>,
        spare_id: &str,
    ) -> (r: Vec<Vec<u8>>)
        ensures
            ({
                let s = old(self)@.push(
                    old(envelope)@,
                    tool_call@,
                    opt_text(reasoning),
                    spare_id@,
                );
                &&& final(self)@ == s.state
                &&& final(envelope)@ == s.envelope
                &&& frames(r@) == wires(s.events)
            }),
    {
        if self.finalized {
            return nothing();
        }
        let index: i64 = match tool_call.get("index") {
            Some(v) => match v.as_i64() {
                Some(i) => i,
                None => 0,
            },
            None => 0,
        };
        let at = self.find_place(index);
        let ghost before = self@.calls;
        let known = at < self.tool_calls.len() && self.tool_calls[at].0 == index;
        proof {
            if at < self.tool_calls@.len() {
                assert(before[at as int] == (
                    self.tool_calls@[at as int].0 as int,
                    self.tool_calls@[at as int].1@,
                ));
            }
        }
        let mut call = if known {
            self.tool_calls.remove(at).1
        } else {
            ToolCallState::blank(spare_id)
        };
        assert(call@ == call_at(before, index as int, spare_id@));
        let arguments = call.apply_tool_call_delta(tool_call, reasoning);
        let events = call.advance(
            &mut self.tool_output_base,
            envelope,
            &self.tool_context,
            index,
            arguments,
        );
        self.tool_calls.insert(at, (index, call));
        assert(self@.calls =~= put_call(before, index as int, call@));
        events
    }

    /// Take in a delta and send what it brings.
    pub fn push_delta(
        &mut self,
        envelope: &mut ResponseEnvelopeState,
        tool_call: &Json,
        reasoning: Option<&str>,
    ) -> (r: Vec<Vec<u8>>)
        ensures
            exists|spare_id: Seq<char>|
                is_synthetic_call_id(spare_id) && ({
                    let s = #[trigger] old(self)@.push(
                        old(envelope)@,
                        tool_call@,
                        opt_text(reasoning),
                        spare_id,
                    );
                    &&& final(self)@ == s.state
                    &&& final(envelope)@ == s.envelope
                    &&& frames(r@) == wires(s.events)
                }),
    {
        let spare_id = id_gen::synthetic_tool_call_id();
        self.push_delta_with(envelope, tool_call, reasoning, spare_id.as_str())
    }

    /// Close all calls: send what was not sent yet, and hand the completed items to
    /// the envelope.
    pub fn finalize(&mut self, envelope: &mut ResponseEnvelopeState) -> (r: Vec<Vec<u8>>)
        ensures
            final(self)@ == old(self)@.close(old(envelope)@).state,
            final(envelope)@ == old(self)@.close(old(envelope)@).envelope,
            frames(r@) == wires(old(self)@.close(old(envelope)@).events),
    {
        if self.finalized {
            return nothing();
        }
        self.finalized = true;
        let ghost start = self@;
        let ghost e = envelope@;
        let mut events = nothing();
        let total: usize = self.tool_calls.len();
        let mut k: usize = 0;
        while k < total
            invariant
                k <= total,
                total == self.tool_calls@.len(),
                total == self@.calls.len(),
                self@ == start.close_first(e, k as int).state,
                envelope@ == start.close_first(e, k as int).envelope,
                frames(events@) == wires(start.close_first(e, k as int).events),
            decreases total - k,
        {
            let ghost before = self@.calls;
            assert(before[k as int] == (
                self.tool_calls@[k as int].0 as int,
                self.tool_calls@[k as int].1@,
            ));
            if !self.tool_calls[k].1.done {
                let (index, mut call) = self.tool_calls.remove(k);
                let more = call.finalize_state(
                    &mut self.tool_output_base,
                    envelope,
                    &self.tool_context,
                    index,
                );
                self.tool_calls.insert(k, (index, call));
                assert(self@.calls =~= before.update(k as int, (index as int, call@)));
                stream_events::extend(&mut events, more);
            }
            k += 1;
        }
        events
    }

    /// The calls in their Chat form, to be kept for continuation. Calls without a
    /// name are left out.
    pub fn persisted_tool_calls(&self) -> (r: Vec<Json>)
        ensures
            trees(r@) == chat_calls(self@.calls),
    {
        let ghost all = self@.calls;
        let mut out: Vec<Json> = Vec::new();
        let mut i: usize = 0;
        assert(all.take(0) =~= Seq::empty());
        assert(trees(out@) =~= Seq::empty());
        while i < self.tool_calls.len()
            invariant
                i <= self.tool_calls@.len(),
                all == call_models(self.tool_calls@),
                trees(out@) == chat_calls(all.take(i as int)),
            decreases self.tool_calls.len() - i,
        {
            assert(all.take(i as int + 1).drop_last() =~= all.take(i as int));
            assert(all.take(i as int + 1).last() == (
                self.tool_calls@[i as int].0 as int,
                self.tool_calls@[i as int].1@,
            ));
            let call = &self.tool_calls[i].1;
            if !call.name.as_str().is_empty() {
                let id = if call.call_id.as_str().is_empty() {
                    call.spare_id.as_str()
                } else {
                    call.call_id.as_str()
                };
                let arguments = sanitize_string(call.arguments.as_str());
                out.push(make_function_call(id, call.name.as_str(), arguments.as_str()));
            }
            i += 1;
        }
        assert(all.take(i as int) =~= all);
        out
    }
}

/// Whether the calls stand in ascending order of their upstream indices, each once.
pub open spec fn ascending(calls: Seq<(int, Call)>) -> bool {
    forall|i: int, j: int|
        0 <= i < j < calls.len() ==> (#[trigger] calls[i]).0 < (#[trigger] calls[j]).0
}

/// Whether every output index that was claimed is the upstream index counted from
/// the base.
pub open spec fn based(t: Tools) -> bool {
    forall|i: int|
        0 <= i < t.calls.len() && (#[trigger] t.calls[i]).1.output_index is Some ==> {
            &&& t.base is Some
            &&& t.calls[i].1.output_index == Some(wrapped(t.base->0 + t.calls[i].0))
        }
}

/// What holds of the calls of a turn at all times.
pub open spec fn sound(t: Tools) -> bool {
    ascending(t.calls) && based(t)
}

proof fn lemma_place(calls: Seq<(int, Call)>, index: int, from: int)
    requires
        0 <= from <= calls.len(),
    ensures
        from <= place_from(calls, index, from) <= calls.len(),
        forall|k: int|
            from <= k < place_from(calls, index, from) ==> (#[trigger] calls[k]).0 < index,
        place_from(calls, index, from) < calls.len() ==> calls[place_from(calls, index, from)].0
            >= index,
    decreases calls.len() - from,
{
    if from < calls.len() && calls[from].0 < index {
        lemma_place(calls, index, from + 1);
    }
}

/// The base and the output index of a call at work belong together.
spec fn slot_based(s: Slot, index: int) -> bool {
    s.call.output_index is Some ==> s.base is Some && s.call.output_index == Some(
        wrapped(s.base->0 + index),
    )
}

/// A later slot keeps the base, if there is one.
spec fn same_base(a: Slot, b: Slot) -> bool {
    a.base is Some ==> b.base == a.base
}

proof fn lemma_opened(s: Step<Slot>, registry: Registry, index: int)
    requires
        slot_based(s.state, index),
    ensures
        slot_based(opened(s, registry, index).state, index),
        same_base(s.state, opened(s, registry, index).state),
{
}

proof fn lemma_delta_step(
    s: Step<Slot>,
    registry: Registry,
    index: int,
    arguments: Option<Seq<char>>,
)
    requires
        slot_based(s.state, index),
    ensures
        slot_based(delta_step(s, registry, index, arguments).state, index),
        same_base(s.state, delta_step(s, registry, index, arguments).state),
{
    let call = s.state.call;
    let opens = !call.added && call.has_identity();
    let t = if opens {
        maybe_held(s, registry, index)
    } else {
        s
    };
    lemma_opened(t, registry, index);
    if let Some(c) = t.state.call.try_resolve(registry) {
        lemma_opened(with_call(t, c), registry, index);
    }
    lemma_opened(with_call(t, t.state.call.degraded(registry)), registry, index);
}

proof fn lemma_close_step(s: Step<Slot>, registry: Registry, index: int)
    requires
        slot_based(s.state, index),
    ensures
        slot_based(close_step(s, registry, index).state, index),
        same_base(s.state, close_step(s, registry, index).state),
        close_step(s, registry, index).state.call.done,
{
    lemma_opened(with_call(s, s.state.call.unbuffered(registry)), registry, index);
}

/// Whatever deltas come, and once the turn is over, the calls stand in ascending
/// order of their upstream indices, each once, and their output indices are those
/// indices counted from one base.
pub proof fn calls_stay_in_order(
    t: Tools,
    e: Envelope,
    tool_call: Tree,
    reasoning: Option<Seq<char>>,
    spare_id: Seq<char>,
)
    requires
        sound(t),
    ensures
        sound(Tools::none(t.registry)),
        sound(t.push(e, tool_call, reasoning, spare_id).state),
        sound(t.close(e).state),
{
    if !t.finalized {
        let index = index_of(tool_call);
        lemma_place(t.calls, index, 0);
        let p = place(t.calls, index);
        let call = call_at(t.calls, index, spare_id).with_delta(tool_call, reasoning);
        let s = at_work(call, t.base, e);
        lemma_delta_step(s, t.registry, index, arguments_of(tool_call));
        let after = t.push(e, tool_call, reasoning, spare_id).state;
        assert(ascending(after.calls)) by {
            assert forall|i: int, j: int| 0 <= i < j < after.calls.len() implies (
            #[trigger] after.calls[i]).0 < (#[trigger] after.calls[j]).0 by {
                if has_call(t.calls, index) {
                    assert(after.calls[i].0 == t.calls[i].0);
                    assert(after.calls[j].0 == t.calls[j].0);
                } else {
                    lemma_inserted_ascending(t.calls, p, index, i, j);
                }
            }
        }
        assert(based(after)) by {
            assert forall|i: int|
                0 <= i < after.calls.len() && (#[trigger] after.calls[i]).1.output_index is Some implies {
                &&& after.base is Some
                &&& after.calls[i].1.output_index == Some(wrapped(after.base->0 + after.calls[i].0))
            } by {
                if i == p {
                } else if has_call(t.calls, index) || i < p {
                    assert(after.calls[i] == t.calls[i]);
                } else {
                    assert(after.calls[i] == t.calls[i - 1]);
                }
            }
        }
        lemma_close_first(Tools { finalized: true, ..t }, e, t.calls.len() as int);
    }
}

proof fn lemma_inserted_ascending(calls: Seq<(int, Call)>, p: int, index: int, i: int, j: int)
    requires
        ascending(calls),
        0 <= p <= calls.len(),
        forall|k: int| 0 <= k < p ==> (#[trigger] calls[k]).0 < index,
        p < calls.len() ==> calls[p].0 > index,
        0 <= i < j <= calls.len(),
    ensures
        forall|c: Call|
            (#[trigger] calls.insert(p, (index, c)))[i].0 < calls.insert(p, (index, c))[j].0,
{
    assert forall|c: Call| (#[trigger] calls.insert(p, (index, c)))[i].0 < calls.insert(
        p,
        (index, c),
    )[j].0 by {
        if j < p {
            assert(calls[i].0 < calls[j].0);
        } else if i < p && j > p {
            assert(calls[i].0 < index);
            assert(j - 1 == p || calls[p].0 < calls[j - 1].0);
        } else if i == p {
            assert(j - 1 == p || calls[p].0 < calls[j - 1].0);
        } else if i > p {
            assert(calls[i - 1].0 < calls[j - 1].0);
        }
    }
}

proof fn lemma_close_first(t: Tools, e: Envelope, n: int)
    requires
        sound(t),
        n <= t.calls.len(),
    ensures
        sound(t.close_first(e, n).state),
        t.close_first(e, n).state.calls.len() == t.calls.len(),
        t.close_first(e, n).state.finalized == t.finalized,
        forall|i: int| 0 <= i < n ==> (#[trigger] t.close_first(e, n).state.calls[i]).1.done,
    decreases n,
{
    if n > 0 {
        lemma_close_first(t, e, n - 1);
        let before = t.close_first(e, n - 1);
        let b = before.state;
        let after = t.close_first(e, n).state;
        let (index, call) = b.calls[n - 1];
        if !call.done {
            lemma_close_step(at_work(call, b.base, before.envelope), b.registry, index);
            assert forall|i: int, j: int| 0 <= i < j < after.calls.len() implies (
            #[trigger] after.calls[i]).0 < (#[trigger] after.calls[j]).0 by {
                assert(after.calls[i].0 == b.calls[i].0);
                assert(after.calls[j].0 == b.calls[j].0);
            }
            assert forall|i: int|
                0 <= i < after.calls.len() && (#[trigger] after.calls[i]).1.output_index is Some implies {
                &&& after.base is Some
                &&& after.calls[i].1.output_index == Some(wrapped(after.base->0 + after.calls[i].0))
            } by {
                if i != n - 1 {
                    assert(after.calls[i] == b.calls[i]);
                }
            }
            assert forall|i: int| 0 <= i < n implies (#[trigger] after.calls[i]).1.done by {
                if i != n - 1 {
                    assert(after.calls[i] == b.calls[i]);
                }
            }
        }
    }
}

/// Parallel calls keep their upstream order in the output: of two calls whose output
/// indices were claimed, the one with the smaller upstream index stands first.
pub proof fn parallel_calls_keep_their_order(t: Tools, i: int, j: int)
    requires
        sound(t),
        0 <= i < j < t.calls.len(),
        t.calls[i].1.output_index is Some,
        t.calls[j].1.output_index is Some,
        i64::MIN <= t.base->0 + t.calls[i].0,
        t.base->0 + t.calls[j].0 <= i64::MAX,
    ensures
        t.calls[i].1.output_index->0 < t.calls[j].1.output_index->0,
{
    assert(t.calls[i].0 < t.calls[j].0);
}

/// The calls of a turn are closed once: all of them are done then, closing them again
/// does nothing, and neither does a late delta.
pub proof fn closed_calls_stay_closed(
    t: Tools,
    e: Envelope,
    later: Envelope,
    tool_call: Tree,
    reasoning: Option<Seq<char>>,
    spare_id: Seq<char>,
)
    requires
        sound(t),
        !t.finalized,
    ensures
        ({
            let done = t.close(e).state;
            &&& done.finalized
            &&& forall|i: int| 0 <= i < done.calls.len() ==> (#[trigger] done.calls[i]).1.done
            &&& done.close(later) == idle(done, later)
            &&& done.push(later, tool_call, reasoning, spare_id) == idle(done, later)
        }),
{
    lemma_close_first(Tools { finalized: true, ..t }, e, t.calls.len() as int);
}

proof fn lemma_fitting(s: Seq<char>, room: int)
    requires
        room >= 0,
    ensures
        0 <= fitting(s, room) <= s.len(),
        byte_len(s.take(fitting(s, room))) <= room,
        s.len() > 0 && room >= 4 ==> fitting(s, room) > 0,
    decreases s.len(),
{
    if s.len() == 0 || encode_scalar(s[0] as u32).len() > room {
        assert(s.take(0) =~= Seq::empty());
        if s.len() > 0 {
            crate::utf8::lemma_scalar_len(s[0]);
        }
    } else {
        let width = encode_scalar(s[0] as u32).len();
        lemma_fitting(s.drop_first(), room - width);
        let n = fitting(s, room);
        let head = s.take(n);
        assert(head.drop_first() =~= s.drop_first().take(n - 1));
        assert(head[0] == s[0]);
    }
}

/// The pieces of an argument text are the whole text, one after the other, and none
/// is empty or longer than one delta may carry.
pub proof fn chunks_make_up_the_text(s: Seq<char>)
    ensures
        run_together(chunks(s)) == s,
        forall|i: int|
            0 <= i < chunks(s).len() ==> 0 < (#[trigger] chunks(s)[i]).len() && byte_len(
                chunks(s)[i],
            ) <= ARGUMENTS_CHUNK_SIZE,
    decreases s.len(),
{
    let n = fitting(s, ARGUMENTS_CHUNK_SIZE as int);
    lemma_fitting(s, ARGUMENTS_CHUNK_SIZE as int);
    if s.len() == 0 {
        assert(s =~= Seq::empty());
    } else {
        chunks_make_up_the_text(s.skip(n));
        lemma_run_together(s.take(n), chunks(s.skip(n)));
        assert(s.take(n) + s.skip(n) =~= s);
        assert forall|i: int| 0 <= i < chunks(s).len() implies 0 < (#[trigger] chunks(s)[i]).len()
            && byte_len(chunks(s)[i]) <= ARGUMENTS_CHUNK_SIZE by {
            if i > 0 {
                assert(chunks(s)[i] == chunks(s.skip(n))[i - 1]);
            }
        }
    }
}

proof fn lemma_run_together(a: Seq<char>, list: Seq<Seq<char>>)
    ensures
        run_together(seq![a] + list) == a + run_together(list),
    decreases list.len(),
{
    let all = seq![a] + list;
    if list.len() == 0 {
        assert(all =~= seq![a]);
        assert(all.drop_last() =~= Seq::empty());
        reveal_with_fuel(run_together, 2);
        assert(run_together(all) =~= a);
    } else {
        assert(all.drop_last() =~= seq![a] + list.drop_last());
        lemma_run_together(a, list.drop_last());
        assert(a + run_together(list.drop_last()) + list.last() =~= a + (run_together(
            list.drop_last(),
        ) + list.last()));
    }
}

/// What is sent of the arguments of a call is what was not sent before, or all of them
/// where they do not go on from what was sent, one delta for each piece of at most the
/// size of a delta. All of them count as sent then, and nothing is sent twice.
pub proof fn sent_arguments_are_the_arguments(call: Call)
    ensures
        call.arguments_sent() == (Call { sent_arguments: call.arguments, ..call }),
        begins(call.arguments, call.sent_arguments) ==> call.sent_arguments + run_together(
            chunks(call.pending_arguments()),
        ) == call.arguments,
        !begins(call.arguments, call.sent_arguments) ==> run_together(
            chunks(call.pending_arguments()),
        ) == call.arguments,
        call.argument_events().len() == chunks(call.pending_arguments()).len(),
        forall|i: int|
            0 <= i < call.argument_events().len() ==> {
                let piece = chunks(call.pending_arguments())[i];
                &&& #[trigger] call.argument_events()[i] == arguments_delta(
                    call.item_id,
                    index_or_zero(call.output_index),
                    piece,
                )
                &&& 0 < piece.len()
                &&& byte_len(piece) <= ARGUMENTS_CHUNK_SIZE
            },
        call.arguments_sent().argument_events() == Seq::<Event>::empty(),
{
    chunks_make_up_the_text(call.pending_arguments());
    if begins(call.arguments, call.sent_arguments) {
        assert(call.sent_arguments + call.pending_arguments() =~= call.arguments);
    } else {
        assert(call.arguments != call.sent_arguments) by {
            assert(call.arguments.subrange(0, call.arguments.len() as int) =~= call.arguments);
        }
    }
    assert(chunk_events(
        chunks(Seq::empty()),
        call.item_id,
        index_or_zero(call.output_index),
    ) =~= Seq::empty());
}

/// What is sent of the input of a custom tool is what was not sent before, or all that
/// is known of it where that does not go on from what was sent. All of it counts as
/// sent then. Closing the call sends what is left in the same way.
pub proof fn sent_input_is_the_input(call: Call, known: Seq<char>)
    requires
        partial_input(call.arguments) == Some(known),
    ensures
        call.input_sent() == (Call { sent_input: known, ..call }),
        call.input_front(known) + known.skip(call.input_front(known).len() as int) == known,
        call.input_events() == if known == call.input_front(known) {
            Seq::<Event>::empty()
        } else {
            seq![
                input_delta(
                    call.item_id,
                    index_or_zero(call.output_index),
                    known.skip(call.input_front(known).len() as int),
                ),
            ]
        },
        call.input_sent().input_events() == Seq::<Event>::empty(),
        begins(call.input(), call.sent_input) ==> call.sent_input + input_rest(
            call.sent_input,
            call.input(),
        ) == call.input(),
{
    let n = call.sent_input.len() as int;
    if begins(call.input(), call.sent_input) {
        assert(call.input().subrange(0, n) =~= call.sent_input);
        assert(call.sent_input + call.input().skip(n) =~= call.input());
    }
    let front = call.input_front(known);
    if begins(known, call.sent_input) {
        assert(known.subrange(0, n) =~= call.sent_input);
    }
    assert(front + known.skip(front.len() as int) =~= known);
    if known == call.sent_input {
        assert(known.subrange(0, n) =~= known);
    }
    if known.skip(front.len() as int).len() == 0 {
        assert(front =~= known);
    }
}

} // verus!
