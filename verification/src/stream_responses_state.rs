//! A streamed response as a whole.
//!
//! The stream holds the envelope, the reasoning item, the message item, the tool
//! calls and the detector of think blocks, and hands what comes from upstream to
//! the one that it belongs to.
use vstd::prelude::*;
use crate::context::{BridgeToolContext, Registry};
use crate::convert::chat_to_responses::{call_item, message_item, reasoning_item};
use crate::convert::message_normalization::{
    chat_content, chat_message_content_from_response_content,
};
use crate::convert::semantics::{should_persist_response_status, status_of, ResponseStatus};
use crate::id_gen::{is_synthetic_call_id, message_id};
use crate::json::{
    lemma_trees_push, opt_members, opt_tree, opt_value, text_at, trees, Json, Object, Tree,
};
use crate::sanitize::{sanitize_string, sanitized};
use crate::stream_envelope::{Envelope, ResponseEnvelopeState};
use crate::stream_events::{
    self, frames, lemma_frames_push, lemma_no_wires, lemma_wires_concat, lemma_wires_push, nothing,
    wire, wires, Event,
};
use crate::reasoning::{first_tag, held_back, Tag};
use crate::stream_inline_think::{
    begin, content, ended, forced, inside_block, open_tag_end, with_detector, Detector,
    InlineThinkStateMachine, Phase, Speech,
};
use crate::stream_message::{closings, parts_of, Message, MessageState, Piece};
use crate::stream_reasoning::{Lifecycle, ReasoningState, Step, Thinking};
use crate::stream_tools::{
    arguments_of, at_work, call_at, chat_calls, close_step, closing_events, delta_step, index_of,
    kind_of, maybe_held, opened, with_arguments, with_call, with_input, Call, Slot, ToolStateStore,
    Tools,
};
use crate::text::{opt_text, trim, trim_start, trimmed};

verus! {

broadcast use {
    lemma_frames_push,
    lemma_wires_push,
    lemma_wires_concat,
    lemma_no_wires,
    lemma_trees_push,
};

/// The state of one streamed response.
#[derive(Debug)]
pub struct ResponsesStreamState {
    envelope: ResponseEnvelopeState,
    reasoning: ReasoningState,
    message: MessageState,
    tools: ToolStateStore,
    inline_think: InlineThinkStateMachine,
}

/// The model of a streamed response.
#[verifier::ext_equal]
pub ghost struct Stream {
    pub envelope: Envelope,
    pub reasoning: Thinking,
    pub message: Message,
    pub tools: Tools,
    pub think: Detector,
}

impl View for ResponsesStreamState {
    type V = Stream;

    closed spec fn view(&self) -> Stream {
        Stream {
            envelope: self.envelope@,
            reasoning: self.reasoning@,
            message: self.message@,
            tools: self.tools@,
            think: self.inline_think@,
        }
    }
}

/// What a step of a stream leaves behind: the stream and the events that it sends.
#[verifier::ext_equal]
pub ghost struct Flow {
    pub stream: Stream,
    pub events: Seq<Event>,
}

impl Flow {
    /// This step and then another.
    pub open spec fn followed_by(self, next: Flow) -> Flow {
        Flow { stream: next.stream, events: self.events + next.events }
    }
}

impl Stream {
    /// The stream of a response that begins at the given time.
    pub open spec fn fresh(registry: Registry, response_id: Option<Seq<char>>, now: int) -> Stream {
        Stream {
            envelope: Envelope::fresh(response_id, now),
            reasoning: Thinking::none(),
            message: Message::none(),
            tools: Tools::none(registry),
            think: Detector {
                phase: Phase::Detecting,
                buffer: Seq::empty(),
                tail: Seq::empty(),
            },
        }
    }

    /// The stream with the metadata of a chunk.
    pub open spec fn with_metadata(self, payload: Tree) -> Stream {
        Stream { envelope: self.envelope.with_metadata(payload), ..self }
    }

    /// The stream with the request whose fields are echoed.
    pub open spec fn with_echo(self, original: Option<Map<Seq<char>, Tree>>) -> Stream {
        Stream { envelope: Envelope { echo: original, ..self.envelope }, ..self }
    }

    /// The stream with annotations for its text.
    pub open spec fn with_annotations(self, annotations: Option<Tree>) -> Stream {
        Stream { message: self.message.with_annotations(annotations), ..self }
    }

    /// The stream with a finish reason.
    pub open spec fn with_finish_reason(self, reason: Seq<char>) -> Stream {
        Stream { envelope: Envelope { finish_reason: Some(reason), ..self.envelope }, ..self }
    }

    /// The stream of a turn that is over.
    pub open spec fn over(self) -> Stream {
        Stream { envelope: Envelope { completed: true, ..self.envelope }, ..self }
    }

    /// Do nothing.
    pub open spec fn rest(self) -> Flow {
        Flow { stream: self, events: Seq::empty() }
    }

    /// Start the turn.
    pub open spec fn start(self) -> Flow {
        Flow {
            stream: Stream { envelope: self.envelope.begun(), ..self },
            events: self.envelope.start_events(),
        }
    }

    /// The stream once the message has made a step.
    pub open spec fn messaged(self, s: Step<Message>) -> Flow {
        Flow {
            stream: Stream { message: s.state, envelope: s.envelope, ..self },
            events: s.events,
        }
    }

    /// The stream once the reasoning has made a step.
    pub open spec fn reasoned(self, s: Step<Thinking>) -> Flow {
        Flow {
            stream: Stream { reasoning: s.state, envelope: s.envelope, ..self },
            events: s.events,
        }
    }

    /// The stream once the tool calls have made a step.
    pub open spec fn tooled(self, s: Step<Tools>) -> Flow {
        Flow { stream: Stream { tools: s.state, envelope: s.envelope, ..self }, events: s.events }
    }

    /// The stream once the detector has made a step.
    pub open spec fn spoken(self, s: Step<Speech>) -> Flow {
        Flow {
            stream: Stream {
                think: s.state.think,
                reasoning: s.state.reasoning,
                message: s.state.message,
                envelope: s.envelope,
                ..self
            },
            events: s.events,
        }
    }

    /// What the detector works on.
    pub open spec fn speech(self) -> Step<Speech> {
        begin(self.think, self.reasoning, self.message, self.envelope)
    }

    /// Append to the reasoning.
    pub open spec fn reason(self, delta: Seq<char>) -> Flow {
        self.reasoned(self.reasoning.push(self.envelope, delta))
    }

    /// Close the reasoning.
    pub open spec fn settle(self) -> Flow {
        self.reasoned(self.reasoning.close(self.envelope))
    }

    /// Append plain text.
    pub open spec fn say(self, delta: Seq<char>) -> Flow {
        self.messaged(self.message.push_text(self.envelope, delta))
    }

    /// Add a refusal.
    pub open spec fn refuse(self, refusal: Seq<char>) -> Flow {
        self.messaged(self.message.push_refusal(self.envelope, refusal))
    }

    /// Close the text that is open.
    pub open spec fn flush(self) -> Flow {
        self.messaged(self.message.flush(self.envelope))
    }

    /// Take in content, which may hold a think block.
    pub open spec fn hear(self, delta: Seq<char>) -> Flow {
        self.spoken(content(self.speech(), delta))
    }

    /// Take what follows as plain text.
    pub open spec fn force(self) -> Flow {
        self.spoken(forced(self.speech()))
    }

    /// Take in a delta of a tool call, behind which no think block goes on.
    pub open spec fn call(
        self,
        tool_call: Tree,
        reasoning: Option<Seq<char>>,
        spare_id: Seq<char>,
    ) -> Flow {
        let f = self.force();
        let s = f.stream;
        f.followed_by(s.tooled(s.tools.push(s.envelope, tool_call, reasoning, spare_id)))
    }

    /// Close all items: reasoning, message and tool calls.
    pub open spec fn close_items(self) -> Flow {
        let a = self.start();
        let b = a.followed_by(a.stream.spoken(ended(a.stream.speech())));
        let c = b.followed_by(b.stream.settle());
        let d = c.followed_by(c.stream.messaged(c.stream.message.close(c.stream.envelope)));
        d.followed_by(d.stream.tooled(d.stream.tools.close(d.stream.envelope)))
    }

    /// Send the terminal event. A finish reason is decisive. Without one, a stream
    /// that ended cleanly with some output is complete; one that was cut short is
    /// incomplete, or failed if it had no output.
    pub open spec fn terminate(self, ended_cleanly: bool) -> Flow {
        let e = self.envelope;
        let output = e.output();
        let (status, event) = if e.finish_reason is Some || output.len() > 0 && ended_cleanly {
            (e.final_status(), e.completion(output))
        } else if output.len() > 0 {
            (ResponseStatus::Incomplete, e.truncation(output))
        } else {
            (
                ResponseStatus::Failed,
                e.failure(
                    "Stream truncated before any output was produced"@,
                    "stream_truncated"@,
                ),
            )
        };
        Flow {
            stream: Stream { envelope: e.at_status(status), ..self },
            events: seq![event],
        }
    }

    /// End the turn, once.
    pub open spec fn finalize(self, ended_cleanly: bool) -> Flow {
        if self.envelope.completed {
            self.rest()
        } else {
            let f = self.over().close_items();
            f.followed_by(f.stream.terminate(ended_cleanly))
        }
    }

    /// Fail the turn, unless it is over.
    pub open spec fn fail(self, message: Seq<char>, error_type: Seq<char>) -> Flow {
        if self.envelope.completed {
            self.rest()
        } else {
            let f = self.over().close_items();
            let e = f.stream.envelope;
            f.followed_by(
                Flow {
                    stream: Stream { envelope: e.at_status(ResponseStatus::Failed), ..f.stream },
                    events: seq![e.failure(message, error_type)],
                },
            )
        }
    }
}

/// A content part with its text sanitized.
pub open spec fn clean_part(part: Tree) -> Tree {
    let m = match part {
        Tree::Object(m) => m,
        _ => Map::empty(),
    };
    match text_at(m, "text"@) {
        Some(s) => Tree::Object(m.insert("text"@, Tree::Str(sanitized(s)))),
        None => Tree::Object(m),
    }
}

/// The content parts with their texts sanitized.
pub open spec fn clean_parts(parts: Seq<Tree>) -> Seq<Tree> {
    parts.map_values(|p: Tree| clean_part(p))
}

impl Stream {
    /// The content of the assistant message that is kept for continuation.
    pub open spec fn kept_content(self) -> Tree {
        let parts = parts_of(self.message.segments);
        if parts.len() > 0 {
            chat_content(Some(Tree::Array(clean_parts(parts))))
        } else {
            Tree::Null
        }
    }

    /// The reasoning that is kept for continuation.
    pub open spec fn kept_reasoning(self) -> Seq<char> {
        trim(sanitized(self.reasoning.text))
    }

    /// The assistant message that is kept for continuation, if there is anything to
    /// keep.
    pub open spec fn assistant_message(self) -> Option<Tree> {
        let calls = chat_calls(self.tools.calls);
        let reasoning = self.kept_reasoning();
        if self.kept_content() == Tree::Null && calls.len() == 0 && reasoning.len() == 0 {
            None
        } else {
            let m = Map::empty().insert("role"@, Tree::Str("assistant"@)).insert(
                "content"@,
                self.kept_content(),
            );
            let m = if calls.len() == 0 {
                m
            } else {
                m.insert("tool_calls"@, Tree::Array(calls))
            };
            Some(
                Tree::Object(
                    if reasoning.len() == 0 {
                        m
                    } else {
                        m.insert("reasoning_content"@, Tree::Str(reasoning))
                    },
                ),
            )
        }
    }

    /// Whether the turn may be kept for continuation.
    pub open spec fn persistable(self) -> bool {
        self.envelope.completed && (self.envelope.status matches Some(s) && s.persistable())
    }
}

impl ResponsesStreamState {
    /// The stream of a response that begins at the given time, in seconds.
    pub fn new_at(tool_context: BridgeToolContext, response_id: Option<&str>, now: i64) -> (r:
        ResponsesStreamState)
        ensures
            r@ == Stream::fresh(tool_context@, opt_text(response_id), now as int),
    {
        ResponsesStreamState {
            envelope: ResponseEnvelopeState::new_at(response_id, now),
            reasoning: ReasoningState::new(),
            message: MessageState::new(),
            tools: ToolStateStore::new(tool_context),
            inline_think: InlineThinkStateMachine::new(),
        }
    }

    /// The stream of a response that begins now.
    pub fn new(tool_context: BridgeToolContext, response_id: Option<&str>) -> (r:
        ResponsesStreamState)
        ensures
            r@ == Stream::fresh(tool_context@, opt_text(response_id), r@.envelope.created_at),
    {
        ResponsesStreamState {
            envelope: ResponseEnvelopeState::new(response_id),
            reasoning: ReasoningState::new(),
            message: MessageState::new(),
            tools: ToolStateStore::new(tool_context),
            inline_think: InlineThinkStateMachine::new(),
        }
    }

    /// Take over the metadata of a chunk.
    pub fn apply_chunk_metadata(&mut self, payload: &Json)
        ensures
            final(self)@ == old(self)@.with_metadata(payload@),
    {
        self.envelope.apply_metadata(payload);
    }

    /// Keep the request whose fields the response echoes.
    pub fn set_request_echo(&mut self, original: Option<&Object>)
        ensures
            final(self)@ == old(self)@.with_echo(opt_members(original)),
    {
        self.envelope.set_request_echo(original);
    }

    /// Take annotations for the open text or the next one.
    pub fn add_annotations(&mut self, annotations: Option<&Json>)
        ensures
            final(self)@ == old(self)@.with_annotations(opt_tree(annotations)),
    {
        self.message.add_annotations(annotations);
    }

    /// Give out what the detector holds back, and take what follows as plain text.
    pub fn force_inline_think_to_text(&mut self) -> (r: Vec<Vec<u8>>)
        ensures
            final(self)@ == old(self)@.force().stream,
            frames(r@) == wires(old(self)@.force().events),
    {
        self.inline_think.force_to_text(&mut self.envelope, &mut self.reasoning, &mut self.message)
    }

    /// Start the turn, once.
    pub fn ensure_started(&mut self) -> (r: Vec<Vec<u8>>)
        ensures
            final(self)@ == old(self)@.start().stream,
            frames(r@) == wires(old(self)@.start().events),
    {
        self.envelope.ensure_started()
    }

    /// Append to the reasoning.
    pub fn push_reasoning_delta(&mut self, delta: &str) -> (r: Vec<Vec<u8>>)
        ensures
            final(self)@ == old(self)@.reason(delta@).stream,
            frames(r@) == wires(old(self)@.reason(delta@).events),
    {
        self.reasoning.push_delta(&mut self.envelope, delta)
    }

    /// The reasoning that is attached to tool calls.
    pub fn active_reasoning_text_for_tools(&self) -> (r: String)
        ensures
            r@ == self@.reasoning.for_tools(),
    {
        self.reasoning.active_text_for_tools()
    }

    /// Close the reasoning if it is open.
    pub fn finalize_reasoning_if_open(&mut self) -> (r: Vec<Vec<u8>>)
        ensures
            final(self)@ == old(self)@.settle().stream,
            frames(r@) == wires(old(self)@.settle().events),
    {
        self.reasoning.finalize(&mut self.envelope)
    }

    /// Take in a delta of a tool call. A think block that is still open ends there.
    /// `spare_id` is the call id of a call that comes without one.
    pub fn push_tool_call_delta_with(
        &mut self,
        tool_call: &Json,
        reasoning: Option<&str>,
        spare_id: &str,
    ) -> (r: Vec<Vec<u8>>)
        ensures
            final(self)@ == old(self)@.call(tool_call@, opt_text(reasoning), spare_id@).stream,
            frames(r@) == wires(
                old(self)@.call(tool_call@, opt_text(reasoning), spare_id@).events,
            ),
    {
        let mut events = self.force_inline_think_to_text();
        let more = self.tools.push_delta_with(&mut self.envelope, tool_call, reasoning, spare_id);
        stream_events::extend(&mut events, more);
        events
    }

    /// Take in a delta of a tool call. A think block that is still open ends there.
    pub fn push_tool_call_delta(&mut self, tool_call: &Json, reasoning: Option<&str>) -> (r: Vec<
        Vec<u8>,
    >)
        ensures
            exists|spare_id: Seq<char>|
                is_synthetic_call_id(spare_id) && final(self)@ == (#[trigger] old(self)@.call(
                    tool_call@,
                    opt_text(reasoning),
                    spare_id,
                )).stream && frames(r@) == wires(
                    old(self)@.call(tool_call@, opt_text(reasoning), spare_id).events,
                ),
    {
        let spare_id = crate::id_gen::synthetic_tool_call_id();
        self.push_tool_call_delta_with(tool_call, reasoning, spare_id.as_str())
    }

    /// Append plain text.
    pub fn push_text_delta(&mut self, delta: &str) -> (r: Vec<Vec<u8>>)
        ensures
            final(self)@ == old(self)@.say(delta@).stream,
            frames(r@) == wires(old(self)@.say(delta@).events),
    {
        self.message.push_text_delta(&mut self.envelope, delta)
    }

    /// Take in content, which may hold a think block.
    pub fn push_content_delta(&mut self, delta: &str) -> (r: Vec<Vec<u8>>)
        ensures
            final(self)@ == old(self)@.hear(delta@).stream,
            frames(r@) == wires(old(self)@.hear(delta@).events),
    {
        self.inline_think.push_content_delta(
            delta,
            &mut self.envelope,
            &mut self.reasoning,
            &mut self.message,
        )
    }

    /// Add a refusal.
    pub fn push_refusal_part(&mut self, refusal: &str) -> (r: Vec<Vec<u8>>)
        ensures
            final(self)@ == old(self)@.refuse(refusal@).stream,
            frames(r@) == wires(old(self)@.refuse(refusal@).events),
    {
        self.message.push_refusal_part(&mut self.envelope, refusal)
    }

    /// Close the text that is open, if there is one.
    pub fn flush_open_text_part(&mut self) -> (r: Vec<Vec<u8>>)
        ensures
            final(self)@ == old(self)@.flush().stream,
            frames(r@) == wires(old(self)@.flush().events),
    {
        self.message.flush_open_text_part(&mut self.envelope)
    }

    /// Keep the finish reason.
    pub fn set_finish_reason(&mut self, finish_reason: &str)
        ensures
            final(self)@ == old(self)@.with_finish_reason(finish_reason@),
    {
        self.envelope.finish_reason = Some(finish_reason.to_owned());
    }

    fn flush_open_items(&mut self) -> (r: Vec<Vec<u8>>)
        ensures
            final(self)@ == old(self)@.close_items().stream,
            frames(r@) == wires(old(self)@.close_items().events),
    {
        let mut events = self.envelope.ensure_started();
        let spoken = self.inline_think.flush_on_finalize(
            &mut self.envelope,
            &mut self.reasoning,
            &mut self.message,
        );
        stream_events::extend(&mut events, spoken);
        let reasoned = self.reasoning.finalize(&mut self.envelope);
        stream_events::extend(&mut events, reasoned);
        let said = self.message.finalize(&mut self.envelope);
        stream_events::extend(&mut events, said);
        let called = self.tools.finalize(&mut self.envelope);
        stream_events::extend(&mut events, called);
        events
    }

    /// End the turn, once. A stream that ended cleanly was marked as done, or came
    /// as a whole: then a missing finish reason does not mean that it was cut short.
    pub fn finalize(&mut self, stream_ended_cleanly: bool) -> (r: Vec<Vec<u8>>)
        ensures
            final(self)@ == old(self)@.finalize(stream_ended_cleanly).stream,
            frames(r@) == wires(old(self)@.finalize(stream_ended_cleanly).events),
    {
        if self.envelope.completed {
            return nothing();
        }
        self.envelope.completed = true;
        assert(self@ == old(self)@.over());
        let mut events = self.flush_open_items();
        let ghost f = old(self)@.over().close_items();
        let ghost last = f.stream.terminate(stream_ended_cleanly);
        let event = self.terminal_event(stream_ended_cleanly);
        events.push(event);
        assert(f.events.push(last.events[0]) =~= f.events + last.events);
        events
    }

    fn terminal_event(&mut self, stream_ended_cleanly: bool) -> (r: Vec<u8>)
        ensures
            final(self)@ == old(self)@.terminate(stream_ended_cleanly).stream,
            r@ == wire(old(self)@.terminate(stream_ended_cleanly).events[0]),
    {
        let output = self.envelope.completed_output_items();
        assert(trees(output@).len() == output@.len());
        if self.envelope.finish_reason.is_some() || !output.is_empty() && stream_ended_cleanly {
            return self.envelope.completed_event(output);
        }
        if !output.is_empty() {
            return self.envelope.truncated_event(output);
        }
        self.envelope.failed_event(
            "Stream truncated before any output was produced",
            "stream_truncated",
        )
    }

    /// The assistant message that is kept for continuation, if there is anything to
    /// keep. Its texts are sanitized, and its reasoning is trimmed.
    pub fn build_assistant_message(&self) -> (r: Option<Json>)
        ensures
            opt_value(r) == self@.assistant_message(),
    {
        let calls = self.tools.persisted_tool_calls();
        assert(trees(calls@).len() == calls@.len());
        let parts = self.message.content_parts();
        let ghost all = trees(parts@);
        let content = if parts.len() > 0 {
            let mut clean: Vec<Json> = Vec::new();
            let mut i: usize = 0;
            assert(trees(clean@) =~= clean_parts(all).take(0));
            while i < parts.len()
                invariant
                    i <= parts@.len(),
                    all == trees(parts@),
                    trees(clean@) == clean_parts(all).take(i as int),
                decreases parts.len() - i,
            {
                assert(all[i as int] == parts@[i as int]@);
                let mut m = match parts[i].as_object() {
                    Some(m) => m.clone(),
                    None => Object::new(),
                };
                let text = match m.get_str("text") {
                    Some(s) => Some(sanitize_string(s)),
                    None => None,
                };
                if let Some(s) = text {
                    m.insert("text", Json::Str(s));
                }
                let part = Json::Object(m);
                assert(part@ == clean_part(all[i as int]));
                clean.push(part);
                assert(trees(clean@) =~= clean_parts(all).take(i as int + 1));
                i += 1;
            }
            assert(clean_parts(all).take(i as int) =~= clean_parts(all));
            let whole = Json::Array(clean);
            chat_message_content_from_response_content(Some(&whole))
        } else {
            Json::Null
        };
        assert(content@ == self@.kept_content());
        let reasoning = trimmed(sanitize_string(self.reasoning.text()).as_str());
        let has_reasoning = !reasoning.as_str().is_empty();
        if content.is_null() && calls.is_empty() && !has_reasoning {
            return None;
        }
        let mut m = Object::new().with("role", Json::text("assistant")).with("content", content);
        if !calls.is_empty() {
            m.insert("tool_calls", Json::Array(calls));
        }
        if has_reasoning {
            m.insert("reasoning_content", Json::Str(reasoning));
        }
        Some(Json::Object(m))
    }

    /// Whether the turn may be kept for continuation: it is over, and its status is
    /// one of a turn that can go on.
    pub fn should_persist(&self) -> (r: bool)
        ensures
            r == self@.persistable(),
    {
        self.envelope.completed && should_persist_response_status(self.envelope.status)
    }

    /// Fail the turn, unless it is over.
    pub fn fail(&mut self, message: &str, error_type: &str) -> (r: Vec<Vec<u8>>)
        ensures
            final(self)@ == old(self)@.fail(message@, error_type@).stream,
            frames(r@) == wires(old(self)@.fail(message@, error_type@).events),
    {
        if self.envelope.completed {
            return nothing();
        }
        self.envelope.completed = true;
        assert(self@ == old(self)@.over());
        let mut events = self.flush_open_items();
        let ghost f = old(self)@.over().close_items();
        let ghost last = f.stream.envelope.failure(message@, error_type@);
        let event = self.envelope.failed_event(message, error_type);
        events.push(event);
        assert(f.events.push(last) =~= f.events + seq![last]);
        events
    }
}

/// Whether an envelope differs from an earlier one in nothing that the end of a turn
/// goes by: items, indices and the status may have changed.
pub open spec fn same_turn(a: Envelope, b: Envelope) -> bool {
    &&& b.completed == a.completed
    &&& b.response_id == a.response_id
    &&& b.model == a.model
    &&& b.created_at == a.created_at
    &&& b.usage == a.usage
    &&& b.finish_reason == a.finish_reason
    &&& b.echo == a.echo
}

proof fn lemma_close_first_keeps_turn(t: Tools, e: Envelope, n: int)
    ensures
        same_turn(e, t.close_first(e, n).envelope),
        t.close_first(e, n).state.finalized == t.finalized,
    decreases n,
{
    if n > 0 {
        lemma_close_first_keeps_turn(t, e, n - 1);
    }
}

proof fn lemma_close_items(s: Stream)
    ensures
        same_turn(s.envelope, s.close_items().stream.envelope),
        s.close_items().stream.envelope.started,
        s.close_items().stream.reasoning.phase != Lifecycle::Open,
        s.close_items().stream.message.phase != Lifecycle::Open,
        s.close_items().stream.tools.finalized,
        s.close_items().stream.think.phase == Phase::Text,
{
    let a = s.start();
    let b = a.followed_by(a.stream.spoken(ended(a.stream.speech())));
    let c = b.followed_by(b.stream.settle());
    let d = c.followed_by(c.stream.messaged(c.stream.message.close(c.stream.envelope)));
    let t = d.stream.tools;
    assert(same_turn(s.envelope, b.stream.envelope));
    assert(same_turn(s.envelope, d.stream.envelope));
    lemma_close_first_keeps_turn(
        Tools { finalized: true, ..t },
        d.stream.envelope,
        t.calls.len() as int,
    );
    lemma_close_keeps_started(
        Tools { finalized: true, ..t },
        d.stream.envelope,
        t.calls.len() as int,
    );
}

proof fn lemma_close_keeps_started(t: Tools, e: Envelope, n: int)
    ensures
        t.close_first(e, n).envelope.started == e.started,
    decreases n,
{
    if n > 0 {
        lemma_close_keeps_started(t, e, n - 1);
    }
}

/// Whether an event ends a turn.
pub open spec fn is_terminal(e: Event) -> bool {
    e.name == "response.completed"@ || e.name == "response.failed"@
}

/// Whether none of some events ends a turn.
pub open spec fn none_terminal(events: Seq<Event>) -> bool {
    forall|i: int| 0 <= i < events.len() ==> !is_terminal(#[trigger] events[i])
}

proof fn lemma_names()
    ensures
        "response.completed"@.len() == 18,
        "response.failed"@.len() == 15,
        "response.created"@.len() == 16,
        "response.in_progress"@.len() == 20,
        "response.output_item.added"@.len() == 26,
        "response.output_item.done"@.len() == 25,
        "response.content_part.added"@.len() == 27,
        "response.content_part.done"@.len() == 26,
        "response.output_text.delta"@.len() == 26,
        "response.output_text.done"@.len() == 25,
        "response.reasoning_summary_part.added"@.len() == 37,
        "response.reasoning_summary_part.done"@.len() == 36,
        "response.reasoning_summary_text.delta"@.len() == 37,
        "response.reasoning_summary_text.done"@.len() == 36,
        "response.function_call_arguments.delta"@.len() == 38,
        "response.function_call_arguments.done"@.len() == 37,
        "response.custom_tool_call_input.delta"@.len() == 37,
        "response.custom_tool_call_input.done"@.len() == 36,
{
    reveal_strlit("response.completed");
    reveal_strlit("response.failed");
    reveal_strlit("response.created");
    reveal_strlit("response.in_progress");
    reveal_strlit("response.output_item.added");
    reveal_strlit("response.output_item.done");
    reveal_strlit("response.content_part.added");
    reveal_strlit("response.content_part.done");
    reveal_strlit("response.output_text.delta");
    reveal_strlit("response.output_text.done");
    reveal_strlit("response.reasoning_summary_part.added");
    reveal_strlit("response.reasoning_summary_part.done");
    reveal_strlit("response.reasoning_summary_text.delta");
    reveal_strlit("response.reasoning_summary_text.done");
    reveal_strlit("response.function_call_arguments.delta");
    reveal_strlit("response.function_call_arguments.done");
    reveal_strlit("response.custom_tool_call_input.delta");
    reveal_strlit("response.custom_tool_call_input.done");
}

proof fn lemma_closings_go_on(s: Seq<Piece>, id: Seq<char>, index: int)
    ensures
        none_terminal(closings(s, id, index)),
    decreases s.len(),
{
    lemma_names();
    if s.len() > 0 {
        lemma_closings_go_on(s.drop_last(), id, index);
        assert(none_terminal(s.last().closing(id, index, s.len() - 1)));
    }
}

proof fn lemma_reason_goes_on(s: Step<Speech>, text: Seq<char>)
    requires
        none_terminal(s.events),
    ensures
        none_terminal(crate::stream_inline_think::reason(s, text).events),
        none_terminal(crate::stream_inline_think::settle(s).events),
        none_terminal(crate::stream_inline_think::say(s, text).events),
{
    lemma_names();
    let r = s.state.reasoning;
    assert(none_terminal(r.start(s.envelope).events));
    assert(none_terminal(r.push(s.envelope, text).events));
    assert(none_terminal(r.close(s.envelope).events));
    let m = s.state.message;
    assert(none_terminal(m.start(s.envelope).events));
    assert(none_terminal(m.ready(s.envelope).events));
    assert(none_terminal(m.push_text(s.envelope, text).events));
}

proof fn lemma_block_goes_on(s: Step<Speech>, delta: Seq<char>)
    requires
        none_terminal(s.events),
    ensures
        none_terminal(inside_block(s, delta).events),
{
    let d = s.state.think;
    let all = d.tail + delta;
    match first_tag(all, Tag::Close) {
        Some((i, j)) => {
            let closed = Detector { phase: Phase::Text, tail: Seq::empty(), ..d };
            let a = with_detector(s, closed);
            lemma_reason_goes_on(a, all.take(i));
            let b = crate::stream_inline_think::reason(a, all.take(i));
            lemma_reason_goes_on(b, Seq::empty());
            lemma_reason_goes_on(crate::stream_inline_think::settle(b), all.skip(j));
        },
        None => {
            let n = all.len() - held_back(all);
            lemma_reason_goes_on(
                with_detector(s, Detector { tail: all.skip(n), ..d }),
                all.take(n),
            );
        },
    }
}

proof fn lemma_content_goes_on(s: Step<Speech>, delta: Seq<char>)
    requires
        none_terminal(s.events),
    ensures
        none_terminal(content(s, delta).events),
{
    let d = s.state.think;
    match d.phase {
        Phase::Text => {
            lemma_reason_goes_on(s, delta);
        },
        Phase::Reasoning => {
            lemma_block_goes_on(s, delta);
        },
        Phase::Detecting => {
            let all = d.buffer + delta;
            let front = trim_start(all);
            if let Some(j) = open_tag_end(front) {
                let inside = Detector { phase: Phase::Reasoning, buffer: Seq::empty(), ..d };
                lemma_block_goes_on(with_detector(s, inside), front.skip(j));
            }
            let text = Detector { phase: Phase::Text, buffer: Seq::empty(), ..d };
            lemma_reason_goes_on(with_detector(s, text), all);
        },
    }
}

proof fn lemma_speech_ends(s: Step<Speech>)
    requires
        none_terminal(s.events),
    ensures
        none_terminal(ended(s).events),
        none_terminal(forced(s).events),
{
    let d = s.state.think;
    let emptied = with_detector(s, Detector { tail: Seq::empty(), ..d });
    lemma_reason_goes_on(emptied, d.tail);
    let a = crate::stream_inline_think::drained(s);
    lemma_reason_goes_on(a, Seq::empty());
    let b = crate::stream_inline_think::settle(a);
    let text = Detector { phase: Phase::Text, buffer: Seq::empty(), ..b.state.think };
    lemma_reason_goes_on(with_detector(b, text), b.state.think.buffer);
    let plain = Detector { phase: Phase::Text, buffer: Seq::empty(), ..d };
    lemma_reason_goes_on(with_detector(s, plain), d.buffer);
}

proof fn lemma_call_goes_on(s: Step<Slot>, registry: Registry, index: int)
    requires
        none_terminal(s.events),
    ensures
        none_terminal(opened(s, registry, index).events),
        none_terminal(with_arguments(s).events),
        none_terminal(with_input(s).events),
{
    lemma_names();
    assert(none_terminal(s.state.call.argument_events()));
    assert(none_terminal(s.state.call.input_events()));
}

proof fn lemma_delta_goes_on(
    s: Step<Slot>,
    registry: Registry,
    index: int,
    arguments: Option<Seq<char>>,
)
    requires
        none_terminal(s.events),
    ensures
        none_terminal(delta_step(s, registry, index, arguments).events),
{
    lemma_names();
    let call = s.state.call;
    let opens = !call.added && call.has_identity();
    let t = if opens {
        maybe_held(s, registry, index)
    } else {
        s
    };
    assert(t.events == s.events);
    if t.state.call.buffered {
        let held = t.state.call;
        if let Some(c) = held.try_resolve(registry) {
            lemma_call_goes_on(with_call(t, c), registry, index);
            lemma_call_goes_on(opened(with_call(t, c), registry, index), registry, index);
        }
        let c = held.degraded(registry);
        lemma_call_goes_on(with_call(t, c), registry, index);
        lemma_call_goes_on(opened(with_call(t, c), registry, index), registry, index);
    } else if call.has_identity() {
        lemma_call_goes_on(t, registry, index);
        lemma_call_goes_on(opened(t, registry, index), registry, index);
    }
}

proof fn lemma_close_goes_on(s: Step<Slot>, registry: Registry, index: int)
    requires
        none_terminal(s.events),
    ensures
        none_terminal(close_step(s, registry, index).events),
{
    lemma_names();
    let free = with_call(s, s.state.call.unbuffered(registry));
    lemma_call_goes_on(free, registry, index);
    let o = opened(free, registry, index);
    lemma_call_goes_on(o, registry, index);
    let kind = kind_of(registry, o.state.call.name);
    let t = if kind.is_custom {
        o
    } else {
        with_arguments(o)
    };
    let call = t.state.call;
    assert(none_terminal(closing_events(call, kind, call.done_item(kind, registry))));
}

proof fn lemma_calls_close(t: Tools, e: Envelope, n: int)
    ensures
        none_terminal(t.close_first(e, n).events),
    decreases n,
{
    if n > 0 {
        lemma_calls_close(t, e, n - 1);
        let before = t.close_first(e, n - 1);
        let (index, call) = before.state.calls[n - 1];
        if !call.done {
            lemma_close_goes_on(
                at_work(call, before.state.base, before.envelope),
                before.state.registry,
                index,
            );
        }
    }
}

proof fn lemma_items_close(s: Stream)
    ensures
        none_terminal(s.close_items().events),
{
    lemma_names();
    let a = s.start();
    assert(none_terminal(a.events));
    lemma_speech_ends(a.stream.speech());
    let b = a.followed_by(a.stream.spoken(ended(a.stream.speech())));
    assert(none_terminal(b.events));
    lemma_reason_goes_on(b.stream.speech(), Seq::empty());
    assert(none_terminal(b.stream.settle().events));
    let c = b.followed_by(b.stream.settle());
    lemma_closings_go_on(
        c.stream.message.segments,
        message_id(c.stream.envelope.response_id),
        c.stream.message.index,
    );
    assert(none_terminal(c.stream.message.close(c.stream.envelope).events));
    let d = c.followed_by(c.stream.messaged(c.stream.message.close(c.stream.envelope)));
    let t = d.stream.tools;
    lemma_calls_close(
        Tools { finalized: true, ..t },
        d.stream.envelope,
        t.calls.len() as int,
    );
    assert(none_terminal(t.close(d.stream.envelope).events));
}

/// A turn ends once: the last event that ends it is a terminal one and no other is, all
/// its items are closed by then, and ending or failing it again does nothing.
pub proof fn turns_end_once(
    s: Stream,
    ended_cleanly: bool,
    again: bool,
    message: Seq<char>,
    error_type: Seq<char>,
)
    requires
        !s.envelope.completed,
    ensures
        ({
            let f = s.finalize(ended_cleanly);
            &&& f.stream.envelope.completed
            &&& f.events.len() > 0
            &&& is_terminal(f.events.last())
            &&& forall|i: int| 0 <= i < f.events.len() - 1 ==> !is_terminal(#[trigger] f.events[i])
            &&& f.stream.reasoning.phase != Lifecycle::Open
            &&& f.stream.message.phase != Lifecycle::Open
            &&& f.stream.tools.finalized
            &&& f.stream.finalize(again) == f.stream.rest()
            &&& f.stream.fail(message, error_type) == f.stream.rest()
        }),
        ({
            let f = s.fail(message, error_type);
            &&& f.stream.envelope.completed
            &&& f.events.len() > 0
            &&& f.events.last().name == "response.failed"@
            &&& forall|i: int| 0 <= i < f.events.len() - 1 ==> !is_terminal(#[trigger] f.events[i])
            &&& f.stream.reasoning.phase != Lifecycle::Open
            &&& f.stream.message.phase != Lifecycle::Open
            &&& f.stream.tools.finalized
            &&& f.stream.finalize(again) == f.stream.rest()
            &&& f.stream.fail(message, error_type) == f.stream.rest()
        }),
{
    lemma_close_items(s.over());
    lemma_items_close(s.over());
    let f = s.over().close_items();
    let e = f.stream.envelope;
    assert((f.events + f.stream.terminate(ended_cleanly).events).last() == f.stream.terminate(
        ended_cleanly,
    ).events[0]);
    assert((f.events + f.stream.terminate(ended_cleanly).events).drop_last() =~= f.events);
    assert((f.events + seq![e.failure(message, error_type)]).drop_last() =~= f.events);
}

/// Nothing but its end sends a terminal event: not its start, nor reasoning, text,
/// content, refusals or tool calls.
pub proof fn only_ends_are_terminal(
    s: Stream,
    text: Seq<char>,
    tool_call: Tree,
    reasoning: Option<Seq<char>>,
    spare_id: Seq<char>,
)
    ensures
        none_terminal(s.start().events),
        none_terminal(s.reason(text).events),
        none_terminal(s.settle().events),
        none_terminal(s.say(text).events),
        none_terminal(s.hear(text).events),
        none_terminal(s.force().events),
        none_terminal(s.refuse(text).events),
        none_terminal(s.flush().events),
        none_terminal(s.call(tool_call, reasoning, spare_id).events),
{
    lemma_names();
    let r = s.reasoning;
    assert(none_terminal(r.start(s.envelope).events));
    let m = s.message;
    assert(none_terminal(m.start(s.envelope).events));
    assert(none_terminal(m.ready(s.envelope).events));
    lemma_content_goes_on(s.speech(), text);
    lemma_speech_ends(s.speech());
    let f = s.force();
    let t = f.stream.tools;
    let index = index_of(tool_call);
    let call = call_at(t.calls, index, spare_id).with_delta(tool_call, reasoning);
    lemma_delta_goes_on(
        at_work(call, t.base, f.stream.envelope),
        t.registry,
        index,
        arguments_of(tool_call),
    );
    assert(none_terminal(t.push(f.stream.envelope, tool_call, reasoning, spare_id).events));
}

/// A turn that was cut short before upstream gave a finish reason is incomplete or failed,
/// and never kept for continuation.
pub proof fn cut_turns_are_not_kept(s: Stream)
    requires
        !s.envelope.completed,
        s.envelope.finish_reason is None,
    ensures
        !s.finalize(false).stream.persistable(),
        s.finalize(false).stream.envelope.status == Some(ResponseStatus::Incomplete)
            || s.finalize(false).stream.envelope.status == Some(ResponseStatus::Failed),
{
    lemma_close_items(s.over());
}

/// A turn that failed is never kept for continuation.
pub proof fn failed_turns_are_not_kept(s: Stream, message: Seq<char>, error_type: Seq<char>)
    requires
        !s.envelope.completed,
    ensures
        !s.fail(message, error_type).stream.persistable(),
{
}

/// A turn that upstream ended with a finish reason is kept exactly where the finish
/// reason says so, cut short or not.
pub proof fn finish_reasons_are_decisive(s: Stream, ended_cleanly: bool)
    requires
        !s.envelope.completed,
        s.envelope.finish_reason is Some,
    ensures
        s.finalize(ended_cleanly).stream.persistable() == status_of(
            s.envelope.finish_reason,
        ).persistable(),
{
    lemma_close_items(s.over());
}

/// A turn that is not over is not kept.
pub proof fn open_turns_are_not_kept(s: Stream)
    requires
        !s.envelope.completed,
    ensures
        !s.persistable(),
{
}

/// An item has the same id whether its response is streamed or converted whole: the
/// reasoning and the message of a response by its id, and a call by its call id. This
/// is said of calls whose name stands for one tool, not for a custom tool and the tool
/// search at once.
pub proof fn streamed_items_have_the_ids_of_whole_ones(
    e: Envelope,
    thinking: Thinking,
    message: Message,
    call: Call,
    registry: Registry,
    text: Seq<char>,
    parts: Seq<Tree>,
    arguments: Option<Tree>,
    reasoning: Seq<char>,
)
    requires
        call.name.len() > 0,
        !(registry.custom(Some(call.name)) && registry.search(Some(call.name))),
    ensures
        thinking.phase == Lifecycle::Open ==> thinking.close(e).envelope.items.last().1.at("id"@)
            == reasoning_item(e.response_id, text).at("id"@),
        message.phase == Lifecycle::Open ==> message.close(e).envelope.items.last().1.at("id"@)
            == message_item(e.response_id, "completed"@, parts).at("id"@),
        ({
            let kind = kind_of(registry, call.name);
            let c = call.identified(kind);
            c.done_item(kind, registry).at("id"@) == call_item(
                c.call_id,
                c.name,
                arguments,
                reasoning,
                registry,
            ).at("id"@)
        }),
{
    lemma_id_is_no_other_name();
}

proof fn lemma_id_is_no_other_name()
    ensures
        "id"@ != "type"@,
        "id"@ != "status"@,
        "id"@ != "role"@,
        "id"@ != "content"@,
        "id"@ != "summary"@,
        "id"@ != "call_id"@,
        "id"@ != "name"@,
        "id"@ != "namespace"@,
        "id"@ != "arguments"@,
        "id"@ != "input"@,
        "id"@ != "execution"@,
        "id"@ != "reasoning_content"@,
{
    reveal_strlit("id");
    reveal_strlit("type");
    reveal_strlit("status");
    reveal_strlit("role");
    reveal_strlit("content");
    reveal_strlit("summary");
    reveal_strlit("call_id");
    reveal_strlit("name");
    reveal_strlit("namespace");
    reveal_strlit("arguments");
    reveal_strlit("input");
    reveal_strlit("execution");
    reveal_strlit("reasoning_content");
    assert("id"@.len() == 2);
}

} // verus!
