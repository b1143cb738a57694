//! From a Chat Completions stream to a streamed response.
//!
//! Every chunk of the Chat stream is handed to the stream state, which answers
//! with frames. A Chat body that came as a whole is taken as one chunk for each of
//! its choices, so that both ways send the same events.
use vstd::prelude::*;
use crate::context::BridgeToolContext;
use crate::convert::message_normalization::{nonempty, nonempty_text};
use crate::convert::responses_to_chat::fresh_ids;
use crate::convert::semantics::is_text;
use crate::decoder::{Decoding, Utf8StreamDecoder};
use crate::id_gen::synthetic_tool_call_ids;
use crate::json::{
    items_in, lemma_trees_push, list_of, member, members_in, opt_members, opt_tree, opt_value,
    parsed, text_at, text_in, trees, Json, Object, Tree,
};
use crate::reasoning::{all_space, extract_reasoning_field, is_blank, reasoning_field};
use crate::sanitize::{sanitize_string, sanitized};
use crate::session_bridge::{record_of, save_session};
use crate::session_store::SessionStore;
use crate::sse::{
    block_fields, extract_block, first_block, lines, parse_sse_block, unix, without_return,
};
use crate::stream_events::{
    self, frames, lemma_frames_push, lemma_no_wires, lemma_wires_concat, lemma_wires_push, nothing,
    wires, Event,
};
use crate::stream_responses_state::{Flow, ResponsesStreamState, Stream};
use crate::text::{
    borrow_opt, fields, is_space, opt_string, opt_text, same, text_or_empty, texts, trim, trimmed,
};

verus! {

broadcast use {
    lemma_frames_push,
    lemma_wires_push,
    lemma_wires_concat,
    lemma_no_wires,
    lemma_trees_push,
};

/// Whether a chunk carries an error: its event is `error`, or it has a member of that
/// name.
pub open spec fn is_error(payload: Map<Seq<char>, Tree>, event_name: Option<Seq<char>>) -> bool {
    event_name == Some("error"@) || payload.contains_key("error"@)
}

/// The message and the type of an error.
pub open spec fn error_of(payload: Map<Seq<char>, Tree>) -> (Seq<char>, Seq<char>) {
    let (message, kind) = match member(payload, "error"@) {
        Some(Tree::Object(m)) => (text_at(m, "message"@), text_at(m, "type"@)),
        Some(Tree::Str(s)) => (Some(s), None),
        _ => (None, None),
    };
    (
        match message {
            Some(m) => m,
            None => "upstream stream error"@,
        },
        match kind {
            Some(k) => k,
            None => "stream_error"@,
        },
    )
}

/// The call id that the tool call at position `k` gets if it comes without one.
pub open spec fn spare_at(fresh: Seq<Seq<char>>, k: int) -> Seq<char> {
    if 0 <= k < fresh.len() {
        fresh[k]
    } else {
        Seq::empty()
    }
}

/// The first choice of a chunk.
pub open spec fn chunk_choice(payload: Map<Seq<char>, Tree>) -> Tree {
    match items_in(member(payload, "choices"@)) {
        Some(c) => if c.len() > 0 {
            c[0]
        } else {
            Tree::Null
        },
        None => Tree::Null,
    }
}

/// The delta of a choice.
pub open spec fn delta_of(choice: Tree) -> Map<Seq<char>, Tree> {
    match members_in(choice.at("delta"@)) {
        Some(d) => d,
        None => Map::empty(),
    }
}

/// The tool calls of a delta.
pub open spec fn calls_in(delta: Map<Seq<char>, Tree>) -> Seq<Tree> {
    match items_in(member(delta, "tool_calls"@)) {
        Some(c) => c,
        None => Seq::empty(),
    }
}

impl Stream {
    /// Take in tool calls, one after the other. What is no object is left out.
    pub open spec fn take_calls(
        self,
        calls: Seq<Tree>,
        reasoning: Option<Seq<char>>,
        fresh: Seq<Seq<char>>,
    ) -> Flow
        decreases calls.len(),
    {
        if calls.len() == 0 {
            self.rest()
        } else {
            let before = self.take_calls(calls.drop_last(), reasoning, fresh);
            if calls.last() is Object {
                before.followed_by(
                    before.stream.call(
                        calls.last(),
                        reasoning,
                        spare_at(fresh, calls.len() - 1),
                    ),
                )
            } else {
                before
            }
        }
    }

    /// The tool calls of a chunk. The reasoning that is open, or else that of the
    /// chunk, goes with them; open reasoning is closed first.
    pub open spec fn take_tool_calls(
        self,
        calls: Seq<Tree>,
        hint: Seq<char>,
        fresh: Seq<Seq<char>>,
    ) -> Flow {
        let active = self.reasoning.for_tools();
        let text = if active.len() == 0 {
            hint
        } else {
            active
        };
        let a = if active.len() == 0 {
            self.rest()
        } else {
            self.settle()
        };
        let b = a.followed_by(a.stream.force());
        let reasoning = if text.len() == 0 {
            None
        } else {
            Some(sanitized(text))
        };
        b.followed_by(b.stream.take_calls(calls, reasoning, fresh))
    }

    /// Content of a chunk that is a text. With reasoning in the same chunk it is plain
    /// text, and the reasoning is closed first.
    pub open spec fn take_text(self, text: Seq<char>, reasoning: Seq<char>) -> Flow {
        if text.len() == 0 {
            self.rest()
        } else if reasoning.len() > 0 {
            let f = self.settle();
            f.followed_by(f.stream.say(sanitized(text)))
        } else {
            self.hear(sanitized(text))
        }
    }

    /// One part of structured content, at position `at`: it closes the text before it.
    pub open spec fn take_part(self, part: Tree, at: int) -> Flow {
        match part {
            Tree::Object(m) => {
                let f = if at > 0 {
                    self.flush()
                } else {
                    self.rest()
                };
                let kind = text_at(m, "type"@);
                if kind == Some("text"@) || kind == Some("output_text"@) {
                    match nonempty(text_at(m, "text"@)) {
                        Some(t) => f.followed_by(
                            f.stream.with_annotations(member(m, "annotations"@)).say(sanitized(t)),
                        ),
                        None => f,
                    }
                } else if kind == Some("refusal"@) {
                    match nonempty(text_at(m, "refusal"@)) {
                        Some(t) => f.followed_by(f.stream.refuse(sanitized(t))),
                        None => f,
                    }
                } else {
                    f
                }
            },
            _ => self.rest(),
        }
    }

    /// The parts of structured content, one after the other.
    pub open spec fn take_parts(self, parts: Seq<Tree>) -> Flow
        decreases parts.len(),
    {
        if parts.len() == 0 {
            self.rest()
        } else {
            let before = self.take_parts(parts.drop_last());
            before.followed_by(before.stream.take_part(parts.last(), parts.len() - 1))
        }
    }

    /// Structured content: reasoning and a think block end before it.
    pub open spec fn take_structured(self, parts: Seq<Tree>) -> Flow {
        let a = self.settle();
        let b = a.followed_by(a.stream.force());
        b.followed_by(b.stream.take_parts(parts))
    }

    /// The reasoning of a chunk.
    pub open spec fn take_reasoning(self, reasoning: Seq<char>) -> Flow {
        if reasoning.len() == 0 {
            self.rest()
        } else {
            self.reason(sanitized(reasoning))
        }
    }

    /// The content of a chunk.
    pub open spec fn take_content(self, value: Option<Tree>, reasoning: Seq<char>) -> Flow {
        match value {
            Some(Tree::Str(s)) => self.take_text(s, reasoning),
            Some(Tree::Array(parts)) => self.take_structured(parts),
            _ => self.rest(),
        }
    }

    /// The refusal of a chunk: reasoning and the open text end before it.
    pub open spec fn take_refusal(self, refusal: Option<Seq<char>>) -> Flow {
        match nonempty(refusal) {
            Some(t) => {
                let a = self.settle();
                let b = a.followed_by(a.stream.flush());
                b.followed_by(b.stream.refuse(sanitized(t)))
            },
            None => self.rest(),
        }
    }

    /// The tool calls of a delta, if it has any.
    pub open spec fn take_delta_calls(
        self,
        delta: Map<Seq<char>, Tree>,
        reasoning: Seq<char>,
        fresh: Seq<Seq<char>>,
    ) -> Flow {
        if calls_in(delta).len() == 0 {
            self.rest()
        } else {
            self.take_tool_calls(calls_in(delta), reasoning, fresh)
        }
    }

    /// The members of a delta: its reasoning, its content with annotations, its tool
    /// calls and its refusal, in this order.
    #[verifier::opaque]
    pub open spec fn take_members(
        self,
        delta: Map<Seq<char>, Tree>,
        reasoning: Seq<char>,
        fresh: Seq<Seq<char>>,
    ) -> Flow {
        let a = self.take_reasoning(reasoning);
        let b = a.followed_by(
            a.stream.with_annotations(member(delta, "annotations"@)).take_content(
                member(delta, "content"@),
                reasoning,
            ),
        );
        let c = b.followed_by(b.stream.take_delta_calls(delta, reasoning, fresh));
        c.followed_by(c.stream.take_refusal(text_at(delta, "refusal"@)))
    }

    /// A chunk without an error. `fresh` holds a call id for each tool call that has
    /// none.
    pub open spec fn take_delta(self, payload: Map<Seq<char>, Tree>, fresh: Seq<Seq<char>>) -> Flow {
        let choice = chunk_choice(payload);
        let delta = delta_of(choice);
        let reasoning = text_or_empty(reasoning_field(delta));
        let a = self.with_metadata(Tree::Object(payload)).start();
        let b = a.followed_by(a.stream.take_members(delta, reasoning, fresh));
        match nonempty(text_in(choice.at("finish_reason"@))) {
            Some(r) => Flow { stream: b.stream.with_finish_reason(r), ..b },
            None => b,
        }
    }

    /// A chunk. An error fails the turn.
    pub open spec fn take_chunk(
        self,
        payload: Map<Seq<char>, Tree>,
        event_name: Option<Seq<char>>,
        fresh: Seq<Seq<char>>,
    ) -> Flow {
        if is_error(payload, event_name) {
            self.fail(error_of(payload).0, error_of(payload).1)
        } else {
            self.take_delta(payload, fresh)
        }
    }

    /// A message of the Chat stream, by what its data denotes. The mark `[DONE]` ends
    /// the turn, and data that denotes no object is skipped.
    pub open spec fn take_message(
        self,
        event_name: Option<Seq<char>>,
        data: Seq<char>,
        denoted: Option<Tree>,
        fresh: Seq<Seq<char>>,
    ) -> Flow {
        if trim(data) == "[DONE]"@ {
            self.finalize(true)
        } else {
            match members_in(denoted) {
                Some(payload) => self.take_chunk(payload, event_name, fresh),
                None => self.rest(),
            }
        }
    }
}

/// Fail the turn where a chunk carries an error.
fn error_events(payload: &Object, event_name: Option<&str>, state: &mut ResponsesStreamState) -> (r:
    Option<Vec<Vec<u8>>>)
    ensures
        match r {
            Some(events) => {
                let f = old(state)@.fail(error_of(payload@).0, error_of(payload@).1);
                &&& is_error(payload@, opt_text(event_name))
                &&& final(state)@ == f.stream
                &&& frames(events@) == wires(f.events)
            },
            None => !is_error(payload@, opt_text(event_name)) && final(state)@ == old(state)@,
        },
{
    if !is_text(event_name, "error") && !payload.has("error") {
        return None;
    }
    let (message, kind) = match payload.get("error") {
        Some(Json::Object(m)) => (m.get_str("message"), m.get_str("type")),
        Some(Json::Str(s)) => (Some(s.as_str()), None),
        _ => (None, None),
    };
    let message = match message {
        Some(m) => m,
        None => "upstream stream error",
    };
    let kind = match kind {
        Some(k) => k,
        None => "stream_error",
    };
    Some(state.fail(message, kind))
}

/// Take in the tool calls of a chunk.
fn tool_call_events(
    state: &mut ResponsesStreamState,
    tool_calls: &Vec<Json>,
    reasoning_hint: &str,
    fresh: &Vec<String>,
) -> (r: Vec<Vec<u8>>)
    ensures
        ({
            let f = old(state)@.take_tool_calls(
                trees(tool_calls@),
                reasoning_hint@,
                texts(fresh@),
            );
            &&& final(state)@ == f.stream
            &&& frames(r@) == wires(f.events)
        }),
{
    let mut events = nothing();
    let active = state.active_reasoning_text_for_tools();
    let text = if active.as_str().is_empty() {
        reasoning_hint.to_owned()
    } else {
        active.clone()
    };
    if !active.as_str().is_empty() {
        events = state.finalize_reasoning_if_open();
    }
    let forced = state.force_inline_think_to_text();
    stream_events::extend(&mut events, forced);
    let reasoning = if text.as_str().is_empty() {
        None
    } else {
        Some(sanitize_string(text.as_str()))
    };
    let ghost s = state@;
    let ghost before = frames(events@);
    let ghost all = trees(tool_calls@);
    let mut i: usize = 0;
    assert(all.take(0) =~= Seq::empty());
    assert(before + wires(Seq::empty()) =~= before);
    while i < tool_calls.len()
        invariant
            i <= tool_calls@.len(),
            all == trees(tool_calls@),
            state@ == s.take_calls(
                all.take(i as int),
                opt_string(reasoning),
                texts(fresh@),
            ).stream,
            frames(events@) == before + wires(
                s.take_calls(all.take(i as int), opt_string(reasoning), texts(fresh@)).events,
            ),
        decreases tool_calls.len() - i,
    {
        assert(all.take(i as int + 1).drop_last() =~= all.take(i as int));
        assert(all.take(i as int + 1).last() == tool_calls@[i as int]@);
        if tool_calls[i].is_object() {
            let spare = if i < fresh.len() {
                fresh[i].as_str()
            } else {
                proof {
                    reveal_strlit("");
                    assert(""@ =~= Seq::<char>::empty());
                }
                ""
            };
            assert(spare@ == spare_at(texts(fresh@), i as int));
            let more = state.push_tool_call_delta_with(
                &tool_calls[i],
                borrow_opt(&reasoning),
                spare,
            );
            let ghost done = frames(events@);
            stream_events::extend(&mut events, more);
            proof {
                let t = s.take_calls(all.take(i as int), opt_string(reasoning), texts(fresh@));
                let u = t.stream.call(
                    tool_calls@[i as int]@,
                    opt_string(reasoning),
                    spare@,
                );
                assert(frames(events@) =~= before + (wires(t.events) + wires(u.events)));
            }
        }
        i += 1;
    }
    assert(all.take(i as int) =~= all);
    events
}

/// Take in content that is a text.
fn string_content_events(
    state: &mut ResponsesStreamState,
    content: &str,
    reasoning_delta: &str,
) -> (r: Vec<Vec<u8>>)
    ensures
        final(state)@ == old(state)@.take_text(content@, reasoning_delta@).stream,
        frames(r@) == wires(old(state)@.take_text(content@, reasoning_delta@).events),
{
    if content.is_empty() {
        return nothing();
    }
    let clean = sanitize_string(content);
    if !reasoning_delta.is_empty() {
        let mut events = state.finalize_reasoning_if_open();
        let more = state.push_text_delta(clean.as_str());
        stream_events::extend(&mut events, more);
        return events;
    }
    state.push_content_delta(clean.as_str())
}

/// Take in one part of structured content.
fn part_events(state: &mut ResponsesStreamState, part: &Json, at: usize) -> (r: Vec<Vec<u8>>)
    ensures
        final(state)@ == old(state)@.take_part(part@, at as int).stream,
        frames(r@) == wires(old(state)@.take_part(part@, at as int).events),
{
    let m = match part.as_object() {
        Some(m) => m,
        None => {
            return nothing();
        },
    };
    let mut events = nothing();
    if at > 0 {
        events = state.flush_open_text_part();
    }
    let kind = m.get_str("type");
    if is_text(kind, "text") || is_text(kind, "output_text") {
        if let Some(text) = nonempty_text(m.get_str("text")) {
            state.add_annotations(m.get("annotations"));
            let more = state.push_text_delta(sanitize_string(text).as_str());
            stream_events::extend(&mut events, more);
        }
    } else if is_text(kind, "refusal") {
        if let Some(refusal) = nonempty_text(m.get_str("refusal")) {
            let more = state.push_refusal_part(sanitize_string(refusal).as_str());
            stream_events::extend(&mut events, more);
        }
    }
    events
}

/// Take in structured content.
fn structured_content_events(state: &mut ResponsesStreamState, content: &Vec<Json>) -> (r: Vec<
    Vec<u8>,
>)
    ensures
        final(state)@ == old(state)@.take_structured(trees(content@)).stream,
        frames(r@) == wires(old(state)@.take_structured(trees(content@)).events),
{
    let mut events = state.finalize_reasoning_if_open();
    let forced = state.force_inline_think_to_text();
    stream_events::extend(&mut events, forced);
    let ghost s = state@;
    let ghost before = frames(events@);
    let ghost all = trees(content@);
    let mut i: usize = 0;
    assert(all.take(0) =~= Seq::empty());
    assert(before + wires(Seq::empty()) =~= before);
    while i < content.len()
        invariant
            i <= content@.len(),
            all == trees(content@),
            state@ == s.take_parts(all.take(i as int)).stream,
            frames(events@) == before + wires(s.take_parts(all.take(i as int)).events),
        decreases content.len() - i,
    {
        assert(all.take(i as int + 1).drop_last() =~= all.take(i as int));
        assert(all.take(i as int + 1).last() == content@[i as int]@);
        let more = part_events(state, &content[i], i);
        stream_events::extend(&mut events, more);
        proof {
            let t = s.take_parts(all.take(i as int));
            let u = t.stream.take_part(content@[i as int]@, i as int);
            assert(frames(events@) =~= before + (wires(t.events) + wires(u.events)));
        }
        i += 1;
    }
    assert(all.take(i as int) =~= all);
    events
}

/// The tool calls of a chunk.
pub open spec fn chunk_calls(payload: Map<Seq<char>, Tree>) -> Seq<Tree> {
    calls_in(delta_of(chunk_choice(payload)))
}

/// The first choice of a chunk.
fn choice_in(payload: &Object) -> (r: Option<&Json>)
    ensures
        match r {
            Some(c) => c@ == chunk_choice(payload@),
            None => chunk_choice(payload@) == Tree::Null,
        },
{
    match payload.get_array("choices") {
        Some(choices) => {
            assert(trees(choices@).len() == choices@.len());
            if choices.len() > 0 {
                Some(&choices[0])
            } else {
                None
            }
        },
        None => None,
    }
}

/// How many tool calls a chunk has.
fn count_calls(payload: &Object) -> (r: usize)
    ensures
        r == chunk_calls(payload@).len(),
{
    match choice_in(payload) {
        Some(c) => match c.get("delta") {
            Some(Json::Object(d)) => match d.get_array("tool_calls") {
                Some(calls) => {
                    assert(trees(calls@).len() == calls@.len());
                    calls.len()
                },
                None => 0,
            },
            _ => 0,
        },
        None => 0,
    }
}

/// Take in the reasoning of a chunk.
fn reasoning_events(state: &mut ResponsesStreamState, reasoning: &str) -> (r: Vec<Vec<u8>>)
    ensures
        final(state)@ == old(state)@.take_reasoning(reasoning@).stream,
        frames(r@) == wires(old(state)@.take_reasoning(reasoning@).events),
{
    if reasoning.is_empty() {
        return nothing();
    }
    state.push_reasoning_delta(sanitize_string(reasoning).as_str())
}

/// Take in the content of a chunk.
fn content_events(state: &mut ResponsesStreamState, value: Option<&Json>, reasoning: &str) -> (r:
    Vec<Vec<u8>>)
    ensures
        final(state)@ == old(state)@.take_content(opt_tree(value), reasoning@).stream,
        frames(r@) == wires(old(state)@.take_content(opt_tree(value), reasoning@).events),
{
    match value {
        Some(Json::Str(content)) => string_content_events(state, content.as_str(), reasoning),
        Some(Json::Array(content)) => structured_content_events(state, content),
        _ => nothing(),
    }
}

/// Take in the refusal of a chunk.
fn refusal_events(state: &mut ResponsesStreamState, refusal: Option<&str>) -> (r: Vec<Vec<u8>>)
    ensures
        final(state)@ == old(state)@.take_refusal(opt_text(refusal)).stream,
        frames(r@) == wires(old(state)@.take_refusal(opt_text(refusal)).events),
{
    match nonempty_text(refusal) {
        Some(text) => {
            let mut events = state.finalize_reasoning_if_open();
            let flushed = state.flush_open_text_part();
            stream_events::extend(&mut events, flushed);
            let refused = state.push_refusal_part(sanitize_string(text).as_str());
            stream_events::extend(&mut events, refused);
            events
        },
        None => nothing(),
    }
}

/// Take in the tool calls of a chunk, if it has any.
fn delta_call_events(
    state: &mut ResponsesStreamState,
    delta: &Object,
    reasoning: &str,
    fresh: &Vec<String>,
) -> (r: Vec<Vec<u8>>)
    ensures
        ({
            let f = old(state)@.take_delta_calls(delta@, reasoning@, texts(fresh@));
            &&& final(state)@ == f.stream
            &&& frames(r@) == wires(f.events)
        }),
{
    if let Some(calls) = delta.get_array("tool_calls") {
        assert(trees(calls@).len() == calls@.len());
        if calls.len() > 0 {
            return tool_call_events(state, calls, reasoning, fresh);
        }
    }
    nothing()
}

/// The delta of the first choice of a chunk.
fn delta_in(choice: Option<&Json>) -> (r: Object)
    ensures
        r@ == delta_of(
            match choice {
                Some(c) => c@,
                None => Tree::Null,
            },
        ),
{
    match choice {
        Some(c) => match c.get("delta") {
            Some(Json::Object(d)) => d.clone(),
            _ => Object::new(),
        },
        None => Object::new(),
    }
}

/// Take in the delta of a chunk.
fn delta_events(
    state: &mut ResponsesStreamState,
    delta: &Object,
    reasoning: &str,
    fresh: &Vec<String>,
) -> (r: Vec<Vec<u8>>)
    ensures
        ({
            let f = old(state)@.take_members(delta@, reasoning@, texts(fresh@));
            &&& final(state)@ == f.stream
            &&& frames(r@) == wires(f.events)
        }),
{
    reveal(Stream::take_members);
    let ghost s = state@;
    let mut events = reasoning_events(state, reasoning);
    let ghost a = s.take_reasoning(reasoning@);
    let ghost annotated = a.stream.with_annotations(member(delta@, "annotations"@));
    state.add_annotations(delta.get("annotations"));
    assert(state@ == annotated);
    let ghost b = annotated.take_content(member(delta@, "content"@), reasoning@);
    let said = content_events(state, delta.get("content"), reasoning);
    stream_events::extend(&mut events, said);
    assert(state@ == b.stream);
    let ghost c = b.stream.take_delta_calls(delta@, reasoning@, texts(fresh@));
    let called = delta_call_events(state, delta, reasoning, fresh);
    stream_events::extend(&mut events, called);
    assert(state@ == c.stream);
    let refused = refusal_events(state, delta.get_str("refusal"));
    stream_events::extend(&mut events, refused);
    events
}

/// Take in a chunk without an error.
fn chunk_events(payload: &Object, state: &mut ResponsesStreamState, fresh: &Vec<String>) -> (r: Vec<
    Vec<u8>,
>)
    ensures
        final(state)@ == old(state)@.take_delta(payload@, texts(fresh@)).stream,
        frames(r@) == wires(old(state)@.take_delta(payload@, texts(fresh@)).events),
{
    let ghost s = state@.with_metadata(Tree::Object(payload@));
    let whole = Json::Object(payload.clone());
    state.apply_chunk_metadata(&whole);
    assert(state@ == s);
    let mut events = state.ensure_started();
    let ghost a = s.start();
    assert(state@ == a.stream && frames(events@) == wires(a.events));
    let choice = choice_in(payload);
    let delta = delta_in(choice);
    let reasoning = match extract_reasoning_field(&delta) {
        Some(s) => s,
        None => String::new(),
    };
    assert(reasoning@ =~= text_or_empty(reasoning_field(delta@)));
    let more = delta_events(state, &delta, reasoning.as_str(), fresh);
    stream_events::extend(&mut events, more);
    let ghost b = a.followed_by(a.stream.take_members(delta@, reasoning@, texts(fresh@)));
    assert(state@ == b.stream && frames(events@) == wires(b.events));
    if let Some(c) = choice {
        if let Some(reason) = nonempty_text(c.get_str("finish_reason")) {
            state.set_finish_reason(reason);
        }
    }
    events
}

/// Take in a chunk of the Chat stream. `fresh` holds a call id for each tool call that
/// has none.
pub fn process_chat_chunk_with(
    payload: &Object,
    event_name: Option<&str>,
    state: &mut ResponsesStreamState,
    fresh: &Vec<String>,
) -> (r: Vec<Vec<u8>>)
    ensures
        ({
            let f = old(state)@.take_chunk(payload@, opt_text(event_name), texts(fresh@));
            &&& final(state)@ == f.stream
            &&& frames(r@) == wires(f.events)
        }),
{
    match error_events(payload, event_name, state) {
        Some(events) => events,
        None => chunk_events(payload, state, fresh),
    }
}

/// Take in a chunk of the Chat stream, and say what it sends. Both the streamed and
/// the buffered way go through here.
pub fn process_chat_chunk(
    payload: &Object,
    event_name: Option<&str>,
    state: &mut ResponsesStreamState,
) -> (r: Vec<Vec<u8>>)
    ensures
        exists|fresh: Seq<Seq<char>>|
            #![trigger fresh_ids(fresh, chunk_calls(payload@).len())]
            fresh_ids(fresh, chunk_calls(payload@).len()) && ({
                let f = old(state)@.take_chunk(payload@, opt_text(event_name), fresh);
                &&& final(state)@ == f.stream
                &&& frames(r@) == wires(f.events)
            }),
{
    let fresh = synthetic_tool_call_ids(count_calls(payload));
    assert(fresh_ids(texts(fresh@), chunk_calls(payload@).len()));
    process_chat_chunk_with(payload, event_name, state, &fresh)
}

/// Take in a message of the Chat stream, by what its data denotes. `fresh` holds a call
/// id for each tool call that has none.
pub fn process_denoted_message(
    event_name: Option<&str>,
    data: &str,
    denoted: Option<&Json>,
    state: &mut ResponsesStreamState,
    fresh: &Vec<String>,
) -> (r: Vec<Vec<u8>>)
    ensures
        ({
            let f = old(state)@.take_message(
                opt_text(event_name),
                data@,
                opt_tree(denoted),
                texts(fresh@),
            );
            &&& final(state)@ == f.stream
            &&& frames(r@) == wires(f.events)
        }),
{
    if same(trimmed(data).as_str(), "[DONE]") {
        return state.finalize(true);
    }
    match denoted {
        Some(Json::Object(payload)) => process_chat_chunk_with(payload, event_name, state, fresh),
        _ => nothing(),
    }
}

/// How many tool calls the data of a message has.
pub open spec fn message_calls(denoted: Option<Tree>) -> nat {
    match members_in(denoted) {
        Some(payload) => chunk_calls(payload).len(),
        None => 0,
    }
}

/// Take in a message of the Chat stream.
pub fn process_sse_message(
    event_name: Option<&str>,
    data: &str,
    state: &mut ResponsesStreamState,
) -> (r: Vec<Vec<u8>>)
    ensures
        exists|fresh: Seq<Seq<char>>|
            #![trigger fresh_ids(fresh, message_calls(parsed(data@)))]
            fresh_ids(fresh, message_calls(parsed(data@))) && ({
                let f = old(state)@.take_message(
                    opt_text(event_name),
                    data@,
                    parsed(data@),
                    fresh,
                );
                &&& final(state)@ == f.stream
                &&& frames(r@) == wires(f.events)
            }),
{
    let denoted = Json::parse(data);
    let n: usize = match &denoted {
        Some(Json::Object(payload)) => count_calls(payload),
        _ => 0,
    };
    let fresh = synthetic_tool_call_ids(n);
    assert(fresh_ids(texts(fresh@), message_calls(parsed(data@))));
    let value = match &denoted {
        Some(v) => Some(v),
        None => None,
    };
    assert(opt_tree(value) == parsed(data@));
    process_denoted_message(event_name, data, value, state, &fresh)
}

/// A message of the Chat stream: its event name and its data.
pub open spec fn message_view(m: (Option<String>, String)) -> (Option<Seq<char>>, Seq<char>) {
    (opt_string(m.0), m.1@)
}

/// The messages of the Chat stream.
pub open spec fn message_views(s: Seq<(Option<String>, String)>) -> Seq<
    (Option<Seq<char>>, Seq<char>),
> {
    s.map_values(|m: (Option<String>, String)| message_view(m))
}

/// The message that a frame carries: none where it is blank or has no data.
pub open spec fn block_message(block: Seq<char>) -> Option<(Option<Seq<char>>, Seq<char>)> {
    if trim(block).len() == 0 {
        None
    } else {
        let (event, data) = block_fields(block);
        match nonempty(data) {
            Some(d) => Some((event, d)),
            None => None,
        }
    }
}

/// The messages of the complete frames of a buffer.
pub open spec fn messages_in(buffer: Seq<char>) -> Seq<(Option<Seq<char>>, Seq<char>)>
    decreases buffer.len(),
{
    match first_block(buffer) {
        Some((block, rest)) => if rest.len() < buffer.len() {
            match block_message(block) {
                Some(m) => seq![m] + messages_in(rest),
                None => messages_in(rest),
            }
        } else {
            Seq::empty()
        },
        None => Seq::empty(),
    }
}

/// What follows the complete frames of a buffer.
pub open spec fn remainder(buffer: Seq<char>) -> Seq<char>
    decreases buffer.len(),
{
    match first_block(buffer) {
        Some((block, rest)) => if rest.len() < buffer.len() {
            remainder(rest)
        } else {
            buffer
        },
        None => buffer,
    }
}

proof fn lemma_unix_len(s: Seq<char>)
    ensures
        unix(s).len() <= s.len(),
    decreases s.len(),
{
    if s.len() > 0 {
        lemma_unix_len(s.drop_first());
    }
}

proof fn lemma_block_len(buffer: Seq<char>)
    ensures
        first_block(buffer) matches Some((block, rest)) ==> block.len() + 2 + rest.len()
            <= buffer.len(),
{
    lemma_unix_len(buffer);
    crate::text::lemma_position(unix(buffer), crate::sse::delimiter(), 0);
    reveal_strlit("\n\n");
}

/// The messages of the complete frames of `buffer`, and what follows them.
pub fn drain_sse_blocks(buffer: &str) -> (r: (Vec<(Option<String>, String)>, String))
    ensures
        message_views(r.0@) == messages_in(buffer@),
        r.1@ == remainder(buffer@),
{
    let mut messages: Vec<(Option<String>, String)> = Vec::new();
    let mut rest = buffer.to_owned();
    let mut more = true;
    assert(message_views(messages@) + messages_in(buffer@) =~= messages_in(buffer@));
    while more
        invariant
            message_views(messages@) + messages_in(rest@) == messages_in(buffer@),
            remainder(rest@) == remainder(buffer@),
            !more ==> first_block(rest@) is None,
        decreases rest@.len() + if more { 1int } else { 0 },
    {
        let ghost before = rest@;
        proof {
            lemma_block_len(before);
        }
        match extract_block(rest.as_str()) {
            Some((block, remaining)) => {
                rest = remaining;
                if !is_blank(block.as_str()) {
                    let (event, data) = parse_sse_block(block.as_str());
                    if let Some(d) = data {
                        if !d.as_str().is_empty() {
                            let ghost m = (opt_string(event), d@);
                            let ghost done = message_views(messages@);
                            messages.push((event, d));
                            assert(message_views(messages@) =~= done.push(m));
                            assert(done + (seq![m] + messages_in(rest@)) =~= done.push(m)
                                + messages_in(rest@));
                        }
                    }
                }
            },
            None => {
                more = false;
            },
        }
    }
    assert(message_views(messages@) + Seq::empty() =~= message_views(messages@));
    (messages, rest)
}

/// Whether no line of a text ends in a carriage return and a line feed.
spec fn plain(s: Seq<char>) -> bool {
    forall|i: int| 0 <= i && i + 1 < s.len() && s[i] == '\r' ==> #[trigger] s[i + 1] != '\n'
}

/// Whether no carriage return of a text follows another one.
pub open spec fn single_returns(s: Seq<char>) -> bool {
    forall|i: int| 0 <= i && i + 1 < s.len() && s[i] == '\r' ==> #[trigger] s[i + 1] != '\r'
}

proof fn lemma_plain_skip(s: Seq<char>, n: int)
    requires
        plain(s),
        0 <= n <= s.len(),
    ensures
        plain(s.skip(n)),
{
    let t = s.skip(n);
    assert forall|i: int| 0 <= i && i + 1 < t.len() && t[i] == '\r' implies #[trigger] t[i + 1]
        != '\n' by {
        assert(s[n + i] == t[i]);
        assert(s[(n + i) + 1] == t[i + 1]);
    }
}

proof fn lemma_plain_front(a: Seq<char>, b: Seq<char>)
    requires
        plain(a + b),
    ensures
        plain(a),
{
    assert forall|i: int| 0 <= i && i + 1 < a.len() && a[i] == '\r' implies #[trigger] a[i + 1]
        != '\n' by {
        assert((a + b)[i] == a[i]);
        assert((a + b)[i + 1] == a[i + 1]);
    }
}

/// Dropping the carriage returns of line ends leaves none, where they stand alone.
proof fn lemma_unix_is_plain(s: Seq<char>)
    requires
        single_returns(s),
    ensures
        plain(unix(s)),
        s.len() > 0 ==> unix(s).len() > 0 && unix(s).last() == s.last(),
        s.len() > 0 ==> unix(s)[0] == if s[0] == '\r' && s.len() > 1 && s[1] == '\n' {
            '\n'
        } else {
            s[0]
        },
    decreases s.len(),
{
    if s.len() > 0 {
        let tail = s.drop_first();
        assert forall|i: int| 0 <= i && i + 1 < tail.len() && tail[i] == '\r' implies #[trigger] tail[
        i + 1] != '\r' by {
            assert(s[i + 1] == tail[i]);
            assert(s[(i + 1) + 1] == tail[i + 1]);
        }
        lemma_unix_is_plain(tail);
        if s.len() > 1 {
            assert(tail[0] == s[1]);
            assert(s[0int + 1] == s[1]);
            if tail.len() > 1 {
                assert(tail[1] == s[2]);
                assert(s[1int + 1] == s[2]);
            }
        }
        if !(s[0] == '\r' && s.len() > 1 && s[1] == '\n') {
            let u = unix(s);
            assert(u == seq![s[0]] + unix(tail));
            assert forall|i: int| 0 <= i && i + 1 < u.len() && u[i] == '\r' implies #[trigger] u[i
                + 1] != '\n' by {
                if i > 0 {
                    assert(u[i] == unix(tail)[i - 1]);
                    assert(u[i + 1] == unix(tail)[(i - 1) + 1]);
                } else {
                    assert(u[1] == unix(tail)[0]);
                }
            }
            if tail.len() == 0 {
                assert(unix(tail) =~= Seq::empty());
            }
        }
    }
}

/// The remainder of a plain text is its end.
proof fn lemma_plain_remainder(s: Seq<char>)
    requires
        plain(s),
    ensures
        exists|k: int| 0 <= k <= s.len() && remainder(s) == #[trigger] s.skip(k),
        first_block(remainder(s)) is None,
    decreases s.len(),
{
    crate::sse::lemma_unix_same(s);
    match first_block(s) {
        Some((block, rest)) => {
            lemma_block_len(s);
            crate::sse::blocks_rejoin(s);
            reveal_strlit("\n\n");
            let n = block.len() as int + 2;
            assert(rest =~= s.skip(n));
            lemma_plain_skip(s, n);
            lemma_plain_remainder(rest);
            let k = choose|k: int| 0 <= k <= rest.len() && remainder(rest) == #[trigger] rest.skip(k);
            assert(rest.skip(k) =~= s.skip(n + k));
        },
        None => {
            assert(s.skip(0) =~= s);
        },
    }
}

/// Two pieces of a plain text give the messages of both in one.
proof fn lemma_plain_pieces(a: Seq<char>, b: Seq<char>)
    requires
        plain(a + b),
    ensures
        messages_in(a + b) == messages_in(a) + messages_in(remainder(a) + b),
        remainder(a + b) == remainder(remainder(a) + b),
    decreases a.len(),
{
    lemma_plain_front(a, b);
    crate::sse::lemma_unix_same(a);
    crate::sse::lemma_unix_same(a + b);
    match first_block(a) {
        Some((block, rest)) => {
            lemma_block_len(a);
            crate::sse::lemma_block_stays(a, b);
            let n = block.len() as int + 2;
            assert(rest =~= a.skip(n)) by {
                crate::sse::blocks_rejoin(a);
                reveal_strlit("\n\n");
            }
            assert(rest + b =~= (a + b).skip(n));
            lemma_plain_skip(a + b, n);
            lemma_plain_pieces(rest, b);
            assert(rest.len() < a.len());
            assert((rest + b).len() < (a + b).len());
            if let Some(m) = block_message(block) {
                assert(seq![m] + (messages_in(rest) + messages_in(remainder(a) + b)) =~= seq![m]
                    + messages_in(rest) + messages_in(remainder(a) + b));
            }
        },
        None => {
            assert(Seq::empty() + messages_in(a + b) =~= messages_in(a + b));
        },
    }
}

/// A text gives the messages that it gives with unix line ends.
proof fn lemma_unix_messages(s: Seq<char>)
    requires
        plain(unix(s)),
    ensures
        messages_in(s) == messages_in(unix(s)),
        unix(remainder(s)) == remainder(unix(s)),
        first_block(s) == first_block(unix(s)),
        first_block(s) is Some ==> remainder(s) == remainder(unix(s)),
{
    let u = unix(s);
    crate::sse::lemma_unix_same(u);
    lemma_block_len(s);
    lemma_block_len(u);
    if let Some((block, rest)) = first_block(s) {
        lemma_plain_remainder(u);
        let k = choose|k: int| 0 <= k <= u.len() && remainder(u) == #[trigger] u.skip(k);
        lemma_plain_skip(u, k);
        crate::sse::lemma_unix_same(remainder(u));
    }
}

/// A carriage return at the end completes no frame.
proof fn lemma_return_behind(s: Seq<char>)
    requires
        plain(s.push('\r')),
        first_block(s) is None,
    ensures
        first_block(s.push('\r')) is None,
{
    reveal_strlit("\n\n");
    let t = s.push('\r');
    assert(t =~= s + seq!['\r']);
    lemma_plain_front(s, seq!['\r']);
    crate::sse::lemma_unix_same(s);
    crate::sse::lemma_unix_same(t);
    crate::sse::blocks_rejoin(s);
    if let Some((block, rest)) = first_block(t) {
        crate::sse::blocks_rejoin(t);
        let p = block.len() as int;
        assert(t[p] == '\n' && t[p + 1] == '\n') by {
            assert(t == block + crate::sse::delimiter() + rest);
        }
        assert(s.subrange(p, p + 2) =~= crate::sse::delimiter());
        assert(crate::text::occurs_at(s, crate::sse::delimiter(), p));
    }
}

/// What is left of the first of two pieces goes on with the second as the end of both
/// does. `pre` is the first piece without the half of a line end that it may end in.
proof fn lemma_cut_line_end(a: Seq<char>, b: Seq<char>, pre: Seq<char>)
    requires
        single_returns(a + b),
        if a.len() > 0 && b.len() > 0 && a.last() == '\r' && b[0] == '\n' {
            pre == a.drop_last()
        } else {
            pre == a
        },
    ensures
        plain(unix(a)),
        plain(unix(a + b)),
        unix(a + b) == unix(pre) + unix(b),
        unix(remainder(a) + b) == remainder(unix(pre)) + unix(b),
        messages_in(a) == messages_in(unix(pre)),
{
    let all = a + b;
    assert forall|i: int| 0 <= i && i + 1 < a.len() && a[i] == '\r' implies #[trigger] a[i + 1]
        != '\r' by {
        assert(all[i] == a[i]);
        assert(all[i + 1] == a[i + 1]);
    }
    lemma_unix_is_plain(a);
    lemma_unix_is_plain(all);
    lemma_unix_messages(a);
    let r = remainder(a);
    if pre == a {
        crate::sse::lemma_unix_concat(a, b);
        if first_block(a) is Some {
            lemma_plain_remainder(unix(a));
            let k = choose|k: int| 0 <= k <= unix(a).len() && remainder(unix(a)) == #[trigger] unix(
                a,
            ).skip(k);
            if r.len() > 0 {
                assert(r.last() == unix(a).last());
                assert(r.last() == a.last());
            }
            crate::sse::lemma_unix_concat(r, b);
            lemma_plain_skip(unix(a), k);
            crate::sse::lemma_unix_same(r);
        }
    } else {
        let end = seq!['\r'];
        assert(a =~= pre + end);
        assert(all =~= pre + (end + b));
        crate::sse::lemma_unix_concat(pre, end);
        assert(unix(end) =~= end) by {
            reveal_with_fuel(unix, 2);
        }
        crate::sse::lemma_unix_concat(pre, end + b);
        assert((end + b).drop_first() =~= b);
        let u = unix(pre);
        let u0 = remainder(u);
        lemma_plain_front(u, end);
        lemma_plain_remainder(u);
        let k = choose|k: int| 0 <= k <= u.len() && u0 == #[trigger] u.skip(k);
        lemma_plain_pieces(u, end);
        assert(u0 + end =~= (u + end).skip(k));
        lemma_plain_skip(u + end, k);
        assert(u0 + end =~= u0.push('\r'));
        lemma_return_behind(u0);
        assert(messages_in(u0 + end) =~= Seq::empty());
        assert(messages_in(unix(a)) =~= messages_in(u));
        assert(remainder(unix(a)) == u0 + end);
        lemma_plain_skip(u, k);
        crate::sse::lemma_unix_same(u0);
        if first_block(a) is Some {
            assert(r == u0 + end);
            assert(r + b =~= u0 + (end + b));
            crate::sse::lemma_unix_concat(u0, end + b);
        } else {
            assert(r == a);
            assert(unix(a) == u + end);
            assert(u0 + end == u + end);
            assert(u0 =~= u) by {
                assert((u0 + end).drop_last() =~= u0);
                assert((u + end).drop_last() =~= u);
            }
        }
    }
}

proof fn lemma_messages_have_data(buffer: Seq<char>)
    ensures
        forall|i: int|
            0 <= i < messages_in(buffer).len() ==> (#[trigger] messages_in(buffer)[i]).1.len() > 0,
    decreases buffer.len(),
{
    if let Some((block, rest)) = first_block(buffer) {
        if rest.len() < buffer.len() {
            lemma_messages_have_data(rest);
            if let Some(m) = block_message(block) {
                assert forall|i: int| 0 <= i < messages_in(buffer).len() implies (
                #[trigger] messages_in(buffer)[i]).1.len() > 0 by {
                    if i > 0 {
                        assert(messages_in(buffer)[i] == messages_in(rest)[i - 1]);
                    }
                }
            }
        }
    }
}

proof fn lemma_single_front(a: Seq<char>, b: Seq<char>)
    requires
        single_returns(a + b),
    ensures
        single_returns(a),
{
    assert forall|i: int| 0 <= i && i + 1 < a.len() && a[i] == '\r' implies #[trigger] a[i + 1]
        != '\r' by {
        assert((a + b)[i] == a[i]);
        assert((a + b)[i + 1] == a[i + 1]);
    }
}

proof fn lemma_single_skip(s: Seq<char>, n: int)
    requires
        single_returns(s),
        0 <= n <= s.len(),
    ensures
        single_returns(s.skip(n)),
{
    let t = s.skip(n);
    assert forall|i: int| 0 <= i && i + 1 < t.len() && t[i] == '\r' implies #[trigger] t[i + 1]
        != '\r' by {
        assert(s[n + i] == t[i]);
        assert(s[(n + i) + 1] == t[i + 1]);
    }
}

/// Dropping the carriage returns of line ends puts no two of them beside each other.
proof fn lemma_unix_single(s: Seq<char>)
    requires
        single_returns(s),
    ensures
        single_returns(unix(s)),
    decreases s.len(),
{
    if s.len() > 0 {
        let tail = s.drop_first();
        assert(tail =~= s.skip(1));
        lemma_single_skip(s, 1);
        lemma_unix_single(tail);
        lemma_unix_is_plain(tail);
        if s.len() > 1 {
            assert(tail[0] == s[1]);
            assert(s[0int + 1] == s[1]);
        }
        if !(s[0] == '\r' && s.len() > 1 && s[1] == '\n') {
            let u = unix(s);
            assert(u == seq![s[0]] + unix(tail));
            assert forall|i: int| 0 <= i && i + 1 < u.len() && u[i] == '\r' implies #[trigger] u[i
                + 1] != '\r' by {
                if i > 0 {
                    assert(u[i] == unix(tail)[i - 1]);
                    assert(u[i + 1] == unix(tail)[(i - 1) + 1]);
                } else {
                    assert(u[1] == unix(tail)[0]);
                }
            }
        }
    }
}

/// What is left of a text, with more behind it, has its carriage returns alone where the
/// text with more behind it has.
proof fn lemma_single_remainder(a: Seq<char>, b: Seq<char>)
    requires
        single_returns(a + b),
    ensures
        single_returns(remainder(a) + b),
{
    lemma_single_front(a, b);
    lemma_unix_is_plain(a);
    lemma_unix_messages(a);
    if first_block(a) is Some {
        let u = unix(a);
        lemma_unix_single(a);
        lemma_plain_remainder(u);
        let k = choose|k: int| 0 <= k <= u.len() && remainder(u) == #[trigger] u.skip(k);
        lemma_single_skip(u, k);
        let r = u.skip(k);
        let t = r + b;
        assert forall|i: int| 0 <= i && i + 1 < t.len() && t[i] == '\r' implies #[trigger] t[i + 1]
            != '\r' by {
            if i + 1 < r.len() {
                assert(t[i] == r[i] && t[i + 1] == r[i + 1]);
            } else if i < r.len() {
                assert(t[i] == r.last());
                assert(r.last() == u.last());
                assert((a + b)[a.len() - 1] == a.last());
                assert((a + b)[(a.len() - 1) + 1] == b[0]);
            } else {
                assert((a + b)[a.len() + (i - r.len())] == t[i]);
                assert((a + b)[(a.len() + (i - r.len())) + 1] == t[i + 1]);
            }
        }
    }
}

/// The fields of a text between line feeds, and those of the text with unix line ends.
proof fn lemma_unix_fields(s: Seq<char>)
    requires
        single_returns(s),
    ensures
        ({
            let f = fields(s, '\n');
            let g = fields(unix(s), '\n');
            &&& f.len() == g.len() > 0
            &&& f.last() == g.last()
            &&& f.last().len() <= s.len()
            &&& f.last() == s.skip(s.len() - f.last().len())
            &&& forall|i: int|
                0 <= i < f.len() - 1 ==> #[trigger] g[i] == without_return(f[i]) && without_return(
                    g[i],
                ) == g[i]
        }),
    decreases s.len(),
{
    let f = fields(s, '\n');
    let g = fields(unix(s), '\n');
    if s.len() == 0 {
        assert(f.last() =~= s.skip(s.len() - f.last().len()));
    } else {
        let t = s.drop_last();
        let c = s.last();
        assert(s =~= t + seq![c]);
        lemma_single_front(t, seq![c]);
        lemma_unix_fields(t);
        let ft = fields(t, '\n');
        let gt = fields(unix(t), '\n');
        let last = ft.last();
        if c == '\n' && t.len() > 0 && t.last() == '\r' {
            let p = t.drop_last();
            let end = seq!['\r', '\n'];
            assert(t =~= p + seq!['\r']);
            assert(s =~= p + end);
            reveal_with_fuel(unix, 3);
            crate::sse::lemma_unix_concat(p, seq!['\r']);
            crate::sse::lemma_unix_concat(p, end);
            assert(seq!['\r'].drop_first() =~= Seq::empty());
            assert(unix(seq!['\r']) =~= seq!['\r']);
            assert(end.drop_first() =~= seq!['\n']);
            assert(seq!['\n'].drop_first() =~= Seq::empty());
            assert(unix(end) =~= seq!['\n']);
            let up = unix(p);
            assert(unix(t).drop_last() =~= up);
            assert(unix(s).drop_last() =~= up);
            let gp = fields(up, '\n');
            assert(gt == gp.drop_last().push(gp.last().push('\r')));
            assert(g == gp.push(Seq::empty()));
            assert(gt.last() == gp.last().push('\r'));
            assert(gp.last() =~= last.drop_last());
            assert(gp.len() == gt.len()) by {
                lemma_some_field(up);
            }
            assert(without_return(gp.last()) == gp.last()) by {
                if gp.last().len() > 0 {
                    let n = last.len() as int;
                    assert(last[n - 2] == t[t.len() - 2]);
                    assert(s[t.len() - 2] == t[t.len() - 2]);
                    assert(s[(t.len() - 2) + 1] == t[t.len() - 1]);
                    assert(gp.last().last() == last[n - 2]);
                }
            }
            assert forall|i: int| 0 <= i < f.len() - 1 implies #[trigger] g[i] == without_return(
                f[i],
            ) && without_return(g[i]) == g[i] by {
                if i < ft.len() - 1 {
                    assert(g[i] == gt[i]);
                    assert(f[i] == ft[i]);
                } else {
                    assert(g[i] == gp.last());
                    assert(f[i] == last);
                }
            }
            assert(f.last() =~= s.skip(s.len() - f.last().len()));
        } else {
            crate::sse::lemma_unix_concat(t, seq![c]);
            assert(unix(seq![c]) =~= seq![c]) by {
                reveal_with_fuel(unix, 2);
                assert(seq![c].drop_first() =~= Seq::empty());
            }
            assert(unix(s).drop_last() =~= unix(t));
            assert(unix(s).last() == c);
            if c == '\n' {
                assert(without_return(last) == last) by {
                    if last.len() > 0 {
                        assert(last.last() == t.last());
                    }
                }
                assert forall|i: int| 0 <= i < f.len() - 1 implies #[trigger] g[i]
                    == without_return(f[i]) && without_return(g[i]) == g[i] by {
                    if i < ft.len() - 1 {
                        assert(g[i] == gt[i]);
                        assert(f[i] == ft[i]);
                    } else {
                        assert(g[i] == gt.last());
                        assert(f[i] == last);
                    }
                }
                assert(f.last() =~= s.skip(s.len() - f.last().len()));
            } else {
                assert forall|i: int| 0 <= i < f.len() - 1 implies #[trigger] g[i]
                    == without_return(f[i]) && without_return(g[i]) == g[i] by {
                    assert(g[i] == gt[i]);
                    assert(f[i] == ft[i]);
                }
                assert(f.last() =~= last.push(c));
                assert(f.last() =~= s.skip(s.len() - f.last().len()));
            }
        }
    }
}

proof fn lemma_some_field(s: Seq<char>)
    ensures
        fields(s, '\n').len() > 0,
    decreases s.len(),
{
    if s.len() > 0 {
        lemma_some_field(s.drop_last());
    }
}

proof fn lemma_blank(s: Seq<char>)
    ensures
        (trim(s).len() == 0) == all_space(s),
    decreases s.len(),
{
    if s.len() == 0 {
        assert(s =~= Seq::empty());
        crate::text::lemma_trim_empty();
    } else if is_space(s[0]) {
        let tail = s.drop_first();
        lemma_blank(tail);
        if all_space(tail) {
            assert forall|i: int| 0 <= i < s.len() implies is_space(#[trigger] s[i]) by {
                if i > 0 {
                    assert(s[i] == tail[i - 1]);
                }
            }
        }
        if all_space(s) {
            assert forall|i: int| 0 <= i < tail.len() implies is_space(#[trigger] tail[i]) by {
                assert(tail[i] == s[i + 1]);
            }
        }
    } else {
        lemma_trim_end_keeps(s);
        assert(!all_space(s)) by {
            assert(!is_space(s[0]));
        }
    }
}

proof fn lemma_trim_end_keeps(s: Seq<char>)
    requires
        s.len() > 0,
        !is_space(s[0]),
    ensures
        crate::text::trim_end(s).len() > 0,
    decreases s.len(),
{
    if is_space(s.last()) {
        lemma_trim_end_keeps(s.drop_last());
    }
}

proof fn lemma_unix_blank(s: Seq<char>)
    ensures
        all_space(unix(s)) == all_space(s),
    decreases s.len(),
{
    if s.len() > 0 {
        let tail = s.drop_first();
        lemma_unix_blank(tail);
        let u = unix(s);
        assert(all_space(s) == (is_space(s[0]) && all_space(tail))) by {
            if is_space(s[0]) && all_space(tail) {
                assert forall|i: int| 0 <= i < s.len() implies is_space(#[trigger] s[i]) by {
                    if i > 0 {
                        assert(s[i] == tail[i - 1]);
                    }
                }
            }
            if all_space(s) {
                assert forall|i: int| 0 <= i < tail.len() implies is_space(#[trigger] tail[i]) by {
                    assert(tail[i] == s[i + 1]);
                }
            }
        }
        if !(s[0] == '\r' && s.len() > 1 && s[1] == '\n') {
            let rest = unix(tail);
            assert(u == seq![s[0]] + rest);
            assert(all_space(u) == (is_space(s[0]) && all_space(rest))) by {
                if is_space(s[0]) && all_space(rest) {
                    assert forall|i: int| 0 <= i < u.len() implies is_space(#[trigger] u[i]) by {
                        if i > 0 {
                            assert(u[i] == rest[i - 1]);
                        }
                    }
                }
                if all_space(u) {
                    assert(is_space(u[0]));
                    assert forall|i: int| 0 <= i < rest.len() implies is_space(
                        #[trigger] rest[i],
                    ) by {
                        assert(rest[i] == u[i + 1]);
                    }
                }
            }
        }
    }
}

/// A frame carries the message that it carries with unix line ends.
proof fn lemma_unix_message(s: Seq<char>)
    requires
        single_returns(s),
    ensures
        block_message(s) == block_message(unix(s)),
{
    lemma_unix_fields(s);
    lemma_blank(s);
    lemma_blank(unix(s));
    lemma_unix_blank(s);
    let f = fields(s, '\n');
    let g = fields(unix(s), '\n');
    assert(f.drop_last().map_values(|l: Seq<char>| without_return(l)) =~= g.drop_last().map_values(
        |l: Seq<char>| without_return(l),
    ));
    assert(lines(s) == lines(unix(s)));
}

/// How frames are split between pieces makes no difference, whether lines end in line
/// feeds or in carriage returns and line feeds, and even where such a line end is split:
/// two pieces give the messages of both in one, and leave the same behind but for line
/// ends. What is left holds no complete frame, and no message is without data. A
/// carriage return that follows another one is shut out.
pub proof fn messages_do_not_depend_on_the_pieces(a: Seq<char>, b: Seq<char>)
    requires
        single_returns(a + b),
    ensures
        messages_in(a + b) == messages_in(a) + messages_in(remainder(a) + b),
        unix(remainder(a + b)) == unix(remainder(remainder(a) + b)),
        !crate::text::contains(unix(remainder(a + b)), crate::sse::delimiter()),
        forall|i: int|
            0 <= i < messages_in(a + b).len() ==> (#[trigger] messages_in(a + b)[i]).1.len() > 0,
{
    let pre = if a.len() > 0 && b.len() > 0 && a.last() == '\r' && b[0] == '\n' {
        a.drop_last()
    } else {
        a
    };
    lemma_cut_line_end(a, b, pre);
    let u = unix(pre);
    let left = remainder(a) + b;
    lemma_unix_messages(a + b);
    lemma_plain_pieces(u, unix(b));
    lemma_plain_front(u, unix(b));
    lemma_plain_remainder(u);
    let k = choose|k: int| 0 <= k <= u.len() && remainder(u) == #[trigger] u.skip(k);
    assert(u.skip(k) + unix(b) =~= (u + unix(b)).skip(k));
    lemma_plain_skip(u + unix(b), k);
    lemma_unix_messages(left);
    lemma_plain_remainder(unix(a + b));
    let end = remainder(unix(a + b));
    let m = choose|m: int| 0 <= m <= unix(a + b).len() && end == #[trigger] unix(a + b).skip(m);
    lemma_plain_skip(unix(a + b), m);
    crate::sse::lemma_unix_same(end);
    crate::sse::blocks_rejoin(end);
    lemma_messages_have_data(a + b);
}

/// The tool calls of a whole message as deltas: each object among them, with its
/// position as index.
pub open spec fn indexed_calls(calls: Seq<Tree>) -> Seq<Tree>
    decreases calls.len(),
{
    if calls.len() == 0 {
        Seq::empty()
    } else {
        let before = indexed_calls(calls.drop_last());
        match calls.last() {
            Tree::Object(m) => before.push(
                Tree::Object(m.insert("index"@, Tree::Int(before.len() as int))),
            ),
            _ => before,
        }
    }
}

/// The members with `k` set, where there is a value.
pub open spec fn with_member(m: Map<Seq<char>, Tree>, k: Seq<char>, v: Option<Tree>) -> Map<
    Seq<char>,
    Tree,
> {
    match v {
        Some(t) => m.insert(k, t),
        None => m,
    }
}

/// An optional text as a document.
pub open spec fn opt_str(o: Option<Seq<char>>) -> Option<Tree> {
    match o {
        Some(s) => Some(Tree::Str(s)),
        None => None,
    }
}

/// The message of a choice that came as a whole, as a delta.
pub open spec fn whole_delta(choice: Tree) -> Map<Seq<char>, Tree> {
    let message = match members_in(choice.at("message"@)) {
        Some(m) => m,
        None => Map::empty(),
    };
    let base = Map::empty().insert("role"@, Tree::Str("assistant"@)).insert(
        "content"@,
        match member(message, "content"@) {
            Some(c) => c,
            None => Tree::Null,
        },
    );
    let a = with_member(base, "refusal"@, member(message, "refusal"@));
    let b = with_member(a, "annotations"@, member(message, "annotations"@));
    let c = with_member(b, "reasoning_content"@, opt_str(reasoning_field(message)));
    match items_in(member(message, "tool_calls"@)) {
        Some(calls) => c.insert("tool_calls"@, Tree::Array(indexed_calls(calls))),
        None => c,
    }
}

/// A choice that came as a whole, as a chunk.
pub open spec fn whole_chunk(choice: Tree) -> Map<Seq<char>, Tree> {
    let finish = match choice.at("finish_reason"@) {
        Some(f) => f,
        None => Tree::Null,
    };
    let inner = Map::empty().insert("delta"@, Tree::Object(whole_delta(choice))).insert(
        "finish_reason"@,
        finish,
    );
    Map::empty().insert("choices"@, Tree::Array(seq![Tree::Object(inner)]))
}

/// The ids for the choice at position `k`.
pub open spec fn ids_at(fresh: Seq<Seq<Seq<char>>>, k: int) -> Seq<Seq<char>> {
    if 0 <= k < fresh.len() {
        fresh[k]
    } else {
        Seq::empty()
    }
}

/// The choices of a Chat body.
pub open spec fn choices_of(body: Tree) -> Seq<Tree> {
    match items_in(body.at("choices"@)) {
        Some(c) => c,
        None => Seq::empty(),
    }
}

impl Stream {
    /// Take in choices that came as a whole, one after the other.
    pub open spec fn take_choices(self, choices: Seq<Tree>, fresh: Seq<Seq<Seq<char>>>) -> Flow
        decreases choices.len(),
    {
        if choices.len() == 0 {
            self.rest()
        } else {
            let before = self.take_choices(choices.drop_last(), fresh);
            before.followed_by(
                before.stream.take_chunk(
                    whole_chunk(choices.last()),
                    None,
                    ids_at(fresh, choices.len() - 1),
                ),
            )
        }
    }

    /// Take in a Chat body that came as a whole, and end the turn.
    pub open spec fn take_whole(self, body: Tree, fresh: Seq<Seq<Seq<char>>>) -> Flow {
        let f = self.with_metadata(body).take_choices(choices_of(body), fresh);
        f.followed_by(f.stream.finalize(true))
    }
}

/// The tool calls of a whole message as deltas.
fn make_indexed_calls(calls: &Vec<Json>) -> (r: Vec<Json>)
    ensures
        trees(r@) == indexed_calls(trees(calls@)),
{
    let ghost all = trees(calls@);
    let mut out: Vec<Json> = Vec::new();
    let mut i: usize = 0;
    assert(all.take(0) =~= Seq::empty());
    assert(trees(out@) =~= Seq::empty());
    while i < calls.len()
        invariant
            i <= calls@.len(),
            all == trees(calls@),
            trees(out@) == indexed_calls(all.take(i as int)),
            trees(out@).len() == out@.len(),
        decreases calls.len() - i,
    {
        assert(all.take(i as int + 1).drop_last() =~= all.take(i as int));
        assert(all.take(i as int + 1).last() == calls@[i as int]@);
        if let Json::Object(m) = &calls[i] {
            let at: u64 = out.len() as u64;
            let call = m.clone().with("index", Json::UInt(at));
            out.push(Json::Object(call));
        }
        i += 1;
    }
    assert(all.take(i as int) =~= all);
    out
}

/// The message of a choice that came as a whole, as a delta.
pub fn chat_message_to_fake_delta(choice: &Json) -> (r: Json)
    ensures
        r@ == Tree::Object(whole_delta(choice@)),
{
    let message = match choice.get("message") {
        Some(Json::Object(m)) => m.clone(),
        _ => Object::new(),
    };
    let content = match message.get("content") {
        Some(c) => c.clone(),
        None => Json::Null,
    };
    let mut delta = Object::new().with("role", Json::text("assistant")).with("content", content);
    if let Some(refusal) = message.get("refusal") {
        delta.insert("refusal", refusal.clone());
    }
    if let Some(annotations) = message.get("annotations") {
        delta.insert("annotations", annotations.clone());
    }
    if let Some(reasoning) = extract_reasoning_field(&message) {
        delta.insert("reasoning_content", Json::Str(reasoning));
    }
    if let Some(calls) = message.get_array("tool_calls") {
        delta.insert("tool_calls", Json::Array(make_indexed_calls(calls)));
    }
    Json::Object(delta)
}

/// A choice that came as a whole, as a chunk.
pub fn whole_choice_chunk(choice: &Json) -> (r: Object)
    ensures
        r@ == whole_chunk(choice@),
{
    let finish = match choice.get("finish_reason") {
        Some(f) => f.clone(),
        None => Json::Null,
    };
    let inner = Object::new().with("delta", chat_message_to_fake_delta(choice)).with(
        "finish_reason",
        finish,
    );
    Object::new().with("choices", list_of(Json::Object(inner)))
}

/// The texts of lists of ids.
pub open spec fn id_lists(v: Seq<Vec<String>>) -> Seq<Seq<Seq<char>>> {
    v.map_values(|l: Vec<String>| texts(l@))
}

/// The stream of a response that begins at the given time and echoes a request.
fn new_stream_state(
    tool_context: BridgeToolContext,
    response_id: Option<&str>,
    original_request: Option<&Object>,
) -> (r: ResponsesStreamState)
    ensures
        r@ == Stream::fresh(
            tool_context@,
            opt_text(response_id),
            r@.envelope.created_at,
        ).with_echo(opt_members(original_request)),
{
    let mut state = ResponsesStreamState::new(tool_context, response_id);
    state.set_request_echo(original_request);
    state
}

/// Take in a Chat body that came as a whole, and end the turn. `fresh` holds, for each
/// choice, a call id for each tool call that has none.
pub fn whole_chat_events(
    state: &mut ResponsesStreamState,
    chat_body: &Json,
    fresh: &Vec<Vec<String>>,
) -> (r: Vec<Vec<u8>>)
    ensures
        final(state)@ == old(state)@.take_whole(chat_body@, id_lists(fresh@)).stream,
        frames(r@) == wires(old(state)@.take_whole(chat_body@, id_lists(fresh@)).events),
{
    state.apply_chunk_metadata(chat_body);
    let ghost s = state@;
    let ghost ids = id_lists(fresh@);
    let ghost all = choices_of(chat_body@);
    let mut events = nothing();
    if let Some(choices) = chat_body.get_array("choices") {
        let mut i: usize = 0;
        assert(all.take(0) =~= Seq::empty());
        while i < choices.len()
            invariant
                i <= choices@.len(),
                all == trees(choices@),
                ids == id_lists(fresh@),
                state@ == s.take_choices(all.take(i as int), ids).stream,
                frames(events@) == wires(s.take_choices(all.take(i as int), ids).events),
            decreases choices.len() - i,
        {
            assert(all.take(i as int + 1).drop_last() =~= all.take(i as int));
            assert(all.take(i as int + 1).last() == choices@[i as int]@);
            let chunk = whole_choice_chunk(&choices[i]);
            let more = if i < fresh.len() {
                process_chat_chunk_with(&chunk, None, state, &fresh[i])
            } else {
                let none: Vec<String> = Vec::new();
                assert(texts(none@) =~= Seq::empty());
                process_chat_chunk_with(&chunk, None, state, &none)
            };
            stream_events::extend(&mut events, more);
            i += 1;
        }
        assert(all.take(i as int) =~= all);
    }
    let last = state.finalize(true);
    stream_events::extend(&mut events, last);
    events
}

/// Whether there is a fresh call id for each tool call of each choice.
pub open spec fn fresh_lists(fresh: Seq<Seq<Seq<char>>>, choices: Seq<Tree>) -> bool {
    fresh.len() == choices.len() && forall|k: int|
        0 <= k < fresh.len() ==> fresh_ids(
            #[trigger] fresh[k],
            chunk_calls(whole_chunk(choices[k])).len(),
        )
}

/// The frames of a Chat body that came as a whole. Nothing of it is missing, so a
/// missing finish reason does not mean that it was cut short.
pub fn sse_events_from_buffered_chat(
    chat_body: &Json,
    tool_context: BridgeToolContext,
    response_id: Option<&str>,
    original_request: Option<&Object>,
) -> (r: Vec<Vec<u8>>)
    ensures
        exists|now: int, fresh: Seq<Seq<Seq<char>>>|
            fresh_lists(fresh, choices_of(chat_body@)) && frames(r@) == wires(
                (#[trigger] Stream::fresh(
                    tool_context@,
                    opt_text(response_id),
                    now,
                ).with_echo(opt_members(original_request)).take_whole(chat_body@, fresh)).events,
            ),
{
    let mut fresh: Vec<Vec<String>> = Vec::new();
    let ghost all = choices_of(chat_body@);
    if let Some(choices) = chat_body.get_array("choices") {
        let mut i: usize = 0;
        while i < choices.len()
            invariant
                i <= choices@.len(),
                all == trees(choices@),
                fresh@.len() == i,
                forall|k: int|
                    0 <= k < i ==> fresh_ids(
                        #[trigger] id_lists(fresh@)[k],
                        chunk_calls(whole_chunk(all[k])).len(),
                    ),
            decreases choices.len() - i,
        {
            let chunk = whole_choice_chunk(&choices[i]);
            let ids = synthetic_tool_call_ids(count_calls(&chunk));
            let ghost before = id_lists(fresh@);
            fresh.push(ids);
            assert(all[i as int] == choices@[i as int]@);
            assert(id_lists(fresh@) =~= before.push(texts(ids@)));
            assert(fresh_ids(texts(ids@), chunk_calls(whole_chunk(all[i as int])).len()));
            i += 1;
        }
    }
    assert(fresh_lists(id_lists(fresh@), all));
    let mut state = new_stream_state(tool_context, response_id, original_request);
    whole_chat_events(&mut state, chat_body, &fresh)
}

/// A Chat stream on its way to a streamed response: bytes go in, frames come out.
#[derive(Debug)]
pub struct ChatStream {
    state: ResponsesStreamState,
    decoder: Utf8StreamDecoder,
    buffer: String,
}

/// The model of a Chat stream: the response, the decoder, and the text of a frame that
/// is not complete yet.
#[verifier::ext_equal]
pub ghost struct Feed {
    pub stream: Stream,
    pub decoding: Decoding,
    pub buffer: Seq<char>,
}

impl View for ChatStream {
    type V = Feed;

    closed spec fn view(&self) -> Feed {
        Feed { stream: self.state@, decoding: self.decoder@, buffer: self.buffer@ }
    }
}

impl Stream {
    /// Take in messages, one after the other.
    pub open spec fn take_messages(
        self,
        messages: Seq<(Option<Seq<char>>, Seq<char>)>,
        fresh: Seq<Seq<Seq<char>>>,
    ) -> Flow
        decreases messages.len(),
    {
        if messages.len() == 0 {
            self.rest()
        } else {
            let before = self.take_messages(messages.drop_last(), fresh);
            let (event, data) = messages.last();
            before.followed_by(
                before.stream.take_message(
                    event,
                    data,
                    parsed(data),
                    ids_at(fresh, messages.len() - 1),
                ),
            )
        }
    }
}

/// Whether there is a fresh call id for each tool call of each message.
pub open spec fn fresh_for_messages(
    fresh: Seq<Seq<Seq<char>>>,
    messages: Seq<(Option<Seq<char>>, Seq<char>)>,
) -> bool {
    fresh.len() == messages.len() && forall|k: int|
        0 <= k < fresh.len() ==> fresh_ids(
            #[trigger] fresh[k],
            message_calls(parsed(messages[k].1)),
        )
}

impl Feed {
    /// The text that bytes complete.
    pub open spec fn text_with(self, bytes: Seq<u8>) -> Seq<char> {
        self.buffer + self.decoding.text(bytes)
    }

    /// What bytes do: the messages of the frames that they complete are taken in.
    pub open spec fn receive(self, bytes: Seq<u8>, fresh: Seq<Seq<Seq<char>>>) -> (
        Feed,
        Seq<Event>,
    ) {
        let text = self.text_with(bytes);
        let f = self.stream.take_messages(messages_in(text), fresh);
        (
            Feed {
                stream: f.stream,
                decoding: self.decoding.after(bytes),
                buffer: remainder(text),
            },
            f.events,
        )
    }

    /// The messages that are left at the end: a frame that was never completed still
    /// counts.
    pub open spec fn left_over(self) -> Seq<(Option<Seq<char>>, Seq<char>)> {
        match block_message(self.buffer + self.decoding.last_text()) {
            Some(m) => seq![m],
            None => Seq::empty(),
        }
    }

    /// What the end of the bytes does: what is left over is taken in, and the turn ends
    /// as one that was cut short, unless it was ended before.
    pub open spec fn finish(self, fresh: Seq<Seq<Seq<char>>>) -> (Feed, Seq<Event>) {
        let f = self.stream.take_messages(self.left_over(), fresh);
        let g = f.followed_by(f.stream.finalize(false));
        (
            Feed { stream: g.stream, decoding: self.decoding.ended(), buffer: Seq::empty() },
            g.events,
        )
    }
}

impl ChatStream {
    /// A Chat stream that begins now.
    pub fn new(
        tool_context: BridgeToolContext,
        response_id: Option<&str>,
        original_request: Option<&Object>,
    ) -> (r: ChatStream)
        ensures
            r@ == (Feed {
                stream: Stream::fresh(
                    tool_context@,
                    opt_text(response_id),
                    r@.stream.envelope.created_at,
                ).with_echo(opt_members(original_request)),
                decoding: Decoding::none(),
                buffer: Seq::empty(),
            }),
    {
        ChatStream {
            state: new_stream_state(tool_context, response_id, original_request),
            decoder: Utf8StreamDecoder::new(),
            buffer: String::new(),
        }
    }

    /// Take in messages, one after the other.
    fn take_in(&mut self, messages: &Vec<(Option<String>, String)>) -> (r: Vec<Vec<u8>>)
        ensures
            exists|fresh: Seq<Seq<Seq<char>>>|
                fresh_for_messages(fresh, message_views(messages@)) && ({
                    let f = #[trigger] old(self)@.stream.take_messages(
                        message_views(messages@),
                        fresh,
                    );
                    &&& final(self)@ == (Feed { stream: f.stream, ..old(self)@ })
                    &&& frames(r@) == wires(f.events)
                }),
    {
        let ghost all = message_views(messages@);
        let ghost s = self@.stream;
        let ghost start = self@;
        let ghost mut fresh: Seq<Seq<Seq<char>>> = Seq::empty();
        let mut events = nothing();
        let mut i: usize = 0;
        assert(all.take(0) =~= Seq::empty());
        while i < messages.len()
            invariant
                i <= messages@.len(),
                all == message_views(messages@),
                fresh_for_messages(fresh, all.take(i as int)),
                self@ == (Feed {
                    stream: s.take_messages(all.take(i as int), fresh).stream,
                    ..start
                }),
                frames(events@) == wires(s.take_messages(all.take(i as int), fresh).events),
            decreases messages.len() - i,
        {
            assert(all.take(i as int + 1).drop_last() =~= all.take(i as int));
            assert(all.take(i as int + 1).last() == message_view(messages@[i as int]));
            let ghost before = self@.stream;
            let more = process_sse_message(
                borrow_opt(&messages[i].0),
                messages[i].1.as_str(),
                &mut self.state,
            );
            proof {
                let data = messages@[i as int].1@;
                let event = opt_string(messages@[i as int].0);
                let ids = choose|ids: Seq<Seq<char>>|
                    #![trigger fresh_ids(ids, message_calls(parsed(data)))]
                    fresh_ids(ids, message_calls(parsed(data))) && ({
                        let f = before.take_message(event, data, parsed(data), ids);
                        &&& self.state@ == f.stream
                        &&& frames(more@) == wires(f.events)
                    });
                let longer = fresh.push(ids);
                lemma_more_ids(s, all.take(i as int), fresh, ids);
                assert(ids_at(longer, i as int) == ids);
                assert(fresh_for_messages(longer, all.take(i as int + 1))) by {
                    assert forall|k: int| 0 <= k < longer.len() implies fresh_ids(
                        #[trigger] longer[k],
                        message_calls(parsed(all.take(i as int + 1)[k].1)),
                    ) by {
                        if k < i {
                            assert(longer[k] == fresh[k]);
                            assert(all.take(i as int)[k] == all.take(i as int + 1)[k]);
                        }
                    }
                }
                fresh = longer;
            }
            stream_events::extend(&mut events, more);
            i += 1;
        }
        assert(all.take(i as int) =~= all);
        events
    }

    /// Take in bytes of the Chat stream, and say what they send.
    pub fn receive(&mut self, bytes: &[u8]) -> (r: Vec<Vec<u8>>)
        ensures
            exists|fresh: Seq<Seq<Seq<char>>>|
                fresh_for_messages(fresh, messages_in(old(self)@.text_with(bytes@))) && ({
                    let (feed, events) = #[trigger] old(self)@.receive(bytes@, fresh);
                    &&& final(self)@ == feed
                    &&& frames(r@) == wires(events)
                }),
    {
        let ghost start = self@;
        let text = self.decoder.decode(bytes);
        self.buffer.push_str(text.as_str());
        let (messages, rest) = drain_sse_blocks(self.buffer.as_str());
        self.buffer = rest;
        let ghost ready = self@;
        let events = self.take_in(&messages);
        proof {
            let list = messages_in(start.text_with(bytes@));
            let fresh = choose|fresh: Seq<Seq<Seq<char>>>|
                fresh_for_messages(fresh, list) && ({
                    let f = #[trigger] ready.stream.take_messages(list, fresh);
                    &&& self@ == (Feed { stream: f.stream, ..ready })
                    &&& frames(events@) == wires(f.events)
                });
            assert(self@ == start.receive(bytes@, fresh).0);
        }
        events
    }

    /// Take in the end of the Chat stream, and say what it sends. Without the mark
    /// `[DONE]` the turn was cut short.
    pub fn finish(&mut self) -> (r: Vec<Vec<u8>>)
        ensures
            exists|fresh: Seq<Seq<Seq<char>>>|
                fresh_for_messages(fresh, old(self)@.left_over()) && ({
                    let (feed, events) = #[trigger] old(self)@.finish(fresh);
                    &&& final(self)@ == feed
                    &&& frames(r@) == wires(events)
                }),
    {
        let ghost start = self@;
        let text = self.decoder.finalize();
        self.buffer.push_str(text.as_str());
        let mut messages: Vec<(Option<String>, String)> = Vec::new();
        if !is_blank(self.buffer.as_str()) {
            let (event, data) = parse_sse_block(self.buffer.as_str());
            if let Some(d) = data {
                if !d.as_str().is_empty() {
                    messages.push((event, d));
                }
            }
        }
        assert(message_views(messages@) =~= start.left_over());
        self.buffer = String::new();
        let ghost ready = self@;
        let mut events = self.take_in(&messages);
        let ghost taken = self@;
        let ghost said = frames(events@);
        let last = self.state.finalize(false);
        stream_events::extend(&mut events, last);
        proof {
            let list = start.left_over();
            let fresh = choose|fresh: Seq<Seq<Seq<char>>>|
                fresh_for_messages(fresh, list) && ({
                    let f = #[trigger] ready.stream.take_messages(list, fresh);
                    &&& taken == (Feed { stream: f.stream, ..ready })
                    &&& said == wires(f.events)
                });
            assert(self@ == start.finish(fresh).0);
        }
        events
    }

    /// How often bytes were replaced.
    pub fn replacements(&self) -> (r: u64)
        ensures
            r == self@.decoding.replacements,
    {
        self.decoder.replacements()
    }

    /// The assistant message to keep for continuation, where the turn may be kept.
    pub fn kept_message(&self) -> (r: Option<Option<Json>>)
        ensures
            match r {
                Some(m) => self@.stream.persistable() && opt_value(m)
                    == self@.stream.assistant_message(),
                None => !self@.stream.persistable(),
            },
    {
        if self.state.should_persist() {
            Some(self.state.build_assistant_message())
        } else {
            None
        }
    }
}

/// Ids behind those that are used make no difference.
proof fn lemma_more_ids(
    s: Stream,
    messages: Seq<(Option<Seq<char>>, Seq<char>)>,
    fresh: Seq<Seq<Seq<char>>>,
    ids: Seq<Seq<char>>,
)
    requires
        fresh.len() >= messages.len(),
    ensures
        s.take_messages(messages, fresh.push(ids)) == s.take_messages(messages, fresh),
    decreases messages.len(),
{
    if messages.len() > 0 {
        lemma_more_ids(s, messages.drop_last(), fresh, ids);
        assert(ids_at(fresh.push(ids), messages.len() - 1) == ids_at(fresh, messages.len() - 1));
    }
}

/// Where the bytes of a Chat stream are split into pieces makes no difference: two pieces
/// give the messages of both in one, and leave the same behind but for line ends, so that
/// the same message is left over if the stream ends there. A carriage return that follows
/// another one is shut out.
pub proof fn streams_do_not_depend_on_the_pieces(
    feed: Feed,
    a: Seq<u8>,
    b: Seq<u8>,
    fresh: Seq<Seq<Seq<char>>>,
)
    requires
        single_returns(feed.text_with(a + b)),
    ensures
        ({
            let next = feed.receive(a, fresh).0;
            &&& messages_in(feed.text_with(a + b)) == messages_in(feed.text_with(a)) + messages_in(
                next.text_with(b),
            )
            &&& unix(remainder(feed.text_with(a + b))) == unix(remainder(next.text_with(b)))
            &&& feed.decoding.after(a + b) == next.decoding.after(b)
            &&& feed.receive(a + b, fresh).0.left_over() == next.receive(b, fresh).0.left_over()
        }),
{
    let kept = feed.decoding.kept;
    let next = feed.receive(a, fresh).0;
    crate::decoder::decoding_does_not_depend_on_the_pieces(kept + a, b);
    crate::decoder::lemma_counted(
        feed.decoding.replacements + crate::decoder::losses_in(kept + a),
        crate::decoder::losses_in(next.decoding.kept + b),
    );
    assert(kept + (a + b) =~= kept + a + b);
    let one = feed.text_with(a);
    let two = next.decoding.text(b);
    assert(feed.text_with(a + b) =~= one + two);
    messages_do_not_depend_on_the_pieces(one, two);
    let end = feed.decoding.after(a + b).last_text();
    let x = remainder(one + two);
    let y = remainder(remainder(one) + two);
    lemma_single_remainder(one, two);
    lemma_closed_end(one + two, end);
    lemma_closed_end(remainder(one) + two, end);
    assert(block_message(x + end) == block_message(y + end));
}

/// What is left of a text, with nothing or one plain character behind it, carries the
/// message that it carries with unix line ends.
proof fn lemma_closed_end(s: Seq<char>, end: Seq<char>)
    requires
        single_returns(s),
        end == Seq::<char>::empty() || end == seq!['\u{FFFD}'],
    ensures
        block_message(remainder(s) + end) == block_message(unix(remainder(s)) + end),
{
    let r = remainder(s);
    assert(s + Seq::empty() =~= s);
    lemma_single_remainder(s, Seq::empty());
    assert(r + Seq::empty() =~= r);
    let t = r + end;
    assert forall|i: int| 0 <= i && i + 1 < t.len() && t[i] == '\r' implies #[trigger] t[i + 1]
        != '\r' by {
        if i + 1 < r.len() {
            assert(t[i] == r[i] && t[i + 1] == r[i + 1]);
        }
    }
    crate::sse::lemma_unix_concat(r, end);
    assert(unix(end) =~= end) by {
        reveal_with_fuel(unix, 2);
        if end.len() > 0 {
            assert(end.drop_first() =~= Seq::empty());
        }
    }
    lemma_unix_message(t);
}

/// A stream that ends without a finish reason and without the mark `[DONE]`, with
/// nothing left over, is never kept for continuation.
pub proof fn cut_streams_are_not_kept(feed: Feed, fresh: Seq<Seq<Seq<char>>>)
    requires
        !feed.stream.envelope.completed,
        feed.stream.envelope.finish_reason is None,
        feed.left_over().len() == 0,
    ensures
        !feed.finish(fresh).0.stream.persistable(),
{
    crate::stream_responses_state::cut_turns_are_not_kept(feed.stream);
}

/// An error in the stream fails the turn, which is then over and never kept.
pub proof fn stream_errors_fail_the_turn(
    s: Stream,
    payload: Map<Seq<char>, Tree>,
    event_name: Option<Seq<char>>,
    fresh: Seq<Seq<char>>,
)
    requires
        !s.envelope.completed,
        is_error(payload, event_name),
    ensures
        ({
            let f = s.take_chunk(payload, event_name, fresh);
            &&& f.events.last().name == "response.failed"@
            &&& f.stream.envelope.completed
            &&& !f.stream.persistable()
        }),
{
    crate::stream_responses_state::turns_end_once(
        s,
        true,
        true,
        error_of(payload).0,
        error_of(payload).1,
    );
}

/// What is needed to keep a streamed turn once it is over: all but the assistant message,
/// which is known by then.
#[derive(Debug)]
pub struct StreamPersist {
    pub response_id: String,
    pub messages: Vec<Json>,
    pub tool_context: BridgeToolContext,
    pub model: String,
}

impl StreamPersist {
    /// Keep the turn for continuation.
    pub fn save(self, store: &mut SessionStore, now: u64, assistant_message: Option<Json>)
        ensures
            final(store)@ == old(store)@.saved(
                self.response_id@,
                record_of(
                    trees(self.messages@),
                    self.tool_context@,
                    self.model@,
                    opt_value(assistant_message),
                ),
                now as int,
            ),
    {
        save_session(
            store,
            now,
            self.response_id.as_str(),
            &self.messages,
            &self.tool_context,
            self.model.as_str(),
            assistant_message,
        );
    }
}

} // verus!
