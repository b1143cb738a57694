//! The reasoning item of a streamed response.
//!
//! A turn has at most one reasoning item with one summary part. The first delta
//! opens it, each delta appends to its text, and closing it hands the completed
//! item to the envelope.
use vstd::prelude::*;
use crate::convert::chat_to_responses::{
    make_reasoning_item, make_summary_part, reasoning_item, summary_part,
};
use crate::id_gen::reasoning_id;
use crate::json::{no_items, Json, Object, Tree};
use crate::stream_envelope::{Envelope, ResponseEnvelopeState};
use crate::stream_events::{
    self, frames, item_added, item_done, lemma_frames_push, lemma_no_wires, lemma_wires_push,
    nothing, single, summary_delta, summary_done, summary_part_added, summary_part_done, wires,
    Event,
};
use crate::text::{trim, trimmed};

verus! {

broadcast use {lemma_frames_push, lemma_wires_push, lemma_no_wires};

/// How far an output item has come. It only ever moves forward.
#[derive(Debug, Clone, Copy, PartialEq, Eq, Structural)]
pub enum Lifecycle {
    NotStarted,
    Open,
    Done,
}

/// What one step of a state machine leaves behind: its state, the envelope, and
/// the events that it sends.
#[verifier::ext_equal]
#[verifier::reject_recursive_types(S)]
pub ghost struct Step<S> {
    pub state: S,
    pub envelope: Envelope,
    pub events: Seq<Event>,
}

/// A step that does nothing.
pub open spec fn idle<S>(state: S, envelope: Envelope) -> Step<S> {
    Step { state, envelope, events: Seq::empty() }
}

/// The reasoning item of a turn.
#[derive(Debug)]
pub struct ReasoningState {
    text: String,
    lifecycle: Lifecycle,
    output_index: i64,
}

/// The model of a reasoning item.
#[verifier::ext_equal]
pub ghost struct Thinking {
    pub text: Seq<char>,
    pub phase: Lifecycle,
    pub index: int,
}

impl View for ReasoningState {
    type V = Thinking;

    closed spec fn view(&self) -> Thinking {
        Thinking { text: self.text@, phase: self.lifecycle, index: self.output_index as int }
    }
}

/// The reasoning item as it is first sent.
pub open spec fn open_reasoning_item(response_id: Seq<char>) -> Tree {
    Tree::Object(
        map![
            "id"@ => Tree::Str(reasoning_id(response_id)),
            "type"@ => Tree::Str("reasoning"@),
            "status"@ => Tree::Str("in_progress"@),
            "summary"@ => Tree::Array(Seq::empty()),
        ],
    )
}

impl Thinking {
    /// No reasoning yet.
    pub open spec fn none() -> Thinking {
        Thinking { text: Seq::empty(), phase: Lifecycle::NotStarted, index: 0 }
    }

    /// Open the item, unless that was done.
    pub open spec fn start(self, e: Envelope) -> Step<Thinking> {
        if self.phase != Lifecycle::NotStarted {
            idle(self, e)
        } else {
            Step {
                state: Thinking { phase: Lifecycle::Open, index: e.next, ..self },
                envelope: e.allocated(),
                events: seq![
                    item_added(e.next, open_reasoning_item(e.response_id)),
                    summary_part_added(
                        reasoning_id(e.response_id),
                        e.next,
                        0,
                        summary_part(""@),
                    ),
                ],
            }
        }
    }

    /// Append to the text. Nothing happens once the item is done.
    pub open spec fn push(self, e: Envelope, delta: Seq<char>) -> Step<Thinking> {
        if self.phase == Lifecycle::Done {
            idle(self, e)
        } else {
            let s = self.start(e);
            Step {
                state: Thinking { text: s.state.text + delta, ..s.state },
                envelope: s.envelope,
                events: s.events.push(
                    summary_delta(reasoning_id(e.response_id), s.state.index, 0, delta),
                ),
            }
        }
    }

    /// Close the item and hand it to the envelope. Nothing happens unless the item
    /// is open.
    pub open spec fn close(self, e: Envelope) -> Step<Thinking> {
        if self.phase != Lifecycle::Open {
            idle(self, e)
        } else {
            let item = reasoning_item(e.response_id, self.text);
            Step {
                state: Thinking { phase: Lifecycle::Done, ..self },
                envelope: e.with_item(self.index, item),
                events: seq![
                    summary_done(reasoning_id(e.response_id), self.index, 0, self.text),
                    summary_part_done(
                        reasoning_id(e.response_id),
                        self.index,
                        0,
                        summary_part(self.text),
                    ),
                    item_done(self.index, item),
                ],
            }
        }
    }

    /// The text that is attached to tool calls: none once the item is done.
    pub open spec fn for_tools(self) -> Seq<char> {
        if self.phase == Lifecycle::Done {
            Seq::empty()
        } else {
            trim(self.text)
        }
    }
}

impl ReasoningState {
    /// No reasoning yet.
    pub fn new() -> (r: ReasoningState)
        ensures
            r@ == Thinking::none(),
    {
        ReasoningState { text: String::new(), lifecycle: Lifecycle::NotStarted, output_index: 0 }
    }

    /// The reasoning text so far.
    pub fn text(&self) -> (r: &str)
        ensures
            r@ == self@.text,
    {
        self.text.as_str()
    }

    fn ensure_started(&mut self, envelope: &mut ResponseEnvelopeState) -> (r: Vec<Vec<u8>>)
        ensures
            final(self)@ == old(self)@.start(old(envelope)@).state,
            final(envelope)@ == old(self)@.start(old(envelope)@).envelope,
            frames(r@) == wires(old(self)@.start(old(envelope)@).events),
    {
        if self.lifecycle != Lifecycle::NotStarted {
            return nothing();
        }
        self.lifecycle = Lifecycle::Open;
        self.output_index = envelope.allocate_output_index();
        let id = envelope.reasoning_item_id();
        let item = Object::new().with("id", Json::text(id.as_str())).with(
            "type",
            Json::text("reasoning"),
        ).with("status", Json::text("in_progress")).with("summary", no_items());
        let mut events = single(
            stream_events::output_item_added(self.output_index, Json::Object(item)),
        );
        events.push(
            stream_events::reasoning_summary_part_added(
                id.as_str(),
                self.output_index,
                0,
                make_summary_part(""),
            ),
        );
        proof {
            let s = old(self)@.start(old(envelope)@);
            assert(Json::Object(item)@ == open_reasoning_item(old(envelope)@.response_id));
            assert(frames(events@) =~= wires(s.events));
        }
        events
    }

    /// Append to the reasoning text. The first delta opens the item; nothing
    /// happens once it is done.
    pub fn push_delta(&mut self, envelope: &mut ResponseEnvelopeState, delta: &str) -> (r: Vec<
        Vec<u8>,
    >)
        ensures
            final(self)@ == old(self)@.push(old(envelope)@, delta@).state,
            final(envelope)@ == old(self)@.push(old(envelope)@, delta@).envelope,
            frames(r@) == wires(old(self)@.push(old(envelope)@, delta@).events),
    {
        if self.lifecycle == Lifecycle::Done {
            return nothing();
        }
        let mut events = self.ensure_started(envelope);
        self.text.push_str(delta);
        let id = envelope.reasoning_item_id();
        events.push(
            stream_events::reasoning_summary_text_delta(id.as_str(), self.output_index, 0, delta),
        );
        events
    }

    /// Close the reasoning item and hand it to the envelope. Nothing happens
    /// unless the item is open.
    pub fn finalize(&mut self, envelope: &mut ResponseEnvelopeState) -> (r: Vec<Vec<u8>>)
        ensures
            final(self)@ == old(self)@.close(old(envelope)@).state,
            final(envelope)@ == old(self)@.close(old(envelope)@).envelope,
            frames(r@) == wires(old(self)@.close(old(envelope)@).events),
    {
        if self.lifecycle != Lifecycle::Open {
            return nothing();
        }
        self.lifecycle = Lifecycle::Done;
        let id = envelope.reasoning_item_id();
        let item = make_reasoning_item(envelope.response_id.as_str(), self.text.as_str());
        let mut events = single(
            stream_events::reasoning_summary_text_done(
                id.as_str(),
                self.output_index,
                0,
                self.text.as_str(),
            ),
        );
        events.push(
            stream_events::reasoning_summary_part_done(
                id.as_str(),
                self.output_index,
                0,
                make_summary_part(self.text.as_str()),
            ),
        );
        events.push(stream_events::output_item_done(self.output_index, item.clone()));
        envelope.append_completed_item(self.output_index, item);
        proof {
            let s = old(self)@.close(old(envelope)@);
            assert(frames(events@) =~= wires(s.events));
        }
        events
    }

    /// The text that is attached to tool calls, trimmed: none once the item is
    /// done.
    pub fn active_text_for_tools(&self) -> (r: String)
        ensures
            r@ == self@.for_tools(),
    {
        if self.lifecycle == Lifecycle::Done {
            String::new()
        } else {
            trimmed(self.text.as_str())
        }
    }
}

/// A reasoning item is closed once: closing it again does nothing, and neither
/// does a late delta.
pub proof fn closed_reasoning_stays_closed(t: Thinking, e: Envelope, later: Envelope, delta: Seq<char>)
    ensures
        t.close(e).state.phase != Lifecycle::Open,
        t.close(e).state.close(later) == idle(t.close(e).state, later),
        t.phase == Lifecycle::Open ==> t.close(e).state.push(later, delta) == idle(
            t.close(e).state,
            later,
        ),
{
}

/// The deltas of a reasoning item, one after the other.
pub open spec fn push_all(t: Thinking, e: Envelope, deltas: Seq<Seq<char>>) -> Step<Thinking>
    decreases deltas.len(),
{
    if deltas.len() == 0 {
        idle(t, e)
    } else {
        let before = push_all(t, e, deltas.drop_last());
        let s = before.state.push(before.envelope, deltas.last());
        Step { state: s.state, envelope: s.envelope, events: before.events + s.events }
    }
}

/// The texts of a list, one after the other.
pub open spec fn run_together(parts: Seq<Seq<char>>) -> Seq<char>
    decreases parts.len(),
{
    if parts.len() == 0 {
        Seq::empty()
    } else {
        run_together(parts.drop_last()) + parts.last()
    }
}

/// The item that is handed to the envelope holds the text of all deltas, one after
/// the other, under the index and the id under which it was opened.
pub proof fn reasoning_is_the_sum_of_its_deltas(e: Envelope, deltas: Seq<Seq<char>>)
    requires
        deltas.len() > 0,
    ensures
        ({
            let s = push_all(Thinking::none(), e, deltas);
            let done = s.state.close(s.envelope);
            &&& s.envelope == e.allocated()
            &&& done.envelope == e.allocated().with_item(
                e.next,
                reasoning_item(e.response_id, run_together(deltas)),
            )
        }),
{
    lemma_pushes(e, deltas);
}

proof fn lemma_pushes(e: Envelope, deltas: Seq<Seq<char>>)
    requires
        deltas.len() > 0,
    ensures
        ({
            let s = push_all(Thinking::none(), e, deltas);
            &&& s.state.phase == Lifecycle::Open
            &&& s.state.text == run_together(deltas)
            &&& s.state.index == e.next
            &&& s.envelope == e.allocated()
        }),
    decreases deltas.len(),
{
    if deltas.len() > 1 {
        lemma_pushes(e, deltas.drop_last());
    } else {
        reveal_with_fuel(push_all, 2);
        reveal_with_fuel(run_together, 2);
        assert(deltas.drop_last() =~= Seq::empty());
    }
}

} // verus!
