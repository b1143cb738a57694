//! The message item of a streamed response.
//!
//! The item holds content parts in order: texts, which grow by deltas until they
//! are closed, and refusals, which are closed at once. A part is known by its
//! position. Annotations that come before a text is open wait for the next one.
use vstd::prelude::*;
use crate::convert::chat_to_responses::{
    make_message_item, make_output_text_part, make_refusal_part, message_item, output_text_part,
    refusal_part,
};
use crate::convert::message_normalization::{copy_objects, objects_of};
use crate::id_gen::message_id;
use crate::json::{
    append_copies, clone_values, items_in, lemma_trees_push, opt_tree, trees, Json, Tree,
};
use crate::stream_envelope::{Envelope, ResponseEnvelopeState};
use crate::stream_events::{
    self, frames, item_added, item_done, lemma_frames_push, lemma_no_wires, lemma_wires_concat,
    lemma_wires_push, nothing, part_added, part_done, single, text_delta, text_done, wires, Event,
};
use crate::stream_reasoning::{idle, Lifecycle, Step};

verus! {

broadcast use {
    lemma_frames_push,
    lemma_wires_push,
    lemma_wires_concat,
    lemma_no_wires,
    lemma_trees_push,
};

/// One content part of the message.
#[derive(Debug)]
pub enum Segment {
    Text { text: String, annotations: Vec<Json>, closed: bool },
    Refusal { refusal: String },
}

/// The model of a content part.
#[verifier::ext_equal]
pub ghost enum Piece {
    Text { text: Seq<char>, annotations: Seq<Tree>, closed: bool },
    Refusal { refusal: Seq<char> },
}

impl View for Segment {
    type V = Piece;

    open spec fn view(&self) -> Piece {
        match *self {
            Segment::Text { text, annotations, closed } => Piece::Text {
                text: text@,
                annotations: trees(annotations@),
                closed,
            },
            Segment::Refusal { refusal } => Piece::Refusal { refusal: refusal@ },
        }
    }
}

impl Piece {
    /// Whether text can still be appended.
    pub open spec fn is_open(self) -> bool {
        self matches Piece::Text { closed, .. } && !closed
    }

    /// The part with text appended.
    pub open spec fn with_text(self, delta: Seq<char>) -> Piece {
        match self {
            Piece::Text { text, annotations, closed } => Piece::Text {
                text: text + delta,
                annotations,
                closed,
            },
            Piece::Refusal { .. } => self,
        }
    }

    /// The part with annotations appended.
    pub open spec fn annotated(self, more: Seq<Tree>) -> Piece {
        match self {
            Piece::Text { text, annotations, closed } => Piece::Text {
                text,
                annotations: annotations + more,
                closed,
            },
            Piece::Refusal { .. } => self,
        }
    }

    /// The part once it is closed.
    pub open spec fn shut(self) -> Piece {
        match self {
            Piece::Text { text, annotations, .. } => Piece::Text {
                text,
                annotations,
                closed: true,
            },
            Piece::Refusal { .. } => self,
        }
    }

    /// The part as it stands in the item.
    pub open spec fn part(self) -> Tree {
        match self {
            Piece::Text { text, annotations, .. } => output_text_part(text, annotations),
            Piece::Refusal { refusal } => refusal_part(refusal),
        }
    }

    /// The visible text of the part.
    pub open spec fn visible(self) -> Seq<char> {
        match self {
            Piece::Text { text, .. } => text,
            Piece::Refusal { .. } => Seq::empty(),
        }
    }

    /// The events that close the part at position `at`, if it is open.
    pub open spec fn closing(self, id: Seq<char>, index: int, at: int) -> Seq<Event> {
        match self {
            Piece::Text { text, annotations, closed } => if closed {
                Seq::empty()
            } else {
                seq![
                    text_done(id, index, at, text),
                    part_done(id, index, at, output_text_part(text, annotations)),
                ]
            },
            Piece::Refusal { .. } => Seq::empty(),
        }
    }
}

/// The models of content parts.
pub open spec fn pieces(s: Seq<Segment>) -> Seq<Piece> {
    s.map_values(|g: Segment| g@)
}

/// One content part more.
broadcast proof fn lemma_pieces_push(s: Seq<Segment>, g: Segment)
    ensures
        #[trigger] pieces(s.push(g)) == pieces(s).push(g@),
{
    assert(pieces(s.push(g)) =~= pieces(s).push(g@));
}

/// The parts as they stand in the item.
pub open spec fn parts_of(s: Seq<Piece>) -> Seq<Tree> {
    s.map_values(|p: Piece| p.part())
}

/// The parts once all of them are closed.
pub open spec fn all_shut(s: Seq<Piece>) -> Seq<Piece> {
    s.map_values(|p: Piece| p.shut())
}

/// The visible text of all parts.
pub open spec fn visible_text(s: Seq<Piece>) -> Seq<char>
    decreases s.len(),
{
    if s.len() == 0 {
        Seq::empty()
    } else {
        visible_text(s.drop_last()) + s.last().visible()
    }
}

/// The events that close all open parts, in order.
pub open spec fn closings(s: Seq<Piece>, id: Seq<char>, index: int) -> Seq<Event>
    decreases s.len(),
{
    if s.len() == 0 {
        Seq::empty()
    } else {
        closings(s.drop_last(), id, index) + s.last().closing(id, index, s.len() - 1)
    }
}

/// The message item of a turn.
#[derive(Debug)]
pub struct MessageState {
    segments: Vec<Segment>,
    lifecycle: Lifecycle,
    output_index: i64,
    pending_annotations: Vec<Json>,
}

/// The model of a message item.
#[verifier::ext_equal]
pub ghost struct Message {
    pub segments: Seq<Piece>,
    pub phase: Lifecycle,
    pub index: int,
    pub pending: Seq<Tree>,
}

impl View for MessageState {
    type V = Message;

    closed spec fn view(&self) -> Message {
        Message {
            segments: pieces(self.segments@),
            phase: self.lifecycle,
            index: self.output_index as int,
            pending: trees(self.pending_annotations@),
        }
    }
}

impl Message {
    /// No message yet.
    pub open spec fn none() -> Message {
        Message {
            segments: Seq::empty(),
            phase: Lifecycle::NotStarted,
            index: 0,
            pending: Seq::empty(),
        }
    }

    /// Whether the last part is a text that is still open.
    pub open spec fn writing(self) -> bool {
        self.segments.len() > 0 && self.segments.last().is_open()
    }

    /// The message with its last part replaced.
    pub open spec fn with_last(self, p: Piece) -> Message {
        Message { segments: self.segments.drop_last().push(p), ..self }
    }

    /// The visible text.
    pub open spec fn text(self) -> Seq<char> {
        visible_text(self.segments)
    }

    /// The message with annotations for its open text or its next one. Only
    /// objects count.
    pub open spec fn with_annotations(self, annotations: Option<Tree>) -> Message {
        match items_in(annotations) {
            Some(items) => {
                let more = objects_of(items);
                if self.writing() {
                    self.with_last(self.segments.last().annotated(more))
                } else {
                    Message { pending: self.pending + more, ..self }
                }
            },
            None => self,
        }
    }

    /// Open the item, unless that was done.
    pub open spec fn start(self, e: Envelope) -> Step<Message> {
        if self.phase != Lifecycle::NotStarted {
            idle(self, e)
        } else {
            Step {
                state: Message { phase: Lifecycle::Open, index: e.next, ..self },
                envelope: e.allocated(),
                events: seq![
                    item_added(e.next, message_item(e.response_id, "in_progress"@, Seq::empty())),
                ],
            }
        }
    }

    /// See to it that the last part is an open text that holds all annotations that
    /// wait.
    pub open spec fn ready(self, e: Envelope) -> Step<Message> {
        let s = self.start(e);
        let m = s.state;
        if self.writing() {
            Step {
                state: Message {
                    pending: Seq::empty(),
                    ..m.with_last(m.segments.last().annotated(m.pending))
                },
                ..s
            }
        } else {
            Step {
                state: Message {
                    segments: m.segments.push(
                        Piece::Text { text: Seq::empty(), annotations: m.pending, closed: false },
                    ),
                    pending: Seq::empty(),
                    ..m
                },
                envelope: s.envelope,
                events: s.events.push(
                    part_added(
                        message_id(e.response_id),
                        m.index,
                        m.segments.len() as int,
                        output_text_part(""@, m.pending),
                    ),
                ),
            }
        }
    }

    /// Append to the open text, opening one where there is none. Nothing happens
    /// once the item is done, nor for an empty delta.
    pub open spec fn push_text(self, e: Envelope, delta: Seq<char>) -> Step<Message> {
        if self.phase == Lifecycle::Done || delta.len() == 0 {
            idle(self, e)
        } else {
            let s = self.ready(e);
            let m = s.state;
            Step {
                state: m.with_last(m.segments.last().with_text(delta)),
                envelope: s.envelope,
                events: s.events.push(
                    text_delta(message_id(e.response_id), m.index, m.segments.len() - 1, delta),
                ),
            }
        }
    }

    /// Add a refusal, which is closed at once.
    pub open spec fn push_refusal(self, e: Envelope, refusal: Seq<char>) -> Step<Message> {
        if self.phase == Lifecycle::Done || refusal.len() == 0 {
            idle(self, e)
        } else {
            let s = self.start(e);
            let m = s.state;
            let id = message_id(e.response_id);
            let at = m.segments.len() as int;
            Step {
                state: Message { segments: m.segments.push(Piece::Refusal { refusal }), ..m },
                envelope: s.envelope,
                events: s.events.push(part_added(id, m.index, at, refusal_part(refusal))).push(
                    part_done(id, m.index, at, refusal_part(refusal)),
                ),
            }
        }
    }

    /// Close the text that is open, if there is one.
    pub open spec fn flush(self, e: Envelope) -> Step<Message> {
        if self.phase == Lifecycle::Done || !self.writing() {
            idle(self, e)
        } else {
            let last = self.segments.last();
            Step {
                state: self.with_last(last.shut()),
                envelope: e,
                events: last.closing(
                    message_id(e.response_id),
                    self.index,
                    self.segments.len() - 1,
                ),
            }
        }
    }

    /// Close all parts and the item, and hand it to the envelope. Nothing happens
    /// unless the item is open.
    pub open spec fn close(self, e: Envelope) -> Step<Message> {
        if self.phase != Lifecycle::Open {
            idle(self, e)
        } else {
            let item = message_item(e.response_id, "completed"@, parts_of(self.segments));
            Step {
                state: Message {
                    segments: all_shut(self.segments),
                    phase: Lifecycle::Done,
                    ..self
                },
                envelope: e.with_item(self.index, item),
                events: closings(self.segments, message_id(e.response_id), self.index).push(
                    item_done(self.index, item),
                ),
            }
        }
    }
}

impl MessageState {
    /// No message yet.
    pub fn new() -> (r: MessageState)
        ensures
            r@ == Message::none(),
    {
        let r = MessageState {
            segments: Vec::new(),
            lifecycle: Lifecycle::NotStarted,
            output_index: 0,
            pending_annotations: Vec::new(),
        };
        assert(r@ =~= Message::none());
        r
    }

    /// The visible text of all parts.
    pub fn text(&self) -> (r: String)
        ensures
            r@ == self@.text(),
    {
        let ghost all = pieces(self.segments@);
        let mut out = String::new();
        let mut i: usize = 0;
        assert(all.take(0) =~= Seq::empty());
        while i < self.segments.len()
            invariant
                i <= self.segments@.len(),
                all == pieces(self.segments@),
                out@ == visible_text(all.take(i as int)),
            decreases self.segments.len() - i,
        {
            assert(all.take(i as int + 1).drop_last() =~= all.take(i as int));
            assert(all.take(i as int + 1).last() == self.segments@[i as int]@);
            match &self.segments[i] {
                Segment::Text { text, .. } => out.push_str(text.as_str()),
                Segment::Refusal { .. } => {
                    assert(out@ + Seq::<char>::empty() =~= out@);
                },
            }
            i += 1;
        }
        assert(all.take(i as int) =~= all);
        out
    }

    fn is_writing(&self) -> (r: bool)
        ensures
            r == self@.writing(),
    {
        if self.segments.len() == 0 {
            return false;
        }
        assert(self@.segments.last() == self.segments@.last()@);
        match &self.segments[self.segments.len() - 1] {
            Segment::Text { closed, .. } => !*closed,
            Segment::Refusal { .. } => false,
        }
    }

    fn annotate_last(&mut self, more: &Vec<Json>)
        requires
            old(self)@.writing(),
        ensures
            final(self)@ == old(self)@.with_last(
                old(self)@.segments.last().annotated(trees(more@)),
            ),
    {
        broadcast use lemma_pieces_push;

        assert(self@.segments.last() == self.segments@.last()@);
        assert(pieces(self.segments@.drop_last()) =~= pieces(self.segments@).drop_last());
        if let Some(last) = self.segments.pop() {
            match last {
                Segment::Text { text, annotations, closed } => {
                    let mut annotations = annotations;
                    append_copies(&mut annotations, more);
                    self.segments.push(Segment::Text { text, annotations, closed });
                },
                Segment::Refusal { refusal } => {
                    self.segments.push(Segment::Refusal { refusal });
                },
            }
        }
    }

    /// Take annotations for the open text or the next one. Only objects count, and
    /// what is no array is ignored.
    pub fn add_annotations(&mut self, annotations: Option<&Json>)
        ensures
            final(self)@ == old(self)@.with_annotations(opt_tree(annotations)),
    {
        if let Some(Json::Array(items)) = annotations {
            let more = copy_objects(items);
            if self.is_writing() {
                self.annotate_last(&more);
            } else {
                append_copies(&mut self.pending_annotations, &more);
            }
        }
    }

    fn ensure_message_item_started(&mut self, envelope: &mut ResponseEnvelopeState) -> (r: Vec<
        Vec<u8>,
    >)
        ensures
            final(self)@ == old(self)@.start(old(envelope)@).state,
            final(envelope)@ == old(self)@.start(old(envelope)@).envelope,
            frames(r@) == wires(old(self)@.start(old(envelope)@).events),
    {
        if self.lifecycle != Lifecycle::NotStarted {
            return nothing();
        }
        self.lifecycle = Lifecycle::Open;
        self.output_index = envelope.allocate_output_index();
        let none: Vec<Json> = Vec::new();
        assert(trees(none@) =~= Seq::empty());
        let item = make_message_item(envelope.response_id.as_str(), "in_progress", none);
        let events = single(stream_events::output_item_added(self.output_index, item));
        assert(frames(events@) =~= wires(old(self)@.start(old(envelope)@).events));
        events
    }

    fn start_text_segment(&mut self, envelope: &mut ResponseEnvelopeState) -> (r: Vec<Vec<u8>>)
        ensures
            final(self)@ == old(self)@.ready(old(envelope)@).state,
            final(envelope)@ == old(self)@.ready(old(envelope)@).envelope,
            frames(r@) == wires(old(self)@.ready(old(envelope)@).events),
    {
        broadcast use lemma_pieces_push;

        let writing = self.is_writing();
        let mut events = self.ensure_message_item_started(envelope);
        let annotations = clone_values(&self.pending_annotations);
        self.pending_annotations = Vec::new();
        assert(trees(self.pending_annotations@) =~= Seq::empty());
        if writing {
            self.annotate_last(&annotations);
        } else {
            let at: usize = self.segments.len();
            let id = envelope.message_item_id();
            events.push(
                stream_events::content_part_added(
                    id.as_str(),
                    self.output_index,
                    at,
                    make_output_text_part("", clone_values(&annotations)),
                ),
            );
            self.segments.push(
                Segment::Text { text: String::new(), annotations, closed: false },
            );
        }
        events
    }

    /// Append to the open text, opening one where there is none. Nothing happens
    /// once the item is done, nor for an empty delta.
    pub fn push_text_delta(&mut self, envelope: &mut ResponseEnvelopeState, delta: &str) -> (r: Vec<
        Vec<u8>,
    >)
        ensures
            final(self)@ == old(self)@.push_text(old(envelope)@, delta@).state,
            final(envelope)@ == old(self)@.push_text(old(envelope)@, delta@).envelope,
            frames(r@) == wires(old(self)@.push_text(old(envelope)@, delta@).events),
    {
        broadcast use lemma_pieces_push;

        if self.lifecycle == Lifecycle::Done || delta.is_empty() {
            return nothing();
        }
        let mut events = self.start_text_segment(envelope);
        let ghost m = self@;
        assert(m.segments.last() == self.segments@.last()@);
        assert(pieces(self.segments@.drop_last()) =~= pieces(self.segments@).drop_last());
        if let Some(last) = self.segments.pop() {
            let at: usize = self.segments.len();
            let id = envelope.message_item_id();
            match last {
                Segment::Text { text, annotations, closed } => {
                    let mut text = text;
                    text.push_str(delta);
                    self.segments.push(Segment::Text { text, annotations, closed });
                },
                Segment::Refusal { refusal } => {
                    self.segments.push(Segment::Refusal { refusal });
                },
            }
            events.push(
                stream_events::output_text_delta(id.as_str(), self.output_index, at, delta),
            );
        }
        events
    }

    /// Add a refusal, which is closed at once.
    pub fn push_refusal_part(&mut self, envelope: &mut ResponseEnvelopeState, refusal: &str) -> (r:
        Vec<Vec<u8>>)
        ensures
            final(self)@ == old(self)@.push_refusal(old(envelope)@, refusal@).state,
            final(envelope)@ == old(self)@.push_refusal(old(envelope)@, refusal@).envelope,
            frames(r@) == wires(old(self)@.push_refusal(old(envelope)@, refusal@).events),
    {
        broadcast use lemma_pieces_push;

        if refusal.is_empty() || self.lifecycle == Lifecycle::Done {
            return nothing();
        }
        let mut events = self.ensure_message_item_started(envelope);
        let at: usize = self.segments.len();
        self.segments.push(Segment::Refusal { refusal: refusal.to_owned() });
        let id = envelope.message_item_id();
        events.push(
            stream_events::content_part_added(
                id.as_str(),
                self.output_index,
                at,
                make_refusal_part(refusal),
            ),
        );
        events.push(
            stream_events::content_part_done(
                id.as_str(),
                self.output_index,
                at,
                make_refusal_part(refusal),
            ),
        );
        events
    }

    /// The content parts as they stand in the completed item.
    pub fn content_parts(&self) -> (r: Vec<Json>)
        ensures
            trees(r@) == parts_of(self@.segments),
    {
        let ghost all = pieces(self.segments@);
        let mut out: Vec<Json> = Vec::new();
        let mut i: usize = 0;
        assert(trees(out@) =~= parts_of(all).take(0));
        while i < self.segments.len()
            invariant
                i <= self.segments@.len(),
                all == pieces(self.segments@),
                trees(out@) == parts_of(all).take(i as int),
            decreases self.segments.len() - i,
        {
            assert(parts_of(all)[i as int] == self.segments@[i as int]@.part());
            let part = match &self.segments[i] {
                Segment::Text { text, annotations, .. } => make_output_text_part(
                    text.as_str(),
                    clone_values(annotations),
                ),
                Segment::Refusal { refusal } => make_refusal_part(refusal.as_str()),
            };
            out.push(part);
            assert(trees(out@) =~= parts_of(all).take(i as int + 1));
            i += 1;
        }
        assert(parts_of(all).take(i as int) =~= parts_of(all));
        out
    }

    /// The part at a position once it is closed, and the events that close it.
    fn closed_segment(&self, at: usize, id: &str) -> (r: (Segment, Vec<Vec<u8>>))
        requires
            at < self@.segments.len(),
        ensures
            r.0@ == self@.segments[at as int].shut(),
            frames(r.1@) == wires(self@.segments[at as int].closing(id@, self@.index, at as int)),
    {
        assert(self@.segments[at as int] == self.segments@[at as int]@);
        match &self.segments[at] {
            Segment::Text { text, annotations, closed } => {
                let mut events = nothing();
                if !*closed {
                    events = single(
                        stream_events::output_text_done(id, self.output_index, at, text.as_str()),
                    );
                    events.push(
                        stream_events::content_part_done(
                            id,
                            self.output_index,
                            at,
                            make_output_text_part(text.as_str(), clone_values(annotations)),
                        ),
                    );
                    assert(frames(events@) =~= wires(
                        self@.segments[at as int].closing(id@, self@.index, at as int),
                    ));
                }
                (
                    Segment::Text {
                        text: text.clone(),
                        annotations: clone_values(annotations),
                        closed: true,
                    },
                    events,
                )
            },
            Segment::Refusal { refusal } => (
                Segment::Refusal { refusal: refusal.clone() },
                nothing(),
            ),
        }
    }

    /// Close the text that is open, if there is one.
    pub fn flush_open_text_part(&mut self, envelope: &mut ResponseEnvelopeState) -> (r: Vec<
        Vec<u8>,
    >)
        ensures
            final(self)@ == old(self)@.flush(old(envelope)@).state,
            final(envelope)@ == old(self)@.flush(old(envelope)@).envelope,
            frames(r@) == wires(old(self)@.flush(old(envelope)@).events),
    {
        broadcast use lemma_pieces_push;

        if self.lifecycle == Lifecycle::Done || !self.is_writing() {
            return nothing();
        }
        let id = envelope.message_item_id();
        let at: usize = self.segments.len() - 1;
        let (shut, events) = self.closed_segment(at, id.as_str());
        assert(pieces(self.segments@.drop_last()) =~= pieces(self.segments@).drop_last());
        self.segments.pop();
        self.segments.push(shut);
        events
    }

    /// Close all parts and the item, and hand it to the envelope. Nothing happens
    /// unless the item is open.
    pub fn finalize(&mut self, envelope: &mut ResponseEnvelopeState) -> (r: Vec<Vec<u8>>)
        ensures
            final(self)@ == old(self)@.close(old(envelope)@).state,
            final(envelope)@ == old(self)@.close(old(envelope)@).envelope,
            frames(r@) == wires(old(self)@.close(old(envelope)@).events),
    {
        broadcast use lemma_pieces_push;

        if self.lifecycle != Lifecycle::Open {
            return nothing();
        }
        let ghost all = self@.segments;
        let id = envelope.message_item_id();
        let mut events = nothing();
        let mut shut: Vec<Segment> = Vec::new();
        let mut i: usize = 0;
        assert(all.take(0) =~= Seq::empty());
        assert(pieces(shut@) =~= all_shut(all).take(0));
        while i < self.segments.len()
            invariant
                i <= self.segments@.len(),
                self@ == old(self)@,
                all == self@.segments,
                all == pieces(self.segments@),
                pieces(shut@) == all_shut(all).take(i as int),
                frames(events@) == wires(closings(all.take(i as int), id@, self@.index)),
            decreases self.segments.len() - i,
        {
            assert(all.take(i as int + 1).drop_last() =~= all.take(i as int));
            assert(all.take(i as int + 1).last() == all[i as int]);
            let (part, more) = self.closed_segment(i, id.as_str());
            stream_events::extend(&mut events, more);
            proof {
                lemma_pieces_push(shut@, part);
                assert(all_shut(all).take(i as int + 1) =~= all_shut(all).take(i as int).push(
                    all[i as int].shut(),
                ));
            }
            shut.push(part);
            i += 1;
        }
        assert(all.take(i as int) =~= all);
        assert(all_shut(all).take(i as int) =~= all_shut(all));
        let content = self.content_parts();
        let item = make_message_item(envelope.response_id.as_str(), "completed", content);
        self.lifecycle = Lifecycle::Done;
        self.segments = shut;
        events.push(stream_events::output_item_done(self.output_index, item.clone()));
        envelope.append_completed_item(self.output_index, item);
        events
    }
}

/// A message is closed once: closing it again does nothing, and neither does a late
/// text or refusal.
pub proof fn closed_messages_stay_closed(m: Message, e: Envelope, later: Envelope, late: Seq<char>)
    ensures
        m.close(e).state.phase != Lifecycle::Open,
        m.close(e).state.close(later) == idle(m.close(e).state, later),
        m.phase == Lifecycle::Open ==> {
            let done = m.close(e).state;
            &&& done.push_text(later, late) == idle(done, later)
            &&& done.push_refusal(later, late) == idle(done, later)
            &&& done.flush(later) == idle(done, later)
        },
{
}

/// Each delta is appended to the visible text; a refusal and closing a text leave it
/// as it is.
pub proof fn visible_text_is_the_sum_of_its_deltas(m: Message, e: Envelope, s: Seq<char>)
    requires
        m.phase != Lifecycle::Done,
    ensures
        m.push_text(e, s).state.text() == m.text() + s,
        m.push_refusal(e, s).state.text() == m.text(),
        m.flush(e).state.text() == m.text(),
        m.close(e).state.text() == m.text(),
{
    let segs = m.segments;
    if s.len() == 0 {
        assert(m.text() + s =~= m.text());
    } else {
        let after = m.push_text(e, s).state.segments;
        if m.writing() {
            assert(after.drop_last() =~= segs.drop_last());
            assert(segs.last().visible() + s =~= after.last().visible());
            assert(visible_text(segs.drop_last()) + segs.last().visible() + s =~= visible_text(
                segs.drop_last(),
            ) + after.last().visible());
        } else {
            assert(after.drop_last() =~= segs);
            assert(after.last().visible() =~= s);
        }
        let refused = m.push_refusal(e, s).state.segments;
        assert(refused.drop_last() =~= segs);
        assert(visible_text(segs) + Seq::<char>::empty() =~= visible_text(segs));
    }
    if m.writing() {
        let flushed = m.flush(e).state.segments;
        assert(flushed.drop_last() =~= segs.drop_last());
    }
    lemma_shut_text(segs);
}

proof fn lemma_shut_text(s: Seq<Piece>)
    ensures
        visible_text(all_shut(s)) == visible_text(s),
    decreases s.len(),
{
    if s.len() > 0 {
        lemma_shut_text(s.drop_last());
        assert(all_shut(s).drop_last() =~= all_shut(s.drop_last()));
    }
}

} // verus!
