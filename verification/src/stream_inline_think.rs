//! Finding a think block at the front of streamed content.
//!
//! Content may begin with a block between think tags, whose text belongs to the
//! reasoning item. The detector first holds content back until it is clear
//! whether an open tag stands there. Inside the block it holds back an end that
//! may still grow into the close tag. Behind the block, content is plain text.
use vstd::prelude::*;
use crate::reasoning::{
    could_be_partial_think_open, find_tag, first_tag, first_tag_at, held_back, held_back_chars,
    lemma_cut_close_tag, lemma_cut_open_tag, lemma_first_tag, lemma_first_tag_stays,
    lemma_held_back, lemma_longest_bound, lemma_some_tag_is_first, lemma_tag_end_unique,
    lemma_tag_shift, lemma_trim_start_twice, partial_open, tag_at, Tag,
};
use crate::stream_envelope::{Envelope, ResponseEnvelopeState};
use crate::stream_events::{
    self, frames, lemma_frames_push, lemma_no_wires, lemma_wires_concat, lemma_wires_push, nothing,
    wires, Event,
};
use crate::stream_message::{Message, MessageState};
use crate::stream_reasoning::{idle, Lifecycle, ReasoningState, Step, Thinking};
use crate::text::{cat, chars_of, is_space, lower, text_of, trim_start, trimmed_start};

verus! {

broadcast use {lemma_frames_push, lemma_wires_push, lemma_wires_concat, lemma_no_wires};

/// What the detector has found so far.
#[derive(Debug, Clone, Copy, PartialEq, Eq, Structural)]
pub enum Phase {
    Detecting,
    Reasoning,
    Text,
}

/// The detector of think blocks.
#[derive(Debug)]
pub struct InlineThinkStateMachine {
    phase: Phase,
    buffer: String,
    reason_tail: String,
}

/// The model of the detector: what it has found, the content that it holds back
/// while it looks for the open tag, and the end of the block that it holds back.
#[verifier::ext_equal]
pub ghost struct Detector {
    pub phase: Phase,
    pub buffer: Seq<char>,
    pub tail: Seq<char>,
}

impl View for InlineThinkStateMachine {
    type V = Detector;

    closed spec fn view(&self) -> Detector {
        Detector { phase: self.phase, buffer: self.buffer@, tail: self.reason_tail@ }
    }
}

/// What content can reach: the detector, the reasoning item and the message item.
#[verifier::ext_equal]
pub ghost struct Speech {
    pub think: Detector,
    pub reasoning: Thinking,
    pub message: Message,
}

/// A step that has done nothing yet.
pub open spec fn begin(think: Detector, reasoning: Thinking, message: Message, e: Envelope) -> Step<
    Speech,
> {
    idle(Speech { think, reasoning, message }, e)
}

/// The step with the detector replaced.
pub open spec fn with_detector(s: Step<Speech>, think: Detector) -> Step<Speech> {
    Step { state: Speech { think, ..s.state }, ..s }
}

/// Then append to the reasoning.
pub open spec fn reason(s: Step<Speech>, text: Seq<char>) -> Step<Speech> {
    if text.len() == 0 {
        s
    } else {
        let r = s.state.reasoning.push(s.envelope, text);
        Step {
            state: Speech { reasoning: r.state, ..s.state },
            envelope: r.envelope,
            events: s.events + r.events,
        }
    }
}

/// Then close the reasoning.
pub open spec fn settle(s: Step<Speech>) -> Step<Speech> {
    let r = s.state.reasoning.close(s.envelope);
    Step {
        state: Speech { reasoning: r.state, ..s.state },
        envelope: r.envelope,
        events: s.events + r.events,
    }
}

/// Then append to the message.
pub open spec fn say(s: Step<Speech>, text: Seq<char>) -> Step<Speech> {
    let m = s.state.message.push_text(s.envelope, text);
    Step {
        state: Speech { message: m.state, ..s.state },
        envelope: m.envelope,
        events: s.events + m.events,
    }
}

/// Content inside a think block.
pub open spec fn inside_block(s: Step<Speech>, delta: Seq<char>) -> Step<Speech> {
    let d = s.state.think;
    let all = d.tail + delta;
    match first_tag(all, Tag::Close) {
        Some((i, j)) => {
            let closed = Detector { phase: Phase::Text, tail: Seq::empty(), ..d };
            say(settle(reason(with_detector(s, closed), all.take(i))), all.skip(j))
        },
        None => {
            let n = all.len() - held_back(all);
            reason(with_detector(s, Detector { tail: all.skip(n), ..d }), all.take(n))
        },
    }
}

/// Where the text of the block begins, if an open tag stands at the very front.
pub open spec fn open_tag_end(s: Seq<char>) -> Option<int> {
    match first_tag(s, Tag::Open) {
        Some((i, j)) => if i == 0 {
            Some(j)
        } else {
            None
        },
        None => None,
    }
}

/// Content while it is open whether a think block stands at the front. White space
/// before the tag does not count: alone it is held back, and without a tag it stays part
/// of the text.
pub open spec fn at_front(s: Step<Speech>, delta: Seq<char>) -> Step<Speech> {
    let d = s.state.think;
    let all = d.buffer + delta;
    let front = trim_start(all);
    match open_tag_end(front) {
        Some(j) => {
            let inside = Detector { phase: Phase::Reasoning, buffer: Seq::empty(), ..d };
            if front.skip(j).len() == 0 {
                with_detector(s, inside)
            } else {
                inside_block(with_detector(s, inside), front.skip(j))
            }
        },
        None => if front.len() == 0 || partial_open(front) {
            with_detector(s, Detector { buffer: all, ..d })
        } else {
            say(
                with_detector(s, Detector { phase: Phase::Text, buffer: Seq::empty(), ..d }),
                all,
            )
        },
    }
}

/// Content.
pub open spec fn content(s: Step<Speech>, delta: Seq<char>) -> Step<Speech> {
    match s.state.think.phase {
        Phase::Text => say(s, delta),
        Phase::Reasoning => inside_block(s, delta),
        Phase::Detecting => at_front(s, delta),
    }
}

/// Then give out the end of the block that is held back.
pub open spec fn drained(s: Step<Speech>) -> Step<Speech> {
    let d = s.state.think;
    reason(with_detector(s, Detector { tail: Seq::empty(), ..d }), d.tail)
}

/// Then give out the content that is held back, as text.
pub open spec fn spilled(s: Step<Speech>) -> Step<Speech> {
    let d = s.state.think;
    say(
        with_detector(s, Detector { phase: Phase::Text, buffer: Seq::empty(), ..d }),
        d.buffer,
    )
}

/// The end of the content: a block that was never closed stays reasoning, and
/// content that was held back is text after all.
pub open spec fn ended(s: Step<Speech>) -> Step<Speech> {
    match s.state.think.phase {
        Phase::Reasoning => {
            let r = settle(drained(s));
            with_detector(r, Detector { phase: Phase::Text, ..r.state.think })
        },
        Phase::Detecting => spilled(s),
        Phase::Text => s,
    }
}

/// What follows is plain text, whatever was found so far.
pub open spec fn forced(s: Step<Speech>) -> Step<Speech> {
    if s.state.think.phase == Phase::Text {
        s
    } else {
        spilled(settle(drained(s)))
    }
}

impl InlineThinkStateMachine {
    /// A detector that has seen nothing.
    pub fn new() -> (r: InlineThinkStateMachine)
        ensures
            r@ == (Detector {
                phase: Phase::Detecting,
                buffer: Seq::empty(),
                tail: Seq::empty(),
            }),
    {
        InlineThinkStateMachine {
            phase: Phase::Detecting,
            buffer: String::new(),
            reason_tail: String::new(),
        }
    }

    /// Whether content is plain text by now.
    pub fn is_text_phase(&self) -> (r: bool)
        ensures
            r == (self@.phase == Phase::Text),
    {
        self.phase == Phase::Text
    }

    /// Whether content may still belong to a think block.
    pub fn is_detecting_or_reasoning(&self) -> (r: bool)
        ensures
            r == (self@.phase != Phase::Text),
    {
        self.phase != Phase::Text
    }

    /// Send content where it belongs.
    pub fn push_content_delta(
        &mut self,
        delta: &str,
        envelope: &mut ResponseEnvelopeState,
        reasoning: &mut ReasoningState,
        message: &mut MessageState,
    ) -> (r: Vec<Vec<u8>>)
        ensures
            ({
                let s = content(
                    begin(old(self)@, old(reasoning)@, old(message)@, old(envelope)@),
                    delta@,
                );
                &&& final(self)@ == s.state.think
                &&& final(reasoning)@ == s.state.reasoning
                &&& final(message)@ == s.state.message
                &&& final(envelope)@ == s.envelope
                &&& frames(r@) == wires(s.events)
            }),
    {
        match self.phase {
            Phase::Text => {
                let r = message.push_text_delta(envelope, delta);
                assert(Seq::<Event>::empty() + old(message)@.push_text(
                    old(envelope)@,
                    delta@,
                ).events =~= old(message)@.push_text(old(envelope)@, delta@).events);
                r
            },
            Phase::Reasoning => self.route_reasoning_delta(delta, envelope, reasoning, message),
            Phase::Detecting => self.route_detecting_delta(delta, envelope, reasoning, message),
        }
    }

    fn route_detecting_delta(
        &mut self,
        delta: &str,
        envelope: &mut ResponseEnvelopeState,
        reasoning: &mut ReasoningState,
        message: &mut MessageState,
    ) -> (r: Vec<Vec<u8>>)
        ensures
            ({
                let s = at_front(
                    begin(old(self)@, old(reasoning)@, old(message)@, old(envelope)@),
                    delta@,
                );
                &&& final(self)@ == s.state.think
                &&& final(reasoning)@ == s.state.reasoning
                &&& final(message)@ == s.state.message
                &&& final(envelope)@ == s.envelope
                &&& frames(r@) == wires(s.events)
            }),
    {
        let all = cat(self.buffer.as_str(), delta);
        let front = trimmed_start(all.as_str());
        if let Some((i, j)) = find_tag(front.as_str(), Tag::Open) {
            if i == 0 {
                self.phase = Phase::Reasoning;
                self.buffer = String::new();
                let v = chars_of(front.as_str());
                let inner = text_of(&v, j, v.len());
                assert(inner@ =~= front@.skip(j as int));
                if inner.as_str().is_empty() {
                    return nothing();
                }
                return self.route_reasoning_delta(inner.as_str(), envelope, reasoning, message);
            }
        }
        if front.as_str().is_empty() || could_be_partial_think_open(front.as_str()) {
            self.buffer = all;
            return nothing();
        }
        self.phase = Phase::Text;
        self.buffer = String::new();
        let r = message.push_text_delta(envelope, all.as_str());
        assert(Seq::<Event>::empty() + old(message)@.push_text(old(envelope)@, all@).events
            =~= old(message)@.push_text(old(envelope)@, all@).events);
        r
    }

    fn route_reasoning_delta(
        &mut self,
        delta: &str,
        envelope: &mut ResponseEnvelopeState,
        reasoning: &mut ReasoningState,
        message: &mut MessageState,
    ) -> (r: Vec<Vec<u8>>)
        ensures
            ({
                let s = inside_block(
                    begin(old(self)@, old(reasoning)@, old(message)@, old(envelope)@),
                    delta@,
                );
                &&& final(self)@ == s.state.think
                &&& final(reasoning)@ == s.state.reasoning
                &&& final(message)@ == s.state.message
                &&& final(envelope)@ == s.envelope
                &&& frames(r@) == wires(s.events)
            }),
    {
        let all = cat(self.reason_tail.as_str(), delta);
        let v = chars_of(all.as_str());
        let total: usize = v.len();
        let mut events = nothing();
        match find_tag(all.as_str(), Tag::Close) {
            Some((i, j)) => {
                self.reason_tail = String::new();
                self.phase = Phase::Text;
                let before = text_of(&v, 0, i);
                assert(before@ =~= all@.take(i as int));
                if !before.as_str().is_empty() {
                    stream_events::extend(
                        &mut events,
                        reasoning.push_delta(envelope, before.as_str()),
                    );
                }
                stream_events::extend(&mut events, reasoning.finalize(envelope));
                let behind = text_of(&v, j, total);
                assert(behind@ =~= all@.skip(j as int));
                stream_events::extend(
                    &mut events,
                    message.push_text_delta(envelope, behind.as_str()),
                );
            },
            None => {
                let hold = held_back_chars(all.as_str());
                let n: usize = total - hold;
                self.reason_tail = text_of(&v, n, total);
                assert(self.reason_tail@ =~= all@.skip(n as int));
                let before = text_of(&v, 0, n);
                assert(before@ =~= all@.take(n as int));
                if !before.as_str().is_empty() {
                    stream_events::extend(
                        &mut events,
                        reasoning.push_delta(envelope, before.as_str()),
                    );
                }
            },
        }
        events
    }

    fn drain_reason_tail(
        &mut self,
        envelope: &mut ResponseEnvelopeState,
        reasoning: &mut ReasoningState,
    ) -> (r: Vec<Vec<u8>>)
        ensures
            forall|message: Message|
                ({
                    let s = #[trigger] drained(
                        begin(old(self)@, old(reasoning)@, message, old(envelope)@),
                    );
                    &&& final(self)@ == s.state.think
                    &&& final(reasoning)@ == s.state.reasoning
                    &&& message == s.state.message
                    &&& final(envelope)@ == s.envelope
                    &&& frames(r@) == wires(s.events)
                }),
    {
        if self.reason_tail.as_str().is_empty() {
            assert(self.reason_tail@ =~= Seq::empty());
            return nothing();
        }
        let tail = self.reason_tail.clone();
        self.reason_tail = String::new();
        let r = reasoning.push_delta(envelope, tail.as_str());
        assert(Seq::<Event>::empty() + old(reasoning)@.push(old(envelope)@, tail@).events
            =~= old(reasoning)@.push(old(envelope)@, tail@).events);
        r
    }

    /// Give out what is held back at the end of the stream.
    pub fn flush_on_finalize(
        &mut self,
        envelope: &mut ResponseEnvelopeState,
        reasoning: &mut ReasoningState,
        message: &mut MessageState,
    ) -> (r: Vec<Vec<u8>>)
        ensures
            ({
                let s = ended(begin(old(self)@, old(reasoning)@, old(message)@, old(envelope)@));
                &&& final(self)@ == s.state.think
                &&& final(reasoning)@ == s.state.reasoning
                &&& final(message)@ == s.state.message
                &&& final(envelope)@ == s.envelope
                &&& frames(r@) == wires(s.events)
            }),
    {
        let mut events = nothing();
        match self.phase {
            Phase::Reasoning => {
                let ghost s = drained(
                    begin(old(self)@, old(reasoning)@, old(message)@, old(envelope)@),
                );
                events = self.drain_reason_tail(envelope, reasoning);
                stream_events::extend(&mut events, reasoning.finalize(envelope));
            },
            Phase::Detecting => {
                let buffered = self.buffer.clone();
                self.buffer = String::new();
                stream_events::extend(
                    &mut events,
                    message.push_text_delta(envelope, buffered.as_str()),
                );
            },
            Phase::Text => {},
        }
        self.phase = Phase::Text;
        events
    }

    /// Give out what is held back, and take what follows as plain text.
    pub fn force_to_text(
        &mut self,
        envelope: &mut ResponseEnvelopeState,
        reasoning: &mut ReasoningState,
        message: &mut MessageState,
    ) -> (r: Vec<Vec<u8>>)
        ensures
            ({
                let s = forced(begin(old(self)@, old(reasoning)@, old(message)@, old(envelope)@));
                &&& final(self)@ == s.state.think
                &&& final(reasoning)@ == s.state.reasoning
                &&& final(message)@ == s.state.message
                &&& final(envelope)@ == s.envelope
                &&& frames(r@) == wires(s.events)
            }),
    {
        if self.phase == Phase::Text {
            return nothing();
        }
        let ghost s = drained(begin(old(self)@, old(reasoning)@, old(message)@, old(envelope)@));
        let mut events = self.drain_reason_tail(envelope, reasoning);
        stream_events::extend(&mut events, reasoning.finalize(envelope));
        let buffered = self.buffer.clone();
        self.buffer = String::new();
        stream_events::extend(&mut events, message.push_text_delta(envelope, buffered.as_str()));
        self.phase = Phase::Text;
        events
    }
}

/// An open tag whose end is missing is none yet.
proof fn lemma_cut_tag_is_none(t: Seq<char>, k: int)
    requires
        tag_at(t, Tag::Open, 0, t.len() as int),
        0 < k < t.len(),
    ensures
        open_tag_end(t.take(k)) is None,
{
    let cut = t.take(k);
    if let Some(j) = open_tag_end(cut) {
        let (a, b) = choose|a: int, b: int| first_tag_at(cut, Tag::Open, a, b);
        assert(tag_at(cut, Tag::Open, 0, j));
        assert(cut.subrange(1, j - 1) =~= t.subrange(1, j - 1));
        assert(tag_at(t, Tag::Open, 0, j));
        lemma_tag_end_unique(t, Tag::Open, 0, j, t.len() as int);
    }
}

proof fn lemma_reason_twice(s: Step<Speech>, x: Seq<char>, y: Seq<char>)
    ensures
        reason(reason(s, x), y).state == reason(s, x + y).state,
        reason(reason(s, x), y).envelope == reason(s, x + y).envelope,
{
    let t = s.state.reasoning.text;
    assert(t + x + y =~= t + (x + y));
    if x.len() == 0 {
        assert(x + y =~= y);
    }
    if y.len() == 0 {
        assert(x + y =~= x);
    }
}

/// Where a close tag stands once the first of two deltas is given out but for what
/// is held back.
proof fn lemma_split_tag(one: Seq<char>, b: Seq<char>, i: int, j: int)
    requires
        first_tag(one, Tag::Close) is None,
        first_tag_at(one + b, Tag::Close, i, j),
    ensures
        ({
            let n = one.len() - held_back(one);
            let two = one.skip(n) + b;
            &&& 0 <= n <= one.len()
            &&& n <= i
            &&& first_tag(one + b, Tag::Close) == Some((i, j))
            &&& first_tag(two, Tag::Close) == Some((i - n, j - n))
            &&& one.take(n) + two.take(i - n) == (one + b).take(i)
            &&& two.skip(j - n) == (one + b).skip(j)
        }),
{
    let all = one + b;
    let len = one.len() as int;
    lemma_first_tag(all, Tag::Close, i, j);
    assert(j > len) by {
        if j <= len {
            assert(one.subrange(i + 1, j - 1) =~= all.subrange(i + 1, j - 1));
            assert(tag_at(one, Tag::Close, i, j));
            lemma_some_tag_is_first(one, Tag::Close, i, j);
        }
    }
    lemma_longest_bound(one, len);
    let n = len - held_back(one);
    assert(n <= i) by {
        if i < len {
            lemma_cut_close_tag(all, i, len, j);
            let m = len - i;
            assert(lower(one).skip(one.len() - m) =~= lower(all.subrange(i, len)));
            lemma_held_back(one, len, m);
        }
    }
    let two = one.skip(n) + b;
    assert(two =~= all.skip(n));
    lemma_tag_shift(all, Tag::Close, n, i - n, j - n);
    assert forall|a2: int, b2: int| a2 < i - n implies !#[trigger] tag_at(
        two,
        Tag::Close,
        a2,
        b2,
    ) by {
        if tag_at(two, Tag::Close, a2, b2) {
            lemma_tag_shift(all, Tag::Close, n, a2, b2);
            assert(tag_at(all, Tag::Close, a2 + n, b2 + n));
        }
    }
    assert(first_tag_at(two, Tag::Close, i - n, j - n));
    lemma_first_tag(two, Tag::Close, i - n, j - n);
    assert(one.take(n) + two.take(i - n) =~= all.take(i));
    assert(two.skip(j - n) =~= all.skip(j));
}

/// Reasoning does not depend on the detector.
proof fn lemma_reason_detector(s: Step<Speech>, d: Detector, text: Seq<char>)
    ensures
        with_detector(reason(s, text), d) == reason(with_detector(s, d), text),
{
}

/// Steps with the same outcome so far go on to the same outcome.
proof fn lemma_same_outcome(x: Step<Speech>, y: Step<Speech>, text: Seq<char>)
    requires
        x.state == y.state,
        x.envelope == y.envelope,
    ensures
        say(settle(x), text).state == say(settle(y), text).state,
        say(settle(x), text).envelope == say(settle(y), text).envelope,
        say(settle(x), text).state.think == x.state.think,
{
}

/// A close tag that is split between two deltas is found, and the turn is left as
/// if both had come in one.
pub proof fn split_close_tags_are_found(
    s: Step<Speech>,
    a: Seq<char>,
    b: Seq<char>,
    i: int,
    j: int,
)
    requires
        s.state.think.phase == Phase::Reasoning,
        first_tag(s.state.think.tail + a, Tag::Close) is None,
        first_tag_at(s.state.think.tail + a + b, Tag::Close, i, j),
    ensures
        content(content(s, a), b).state == content(s, a + b).state,
        content(content(s, a), b).envelope == content(s, a + b).envelope,
        content(s, a + b).state.think.phase == Phase::Text,
{
    let d = s.state.think;
    let one = d.tail + a;
    let all = one + b;
    assert(d.tail + (a + b) =~= all);
    lemma_split_tag(one, b, i, j);
    let n = one.len() - held_back(one);
    let two = one.skip(n) + b;
    let closed = Detector { phase: Phase::Text, tail: Seq::empty(), ..d };
    let held = Detector { tail: one.skip(n), ..d };
    let first = reason(with_detector(s, held), one.take(n));
    assert(content(s, a) == first);
    assert(first.state.think == held);
    lemma_reason_detector(with_detector(s, held), closed, one.take(n));
    let x = reason(with_detector(first, closed), two.take(i - n));
    let y = reason(with_detector(s, closed), all.take(i));
    assert(with_detector(with_detector(s, held), closed) == with_detector(s, closed));
    lemma_reason_twice(with_detector(s, closed), one.take(n), two.take(i - n));
    lemma_same_outcome(x, y, all.skip(j));
    assert(y.state.think == closed);
    assert(content(first, b) == say(settle(x), two.skip(j - n)));
    assert(content(s, a + b) == say(settle(y), all.skip(j)));
}

/// An open tag that is split between two deltas is found: as long as only a part of
/// it stands at the front, all content is held back, and the turn is left as if both
/// deltas had come in one.
pub proof fn split_open_tags_are_found(
    s: Step<Speech>,
    a: Seq<char>,
    b: Seq<char>,
    t: Seq<char>,
    k: int,
)
    requires
        s.state.think.phase == Phase::Detecting,
        tag_at(t, Tag::Open, 0, t.len() as int),
        0 < k < t.len(),
        trim_start(s.state.think.buffer + a) == t.take(k),
    ensures
        content(s, a).events == s.events,
        content(content(s, a), b) == content(s, a + b),
{
    let d = s.state.think;
    lemma_cut_open_tag(t, k);
    lemma_cut_tag_is_none(t, k);
    assert(t.take(k)[0] == '<');
    lemma_trim_start_twice(d.buffer + a);
    assert(d.buffer + a + b =~= d.buffer + (a + b));
}

/// Inside a block that is not closed yet, no text is lost: what is given to the
/// reasoning and what is held back are what came.
pub proof fn block_text_is_conserved(s: Step<Speech>, delta: Seq<char>)
    requires
        s.state.think.phase == Phase::Reasoning,
        s.state.reasoning.phase != Lifecycle::Done,
        first_tag(s.state.think.tail + delta, Tag::Close) is None,
    ensures
        ({
            let after = content(s, delta);
            &&& after.state.think.phase == Phase::Reasoning
            &&& after.state.message == s.state.message
            &&& after.state.reasoning.text + after.state.think.tail == s.state.reasoning.text
                + s.state.think.tail + delta
        }),
{
    let all = s.state.think.tail + delta;
    lemma_longest_bound(all, all.len() as int);
    let n = all.len() - held_back(all);
    assert(all.take(n) + all.skip(n) =~= all);
    assert(s.state.reasoning.text + s.state.think.tail + delta =~= s.state.reasoning.text + all);
    assert(s.state.reasoning.text + all.take(n) + all.skip(n) =~= s.state.reasoning.text + (
    all.take(n) + all.skip(n)));
    if n == 0 {
        assert(all.take(n) =~= Seq::empty());
        assert(s.state.reasoning.text + Seq::<char>::empty() =~= s.state.reasoning.text);
    }
}

/// Once content is plain text it stays so, and all of it is visible.
pub proof fn plain_text_passes_through(s: Step<Speech>, delta: Seq<char>)
    requires
        s.state.think.phase == Phase::Text,
        s.state.message.phase != Lifecycle::Done,
    ensures
        content(s, delta).state.think == s.state.think,
        content(s, delta).state.message.text() == s.state.message.text() + delta,
        content(s, delta).state.reasoning == s.state.reasoning,
{
    crate::stream_message::visible_text_is_the_sum_of_its_deltas(
        s.state.message,
        s.envelope,
        delta,
    );
}

/// Whether two steps leave the same reasoning and the same visible text.
pub open spec fn same_texts(x: Step<Speech>, y: Step<Speech>) -> bool {
    x.state.reasoning.text == y.state.reasoning.text && x.state.message.text()
        == y.state.message.text()
}

/// Whether nothing of a block is held back before a block is found.
pub open spec fn sound(d: Detector) -> bool {
    d.phase == Phase::Detecting ==> d.tail.len() == 0
}

/// The text, unless it comes too late.
spec fn unless(late: bool, text: Seq<char>) -> Seq<char> {
    if late {
        Seq::empty()
    } else {
        text
    }
}

proof fn lemma_reason_text(s: Step<Speech>, text: Seq<char>)
    ensures
        ({
            let r = reason(s, text);
            let late = s.state.reasoning.phase == Lifecycle::Done;
            &&& r.state.reasoning.text == s.state.reasoning.text + unless(late, text)
            &&& (r.state.reasoning.phase == Lifecycle::Done) == late
            &&& r.state.message == s.state.message
            &&& r.state.think == s.state.think
        }),
{
    assert(s.state.reasoning.text + Seq::<char>::empty() =~= s.state.reasoning.text);
    if text.len() == 0 {
        assert(text =~= Seq::empty());
    }
}

proof fn lemma_say_text(s: Step<Speech>, text: Seq<char>)
    ensures
        ({
            let r = say(s, text);
            let late = s.state.message.phase == Lifecycle::Done;
            &&& r.state.message.text() == s.state.message.text() + unless(late, text)
            &&& (r.state.message.phase == Lifecycle::Done) == late
            &&& r.state.reasoning == s.state.reasoning
            &&& r.state.think == s.state.think
        }),
{
    if s.state.message.phase == Lifecycle::Done {
        assert(s.state.message.text() + Seq::<char>::empty() =~= s.state.message.text());
    } else {
        crate::stream_message::visible_text_is_the_sum_of_its_deltas(
            s.state.message,
            s.envelope,
            text,
        );
    }
}

proof fn lemma_say_twice(s: Step<Speech>, x: Seq<char>, y: Seq<char>)
    ensures
        same_texts(say(say(s, x), y), say(s, x + y)),
{
    lemma_say_text(s, x);
    lemma_say_text(say(s, x), y);
    lemma_say_text(s, x + y);
    assert(s.state.message.text() + x + y =~= s.state.message.text() + (x + y));
    let none = Seq::<char>::empty();
    assert(s.state.message.text() + none + none =~= s.state.message.text() + none);
}

/// What a block that is not closed gives in the end: all that came.
proof fn lemma_open_block(s: Step<Speech>, delta: Seq<char>)
    requires
        s.state.think.phase == Phase::Reasoning,
        first_tag(s.state.think.tail + delta, Tag::Close) is None,
    ensures
        ({
            let all = s.state.think.tail + delta;
            let late = s.state.reasoning.phase == Lifecycle::Done;
            let r = content(s, delta);
            let n = all.len() - held_back(all);
            &&& 0 <= n <= all.len()
            &&& r.state.think == (Detector { tail: all.skip(n), ..s.state.think })
            &&& (r.state.reasoning.phase == Lifecycle::Done) == late
            &&& r.state.reasoning.text == s.state.reasoning.text + unless(late, all.take(n))
            &&& r.state.message == s.state.message
            &&& ended(r).state.reasoning.text == s.state.reasoning.text + unless(late, all)
            &&& ended(r).state.message == s.state.message
        }),
{
    let all = s.state.think.tail + delta;
    let late = s.state.reasoning.phase == Lifecycle::Done;
    let n = all.len() - held_back(all);
    lemma_longest_bound(all, all.len() as int);
    let held = Detector { tail: all.skip(n), ..s.state.think };
    let r = content(s, delta);
    lemma_reason_text(with_detector(s, held), all.take(n));
    let drain = with_detector(r, Detector { tail: Seq::empty(), ..r.state.think });
    lemma_reason_text(drain, all.skip(n));
    let text = s.state.reasoning.text;
    assert(text + all.take(n) + all.skip(n) =~= text + all);
    assert(text + Seq::<char>::empty() + Seq::<char>::empty() =~= text + Seq::<char>::empty());
}

/// A block that the first delta closes.
#[verifier::rlimit(40)]
proof fn lemma_closed_block_pieces(s: Step<Speech>, a: Seq<char>, b: Seq<char>)
    requires
        s.state.think.phase == Phase::Reasoning,
        first_tag(s.state.think.tail + a, Tag::Close) is Some,
    ensures
        same_texts(ended(content(content(s, a), b)), ended(content(s, a + b))),
{
    let d = s.state.think;
    let one = d.tail + a;
    let all = one + b;
    assert(d.tail + (a + b) =~= all);
    lemma_first_tag_stays(one, b, Tag::Close);
    let (i, j) = first_tag(one, Tag::Close)->0;
    let closed = Detector { phase: Phase::Text, tail: Seq::empty(), ..d };
    let base = settle(reason(with_detector(s, closed), one.take(i)));
    assert(all.take(i) =~= one.take(i));
    assert(all.skip(j) =~= one.skip(j) + b);
    lemma_say_twice(base, one.skip(j), b);
    lemma_reason_text(with_detector(s, closed), one.take(i));
    lemma_say_text(base, one.skip(j));
    lemma_say_text(base, all.skip(j));
    lemma_say_text(say(base, one.skip(j)), b);
}

/// A block that neither delta closes.
#[verifier::rlimit(40)]
proof fn lemma_open_block_pieces(s: Step<Speech>, a: Seq<char>, b: Seq<char>)
    requires
        s.state.think.phase == Phase::Reasoning,
        first_tag(s.state.think.tail + a, Tag::Close) is None,
        first_tag(s.state.think.tail + a + b, Tag::Close) is None,
    ensures
        same_texts(ended(content(content(s, a), b)), ended(content(s, a + b))),
{
    let d = s.state.think;
    let one = d.tail + a;
    let all = one + b;
    assert(d.tail + (a + b) =~= all);
    lemma_open_block(s, a);
    let first = content(s, a);
    let n = one.len() - held_back(one);
    let two = one.skip(n) + b;
    assert(two =~= all.skip(n));
    assert(first_tag(two, Tag::Close) is None) by {
        if first_tag(two, Tag::Close) is Some {
            let (i, j) = choose|i: int, j: int| first_tag_at(two, Tag::Close, i, j);
            assert(first_tag_at(two, Tag::Close, i, j));
            lemma_tag_shift(all, Tag::Close, n, i, j);
            lemma_some_tag_is_first(all, Tag::Close, i + n, j + n);
        }
    }
    lemma_open_block(first, b);
    lemma_open_block(s, a + b);
    let text = s.state.reasoning.text;
    assert(text + one.take(n) + two =~= text + all);
    assert(text + Seq::<char>::empty() + Seq::<char>::empty() =~= text + Seq::<char>::empty());
}

#[verifier::rlimit(40)]
proof fn lemma_block_pieces(s: Step<Speech>, a: Seq<char>, b: Seq<char>)
    requires
        s.state.think.phase == Phase::Reasoning,
    ensures
        same_texts(ended(content(content(s, a), b)), ended(content(s, a + b))),
{
    let one = s.state.think.tail + a;
    let all = one + b;
    if first_tag(one, Tag::Close) is Some {
        lemma_closed_block_pieces(s, a, b);
    } else if first_tag(all, Tag::Close) is Some {
        assert(s.state.think.tail + (a + b) =~= all);
        let (i, j) = choose|i: int, j: int| first_tag_at(all, Tag::Close, i, j);
        split_close_tags_are_found(s, a, b, i, j);
    } else {
        lemma_open_block_pieces(s, a, b);
    }
}

proof fn lemma_trim_start_front(s: Seq<char>, more: Seq<char>)
    requires
        trim_start(s).len() > 0,
    ensures
        trim_start(s + more) == trim_start(s) + more,
    decreases s.len(),
{
    assert((s + more)[0] == s[0]);
    if is_space(s[0]) {
        assert((s + more).drop_first() =~= s.drop_first() + more);
        lemma_trim_start_front(s.drop_first(), more);
    }
}

/// Nothing inside a block changes nothing.
proof fn lemma_no_content(s: Step<Speech>)
    requires
        s.state.think.phase == Phase::Reasoning,
        s.state.think.tail.len() == 0,
    ensures
        content(s, Seq::empty()) == s,
{
    let none = Seq::<char>::empty();
    assert(s.state.think.tail + none =~= none);
    assert(s.state.think.tail =~= none);
    assert(first_tag(none, Tag::Close) is None) by {
        if first_tag(none, Tag::Close) is Some {
            let (i, j) = choose|i: int, j: int| first_tag_at(none, Tag::Close, i, j);
            assert(first_tag_at(none, Tag::Close, i, j));
        }
    }
    assert(none.skip(0) =~= none);
    assert(none.take(0) =~= none);
}

/// How content is split into deltas makes no difference: in the end the reasoning and
/// the visible text are those of both deltas in one, wherever a tag is split.
pub proof fn content_does_not_depend_on_the_pieces(s: Step<Speech>, a: Seq<char>, b: Seq<char>)
    requires
        sound(s.state.think),
    ensures
        same_texts(ended(content(content(s, a), b)), ended(content(s, a + b))),
{
    let d = s.state.think;
    match d.phase {
        Phase::Text => {
            lemma_say_twice(s, a, b);
            lemma_say_text(s, a);
            lemma_say_text(say(s, a), b);
            lemma_say_text(s, a + b);
        },
        Phase::Reasoning => {
            lemma_block_pieces(s, a, b);
        },
        Phase::Detecting => {
            let one = d.buffer + a;
            let all = one + b;
            let front = trim_start(one);
            assert(d.buffer + (a + b) =~= all);
            if front.len() > 0 {
                lemma_trim_start_front(one, b);
            }
            if let Some(j) = open_tag_end(front) {
                lemma_first_tag_stays(front, b, Tag::Open);
                let inside = Detector { phase: Phase::Reasoning, buffer: Seq::empty(), ..d };
                let t = with_detector(s, inside);
                let x = front.skip(j);
                assert((front + b).skip(j) =~= x + b);
                lemma_no_content(t);
                if x.len() == 0 {
                    assert(x =~= Seq::empty());
                }
                if (x + b).len() == 0 {
                    assert(x + b =~= Seq::empty());
                }
                assert(content(s, a) == content(t, x));
                assert(content(s, a + b) == content(t, x + b));
                lemma_block_pieces(t, x, b);
            } else if front.len() == 0 || partial_open(front) {
                let held = Detector { buffer: one, ..d };
                let t = with_detector(s, held);
                assert(content(s, a) == t);
                let text = Detector { phase: Phase::Text, buffer: Seq::empty(), ..d };
                let inside = Detector { phase: Phase::Reasoning, buffer: Seq::empty(), ..d };
                assert(with_detector(t, text) == with_detector(s, text));
                assert(with_detector(t, inside) == with_detector(s, inside));
                assert(content(t, b) == content(s, a + b));
            } else {
                lemma_trim_start_twice(one);
                lemma_no_tag_later(front, b);
                let text = Detector { phase: Phase::Text, buffer: Seq::empty(), ..d };
                let t = with_detector(s, text);
                lemma_say_twice(t, one, b);
                lemma_say_text(t, one);
                lemma_say_text(say(t, one), b);
                lemma_say_text(t, all);
                let held = Detector { buffer: all, ..d };
                assert(with_detector(with_detector(s, held), text) == t);
            }
        },
    }
}

/// Where no open tag stands at the front and none may grow there, none will.
proof fn lemma_no_tag_later(front: Seq<char>, more: Seq<char>)
    requires
        front.len() > 0,
        trim_start(front) == front,
        open_tag_end(front) is None,
        !partial_open(front),
    ensures
        open_tag_end(front + more) is None,
{
    let all = front + more;
    if let Some(j) = open_tag_end(all) {
        let (a, b) = choose|a: int, b: int| first_tag_at(all, Tag::Open, a, b);
        assert(first_tag_at(all, Tag::Open, a, b));
        assert(tag_at(all, Tag::Open, 0, j));
        if j <= front.len() {
            assert(front.subrange(1, j - 1) =~= all.subrange(1, j - 1));
            assert(tag_at(front, Tag::Open, 0, j));
            assert(first_tag_at(front, Tag::Open, 0, j));
            lemma_first_tag(front, Tag::Open, 0, j);
        } else {
            let t = all.take(j);
            assert(t.subrange(1, j - 1) =~= all.subrange(1, j - 1));
            lemma_cut_open_tag(t, front.len() as int);
            assert(t.take(front.len() as int) =~= front);
        }
    }
}

} // verus!
