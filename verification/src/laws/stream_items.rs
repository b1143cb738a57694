//! Which events tell of the items of a streamed turn.
use vstd::prelude::*;
use crate::json::Tree;
use crate::stream_envelope::Envelope;
use crate::stream_events::Event;
use crate::stream_message::{Message, Piece};
use crate::stream_reasoning::{Lifecycle, Thinking};
use crate::stream_responses_state::Stream;

verus! {

/// Whether an event has a name and tells of the item at an index.
pub open spec fn is_named(e: Event, name: Seq<char>, index: int) -> bool {
    &&& e.name == name
    &&& Tree::Object(e.payload).at("type"@) == Some(Tree::Str(name))
    &&& Tree::Object(e.payload).at("output_index"@) == Some(Tree::Int(index))
}

/// Whether an event says something of one part of an item.
pub open spec fn says_of(
    e: Event,
    id: Seq<char>,
    part: (Seq<char>, int),
    what: (Seq<char>, Tree),
) -> bool {
    let p = Tree::Object(e.payload);
    &&& p.at("item_id"@) == Some(Tree::Str(id))
    &&& p.at(part.0) == Some(Tree::Int(part.1))
    &&& p.at(what.0) == Some(what.1)
}

/// Whether an event carries an item of a type, with an id and a status.
pub open spec fn carries_item(e: Event, id: Seq<char>, kind: Seq<char>, status: Seq<char>) -> bool {
    &&& Tree::Object(e.payload).at("item"@) matches Some(item)
    &&& item.at("id"@) == Some(Tree::Str(id))
    &&& item.at("type"@) == Some(Tree::Str(kind))
    &&& item.at("status"@) == Some(Tree::Str(status))
}

/// The first text of a turn opens its message, at the next free index: the item is added,
/// then an empty text part, then comes the text.
pub proof fn first_texts_open_the_message(e: Envelope, text: Seq<char>)
    requires
        text.len() > 0,
    ensures
        ({
            let s = Message::none().push_text(e, text);
            let id = "msg_"@ + e.response_id;
            &&& s.events.len() == 3
            &&& is_named(s.events[0], "response.output_item.added"@, e.next)
            &&& carries_item(s.events[0], id, "message"@, "in_progress"@)
            &&& is_named(s.events[1], "response.content_part.added"@, e.next)
            &&& is_named(s.events[2], "response.output_text.delta"@, e.next)
            &&& says_of(s.events[2], id, ("content_index"@, 0), ("delta"@, Tree::Str(text)))
            &&& s.state.phase == Lifecycle::Open
            &&& s.state.index == e.next
            &&& s.envelope == e.allocated()
        }),
{
    reveal_strlit("type");
    reveal_strlit("output_index");
    reveal_strlit("item");
    reveal_strlit("item_id");
    reveal_strlit("content_index");
    reveal_strlit("part");
    reveal_strlit("delta");
    reveal_strlit("id");
    reveal_strlit("status");
    reveal_strlit("role");
    reveal_strlit("content");
    assert("type"@.len() == 4);
    assert("output_index"@.len() == 12);
    assert("item"@.len() == 4);
    assert("item_id"@.len() == 7);
    assert("content_index"@.len() == 13);
    assert("part"@.len() == 4);
    assert("delta"@.len() == 5);
    assert("id"@.len() == 2);
    assert("status"@.len() == 6);
    assert("role"@.len() == 4);
    assert("content"@.len() == 7);
    assert("item"@[0] == 'i');
    assert("type"@[0] == 't');
    assert("part"@[0] == 'p');
    assert("role"@[0] == 'r');
    assert("content"@[0] == 'c');
    assert("item_id"@[0] == 'i');
}

/// A message that ends tells its whole text again: the text is done, then its part, then the
/// item.
pub proof fn messages_end_with_their_text(
    m: Message,
    e: Envelope,
    text: Seq<char>,
    notes: Seq<Tree>,
)
    requires
        m.phase == Lifecycle::Open,
        m.segments == seq![Piece::Text { text, annotations: notes, closed: false }],
    ensures
        ({
            let s = m.close(e);
            let id = "msg_"@ + e.response_id;
            &&& s.events.len() == 3
            &&& is_named(s.events[0], "response.output_text.done"@, m.index)
            &&& says_of(s.events[0], id, ("content_index"@, 0), ("text"@, Tree::Str(text)))
            &&& is_named(s.events[1], "response.content_part.done"@, m.index)
            &&& is_named(s.events[2], "response.output_item.done"@, m.index)
            &&& carries_item(s.events[2], id, "message"@, "completed"@)
            &&& s.state.phase == Lifecycle::Done
        }),
{
    reveal_strlit("type");
    reveal_strlit("output_index");
    reveal_strlit("item");
    reveal_strlit("item_id");
    reveal_strlit("content_index");
    reveal_strlit("part");
    reveal_strlit("text");
    reveal_strlit("id");
    reveal_strlit("status");
    reveal_strlit("role");
    reveal_strlit("content");
    reveal_strlit("annotations");
    assert("type"@.len() == 4);
    assert("output_index"@.len() == 12);
    assert("item"@.len() == 4);
    assert("item_id"@.len() == 7);
    assert("content_index"@.len() == 13);
    assert("part"@.len() == 4);
    assert("text"@.len() == 4);
    assert("id"@.len() == 2);
    assert("status"@.len() == 6);
    assert("role"@.len() == 4);
    assert("content"@.len() == 7);
    assert("annotations"@.len() == 11);
    assert("item"@[0] == 'i');
    assert("type"@[0] == 't');
    assert("type"@[1] == 'y');
    assert("part"@[0] == 'p');
    assert("text"@[0] == 't');
    assert("text"@[1] == 'e');
    assert("role"@[0] == 'r');
    assert("content"@[0] == 'c');
    assert("item_id"@[0] == 'i');
    reveal_with_fuel(crate::stream_message::closings, 2);
    assert(m.segments.drop_last() =~= Seq::empty());
}

/// The first reasoning of a turn opens its item, at the next free index: the item is added,
/// then an empty part of its summary, then comes the reasoning.
pub proof fn first_thoughts_open_the_reasoning(e: Envelope, text: Seq<char>)
    ensures
        ({
            let s = Thinking::none().push(e, text);
            let id = "rs_"@ + e.response_id;
            &&& s.events.len() == 3
            &&& is_named(s.events[0], "response.output_item.added"@, e.next)
            &&& carries_item(s.events[0], id, "reasoning"@, "in_progress"@)
            &&& is_named(s.events[1], "response.reasoning_summary_part.added"@, e.next)
            &&& is_named(s.events[2], "response.reasoning_summary_text.delta"@, e.next)
            &&& says_of(s.events[2], id, ("summary_index"@, 0), ("delta"@, Tree::Str(text)))
            &&& s.state.phase == Lifecycle::Open
            &&& s.state.text == text
            &&& s.envelope == e.allocated()
        }),
{
    reveal_strlit("type");
    reveal_strlit("output_index");
    reveal_strlit("item");
    reveal_strlit("item_id");
    reveal_strlit("summary_index");
    reveal_strlit("part");
    reveal_strlit("delta");
    reveal_strlit("id");
    reveal_strlit("status");
    reveal_strlit("summary");
    assert("type"@.len() == 4);
    assert("output_index"@.len() == 12);
    assert("item"@.len() == 4);
    assert("item_id"@.len() == 7);
    assert("summary_index"@.len() == 13);
    assert("part"@.len() == 4);
    assert("delta"@.len() == 5);
    assert("id"@.len() == 2);
    assert("status"@.len() == 6);
    assert("summary"@.len() == 7);
    assert("item"@[0] == 'i');
    assert("type"@[0] == 't');
    assert("part"@[0] == 'p');
    assert("summary"@[0] == 's');
    assert("item_id"@[0] == 'i');
    assert(Seq::<char>::empty() + text =~= text);
}

/// Reasoning that ends is told whole again: its text is done, then its part, then the item.
pub proof fn reasoning_ends_with_its_text(t: Thinking, e: Envelope)
    requires
        t.phase == Lifecycle::Open,
    ensures
        ({
            let s = t.close(e);
            let id = "rs_"@ + e.response_id;
            &&& s.events.len() == 3
            &&& is_named(s.events[0], "response.reasoning_summary_text.done"@, t.index)
            &&& says_of(s.events[0], id, ("summary_index"@, 0), ("text"@, Tree::Str(t.text)))
            &&& is_named(s.events[1], "response.reasoning_summary_part.done"@, t.index)
            &&& is_named(s.events[2], "response.output_item.done"@, t.index)
            &&& Tree::Object(s.events[2].payload).at("item"@) matches Some(item)
            &&& item.at("id"@) == Some(Tree::Str(id))
            &&& s.state.phase == Lifecycle::Done
        }),
{
    reveal_strlit("type");
    reveal_strlit("output_index");
    reveal_strlit("item");
    reveal_strlit("item_id");
    reveal_strlit("summary_index");
    reveal_strlit("part");
    reveal_strlit("text");
    reveal_strlit("id");
    reveal_strlit("status");
    reveal_strlit("summary");
    assert("type"@.len() == 4);
    assert("output_index"@.len() == 12);
    assert("item"@.len() == 4);
    assert("item_id"@.len() == 7);
    assert("summary_index"@.len() == 13);
    assert("part"@.len() == 4);
    assert("text"@.len() == 4);
    assert("id"@.len() == 2);
    assert("status"@.len() == 6);
    assert("summary"@.len() == 7);
    assert("item"@[0] == 'i');
    assert("type"@[0] == 't');
    assert("type"@[1] == 'y');
    assert("part"@[0] == 'p');
    assert("text"@[0] == 't');
    assert("text"@[1] == 'e');
    assert("summary"@[0] == 's');
    assert("item_id"@[0] == 'i');
}

/// A turn announces itself once, before anything else: the response is created, and it is in
/// progress.
pub proof fn turns_announce_themselves(s: Stream)
    ensures
        s.envelope.started ==> s.start().events.len() == 0,
        !s.envelope.started ==> ({
            let events = s.start().events;
            &&& events.len() == 2
            &&& events[0].name == "response.created"@
            &&& events[1].name == "response.in_progress"@
            &&& s.start().stream.envelope.started
        }),
{
}

} // verus!
