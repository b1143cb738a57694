//! The events of a streamed response.
//!
//! Each event is one frame whose event name is also the `type` of its payload.
use vstd::prelude::*;
use crate::json::{Json, Object, Tree};
use crate::sse::{frame_bytes, is_event_name, serialize_event};

verus! {

/// An event: its name and the members of its payload.
#[verifier::ext_equal]
pub ghost struct Event {
    pub name: Seq<char>,
    pub payload: Map<Seq<char>, Tree>,
}

/// The frame of an event.
pub open spec fn wire(e: Event) -> Seq<u8> {
    frame_bytes(Some(e.name), Tree::Object(e.payload))
}

/// The frames of some events.
pub open spec fn wires(list: Seq<Event>) -> Seq<Seq<u8>> {
    list.map_values(|e: Event| wire(e))
}

/// The bytes of some frames.
pub open spec fn frames(list: Seq<Vec<u8>>) -> Seq<Seq<u8>> {
    list.map_values(|f: Vec<u8>| f@)
}

/// One event more is one frame more.
pub broadcast proof fn lemma_wires_push(list: Seq<Event>, e: Event)
    ensures
        #[trigger] wires(list.push(e)) == wires(list).push(wire(e)),
{
    assert(wires(list.push(e)) =~= wires(list).push(wire(e)));
}

/// The frames of two lists of events follow each other.
pub broadcast proof fn lemma_wires_concat(a: Seq<Event>, b: Seq<Event>)
    ensures
        #[trigger] wires(a + b) == wires(a) + wires(b),
{
    assert(wires(a + b) =~= wires(a) + wires(b));
}

/// One frame more is one list of bytes more.
pub broadcast proof fn lemma_frames_push(list: Seq<Vec<u8>>, f: Vec<u8>)
    ensures
        #[trigger] frames(list.push(f)) == frames(list).push(f@),
{
    assert(frames(list.push(f)) =~= frames(list).push(f@));
}

/// No events are no frames.
pub broadcast proof fn lemma_no_wires()
    ensures
        #[trigger] wires(Seq::empty()) == Seq::<Seq<u8>>::empty(),
{
    assert(wires(Seq::empty()) =~= Seq::<Seq<u8>>::empty());
}

/// Append the frames of one list to another.
pub fn extend(list: &mut Vec<Vec<u8>>, more: Vec<Vec<u8>>)
    ensures
        frames(final(list)@) == frames(old(list)@) + frames(more@),
{
    let mut more = more;
    let ghost before = list@;
    let ghost tail = more@;
    list.append(&mut more);
    assert(frames(list@) =~= frames(before) + frames(tail));
}

/// No frames.
pub fn nothing() -> (r: Vec<Vec<u8>>)
    ensures
        frames(r@) == wires(Seq::empty()),
        r@.len() == 0,
{
    let r: Vec<Vec<u8>> = Vec::new();
    assert(frames(r@) =~= wires(Seq::empty()));
    r
}

/// A single frame.
pub fn single(frame: Vec<u8>) -> (r: Vec<Vec<u8>>)
    ensures
        frames(r@) == seq![frame@],
{
    let mut r: Vec<Vec<u8>> = Vec::new();
    r.push(frame);
    assert(frames(r@) =~= seq![frame@]);
    r
}

/// The payload of an event begins with its name as `type`.
pub open spec fn typed(name: Seq<char>) -> Map<Seq<char>, Tree> {
    Map::empty().insert("type"@, Tree::Str(name))
}

/// An event about a whole item.
pub open spec fn item_event(name: Seq<char>, output_index: int, item: Tree) -> Event {
    Event {
        name,
        payload: typed(name).insert("output_index"@, Tree::Int(output_index)).insert("item"@, item),
    }
}

/// An event about an item, with one member more.
pub open spec fn about(
    name: Seq<char>,
    item_id: Seq<char>,
    output_index: int,
    key: Seq<char>,
    value: Tree,
) -> Event {
    Event {
        name,
        payload: typed(name).insert("item_id"@, Tree::Str(item_id)).insert(
            "output_index"@,
            Tree::Int(output_index),
        ).insert(key, value),
    }
}

/// An event about a part of an item.
pub open spec fn about_part(
    name: Seq<char>,
    item_id: Seq<char>,
    output_index: int,
    index_key: Seq<char>,
    index: int,
    key: Seq<char>,
    value: Tree,
) -> Event {
    let e = about(name, item_id, output_index, index_key, Tree::Int(index));
    Event { name, payload: e.payload.insert(key, value) }
}

/// An output item was added.
pub open spec fn item_added(output_index: int, item: Tree) -> Event {
    item_event("response.output_item.added"@, output_index, item)
}

/// An output item is done.
pub open spec fn item_done(output_index: int, item: Tree) -> Event {
    item_event("response.output_item.done"@, output_index, item)
}

/// A content part was added to an item.
pub open spec fn part_added(
    item_id: Seq<char>,
    output_index: int,
    index: int,
    value: Tree,
) -> Event {
    about_part(
        "response.content_part.added"@,
        item_id,
        output_index,
        "content_index"@,
        index,
        "part"@,
        value,
    )
}

/// A content part of an item is done.
pub open spec fn part_done(
    item_id: Seq<char>,
    output_index: int,
    index: int,
    value: Tree,
) -> Event {
    about_part(
        "response.content_part.done"@,
        item_id,
        output_index,
        "content_index"@,
        index,
        "part"@,
        value,
    )
}

/// Text was appended to a content part.
pub open spec fn text_delta(
    item_id: Seq<char>,
    output_index: int,
    index: int,
    value: Seq<char>,
) -> Event {
    about_part(
        "response.output_text.delta"@,
        item_id,
        output_index,
        "content_index"@,
        index,
        "delta"@,
        Tree::Str(value),
    )
}

/// The text of a content part is done.
pub open spec fn text_done(
    item_id: Seq<char>,
    output_index: int,
    index: int,
    value: Seq<char>,
) -> Event {
    about_part(
        "response.output_text.done"@,
        item_id,
        output_index,
        "content_index"@,
        index,
        "text"@,
        Tree::Str(value),
    )
}

/// A summary part was added to a reasoning item.
pub open spec fn summary_part_added(
    item_id: Seq<char>,
    output_index: int,
    index: int,
    value: Tree,
) -> Event {
    about_part(
        "response.reasoning_summary_part.added"@,
        item_id,
        output_index,
        "summary_index"@,
        index,
        "part"@,
        value,
    )
}

/// A summary part of a reasoning item is done.
pub open spec fn summary_part_done(
    item_id: Seq<char>,
    output_index: int,
    index: int,
    value: Tree,
) -> Event {
    about_part(
        "response.reasoning_summary_part.done"@,
        item_id,
        output_index,
        "summary_index"@,
        index,
        "part"@,
        value,
    )
}

/// Text was appended to a summary part.
pub open spec fn summary_delta(
    item_id: Seq<char>,
    output_index: int,
    index: int,
    value: Seq<char>,
) -> Event {
    about_part(
        "response.reasoning_summary_text.delta"@,
        item_id,
        output_index,
        "summary_index"@,
        index,
        "delta"@,
        Tree::Str(value),
    )
}

/// The text of a summary part is done.
pub open spec fn summary_done(
    item_id: Seq<char>,
    output_index: int,
    index: int,
    value: Seq<char>,
) -> Event {
    about_part(
        "response.reasoning_summary_text.done"@,
        item_id,
        output_index,
        "summary_index"@,
        index,
        "text"@,
        Tree::Str(value),
    )
}

/// Text was appended to the arguments of a function call.
pub open spec fn arguments_delta(item_id: Seq<char>, output_index: int, value: Seq<char>) -> Event {
    about(
        "response.function_call_arguments.delta"@,
        item_id,
        output_index,
        "delta"@,
        Tree::Str(value),
    )
}

/// The arguments of a function call are done.
pub open spec fn arguments_done(item_id: Seq<char>, output_index: int, value: Seq<char>) -> Event {
    about(
        "response.function_call_arguments.done"@,
        item_id,
        output_index,
        "arguments"@,
        Tree::Str(value),
    )
}

/// Text was appended to the input of a custom tool call.
pub open spec fn input_delta(item_id: Seq<char>, output_index: int, value: Seq<char>) -> Event {
    about(
        "response.custom_tool_call_input.delta"@,
        item_id,
        output_index,
        "delta"@,
        Tree::Str(value),
    )
}

/// The input of a custom tool call is done.
pub open spec fn input_done(item_id: Seq<char>, output_index: int, value: Seq<char>) -> Event {
    about(
        "response.custom_tool_call_input.done"@,
        item_id,
        output_index,
        "input"@,
        Tree::Str(value),
    )
}

fn item_frame(name: &str, output_index: i64, item: Json) -> (r: Vec<u8>)
    ensures
        r@ == wire(item_event(name@, output_index as int, item@)),
{
    let payload = Object::new().with("type", Json::text(name)).with(
        "output_index",
        Json::integer(output_index),
    ).with("item", item);
    serialize_event(Some(name), &Json::Object(payload))
}

fn frame_about(name: &str, item_id: &str, output_index: i64, key: &str, value: Json) -> (r: Vec<u8>)
    ensures
        r@ == wire(about(name@, item_id@, output_index as int, key@, value@)),
{
    let payload = Object::new().with("type", Json::text(name)).with(
        "item_id",
        Json::text(item_id),
    ).with("output_index", Json::integer(output_index)).with(key, value);
    serialize_event(Some(name), &Json::Object(payload))
}

fn part_frame(
    name: &str,
    item_id: &str,
    output_index: i64,
    index_key: &str,
    index: usize,
    key: &str,
    value: Json,
) -> (r: Vec<u8>)
    ensures
        r@ == wire(
            about_part(
                name@,
                item_id@,
                output_index as int,
                index_key@,
                index as int,
                key@,
                value@,
            ),
        ),
{
    let payload = Object::new().with("type", Json::text(name)).with(
        "item_id",
        Json::text(item_id),
    ).with("output_index", Json::integer(output_index)).with(
        index_key,
        Json::UInt(index as u64),
    ).with(key, value);
    serialize_event(Some(name), &Json::Object(payload))
}

/// An output item was added.
pub fn output_item_added(output_index: i64, item: Json) -> (r: Vec<u8>)
    ensures
        r@ == wire(item_added(output_index as int, item@)),
{
    item_frame("response.output_item.added", output_index, item)
}

/// An output item is done.
pub fn output_item_done(output_index: i64, item: Json) -> (r: Vec<u8>)
    ensures
        r@ == wire(item_done(output_index as int, item@)),
{
    item_frame("response.output_item.done", output_index, item)
}

/// A content part was added to an item.
pub fn content_part_added(
    item_id: &str,
    output_index: i64,
    content_index: usize,
    part: Json,
) -> (r: Vec<u8>)
    ensures
        r@ == wire(part_added(item_id@, output_index as int, content_index as int, part@)),
{
    part_frame(
        "response.content_part.added",
        item_id,
        output_index,
        "content_index",
        content_index,
        "part",
        part,
    )
}

/// A content part of an item is done.
pub fn content_part_done(
    item_id: &str,
    output_index: i64,
    content_index: usize,
    part: Json,
) -> (r: Vec<u8>)
    ensures
        r@ == wire(part_done(item_id@, output_index as int, content_index as int, part@)),
{
    part_frame(
        "response.content_part.done",
        item_id,
        output_index,
        "content_index",
        content_index,
        "part",
        part,
    )
}

/// Text was appended to a content part.
pub fn output_text_delta(
    item_id: &str,
    output_index: i64,
    content_index: usize,
    delta: &str,
) -> (r: Vec<u8>)
    ensures
        r@ == wire(text_delta(item_id@, output_index as int, content_index as int, delta@)),
{
    part_frame(
        "response.output_text.delta",
        item_id,
        output_index,
        "content_index",
        content_index,
        "delta",
        Json::text(delta),
    )
}

/// The text of a content part is done.
pub fn output_text_done(
    item_id: &str,
    output_index: i64,
    content_index: usize,
    text: &str,
) -> (r: Vec<u8>)
    ensures
        r@ == wire(text_done(item_id@, output_index as int, content_index as int, text@)),
{
    part_frame(
        "response.output_text.done",
        item_id,
        output_index,
        "content_index",
        content_index,
        "text",
        Json::text(text),
    )
}

/// A summary part was added to a reasoning item.
pub fn reasoning_summary_part_added(
    item_id: &str,
    output_index: i64,
    summary_index: usize,
    part: Json,
) -> (r: Vec<u8>)
    ensures
        r@ == wire(summary_part_added(item_id@, output_index as int, summary_index as int, part@)),
{
    part_frame(
        "response.reasoning_summary_part.added",
        item_id,
        output_index,
        "summary_index",
        summary_index,
        "part",
        part,
    )
}

/// A summary part of a reasoning item is done.
pub fn reasoning_summary_part_done(
    item_id: &str,
    output_index: i64,
    summary_index: usize,
    part: Json,
) -> (r: Vec<u8>)
    ensures
        r@ == wire(summary_part_done(item_id@, output_index as int, summary_index as int, part@)),
{
    part_frame(
        "response.reasoning_summary_part.done",
        item_id,
        output_index,
        "summary_index",
        summary_index,
        "part",
        part,
    )
}

/// Text was appended to a summary part.
pub fn reasoning_summary_text_delta(
    item_id: &str,
    output_index: i64,
    summary_index: usize,
    delta: &str,
) -> (r: Vec<u8>)
    ensures
        r@ == wire(summary_delta(item_id@, output_index as int, summary_index as int, delta@)),
{
    part_frame(
        "response.reasoning_summary_text.delta",
        item_id,
        output_index,
        "summary_index",
        summary_index,
        "delta",
        Json::text(delta),
    )
}

/// The text of a summary part is done.
pub fn reasoning_summary_text_done(
    item_id: &str,
    output_index: i64,
    summary_index: usize,
    text: &str,
) -> (r: Vec<u8>)
    ensures
        r@ == wire(summary_done(item_id@, output_index as int, summary_index as int, text@)),
{
    part_frame(
        "response.reasoning_summary_text.done",
        item_id,
        output_index,
        "summary_index",
        summary_index,
        "text",
        Json::text(text),
    )
}

/// Text was appended to the arguments of a function call.
pub fn function_arguments_delta(item_id: &str, output_index: i64, delta: &str) -> (r: Vec<u8>)
    ensures
        r@ == wire(arguments_delta(item_id@, output_index as int, delta@)),
{
    frame_about(
        "response.function_call_arguments.delta",
        item_id,
        output_index,
        "delta",
        Json::text(delta),
    )
}

/// The arguments of a function call are done.
pub fn function_arguments_done(item_id: &str, output_index: i64, arguments: &str) -> (r: Vec<u8>)
    ensures
        r@ == wire(arguments_done(item_id@, output_index as int, arguments@)),
{
    frame_about(
        "response.function_call_arguments.done",
        item_id,
        output_index,
        "arguments",
        Json::text(arguments),
    )
}

/// Text was appended to the input of a custom tool call.
pub fn custom_input_delta(item_id: &str, output_index: i64, delta: &str) -> (r: Vec<u8>)
    ensures
        r@ == wire(input_delta(item_id@, output_index as int, delta@)),
{
    frame_about(
        "response.custom_tool_call_input.delta",
        item_id,
        output_index,
        "delta",
        Json::text(delta),
    )
}

/// The input of a custom tool call is done.
pub fn custom_input_done(item_id: &str, output_index: i64, input_text: &str) -> (r: Vec<u8>)
    ensures
        r@ == wire(input_done(item_id@, output_index as int, input_text@)),
{
    frame_about(
        "response.custom_tool_call_input.done",
        item_id,
        output_index,
        "input",
        Json::text(input_text),
    )
}

/// Whether an event says its name as the `type` of its payload, and the name can
/// be read back from its frame.
pub open spec fn named(e: Event) -> bool {
    &&& is_event_name(e.name)
    &&& e.payload.contains_key("type"@)
    &&& e.payload["type"@] == Tree::Str(e.name)
}

/// The names of the events are event names, and no member that an event carries
/// takes the place of its `type`.
proof fn lemma_event_names()
    ensures
        is_event_name("response.output_item.added"@),
        is_event_name("response.output_item.done"@),
        is_event_name("response.content_part.added"@),
        is_event_name("response.content_part.done"@),
        is_event_name("response.output_text.delta"@),
        is_event_name("response.output_text.done"@),
        is_event_name("response.reasoning_summary_part.added"@),
        is_event_name("response.reasoning_summary_part.done"@),
        is_event_name("response.reasoning_summary_text.delta"@),
        is_event_name("response.reasoning_summary_text.done"@),
        is_event_name("response.function_call_arguments.delta"@),
        is_event_name("response.function_call_arguments.done"@),
        is_event_name("response.custom_tool_call_input.delta"@),
        is_event_name("response.custom_tool_call_input.done"@),
        "item"@ != "type"@,
        "item_id"@ != "type"@,
        "output_index"@ != "type"@,
        "content_index"@ != "type"@,
        "summary_index"@ != "type"@,
        "part"@ != "type"@,
        "delta"@ != "type"@,
        "text"@ != "type"@,
        "arguments"@ != "type"@,
        "input"@ != "type"@,
{
    reveal_strlit("response.output_item.added");
    reveal_strlit("response.output_item.done");
    reveal_strlit("response.content_part.added");
    reveal_strlit("response.content_part.done");
    reveal_strlit("response.output_text.delta");
    reveal_strlit("response.output_text.done");
    reveal_strlit("response.reasoning_summary_part.added");
    reveal_strlit("response.reasoning_summary_part.done");
    reveal_strlit("response.reasoning_summary_text.delta");
    reveal_strlit("response.reasoning_summary_text.done");
    reveal_strlit("response.function_call_arguments.delta");
    reveal_strlit("response.function_call_arguments.done");
    reveal_strlit("response.custom_tool_call_input.delta");
    reveal_strlit("response.custom_tool_call_input.done");
    reveal_strlit("type");
    reveal_strlit("item");
    reveal_strlit("item_id");
    reveal_strlit("output_index");
    reveal_strlit("content_index");
    reveal_strlit("summary_index");
    reveal_strlit("part");
    reveal_strlit("delta");
    reveal_strlit("text");
    reveal_strlit("arguments");
    reveal_strlit("input");
    assert("item"@[0] != "type"@[0] || "item"@[1] != "type"@[1]);
    assert("part"@[0] != "type"@[0] || "part"@[1] != "type"@[1]);
    assert("text"@[0] != "type"@[0] || "text"@[1] != "type"@[1]);
    assert("item_id"@.len() != "type"@.len());
    assert("output_index"@.len() != "type"@.len());
    assert("content_index"@.len() != "type"@.len());
    assert("summary_index"@.len() != "type"@.len());
    assert("delta"@.len() != "type"@.len());
    assert("arguments"@.len() != "type"@.len());
    assert("input"@.len() != "type"@.len());
    lemma_plain_name("response.output_item.added"@);
    lemma_plain_name("response.output_item.done"@);
    lemma_plain_name("response.content_part.added"@);
    lemma_plain_name("response.content_part.done"@);
    lemma_plain_name("response.output_text.delta"@);
    lemma_plain_name("response.output_text.done"@);
    lemma_plain_name("response.reasoning_summary_part.added"@);
    lemma_plain_name("response.reasoning_summary_part.done"@);
    lemma_plain_name("response.reasoning_summary_text.delta"@);
    lemma_plain_name("response.reasoning_summary_text.done"@);
    lemma_plain_name("response.function_call_arguments.delta"@);
    lemma_plain_name("response.function_call_arguments.done"@);
    lemma_plain_name("response.custom_tool_call_input.delta"@);
    lemma_plain_name("response.custom_tool_call_input.done"@);
}

/// A text that neither begins nor ends in white space and holds no line break can
/// stand on an `event` line.
proof fn lemma_plain_name(s: Seq<char>)
    requires
        s.len() > 0,
        !crate::text::is_space(s[0]),
        !crate::text::is_space(s.last()),
        forall|i: int| 0 <= i < s.len() ==> #[trigger] s[i] != '\n',
    ensures
        is_event_name(s),
{
}

/// Every event says its name as the `type` of its payload.
pub proof fn events_are_named_by_their_type(
    item_id: Seq<char>,
    output_index: int,
    index: int,
    value: Tree,
    text: Seq<char>,
)
    ensures
        named(item_added(output_index, value)),
        named(item_done(output_index, value)),
        named(part_added(item_id, output_index, index, value)),
        named(part_done(item_id, output_index, index, value)),
        named(text_delta(item_id, output_index, index, text)),
        named(text_done(item_id, output_index, index, text)),
        named(summary_part_added(item_id, output_index, index, value)),
        named(summary_part_done(item_id, output_index, index, value)),
        named(summary_delta(item_id, output_index, index, text)),
        named(summary_done(item_id, output_index, index, text)),
        named(arguments_delta(item_id, output_index, text)),
        named(arguments_done(item_id, output_index, text)),
        named(input_delta(item_id, output_index, text)),
        named(input_done(item_id, output_index, text)),
{
    lemma_event_names();
}

} // verus!
