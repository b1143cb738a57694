//! The envelope of a streamed response.
//!
//! The envelope owns the events that wrap a streamed turn (`response.created`,
//! `response.in_progress` and the terminal `response.completed` or
//! `response.failed`), the response object that they carry, and the output
//! indices that the items of the turn draw from.
use vstd::prelude::*;
use crate::convert::semantics::{
    copied, echo_request_fields, incomplete_details, incomplete_reason_from_finish_reason,
    map_chat_usage, mapped_usage, request_echo_fields, response_status_from_finish_reason,
    status_of, usage_object, usage_of, wrapped, ResponseStatus,
};
use crate::id_gen::{self, message_id, reasoning_id};
use crate::json::{
    int_in, lemma_trees_push, members_in, object_of, opt_members, opt_value, text_in, trees, Json,
    Object, Tree,
};
use crate::sse::serialize_event;
use crate::stream_events::{
    frames, lemma_frames_push, lemma_no_wires, lemma_wires_push, nothing, single, typed, wire,
    wires, Event,
};
use crate::text::{borrow_opt, opt_string, opt_text};

verus! {

broadcast use {lemma_frames_push, lemma_wires_push, lemma_no_wires, lemma_trees_push};

/// `std::time::SystemTimeError`, of which nothing is claimed.
#[verifier::external_type_specification]
#[verifier::external_body]
pub struct ExSystemTimeError(std::time::SystemTimeError);

/// `SystemTime::elapsed` of the Unix epoch, in whole seconds, or an error where
/// the clock stands before the epoch. The clock may show any time, so nothing is
/// claimed of the result.
#[verifier::external_body]
fn seconds_since_epoch() -> (r: Result<u64, std::time::SystemTimeError>) {
    std::time::UNIX_EPOCH.elapsed().map(|d| d.as_secs())
}

/// The event that carries a response.
pub open spec fn lifecycle(name: Seq<char>, response: Map<Seq<char>, Tree>) -> Event {
    Event { name, payload: typed(name).insert("response"@, Tree::Object(response)) }
}

/// The event that carries a response.
pub fn response_event(event_name: &str, response: &Object) -> (r: Vec<u8>)
    ensures
        r@ == wire(lifecycle(event_name@, response@)),
{
    let payload = Object::new().with("type", Json::text(event_name)).with(
        "response",
        Json::Object(response.clone()),
    );
    serialize_event(Some(event_name), &Json::Object(payload))
}

/// The state of the envelope of one streamed turn.
#[derive(Debug)]
pub struct ResponseEnvelopeState {
    pub response_started: bool,
    pub completed: bool,
    pub response_id: String,
    pub model: String,
    pub created_at: i64,
    pub status: Option<ResponseStatus>,
    pub usage: Option<Json>,
    pub finish_reason: Option<String>,
    pub next_output_index: i64,
    pub completed_items: Vec<(i64, Json)>,
    pub request_echo: Option<Object>,
}

/// The model of an envelope.
#[verifier::ext_equal]
pub ghost struct Envelope {
    pub started: bool,
    pub completed: bool,
    pub response_id: Seq<char>,
    pub model: Seq<char>,
    pub created_at: int,
    pub status: Option<ResponseStatus>,
    pub usage: Option<Tree>,
    pub finish_reason: Option<Seq<char>>,
    pub next: int,
    pub items: Seq<(int, Tree)>,
    pub echo: Option<Map<Seq<char>, Tree>>,
}

/// The completed items of an envelope with their output indices.
pub open spec fn placed(items: Seq<(i64, Json)>) -> Seq<(int, Tree)> {
    items.map_values(|e: (i64, Json)| (e.0 as int, e.1@))
}

impl View for ResponseEnvelopeState {
    type V = Envelope;

    open spec fn view(&self) -> Envelope {
        Envelope {
            started: self.response_started,
            completed: self.completed,
            response_id: self.response_id@,
            model: self.model@,
            created_at: self.created_at as int,
            status: self.status,
            usage: opt_value(self.usage),
            finish_reason: opt_string(self.finish_reason),
            next: self.next_output_index as int,
            items: placed(self.completed_items@),
            echo: match self.request_echo {
                Some(o) => Some(o@),
                None => None,
            },
        }
    }
}

/// A list with `x` put behind all items whose index is not greater.
pub open spec fn put(list: Seq<(int, Tree)>, x: (int, Tree)) -> Seq<(int, Tree)>
    decreases list.len(),
{
    if list.len() == 0 || list.last().0 <= x.0 {
        list.push(x)
    } else {
        put(list.drop_last(), x).push(list.last())
    }
}

/// The items in the order of their indices; items of one index stay in the order
/// in which they came.
pub open spec fn in_order(list: Seq<(int, Tree)>) -> Seq<(int, Tree)>
    decreases list.len(),
{
    if list.len() == 0 {
        list
    } else {
        put(in_order(list.drop_last()), list.last())
    }
}

/// The items of a list without their indices.
pub open spec fn documents(list: Seq<(int, Tree)>) -> Seq<Tree> {
    list.map_values(|e: (int, Tree)| e.1)
}

impl Envelope {
    /// The envelope of a turn that has just begun.
    pub open spec fn fresh(response_id: Option<Seq<char>>, now: int) -> Envelope {
        Envelope {
            started: false,
            completed: false,
            response_id: match response_id {
                Some(id) => id,
                None => "resp_bridge"@,
            },
            model: ""@,
            created_at: now,
            status: None,
            usage: None,
            finish_reason: None,
            next: 0,
            items: Seq::empty(),
            echo: None,
        }
    }

    /// The completed items in the order of their output indices.
    pub open spec fn output(self) -> Seq<Tree> {
        documents(in_order(self.items))
    }

    /// The envelope once an output index is taken.
    pub open spec fn allocated(self) -> Envelope {
        Envelope { next: wrapped(self.next + 1), ..self }
    }

    /// The envelope once the next output index is at least `at_least`.
    pub open spec fn advanced(self, at_least: int) -> Envelope {
        if self.next < at_least {
            Envelope { next: at_least, ..self }
        } else {
            self
        }
    }

    /// The envelope with one completed item more.
    pub open spec fn with_item(self, output_index: int, item: Tree) -> Envelope {
        Envelope { items: self.items.push((output_index, item)), ..self }
    }

    /// The envelope at a status.
    pub open spec fn at_status(self, status: ResponseStatus) -> Envelope {
        Envelope { status: Some(status), ..self }
    }

    /// The response object at a status, with the given output. Only request
    /// fields that the request had are echoed.
    pub open spec fn response(self, status: ResponseStatus, output: Seq<Tree>) -> Map<
        Seq<char>,
        Tree,
    > {
        let usage = match self.usage {
            Some(u) => u,
            None => Tree::Object(usage_object(0, 0, 0)),
        };
        let base = Map::empty().insert("id"@, Tree::Str(self.response_id)).insert(
            "object"@,
            Tree::Str("response"@),
        ).insert("created_at"@, Tree::Int(self.created_at)).insert(
            "status"@,
            Tree::Str(status.label()),
        ).insert("model"@, Tree::Str(self.model)).insert("output"@, Tree::Array(output)).insert(
            "usage"@,
            usage,
        );
        match self.echo {
            Some(o) => copied(base, o, request_echo_fields()),
            None => base,
        }
    }

    /// The envelope once the turn is started.
    pub open spec fn begun(self) -> Envelope {
        if self.started {
            self
        } else {
            Envelope { started: true, status: Some(ResponseStatus::InProgress), ..self }
        }
    }

    /// The events that start the turn, which come once.
    pub open spec fn start_events(self) -> Seq<Event> {
        if self.started {
            Seq::empty()
        } else {
            let response = self.response(ResponseStatus::InProgress, Seq::empty());
            seq![
                lifecycle("response.created"@, response),
                lifecycle("response.in_progress"@, response),
            ]
        }
    }

    /// The envelope with the metadata of a chunk: the first model name that is
    /// not empty stays, and the last creation time and usage.
    pub open spec fn with_metadata(self, payload: Tree) -> Envelope {
        let model = match text_in(payload.at("model"@)) {
            Some(m) => if m.len() > 0 && self.model.len() == 0 {
                m
            } else {
                self.model
            },
            None => self.model,
        };
        let created_at = match int_in(payload.at("created"@)) {
            Some(c) => if c != 0 {
                c
            } else {
                self.created_at
            },
            None => self.created_at,
        };
        let usage = match members_in(payload.at("usage"@)) {
            Some(u) => if u =~= Map::empty() {
                self.usage
            } else {
                Some(mapped_usage(payload.at("usage"@)))
            },
            None => self.usage,
        };
        Envelope { model, created_at, usage, ..self }
    }

    /// The status that the finish reason gives.
    pub open spec fn final_status(self) -> ResponseStatus {
        status_of(self.finish_reason)
    }

    /// The terminal event of a turn that ended.
    pub open spec fn completion(self, output: Seq<Tree>) -> Event {
        let response = self.response(self.final_status(), output);
        lifecycle(
            "response.completed"@,
            match incomplete_details(self.finish_reason) {
                Some(d) => response.insert("incomplete_details"@, d),
                None => response,
            },
        )
    }

    /// The terminal event of a turn that was cut short.
    pub open spec fn truncation(self, output: Seq<Tree>) -> Event {
        lifecycle(
            "response.completed"@,
            self.response(ResponseStatus::Incomplete, output).insert(
                "incomplete_details"@,
                Tree::Object(
                    Map::empty().insert("reason"@, Tree::Str("stream_truncated"@)),
                ),
            ),
        )
    }

    /// The terminal event of a turn that failed.
    pub open spec fn failure(self, message: Seq<char>, error_type: Seq<char>) -> Event {
        lifecycle(
            "response.failed"@,
            self.response(ResponseStatus::Failed, self.output()).insert(
                "error"@,
                Tree::Object(
                    Map::empty().insert("message"@, Tree::Str(message)).insert(
                        "type"@,
                        Tree::Str(error_type),
                    ),
                ),
            ),
        )
    }
}

/// Put an item behind all items whose index is not greater.
fn put_item(list: &mut Vec<(i64, Json)>, x: (i64, Json))
    ensures
        placed(final(list)@) == put(placed(old(list)@), (x.0 as int, x.1@)),
{
    let ghost before = list@;
    let ghost key = (x.0 as int, x.1@);
    let mut at: usize = list.len();
    assert(placed(before).take(at as int) =~= placed(before));
    assert(placed(before).skip(at as int) =~= Seq::empty());
    assert(put(placed(before), key) =~= put(placed(before).take(at as int), key) + placed(
        before,
    ).skip(at as int));
    while at > 0 && list[at - 1].0 > x.0
        invariant
            at <= list@.len(),
            list@ == before,
            key == (x.0 as int, x.1@),
            put(placed(before), key) == put(placed(before).take(at as int), key) + placed(
                before,
            ).skip(at as int),
        decreases at,
    {
        let ghost head = placed(before).take(at as int);
        assert(head.drop_last() =~= placed(before).take(at as int - 1));
        assert(head.last() == placed(before)[at as int - 1]);
        assert(put(placed(before).take(at as int - 1), key).push(head.last()) + placed(before).skip(
            at as int,
        ) =~= put(placed(before).take(at as int - 1), key) + placed(before).skip(at as int - 1));
        at -= 1;
    }
    proof {
        let head = placed(before).take(at as int);
        if at > 0 {
            assert(head.last() == placed(before)[at as int - 1]);
        }
        assert(put(head, key) == head.push(key));
    }
    list.insert(at, x);
    assert(placed(list@) =~= placed(before).take(at as int).push(key) + placed(before).skip(
        at as int,
    ));
}

impl ResponseEnvelopeState {
    /// The envelope of a turn that begins at the given time, in seconds.
    pub fn new_at(response_id: Option<&str>, now: i64) -> (r: ResponseEnvelopeState)
        ensures
            r@ == Envelope::fresh(opt_text(response_id), now as int),
    {
        let r = ResponseEnvelopeState {
            response_started: false,
            completed: false,
            response_id: match response_id {
                Some(id) => id.to_owned(),
                None => "resp_bridge".to_owned(),
            },
            model: "".to_owned(),
            created_at: now,
            status: None,
            usage: None,
            finish_reason: None,
            next_output_index: 0,
            completed_items: Vec::new(),
            request_echo: None,
        };
        assert(r@.items =~= Seq::empty());
        r
    }

    /// The envelope of a turn that begins now.
    pub fn new(response_id: Option<&str>) -> (r: ResponseEnvelopeState)
        ensures
            r@ == Envelope::fresh(opt_text(response_id), r.created_at as int),
    {
        let now: i64 = match seconds_since_epoch() {
            Ok(s) => s as i64,
            Err(_) => 0,
        };
        ResponseEnvelopeState::new_at(response_id, now)
    }

    /// The id of the message item of this response.
    pub fn message_item_id(&self) -> (r: String)
        ensures
            r@ == message_id(self@.response_id),
    {
        id_gen::message_item_id(self.response_id.as_str())
    }

    /// The id of the reasoning item of this response.
    pub fn reasoning_item_id(&self) -> (r: String)
        ensures
            r@ == reasoning_id(self@.response_id),
    {
        id_gen::reasoning_item_id(self.response_id.as_str())
    }

    /// Keep the request whose fields the response echoes.
    pub fn set_request_echo(&mut self, original: Option<&Object>)
        ensures
            final(self)@ == (Envelope { echo: opt_members(original), ..old(self)@ }),
    {
        self.request_echo = match original {
            Some(o) => Some(o.clone()),
            None => None,
        };
    }

    /// Take the next output index.
    pub fn allocate_output_index(&mut self) -> (r: i64)
        ensures
            r == old(self)@.next,
            final(self)@ == old(self)@.allocated(),
    {
        let index: i64 = self.next_output_index;
        self.next_output_index = index.wrapping_add(1);
        index
    }

    /// The next output index, which stays free.
    pub fn peek_next_output_index(&self) -> (r: i64)
        ensures
            r == self@.next,
    {
        self.next_output_index
    }

    /// Let the next output index be at least `at_least`.
    pub fn advance_output_index_to(&mut self, at_least: i64)
        ensures
            final(self)@ == old(self)@.advanced(at_least as int),
    {
        if self.next_output_index < at_least {
            self.next_output_index = at_least;
        }
    }

    /// Add a completed item.
    pub fn append_completed_item(&mut self, output_index: i64, item: Json)
        ensures
            final(self)@ == old(self)@.with_item(output_index as int, item@),
    {
        self.completed_items.push((output_index, item));
        assert(placed(self.completed_items@) =~= placed(old(self).completed_items@).push(
            (output_index as int, item@),
        ));
    }

    /// The completed items in the order of their output indices.
    pub fn completed_output_items(&self) -> (r: Vec<Json>)
        ensures
            trees(r@) == self@.output(),
    {
        let ghost all = placed(self.completed_items@);
        let mut sorted: Vec<(i64, Json)> = Vec::new();
        let mut i: usize = 0;
        assert(all.take(0) =~= Seq::empty());
        assert(placed(sorted@) =~= Seq::empty());
        while i < self.completed_items.len()
            invariant
                i <= self.completed_items@.len(),
                all == placed(self.completed_items@),
                placed(sorted@) == in_order(all.take(i as int)),
            decreases self.completed_items.len() - i,
        {
            assert(all.take(i as int + 1).drop_last() =~= all.take(i as int));
            assert(all.take(i as int + 1).last() == all[i as int]);
            let index: i64 = self.completed_items[i].0;
            let item = self.completed_items[i].1.clone();
            put_item(&mut sorted, (index, item));
            i += 1;
        }
        assert(all.take(i as int) =~= all);
        let ghost done = in_order(all);
        let mut out: Vec<Json> = Vec::new();
        let mut j: usize = 0;
        while j < sorted.len()
            invariant
                j <= sorted@.len(),
                placed(sorted@) == done,
                trees(out@) == documents(done).take(j as int),
            decreases sorted.len() - j,
        {
            assert(done[j as int] == (sorted@[j as int].0 as int, sorted@[j as int].1@));
            out.push(sorted[j].1.clone());
            assert(trees(out@) =~= documents(done).take(j as int + 1));
            j += 1;
        }
        assert(documents(done).take(j as int) =~= documents(done));
        out
    }

    /// The response object at a status.
    fn base_response(&mut self, status: ResponseStatus, output: Vec<Json>) -> (r: Object)
        ensures
            r@ == old(self)@.response(status, trees(output@)),
            final(self)@ == old(self)@.at_status(status),
    {
        self.status = Some(status);
        let usage = match &self.usage {
            Some(u) => u.clone(),
            None => Json::Object(usage_of(0, 0, 0)),
        };
        let mut response = Object::new().with("id", Json::text(self.response_id.as_str())).with(
            "object",
            Json::text("response"),
        ).with("created_at", Json::integer(self.created_at)).with(
            "status",
            Json::text(status.as_str()),
        ).with("model", Json::text(self.model.as_str())).with("output", Json::Array(output)).with(
            "usage",
            usage,
        );
        match &self.request_echo {
            Some(o) => echo_request_fields(&mut response, Some(o)),
            None => {},
        }
        response
    }

    /// Start the turn: the events `response.created` and `response.in_progress`,
    /// once.
    pub fn ensure_started(&mut self) -> (r: Vec<Vec<u8>>)
        ensures
            final(self)@ == old(self)@.begun(),
            frames(r@) == wires(old(self)@.start_events()),
    {
        if self.response_started {
            return nothing();
        }
        self.response_started = true;
        let none: Vec<Json> = Vec::new();
        assert(trees(none@) =~= Seq::empty());
        let response = self.base_response(ResponseStatus::InProgress, none);
        let mut events = single(response_event("response.created", &response));
        events.push(response_event("response.in_progress", &response));
        assert(frames(events@) =~= wires(old(self)@.start_events()));
        events
    }

    /// Take over the metadata of a chunk.
    pub fn apply_metadata(&mut self, payload: &Json)
        ensures
            final(self)@ == old(self)@.with_metadata(payload@),
    {
        if let Some(model) = payload.get_str("model") {
            if !model.is_empty() && self.model.as_str().is_empty() {
                self.model = model.to_owned();
            }
        }
        if let Some(c) = payload.get("created") {
            if let Some(created) = c.as_i64() {
                if created != 0 {
                    self.created_at = created;
                }
            }
        }
        let usage = payload.get("usage");
        if let Some(u) = usage {
            if let Some(o) = u.as_object() {
                if !o.is_empty() {
                    self.usage = Some(map_chat_usage(usage));
                }
            }
        }
    }

    /// The terminal event of a turn that ended, with the status that its finish
    /// reason gives.
    pub fn completed_event(&mut self, output: Vec<Json>) -> (r: Vec<u8>)
        ensures
            r@ == wire(old(self)@.completion(trees(output@))),
            final(self)@ == old(self)@.at_status(old(self)@.final_status()),
    {
        let status = response_status_from_finish_reason(borrow_opt(&self.finish_reason));
        let details = incomplete_reason_from_finish_reason(borrow_opt(&self.finish_reason));
        let mut response = self.base_response(status, output);
        if let Some(d) = details {
            response.insert("incomplete_details", d);
        }
        response_event("response.completed", &response)
    }

    /// The terminal event of a turn that was cut short.
    pub fn truncated_event(&mut self, output: Vec<Json>) -> (r: Vec<u8>)
        ensures
            r@ == wire(old(self)@.truncation(trees(output@))),
            final(self)@ == old(self)@.at_status(ResponseStatus::Incomplete),
    {
        let mut response = self.base_response(ResponseStatus::Incomplete, output);
        response.insert("incomplete_details", object_of("reason", Json::text("stream_truncated")));
        response_event("response.completed", &response)
    }

    /// The terminal event of a turn that failed.
    pub fn failed_event(&mut self, message: &str, error_type: &str) -> (r: Vec<u8>)
        ensures
            r@ == wire(old(self)@.failure(message@, error_type@)),
            final(self)@ == old(self)@.at_status(ResponseStatus::Failed),
    {
        let output = self.completed_output_items();
        let mut response = self.base_response(ResponseStatus::Failed, output);
        let error = Object::new().with("message", Json::text(message)).with(
            "type",
            Json::text(error_type),
        );
        response.insert("error", Json::Object(error));
        response_event("response.failed", &response)
    }
}

proof fn lemma_put(list: Seq<(int, Tree)>, x: (int, Tree))
    requires
        forall|i: int, j: int| 0 <= i <= j < list.len() ==> list[i].0 <= list[j].0,
    ensures
        put(list, x).to_multiset() == list.to_multiset().insert(x),
        forall|i: int, j: int|
            0 <= i <= j < put(list, x).len() ==> put(list, x)[i].0 <= put(list, x)[j].0,
        put(list, x).len() == list.len() + 1,
        forall|i: int|
            0 <= i < put(list, x).len() ==> put(list, x)[i].0 <= x.0 || list.len() > 0 && put(
                list,
                x,
            )[i].0 <= list.last().0,
    decreases list.len(),
{
    broadcast use vstd::seq_lib::group_to_multiset_ensures;

    if list.len() == 0 || list.last().0 <= x.0 {
    } else {
        lemma_put(list.drop_last(), x);
        let p = put(list.drop_last(), x);
        assert(list.drop_last().push(list.last()) =~= list);
        assert(p.push(list.last()).to_multiset() =~= list.to_multiset().insert(x));
    }
}

/// The output of a response holds each completed item once, in the order of their
/// output indices.
pub proof fn output_items_are_in_order(list: Seq<(int, Tree)>)
    ensures
        in_order(list).to_multiset() == list.to_multiset(),
        forall|i: int, j: int|
            0 <= i <= j < in_order(list).len() ==> in_order(list)[i].0 <= in_order(list)[j].0,
    decreases list.len(),
{
    broadcast use vstd::seq_lib::group_to_multiset_ensures;

    if list.len() > 0 {
        output_items_are_in_order(list.drop_last());
        lemma_put(in_order(list.drop_last()), list.last());
        assert(list.drop_last().push(list.last()) =~= list);
    }
}

/// A turn is started once: once it is, nothing more is said of its start.
pub proof fn turns_start_once(e: Envelope)
    ensures
        e.begun().start_events() == Seq::<Event>::empty(),
        e.begun().begun() == e.begun(),
{
}

/// The first model name that a turn learns stays.
pub proof fn first_model_stays(e: Envelope, payload: Tree)
    requires
        e.model.len() > 0,
    ensures
        e.with_metadata(payload).model == e.model,
{
}

} // verus!
