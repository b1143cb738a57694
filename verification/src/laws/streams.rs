//! What becomes of the parts of a streamed Chat answer.
use vstd::prelude::*;
use crate::json::Tree;
use crate::laws::answers::{counts, is_counted, is_plain, lemma_counted};
use crate::stream_envelope::Envelope;
use crate::stream_inline_think::{content, ended, forced, inside_block, Detector, Phase, Speech};
use crate::stream_reasoning::{Lifecycle, Step};
use crate::stream_responses_state::{Flow, Stream};
use crate::stream_tools::Tools;

verus! {

/// Whether what a turn has learned about itself is the same in two envelopes.
pub open spec fn same_facts(a: Envelope, b: Envelope) -> bool {
    &&& b.completed == a.completed
    &&& b.response_id == a.response_id
    &&& b.model == a.model
    &&& b.created_at == a.created_at
    &&& b.usage == a.usage
    &&& b.finish_reason == a.finish_reason
    &&& b.echo == a.echo
}

proof fn lemma_block_facts(s: Step<Speech>, delta: Seq<char>)
    ensures
        same_facts(s.envelope, inside_block(s, delta).envelope),
{
}

proof fn lemma_speech_facts(s: Step<Speech>, delta: Seq<char>)
    ensures
        same_facts(s.envelope, content(s, delta).envelope),
        same_facts(s.envelope, ended(s).envelope),
        same_facts(s.envelope, forced(s).envelope),
{
    lemma_block_facts(s, delta);
    let d = s.state.think;
    let inside = Detector { phase: Phase::Reasoning, buffer: Seq::empty(), ..d };
    let front = crate::text::trim_start(d.buffer + delta);
    if let Some(j) = crate::stream_inline_think::open_tag_end(front) {
        lemma_block_facts(crate::stream_inline_think::with_detector(s, inside), front.skip(j));
    }
}

proof fn lemma_call_facts(
    s: Stream,
    tool_call: Tree,
    reasoning: Option<Seq<char>>,
    spare_id: Seq<char>,
)
    ensures
        same_facts(s.envelope, s.call(tool_call, reasoning, spare_id).stream.envelope),
        same_facts(s.envelope, s.force().stream.envelope),
        same_facts(s.envelope, s.settle().stream.envelope),
        same_facts(s.envelope, s.flush().stream.envelope),
        same_facts(s.envelope, s.start().stream.envelope),
{
    lemma_speech_facts(s.speech(), Seq::empty());
}

proof fn lemma_calls_facts(
    s: Stream,
    calls: Seq<Tree>,
    reasoning: Option<Seq<char>>,
    fresh: Seq<Seq<char>>,
)
    ensures
        same_facts(s.envelope, s.take_calls(calls, reasoning, fresh).stream.envelope),
    decreases calls.len(),
{
    if calls.len() > 0 {
        lemma_calls_facts(s, calls.drop_last(), reasoning, fresh);
        let before = s.take_calls(calls.drop_last(), reasoning, fresh).stream;
        lemma_call_facts(
            before,
            calls.last(),
            reasoning,
            crate::stream_chat_to_responses::spare_at(fresh, calls.len() - 1),
        );
    }
}

proof fn lemma_parts_facts(s: Stream, parts: Seq<Tree>)
    ensures
        same_facts(s.envelope, s.take_parts(parts).stream.envelope),
    decreases parts.len(),
{
    if parts.len() > 0 {
        lemma_parts_facts(s, parts.drop_last());
    }
}

proof fn lemma_content_facts(t: Stream, value: Option<Tree>, reasoning: Seq<char>)
    ensures
        same_facts(t.envelope, t.take_content(value, reasoning).stream.envelope),
{
    match value {
        Some(Tree::Str(text)) => {
            lemma_speech_facts(t.speech(), crate::sanitize::sanitized(text));
        },
        Some(Tree::Array(parts)) => {
            let x = t.settle();
            lemma_call_facts(x.stream, Tree::Null, None, Seq::empty());
            let y = x.followed_by(x.stream.force());
            lemma_parts_facts(y.stream, parts);
        },
        _ => {},
    }
}

proof fn lemma_delta_calls_facts(
    u: Stream,
    delta: Map<Seq<char>, Tree>,
    reasoning: Seq<char>,
    fresh: Seq<Seq<char>>,
)
    ensures
        same_facts(u.envelope, u.take_delta_calls(delta, reasoning, fresh).stream.envelope),
{
    let calls = crate::stream_chat_to_responses::calls_in(delta);
    if calls.len() > 0 {
        let active = u.reasoning.for_tools();
        let text = if active.len() == 0 {
            reasoning
        } else {
            active
        };
        let x = if active.len() == 0 {
            u.rest()
        } else {
            u.settle()
        };
        lemma_call_facts(x.stream, Tree::Null, None, Seq::empty());
        let y = x.followed_by(x.stream.force());
        let hint = if text.len() == 0 {
            None
        } else {
            Some(crate::sanitize::sanitized(text))
        };
        lemma_calls_facts(y.stream, calls, hint, fresh);
    }
}

proof fn lemma_other_facts(s: Stream, reasoning: Seq<char>, refusal: Option<Seq<char>>)
    ensures
        same_facts(s.envelope, s.take_reasoning(reasoning).stream.envelope),
        same_facts(s.envelope, s.take_refusal(refusal).stream.envelope),
{
}

#[verifier::rlimit(60)]
proof fn lemma_members_facts(
    s: Stream,
    delta: Map<Seq<char>, Tree>,
    reasoning: Seq<char>,
    fresh: Seq<Seq<char>>,
)
    ensures
        same_facts(s.envelope, s.take_members(delta, reasoning, fresh).stream.envelope),
{
    let refusal = crate::json::text_at(delta, "refusal"@);
    let value = crate::json::member(delta, "content"@);
    let annotations = crate::json::member(delta, "annotations"@);
    lemma_members_parts(s, delta, reasoning, fresh);
    let a = s.take_reasoning(reasoning).stream;
    lemma_other_facts(s, reasoning, refusal);
    let t = a.with_annotations(annotations);
    lemma_content_facts(t, value, reasoning);
    let b = t.take_content(value, reasoning).stream;
    lemma_delta_calls_facts(b, delta, reasoning, fresh);
    let c = b.take_delta_calls(delta, reasoning, fresh).stream;
    lemma_other_facts(c, reasoning, refusal);
}

/// The members of a delta are taken one after the other.
pub proof fn lemma_members_parts(
    s: Stream,
    delta: Map<Seq<char>, Tree>,
    reasoning: Seq<char>,
    fresh: Seq<Seq<char>>,
)
    ensures
        s.take_members(delta, reasoning, fresh).stream == s.take_reasoning(
            reasoning,
        ).stream.with_annotations(crate::json::member(delta, "annotations"@)).take_content(
            crate::json::member(delta, "content"@),
            reasoning,
        ).stream.take_delta_calls(delta, reasoning, fresh).stream.take_refusal(
            crate::json::text_at(delta, "refusal"@),
        ).stream,
{
    reveal(Stream::take_members);
}

/// Whether a chunk carries no error.
pub open spec fn is_sound(payload: Map<Seq<char>, Tree>, event: Option<Seq<char>>) -> bool {
    event != Some("error"@) && !payload.contains_key("error"@)
}

/// What a turn learns from a chunk beside its content.
proof fn lemma_chunk_facts(
    s: Stream,
    payload: Map<Seq<char>, Tree>,
    event: Option<Seq<char>>,
    fresh: Seq<Seq<char>>,
)
    requires
        is_sound(payload, event),
    ensures
        ({
            let told = s.envelope.with_metadata(Tree::Object(payload));
            let after = s.take_chunk(payload, event, fresh).stream.envelope;
            same_facts(Envelope { finish_reason: after.finish_reason, ..told }, after)
        }),
{
    let choice = crate::stream_chat_to_responses::chunk_choice(payload);
    let delta = crate::stream_chat_to_responses::delta_of(choice);
    let reasoning = crate::text::text_or_empty(crate::reasoning::reasoning_field(delta));
    let a = s.with_metadata(Tree::Object(payload)).start();
    lemma_members_facts(a.stream, delta, reasoning, fresh);
}

/// Whatever its choices are, empty or missing too, a chunk that counts the tokens that were
/// used tells the turn so, and one that says nothing of usage leaves it as it was.
pub proof fn usage_is_taken_from_every_chunk(
    s: Stream,
    payload: Map<Seq<char>, Tree>,
    event: Option<Seq<char>>,
    fresh: Seq<Seq<char>>,
    prompt: int,
    completion: int,
)
    requires
        is_sound(payload, event),
    ensures
        ({
            let after = s.take_chunk(payload, event, fresh).stream.envelope;
            &&& payload.contains_key("usage"@) ==> (payload["usage"@] matches Tree::Object(u)
                ==> counts(u, prompt, completion) ==> (after.usage matches Some(told)
                && is_counted(told, prompt, completion)))
            &&& !payload.contains_key("usage"@) ==> after.usage == s.envelope.usage
        }),
{
    lemma_chunk_facts(s, payload, event, fresh);
    if payload.contains_key("usage"@) {
        if let Tree::Object(u) = payload["usage"@] {
            if counts(u, prompt, completion) {
                lemma_counted(u, prompt, completion);
                assert(!(u =~= Map::empty())) by {
                    assert(u.dom().contains("prompt_tokens"@));
                }
            }
        }
    }
}

/// The response that an event carries.
pub open spec fn carried(e: crate::stream_events::Event) -> Tree {
    e.payload["response"@]
}

proof fn lemma_items_facts(t: Tools, e: Envelope, n: int)
    ensures
        same_facts(e, t.close_first(e, n).envelope),
    decreases n,
{
    if n > 0 {
        lemma_items_facts(t, e, n - 1);
    }
}

proof fn lemma_close_facts(s: Stream)
    ensures
        same_facts(s.envelope, s.close_items().stream.envelope),
{
    let a = s.start();
    lemma_speech_facts(a.stream.speech(), Seq::empty());
    let b = a.followed_by(a.stream.spoken(ended(a.stream.speech())));
    let c = b.followed_by(b.stream.settle());
    let d = c.followed_by(c.stream.messaged(c.stream.message.close(c.stream.envelope)));
    let t = d.stream.tools;
    lemma_items_facts(Tools { finalized: true, ..t }, d.stream.envelope, t.calls.len() as int);
}

/// The members of a response in a stream that it does not echo.
proof fn lemma_response_members(
    e: Envelope,
    status: crate::convert::semantics::ResponseStatus,
    output: Seq<Tree>,
)
    ensures
        ({
            let r = e.response(status, output);
            &&& r.contains_key("id"@) && r["id"@] == Tree::Str(e.response_id)
            &&& r.contains_key("object"@) && r["object"@] == Tree::Str("response"@)
            &&& r.contains_key("created_at"@) && r["created_at"@] == Tree::Int(e.created_at)
            &&& r.contains_key("status"@) && r["status"@] == Tree::Str(status.label())
            &&& r.contains_key("model"@) && r["model"@] == Tree::Str(e.model)
            &&& r.contains_key("output"@) && r["output"@] == Tree::Array(output)
            &&& r.contains_key("usage"@)
            &&& e.usage matches Some(u) ==> r["usage"@] == u
            &&& e.usage is None ==> is_counted(r["usage"@], 0, 0)
        }),
{
    reveal_strlit("id");
    reveal_strlit("object");
    reveal_strlit("status");
    reveal_strlit("model");
    reveal_strlit("output");
    reveal_strlit("created_at");
    reveal_strlit("usage");
    reveal_strlit("instructions");
    reveal_strlit("max_output_tokens");
    reveal_strlit("parallel_tool_calls");
    reveal_strlit("previous_response_id");
    reveal_strlit("reasoning");
    reveal_strlit("temperature");
    reveal_strlit("tool_choice");
    reveal_strlit("tools");
    reveal_strlit("top_p");
    reveal_strlit("metadata");
    assert("id"@.len() == 2);
    assert("object"@.len() == 6);
    assert("status"@.len() == 6);
    assert("model"@.len() == 5);
    assert("output"@.len() == 6);
    assert("created_at"@.len() == 10);
    assert("usage"@.len() == 5);
    assert("instructions"@.len() == 12);
    assert("max_output_tokens"@.len() == 17);
    assert("parallel_tool_calls"@.len() == 19);
    assert("previous_response_id"@.len() == 20);
    assert("reasoning"@.len() == 9);
    assert("temperature"@.len() == 11);
    assert("tool_choice"@.len() == 11);
    assert("tools"@.len() == 5);
    assert("top_p"@.len() == 5);
    assert("metadata"@.len() == 8);
    assert("status"@[0] == 's');
    assert("object"@[0] == 'o');
    assert("object"@[1] == 'b');
    assert("output"@[0] == 'o');
    assert("output"@[1] == 'u');
    assert("usage"@[0] == 'u');
    assert("model"@[0] == 'm');
    assert("tools"@[0] == 't');
    assert("tools"@[2] == 'o');
    assert("top_p"@[0] == 't');
    assert("top_p"@[2] == 'p');
    assert("tool_choice"@[1] == 'o');
    assert("temperature"@[1] == 'e');
    assert("input_tokens"@ != "output_tokens"@ && "input_tokens"@ != "total_tokens"@
        && "output_tokens"@ != "total_tokens"@) by {
        reveal_strlit("input_tokens");
        reveal_strlit("output_tokens");
        reveal_strlit("total_tokens");
        assert("input_tokens"@.len() == 12);
        assert("output_tokens"@.len() == 13);
        assert("total_tokens"@.len() == 12);
        assert("total_tokens"@[0] == 't');
        assert("input_tokens"@[0] == 'i');
    }
    let names = crate::convert::semantics::request_echo_fields();
    let bare = Envelope { echo: None, ..e }.response(status, output);
    assert forall|k: Seq<char>|
        (k == "id"@ || k == "object"@ || k == "created_at"@ || k == "status"@ || k == "model"@ || k
            == "output"@ || k == "usage"@) implies #[trigger] crate::json::member(
        e.response(status, output),
        k,
    ) == crate::json::member(bare, k) by {
        assert forall|i: int| 0 <= i < names.len() implies #[trigger] names[i] != k by {
            assert(names[0] == "instructions"@ && names[1] == "max_output_tokens"@ && names[2]
                == "parallel_tool_calls"@ && names[3] == "previous_response_id"@ && names[4]
                == "reasoning"@ && names[5] == "temperature"@ && names[6] == "tool_choice"@
                && names[7] == "tools"@ && names[8] == "top_p"@ && names[9] == "metadata"@);
            assert(names[i] == names[0] || names[i] == names[1] || names[i] == names[2] || names[i]
                == names[3] || names[i] == names[4] || names[i] == names[5] || names[i] == names[6]
                || names[i] == names[7] || names[i] == names[8] || names[i] == names[9]);
        }
        if let Some(o) = e.echo {
            crate::convert::semantics::lemma_copied_other(bare, o, names, k);
        }
    }
    let r = e.response(status, output);
    assert(crate::json::member(r, "id"@) == crate::json::member(bare, "id"@));
    assert(crate::json::member(r, "object"@) == crate::json::member(bare, "object"@));
    assert(crate::json::member(r, "created_at"@) == crate::json::member(bare, "created_at"@));
    assert(crate::json::member(r, "status"@) == crate::json::member(bare, "status"@));
    assert(crate::json::member(r, "model"@) == crate::json::member(bare, "model"@));
    assert(crate::json::member(r, "output"@) == crate::json::member(bare, "output"@));
    assert(crate::json::member(r, "usage"@) == crate::json::member(bare, "usage"@));
}

/// The event that ends a turn carries the response as the turn knows it: its id, its model,
/// its time, the tokens that were used, and how it ended. A turn that upstream finished
/// ends as the finish reason says; one that failed is told as failed.
pub proof fn ends_tell_the_turn(
    s: Stream,
    ended_cleanly: bool,
    message: Seq<char>,
    error_type: Seq<char>,
)
    requires
        !s.envelope.completed,
    ensures
        ({
            let r = carried(s.finalize(ended_cleanly).events.last());
            let reason = s.envelope.finish_reason;
            &&& is_of(r, s.envelope)
            &&& reason == Some("stop"@) ==> r.at("status"@) == Some(Tree::Str("completed"@))
            &&& reason == Some("tool_calls"@) ==> r.at("status"@) == Some(
                Tree::Str("in_progress"@),
            )
            &&& reason == Some("length"@) ==> r.at("status"@) == Some(Tree::Str("incomplete"@))
                && says_why(r, "max_output_tokens"@)
            &&& reason == Some("content_filter"@) ==> r.at("status"@) == Some(
                Tree::Str("incomplete"@),
            ) && says_why(r, "content_filter"@)
            &&& reason is None && !ended_cleanly ==> r.at("status"@) != Some(
                Tree::Str("completed"@),
            )
        }),
        ({
            let r = carried(s.fail(message, error_type).events.last());
            &&& is_of(r, s.envelope)
            &&& r.at("status"@) == Some(Tree::Str("failed"@))
            &&& r.at("error"@) matches Some(e)
            &&& e.at("message"@) == Some(Tree::Str(message))
            &&& e.at("type"@) == Some(Tree::Str(error_type))
        }),
{
    reveal_strlit("type");
    reveal_strlit("response");
    reveal_strlit("incomplete_details");
    reveal_strlit("error");
    reveal_strlit("message");
    reveal_strlit("id");
    reveal_strlit("object");
    reveal_strlit("status");
    reveal_strlit("model");
    reveal_strlit("output");
    reveal_strlit("created_at");
    reveal_strlit("usage");
    reveal_strlit("reason");
    assert("type"@.len() == 4);
    assert("response"@.len() == 8);
    assert("incomplete_details"@.len() == 18);
    assert("error"@.len() == 5);
    assert("message"@.len() == 7);
    assert("id"@.len() == 2);
    assert("object"@.len() == 6);
    assert("status"@.len() == 6);
    assert("model"@.len() == 5);
    assert("output"@.len() == 6);
    assert("created_at"@.len() == 10);
    assert("usage"@.len() == 5);
    assert("reason"@.len() == 6);
    assert("model"@[0] == 'm');
    assert("error"@[0] == 'e');
    assert("usage"@[0] == 'u');
    assert("status"@[0] == 's');
    assert("object"@[0] == 'o');
    assert("object"@[1] == 'b');
    assert("output"@[0] == 'o');
    assert("output"@[1] == 'u');
    assert("reason"@[0] == 'r');
    assert("stop"@ != "tool_calls"@ && "stop"@ != "length"@ && "stop"@ != "content_filter"@
        && "length"@ != "tool_calls"@ && "content_filter"@ != "tool_calls"@ && "length"@
        != "content_filter"@ && "completed"@ != "incomplete"@ && "completed"@ != "failed"@) by {
        reveal_strlit("stop");
        reveal_strlit("tool_calls");
        reveal_strlit("length");
        reveal_strlit("content_filter");
        reveal_strlit("completed");
        reveal_strlit("incomplete");
        reveal_strlit("failed");
        assert("stop"@.len() == 4);
        assert("tool_calls"@.len() == 10);
        assert("length"@.len() == 6);
        assert("content_filter"@.len() == 14);
        assert("completed"@.len() == 9);
        assert("incomplete"@.len() == 10);
        assert("failed"@.len() == 6);
        assert("incomplete"@[0] == 'i');
        assert("tool_calls"@[0] == 't');
        assert("failed"@[0] == 'f');
        assert("length"@[0] == 'l');
    }
    lemma_close_facts(s.over());
    let f = s.over().close_items();
    let e = f.stream.envelope;
    let output = e.output();
    assert(same_facts(s.over().envelope, e));
    lemma_response_members(e, e.final_status(), output);
    lemma_response_members(e, crate::convert::semantics::ResponseStatus::Incomplete, output);
    lemma_response_members(e, crate::convert::semantics::ResponseStatus::Failed, output);
    let t = f.stream.terminate(ended_cleanly);
    assert((f.events + t.events).last() == t.events[0]);
    assert((f.events + seq![e.failure(message, error_type)]).last() == e.failure(
        message,
        error_type,
    ));
}

/// Whether a response is the one of an envelope.
pub open spec fn is_of(r: Tree, e: Envelope) -> bool {
    &&& r.at("id"@) == Some(Tree::Str(e.response_id))
    &&& r.at("object"@) == Some(Tree::Str("response"@))
    &&& r.at("model"@) == Some(Tree::Str(e.model))
    &&& r.at("created_at"@) == Some(Tree::Int(e.created_at))
    &&& e.usage matches Some(u) ==> r.at("usage"@) == Some(u)
    &&& e.usage is None ==> (r.at("usage"@) matches Some(u) && is_counted(u, 0, 0))
}

/// Whether a response says why it is incomplete.
pub open spec fn says_why(r: Tree, why: Seq<char>) -> bool {
    r.at("incomplete_details"@) matches Some(d) && d.at("reason"@) == Some(Tree::Str(why))
}

/// The event that ends a stream tells the tokens that the last chunk counted which counted
/// any: no message behind it that says nothing of usage changes that.
pub proof fn the_last_usage_is_told(
    s: Stream,
    payload: Map<Seq<char>, Tree>,
    usage: Map<Seq<char>, Tree>,
    prompt: int,
    completion: int,
    fresh: Seq<Seq<char>>,
    later: Seq<(Option<Seq<char>>, Seq<char>)>,
    ids: Seq<Seq<Seq<char>>>,
    ended_cleanly: bool,
)
    requires
        is_sound(payload, None),
        payload.contains_key("usage"@),
        payload["usage"@] == Tree::Object(usage),
        counts(usage, prompt, completion),
        forall|k: int|
            0 <= k < later.len() ==> says_no_usage(crate::json::parsed((#[trigger] later[k]).1)),
    ensures
        ({
            let t = s.take_chunk(payload, None, fresh).stream.take_messages(later, ids).stream;
            !t.envelope.completed ==> (carried(t.finalize(ended_cleanly).events.last()).at(
                "usage"@,
            ) matches Some(u) && is_counted(u, prompt, completion))
        }),
{
    usage_is_taken_from_every_chunk(s, payload, None, fresh, prompt, completion);
    let a = s.take_chunk(payload, None, fresh).stream;
    lemma_later_usage(a, later, ids);
    let t = a.take_messages(later, ids).stream;
    if !t.envelope.completed {
        ends_tell_the_turn(t, ended_cleanly, Seq::empty(), Seq::empty());
    }
}

/// Whether data says nothing of usage.
pub open spec fn says_no_usage(denoted: Option<Tree>) -> bool {
    denoted matches Some(Tree::Object(m)) ==> !m.contains_key("usage"@)
}

proof fn lemma_later_usage(
    s: Stream,
    later: Seq<(Option<Seq<char>>, Seq<char>)>,
    ids: Seq<Seq<Seq<char>>>,
)
    requires
        forall|k: int|
            0 <= k < later.len() ==> says_no_usage(crate::json::parsed((#[trigger] later[k]).1)),
    ensures
        s.take_messages(later, ids).stream.envelope.usage == s.envelope.usage,
    decreases later.len(),
{
    if later.len() > 0 {
        let front = later.drop_last();
        assert forall|k: int| 0 <= k < front.len() implies says_no_usage(
            crate::json::parsed((#[trigger] front[k]).1),
        ) by {
            assert(front[k] == later[k]);
        }
        lemma_later_usage(s, front, ids);
        let t = s.take_messages(front, ids).stream;
        lemma_close_facts(t.over());
        let (event, data) = later.last();
        assert(says_no_usage(crate::json::parsed(later[later.len() - 1].1)));
        if let Some(Tree::Object(m)) = crate::json::parsed(data) {
            if is_sound(m, event) {
                usage_is_taken_from_every_chunk(
                    t,
                    m,
                    event,
                    crate::stream_chat_to_responses::ids_at(ids, later.len() - 1),
                    0,
                    0,
                );
            }
        }
    }
}

/// Whether a chunk has one delta.
pub open spec fn has_delta(payload: Map<Seq<char>, Tree>, delta: Map<Seq<char>, Tree>) -> bool {
    &&& payload.contains_key("choices"@)
    &&& payload["choices"@] matches Tree::Array(choices)
    &&& choices.len() > 0
    &&& choices[0].at("delta"@) == Some(Tree::Object(delta))
}

/// A finish reason is taken from the chunk that has one, and stays until another comes.
pub proof fn finish_reasons_are_taken(
    s: Stream,
    payload: Map<Seq<char>, Tree>,
    choices: Seq<Tree>,
    event: Option<Seq<char>>,
    fresh: Seq<Seq<char>>,
)
    requires
        is_sound(payload, event),
        payload.contains_key("choices"@),
        payload["choices"@] == Tree::Array(choices),
    ensures
        ({
            let after = s.take_chunk(payload, event, fresh).stream.envelope;
            if choices.len() > 0 && (choices[0].at("finish_reason"@) matches Some(Tree::Str(r))
                && r.len() > 0) {
                Some(Tree::Str(after.finish_reason->0)) == choices[0].at("finish_reason"@)
                    && after.finish_reason is Some
            } else {
                after.finish_reason == s.envelope.finish_reason
            }
        }),
{
    let choice = crate::stream_chat_to_responses::chunk_choice(payload);
    let delta = crate::stream_chat_to_responses::delta_of(choice);
    let reasoning = crate::text::text_or_empty(crate::reasoning::reasoning_field(delta));
    let a = s.with_metadata(Tree::Object(payload)).start();
    lemma_members_facts(a.stream, delta, reasoning, fresh);
}

/// The model and the time of a turn are those of its chunks: the first model that one
/// names, and the time that the last one gives.
pub proof fn chunks_name_model_and_time(
    s: Stream,
    payload: Map<Seq<char>, Tree>,
    event: Option<Seq<char>>,
    fresh: Seq<Seq<char>>,
)
    requires
        is_sound(payload, event),
    ensures
        ({
            let after = s.take_chunk(payload, event, fresh).stream.envelope;
            &&& s.envelope.model.len() > 0 ==> after.model == s.envelope.model
            &&& s.envelope.model.len() == 0 && payload.contains_key("model"@) ==> (
            payload["model"@] matches Tree::Str(m) ==> m.len() > 0 ==> after.model == m)
            &&& payload.contains_key("created"@) ==> (payload["created"@] matches Tree::Int(n)
                ==> 0 < n <= i64::MAX ==> after.created_at == n)
            &&& after.response_id == s.envelope.response_id
        }),
{
    lemma_chunk_facts(s, payload, event, fresh);
}

/// Whether a delta brings content and nothing else.
pub open spec fn only_says(delta: Map<Seq<char>, Tree>, text: Seq<char>) -> bool {
    &&& delta.contains_key("content"@)
    &&& delta["content"@] == Tree::Str(text)
    &&& !delta.contains_key("reasoning_content"@)
    &&& !delta.contains_key("reasoning"@)
    &&& !delta.contains_key("annotations"@)
    &&& !delta.contains_key("tool_calls"@)
    &&& !delta.contains_key("refusal"@)
}

/// Content that is no think block is told: it is added to the visible text, and to nothing
/// else.
pub proof fn content_is_told(
    s: Stream,
    payload: Map<Seq<char>, Tree>,
    delta: Map<Seq<char>, Tree>,
    text: Seq<char>,
    event: Option<Seq<char>>,
    fresh: Seq<Seq<char>>,
)
    requires
        is_sound(payload, event),
        has_delta(payload, delta),
        only_says(delta, text),
        is_plain(text),
        crate::text::trim_start(text).len() > 0,
        s.message.phase != Lifecycle::Done,
        s.think.phase == Phase::Text || s.think.phase == Phase::Detecting && s.think.buffer.len()
            == 0,
    ensures
        ({
            let after = s.take_chunk(payload, event, fresh).stream;
            &&& after.message.text() == s.message.text() + text
            &&& after.reasoning.text == s.reasoning.text
            &&& after.tools == s.tools
        }),
{
    let a = s.with_metadata(Tree::Object(payload)).start();
    let choice = crate::stream_chat_to_responses::chunk_choice(payload);
    assert(crate::stream_chat_to_responses::delta_of(choice) == delta);
    lemma_only_says(a.stream, delta, text, fresh);
    lemma_heard(a.stream, text);
}

proof fn lemma_only_says(
    t: Stream,
    delta: Map<Seq<char>, Tree>,
    text: Seq<char>,
    fresh: Seq<Seq<char>>,
)
    requires
        only_says(delta, text),
        is_plain(text),
        text.len() > 0,
    ensures
        crate::reasoning::reasoning_field(delta) is None,
        t.take_members(delta, Seq::empty(), fresh).stream == t.hear(text).stream,
{
    reveal_strlit("content");
    reveal_strlit("reasoning_content");
    reveal_strlit("reasoning");
    reveal_strlit("annotations");
    reveal_strlit("tool_calls");
    reveal_strlit("refusal");
    assert("content"@.len() == 7);
    assert("reasoning_content"@.len() == 17);
    assert("reasoning"@.len() == 9);
    assert("annotations"@.len() == 11);
    assert("tool_calls"@.len() == 10);
    assert("refusal"@.len() == 7);
    assert("refusal"@[0] == 'r');
    assert("content"@[0] == 'c');
    crate::sanitize::sanitizing_clean_text_changes_nothing(text);
    lemma_members_parts(t, delta, Seq::empty(), fresh);
    assert(t.take_reasoning(Seq::empty()).stream == t);
    assert(t.with_annotations(None) == t);
    assert(crate::stream_chat_to_responses::calls_in(delta) == Seq::<Tree>::empty());
}

proof fn lemma_heard(t: Stream, text: Seq<char>)
    requires
        is_plain(text),
        crate::text::trim_start(text).len() > 0,
        t.message.phase != Lifecycle::Done,
        t.think.phase == Phase::Text || t.think.phase == Phase::Detecting && t.think.buffer.len()
            == 0,
    ensures
        t.hear(text).stream.message.text() == t.message.text() + text,
        t.hear(text).stream.reasoning == t.reasoning,
        t.hear(text).stream.tools == t.tools,
{
    crate::stream_message::visible_text_is_the_sum_of_its_deltas(t.message, t.envelope, text);
    if t.think.phase == Phase::Detecting {
        lemma_no_tag(text);
        assert(t.think.buffer + text =~= text);
    }
}

proof fn lemma_no_tag(text: Seq<char>)
    requires
        is_plain(text),
        crate::text::trim_start(text).len() > 0,
    ensures
        ({
            let front = crate::text::trim_start(text);
            &&& crate::stream_inline_think::open_tag_end(front) is None
            &&& !crate::reasoning::partial_open(front)
        }),
{
    let front = crate::text::trim_start(text);
    lemma_trimmed_end(text);
    crate::reasoning::lemma_trim_start_twice(text);
    let k = text.len() - front.len();
    assert(front[0] == text[k]);
    reveal_strlit("<think>");
    reveal_strlit("<thinking>");
    reveal_strlit("<think");
    reveal_strlit("<thinking");
    let low = crate::text::lower(front);
    assert(low[0] == crate::text::lower_char(front[0]));
    assert(low[0] != '<');
    assert(crate::text::begins("<think>"@, low) ==> "<think>"@.subrange(0, low.len() as int)[0]
        == low[0]);
    assert(crate::text::begins("<thinking>"@, low) ==> "<thinking>"@.subrange(
        0,
        low.len() as int,
    )[0] == low[0]);
    assert(crate::text::begins(low, "<think"@) ==> low.subrange(0, 6)[0] == "<think"@[0]);
    assert(crate::text::begins(low, "<thinking"@) ==> low.subrange(0, 9)[0] == "<thinking"@[0]);
    if crate::stream_inline_think::open_tag_end(front) is Some {
        let (i, j) = choose|i: int, j: int|
            crate::reasoning::first_tag_at(front, crate::reasoning::Tag::Open, i, j);
        assert(crate::reasoning::first_tag_at(front, crate::reasoning::Tag::Open, i, j));
        assert(front[i] == '<');
        assert(front[i] == text[k + i]);
    }
}

proof fn lemma_trimmed_end(s: Seq<char>)
    ensures
        crate::text::trim_start(s).len() <= s.len(),
        crate::text::trim_start(s) == s.skip(s.len() - crate::text::trim_start(s).len()),
    decreases s.len(),
{
    if s.len() > 0 && crate::text::is_space(s[0]) {
        lemma_trimmed_end(s.drop_first());
        let t = crate::text::trim_start(s);
        assert(s.drop_first().skip(s.drop_first().len() - t.len()) =~= s.skip(s.len() - t.len()));
    } else {
        assert(s.skip(0) =~= s);
    }
}

/// Reasoning is told as reasoning: it is added to the reasoning text, and to nothing else.
pub proof fn reasoning_is_told(
    s: Stream,
    payload: Map<Seq<char>, Tree>,
    delta: Map<Seq<char>, Tree>,
    text: Seq<char>,
    event: Option<Seq<char>>,
    fresh: Seq<Seq<char>>,
)
    requires
        is_sound(payload, event),
        has_delta(payload, delta),
        delta.contains_key("reasoning_content"@),
        delta["reasoning_content"@] == Tree::Str(text),
        !delta.contains_key("content"@),
        !delta.contains_key("annotations"@),
        !delta.contains_key("tool_calls"@),
        !delta.contains_key("refusal"@),
        is_plain(text),
        crate::text::trim(text).len() > 0,
        s.reasoning.phase != Lifecycle::Done,
    ensures
        ({
            let after = s.take_chunk(payload, event, fresh).stream;
            &&& after.reasoning.text == s.reasoning.text + text
            &&& after.message == s.message
            &&& after.tools == s.tools
        }),
{
    reveal_strlit("content");
    reveal_strlit("reasoning_content");
    reveal_strlit("reasoning");
    reveal_strlit("annotations");
    reveal_strlit("tool_calls");
    reveal_strlit("refusal");
    assert("content"@.len() == 7);
    assert("reasoning_content"@.len() == 17);
    assert("reasoning"@.len() == 9);
    assert("annotations"@.len() == 11);
    assert("tool_calls"@.len() == 10);
    assert("refusal"@.len() == 7);
    assert("refusal"@[0] == 'r');
    assert("content"@[0] == 'c');
    reveal(Stream::take_members);
    crate::sanitize::sanitizing_clean_text_changes_nothing(text);
    crate::text::lemma_trim_empty();
    let choice = crate::stream_chat_to_responses::chunk_choice(payload);
    assert(crate::stream_chat_to_responses::delta_of(choice) == delta);
    assert(text.len() > 0) by {
        if text.len() == 0 {
            assert(text =~= Seq::empty());
        }
    }
}

/// A refusal is told as a refusal: the last part of the message holds it.
pub proof fn refusals_are_told(
    s: Stream,
    payload: Map<Seq<char>, Tree>,
    delta: Map<Seq<char>, Tree>,
    text: Seq<char>,
    event: Option<Seq<char>>,
    fresh: Seq<Seq<char>>,
)
    requires
        is_sound(payload, event),
        has_delta(payload, delta),
        delta.contains_key("refusal"@),
        delta["refusal"@] == Tree::Str(text),
        !delta.contains_key("content"@),
        !delta.contains_key("annotations"@),
        !delta.contains_key("tool_calls"@),
        !delta.contains_key("reasoning_content"@),
        !delta.contains_key("reasoning"@),
        is_plain(text),
        text.len() > 0,
        s.message.phase != Lifecycle::Done,
    ensures
        ({
            let after = s.take_chunk(payload, event, fresh).stream;
            &&& after.message.segments.last() == crate::stream_message::Piece::Refusal {
                refusal: text,
            }
            &&& after.message.segments.len() == s.message.segments.len() + 1
        }),
{
    reveal_strlit("content");
    reveal_strlit("reasoning_content");
    reveal_strlit("reasoning");
    reveal_strlit("annotations");
    reveal_strlit("tool_calls");
    reveal_strlit("refusal");
    assert("content"@.len() == 7);
    assert("reasoning_content"@.len() == 17);
    assert("reasoning"@.len() == 9);
    assert("annotations"@.len() == 11);
    assert("tool_calls"@.len() == 10);
    assert("refusal"@.len() == 7);
    assert("refusal"@[0] == 'r');
    assert("content"@[0] == 'c');
    reveal(Stream::take_members);
    crate::sanitize::sanitizing_clean_text_changes_nothing(text);
    let choice = crate::stream_chat_to_responses::chunk_choice(payload);
    assert(crate::stream_chat_to_responses::delta_of(choice) == delta);
    assert(crate::reasoning::reasoning_field(delta) is None);
}

/// The mark `[DONE]` ends the turn as one that ended cleanly, and data that denotes no
/// object does nothing.
pub proof fn marks_end_the_turn(
    s: Stream,
    event: Option<Seq<char>>,
    data: Seq<char>,
    denoted: Option<Tree>,
    fresh: Seq<Seq<char>>,
)
    ensures
        crate::text::trim(data) == "[DONE]"@ ==> s.take_message(event, data, denoted, fresh)
            == s.finalize(true),
        crate::text::trim(data) != "[DONE]"@ && !(denoted matches Some(Tree::Object(_)))
            ==> s.take_message(event, data, denoted, fresh) == (Flow {
            stream: s,
            events: Seq::empty(),
        }),
{
}

/// The event that ends a turn which did not fail carries all its items.
pub proof fn lemma_end_output(s: Stream, ended_cleanly: bool)
    requires
        !s.envelope.completed,
        s.envelope.finish_reason is Some || ended_cleanly,
    ensures
        ({
            let e = s.over().close_items().stream.envelope;
            let r = carried(s.finalize(ended_cleanly).events.last());
            e.output().len() > 0 ==> r.at("output"@) == Some(Tree::Array(e.output()))
        }),
{
    reveal_strlit("type");
    reveal_strlit("response");
    reveal_strlit("incomplete_details");
    reveal_strlit("error");
    reveal_strlit("message");
    reveal_strlit("id");
    reveal_strlit("object");
    reveal_strlit("status");
    reveal_strlit("model");
    reveal_strlit("output");
    reveal_strlit("created_at");
    reveal_strlit("usage");
    reveal_strlit("reason");
    assert("type"@.len() == 4);
    assert("response"@.len() == 8);
    assert("incomplete_details"@.len() == 18);
    assert("error"@.len() == 5);
    assert("message"@.len() == 7);
    assert("id"@.len() == 2);
    assert("object"@.len() == 6);
    assert("status"@.len() == 6);
    assert("model"@.len() == 5);
    assert("output"@.len() == 6);
    assert("created_at"@.len() == 10);
    assert("usage"@.len() == 5);
    assert("reason"@.len() == 6);
    assert("model"@[0] == 'm');
    assert("error"@[0] == 'e');
    assert("usage"@[0] == 'u');
    assert("status"@[0] == 's');
    assert("object"@[0] == 'o');
    assert("object"@[1] == 'b');
    assert("output"@[0] == 'o');
    assert("output"@[1] == 'u');
    assert("reason"@[0] == 'r');
    lemma_close_facts(s.over());
    let f = s.over().close_items();
    let e = f.stream.envelope;
    lemma_response_members(e, e.final_status(), e.output());
    let t = f.stream.terminate(ended_cleanly);
    assert((f.events + t.events).last() == t.events[0]);
}

/// Text that comes while a text part is open is sent at once, as one delta of that part.
pub proof fn deltas_are_sent(
    s: Stream,
    payload: Map<Seq<char>, Tree>,
    delta: Map<Seq<char>, Tree>,
    text: Seq<char>,
    event: Option<Seq<char>>,
    fresh: Seq<Seq<char>>,
)
    requires
        is_sound(payload, event),
        has_delta(payload, delta),
        only_says(delta, text),
        is_plain(text),
        text.len() > 0,
        s.envelope.started,
        s.message.phase == Lifecycle::Open,
        s.message.writing(),
        s.think.phase == Phase::Text,
    ensures
        ({
            let events = s.take_chunk(payload, event, fresh).events;
            &&& events.len() == 1
            &&& events[0].name == "response.output_text.delta"@
            &&& events[0].payload["type"@] == Tree::Str("response.output_text.delta"@)
            &&& events[0].payload["delta"@] == Tree::Str(text)
            &&& events[0].payload["item_id"@] == Tree::Str("msg_"@ + s.envelope.response_id)
            &&& events[0].payload["output_index"@] == Tree::Int(s.message.index)
            &&& events[0].payload["content_index"@] == Tree::Int(s.message.segments.len() - 1)
        }),
{
    reveal_strlit("type");
    reveal_strlit("delta");
    reveal_strlit("item_id");
    reveal_strlit("output_index");
    reveal_strlit("content_index");
    assert("type"@.len() == 4);
    assert("delta"@.len() == 5);
    assert("item_id"@.len() == 7);
    assert("output_index"@.len() == 12);
    assert("content_index"@.len() == 13);
    let a = s.with_metadata(Tree::Object(payload)).start();
    let choice = crate::stream_chat_to_responses::chunk_choice(payload);
    assert(crate::stream_chat_to_responses::delta_of(choice) == delta);
    lemma_only_says(a.stream, delta, text, fresh);
    lemma_only_says_events(a.stream, delta, text, fresh);
    let t = a.stream;
    let heard = t.hear(text);
    assert(heard.events =~= t.message.push_text(t.envelope, text).events);
    assert(s.take_chunk(payload, event, fresh).events =~= heard.events);
}

proof fn lemma_only_says_events(
    t: Stream,
    delta: Map<Seq<char>, Tree>,
    text: Seq<char>,
    fresh: Seq<Seq<char>>,
)
    requires
        only_says(delta, text),
        is_plain(text),
        text.len() > 0,
    ensures
        t.take_members(delta, Seq::empty(), fresh).events == t.hear(text).events,
{
    reveal_strlit("content");
    reveal_strlit("reasoning_content");
    reveal_strlit("reasoning");
    reveal_strlit("annotations");
    reveal_strlit("tool_calls");
    reveal_strlit("refusal");
    assert("content"@.len() == 7);
    assert("reasoning_content"@.len() == 17);
    assert("reasoning"@.len() == 9);
    assert("annotations"@.len() == 11);
    assert("tool_calls"@.len() == 10);
    assert("refusal"@.len() == 7);
    assert("refusal"@[0] == 'r');
    assert("content"@[0] == 'c');
    reveal(Stream::take_members);
    crate::sanitize::sanitizing_clean_text_changes_nothing(text);
    assert(t.take_reasoning(Seq::empty()) == t.rest());
    assert(t.with_annotations(None) == t);
    assert(crate::stream_chat_to_responses::calls_in(delta) == Seq::<Tree>::empty());
    let events = t.hear(text).events;
    let none = Seq::<crate::stream_events::Event>::empty();
    assert(none + events + none + none =~= events);
    assert(t.take_members(delta, Seq::empty(), fresh).events =~= events);
}

proof fn lemma_choices_usage(s: Stream, choices: Seq<Tree>, fresh: Seq<Seq<Seq<char>>>)
    ensures
        ({
            let after = s.take_choices(choices, fresh).stream.envelope;
            &&& after.usage == s.envelope.usage
            &&& after.completed == s.envelope.completed
        }),
    decreases choices.len(),
{
    reveal_strlit("choices");
    reveal_strlit("usage");
    reveal_strlit("error");
    assert("choices"@.len() == 7);
    assert("usage"@.len() == 5);
    assert("error"@.len() == 5);
    assert("error"@[0] == 'e');
    assert("usage"@[0] == 'u');
    if choices.len() > 0 {
        lemma_choices_usage(s, choices.drop_last(), fresh);
        let before = s.take_choices(choices.drop_last(), fresh).stream;
        let chunk = crate::stream_chat_to_responses::whole_chunk(choices.last());
        let ids = crate::stream_chat_to_responses::ids_at(fresh, choices.len() - 1);
        usage_is_taken_from_every_chunk(before, chunk, None, ids, 0, 0);
        lemma_chunk_facts(before, chunk, None, ids);
    }
}

/// An answer that comes as a whole where a stream was asked for tells the tokens that it
/// counted too, at the end of the turn.
pub proof fn whole_answers_are_accounted_for(
    s: Stream,
    body: Tree,
    usage: Map<Seq<char>, Tree>,
    prompt: int,
    completion: int,
    fresh: Seq<Seq<Seq<char>>>,
)
    requires
        !s.envelope.completed,
        body.at("usage"@) == Some(Tree::Object(usage)),
        counts(usage, prompt, completion),
    ensures
        carried(s.take_whole(body, fresh).events.last()).at("usage"@) matches Some(u)
            && is_counted(u, prompt, completion),
{
    let a = s.with_metadata(body);
    lemma_counted(usage, prompt, completion);
    assert(!(usage =~= Map::empty())) by {
        assert(usage.dom().contains("prompt_tokens"@));
    }
    let choices = crate::stream_chat_to_responses::choices_of(body);
    lemma_choices_usage(a, choices, fresh);
    let f = a.take_choices(choices, fresh);
    ends_tell_the_turn(f.stream, true, Seq::empty(), Seq::empty());
    let end = f.stream.finalize(true);
    assert(end.events.len() > 0) by {
        let g = f.stream.over().close_items();
        assert(end.events == g.events + g.stream.terminate(true).events);
    }
    assert((f.events + end.events).last() == end.events.last());
}

/// What a message that came as a whole says goes into the stream member by member: its
/// content, its refusal and its reasoning as they are, its calls one for one, and the reason
/// why it ended.
pub proof fn whole_messages_stand_in_for_deltas(
    choice: Tree,
    message: Map<Seq<char>, Tree>,
    calls: Seq<Tree>,
    content: Tree,
    reasoning: Seq<char>,
    reason: Tree,
)
    requires
        choice.at("message"@) == Some(Tree::Object(message)),
        choice.at("finish_reason"@) == Some(reason),
        message.contains_key("tool_calls"@),
        message["tool_calls"@] == Tree::Array(calls),
        message.contains_key("content"@),
        message["content"@] == content,
        message.contains_key("reasoning_content"@),
        message["reasoning_content"@] == Tree::Str(reasoning),
        crate::text::trim(reasoning).len() > 0,
        forall|j: int| 0 <= j < calls.len() ==> #[trigger] calls[j] is Object,
    ensures
        ({
            let chunk = crate::stream_chat_to_responses::whole_chunk(choice);
            &&& chunk["choices"@] matches Tree::Array(choices)
            &&& choices.len() == 1
            &&& choices[0].at("finish_reason"@) == Some(reason)
            &&& choices[0].at("delta"@) matches Some(d)
            &&& d.at("content"@) == Some(content)
            &&& d.at("reasoning_content"@) == Some(Tree::Str(reasoning))
            &&& d.at("refusal"@) == Tree::Object(message).at("refusal"@)
            &&& d.at("annotations"@) == Tree::Object(message).at("annotations"@)
            &&& d.at("tool_calls"@) matches Some(Tree::Array(all))
            &&& all.len() == calls.len()
        }),
{
    reveal_strlit("choices");
    reveal_strlit("delta");
    reveal_strlit("finish_reason");
    reveal_strlit("role");
    reveal_strlit("content");
    reveal_strlit("refusal");
    reveal_strlit("annotations");
    reveal_strlit("reasoning_content");
    reveal_strlit("tool_calls");
    assert("choices"@.len() == 7);
    assert("delta"@.len() == 5);
    assert("finish_reason"@.len() == 13);
    assert("role"@.len() == 4);
    assert("content"@.len() == 7);
    assert("refusal"@.len() == 7);
    assert("annotations"@.len() == 11);
    assert("reasoning_content"@.len() == 17);
    assert("tool_calls"@.len() == 10);
    assert("content"@[0] == 'c');
    assert("content"@[1] == 'o');
    assert("choices"@[0] == 'c');
    assert("choices"@[1] == 'h');
    assert("refusal"@[0] == 'r');
    lemma_indexed_length(calls);
}

proof fn lemma_indexed_length(calls: Seq<Tree>)
    requires
        forall|j: int| 0 <= j < calls.len() ==> #[trigger] calls[j] is Object,
    ensures
        crate::stream_chat_to_responses::indexed_calls(calls).len() == calls.len(),
    decreases calls.len(),
{
    if calls.len() > 0 {
        let front = calls.drop_last();
        assert forall|j: int| 0 <= j < front.len() implies #[trigger] front[j] is Object by {
            assert(front[j] == calls[j]);
        }
        lemma_indexed_length(front);
        assert(calls[calls.len() - 1] is Object);
    }
}

} // verus!
