//! Response semantics: status, finish reason, usage and request echo, shared by
//! both directions and by the streamed rendering.
use vstd::prelude::*;
use crate::json::{
    int_in, items_in, member, members_in, opt_tree, opt_value, text_in, Json, Object, Tree,
};
use crate::text::{opt_string, opt_text, same};

verus! {

/// The request fields that a response echoes.
pub open spec fn request_echo_fields() -> Seq<Seq<char>> {
    seq![
        "instructions"@,
        "max_output_tokens"@,
        "parallel_tool_calls"@,
        "previous_response_id"@,
        "reasoning"@,
        "temperature"@,
        "tool_choice"@,
        "tools"@,
        "top_p"@,
        "metadata"@,
    ]
}

/// The texts of a list of names.
pub open spec fn name_texts(names: Seq<&'static str>) -> Seq<Seq<char>> {
    names.map_values(|s: &'static str| s@)
}

/// `into` with the members of `from` named in `names` that are not null.
pub open spec fn copied(
    into: Map<Seq<char>, Tree>,
    from: Map<Seq<char>, Tree>,
    names: Seq<Seq<char>>,
) -> Map<Seq<char>, Tree>
    decreases names.len(),
{
    if names.len() == 0 {
        into
    } else {
        let rest = copied(into, from, names.drop_last());
        match member(from, names.last()) {
            Some(v) => if v == Tree::Null {
                rest
            } else {
                rest.insert(names.last(), v)
            },
            None => rest,
        }
    }
}

/// Copy the members of `from` named in `names` that are not null.
pub fn copy_members(into: &mut Object, from: &Object, names: &Vec<&'static str>)
    ensures
        final(into)@ == copied(old(into)@, from@, name_texts(names@)),
{
    let ghost start = into@;
    let mut i: usize = 0;
    while i < names.len()
        invariant
            i <= names@.len(),
            into@ == copied(start, from@, name_texts(names@).take(i as int)),
        decreases names.len() - i,
    {
        assert(name_texts(names@).take(i as int + 1).drop_last() =~= name_texts(names@).take(
            i as int,
        ));
        if let Some(v) = from.get(names[i]) {
            if !v.is_null() {
                into.insert(names[i], v.clone());
            }
        }
        i += 1;
    }
    assert(name_texts(names@).take(i as int) =~= name_texts(names@));
}

/// The names of the request fields that a response echoes.
pub fn echo_field_names() -> (r: Vec<&'static str>)
    ensures
        name_texts(r@) == request_echo_fields(),
{
    let r = vec![
        "instructions",
        "max_output_tokens",
        "parallel_tool_calls",
        "previous_response_id",
        "reasoning",
        "temperature",
        "tool_choice",
        "tools",
        "top_p",
        "metadata",
    ];
    assert(name_texts(r@) =~= request_echo_fields());
    r
}

/// Copy the echoed request fields into a response.
pub fn echo_request_fields(response: &mut Object, original: Option<&Object>)
    ensures
        final(response)@ == match original {
            Some(o) => copied(old(response)@, o@, request_echo_fields()),
            None => old(response)@,
        },
{
    if let Some(o) = original {
        copy_members(response, o, &echo_field_names());
    }
}

/// The top-level `status` of a response.
#[derive(Debug, Clone, Copy, PartialEq, Eq, Structural)]
pub enum ResponseStatus {
    InProgress,
    Completed,
    Incomplete,
    Failed,
}

impl ResponseStatus {
    /// The text of the status in the protocol.
    pub open spec fn label(self) -> Seq<char> {
        match self {
            ResponseStatus::InProgress => "in_progress"@,
            ResponseStatus::Completed => "completed"@,
            ResponseStatus::Incomplete => "incomplete"@,
            ResponseStatus::Failed => "failed"@,
        }
    }

    /// The text of the status in the protocol.
    pub fn as_str(self) -> (r: &'static str)
        ensures
            r@ == self.label(),
    {
        match self {
            ResponseStatus::InProgress => "in_progress",
            ResponseStatus::Completed => "completed",
            ResponseStatus::Incomplete => "incomplete",
            ResponseStatus::Failed => "failed",
        }
    }

    /// Whether a turn with this status may be stored for continuation: only one
    /// that completed or waits for tool outputs.
    pub open spec fn persistable(self) -> bool {
        self == ResponseStatus::Completed || self == ResponseStatus::InProgress
    }

    /// Whether a turn with this status may be stored for continuation.
    pub fn is_persistable(self) -> (r: bool)
        ensures
            r == self.persistable(),
    {
        match self {
            ResponseStatus::Completed | ResponseStatus::InProgress => true,
            ResponseStatus::Incomplete | ResponseStatus::Failed => false,
        }
    }
}

/// The status of a turn that ended with the given finish reason.
pub open spec fn status_of(finish_reason: Option<Seq<char>>) -> ResponseStatus {
    if finish_reason == Some("tool_calls"@) {
        ResponseStatus::InProgress
    } else if finish_reason == Some("length"@) || finish_reason == Some("content_filter"@) {
        ResponseStatus::Incomplete
    } else {
        ResponseStatus::Completed
    }
}

/// Why a turn that ended with the given finish reason is incomplete, if it is.
pub open spec fn incomplete_details(finish_reason: Option<Seq<char>>) -> Option<Tree> {
    if finish_reason == Some("length"@) {
        Some(Tree::Object(map!["reason"@ => Tree::Str("max_output_tokens"@)]))
    } else if finish_reason == Some("content_filter"@) {
        Some(Tree::Object(map!["reason"@ => Tree::Str("content_filter"@)]))
    } else {
        None
    }
}

/// Whether an optional text is the given one.
pub fn is_text(o: Option<&str>, t: &str) -> (r: bool)
    ensures
        r == (opt_text(o) == Some(t@)),
{
    match o {
        Some(s) => same(s, t),
        None => false,
    }
}

/// The status of a turn that ended with the given finish reason.
pub fn response_status_from_finish_reason(finish_reason: Option<&str>) -> (r: ResponseStatus)
    ensures
        r == status_of(opt_text(finish_reason)),
{
    if is_text(finish_reason, "tool_calls") {
        ResponseStatus::InProgress
    } else if is_text(finish_reason, "length") || is_text(finish_reason, "content_filter") {
        ResponseStatus::Incomplete
    } else {
        ResponseStatus::Completed
    }
}

/// Why a turn that ended with the given finish reason is incomplete, if it is.
pub fn incomplete_reason_from_finish_reason(finish_reason: Option<&str>) -> (r: Option<Json>)
    ensures
        opt_value(r) == incomplete_details(opt_text(finish_reason)),
{
    if is_text(finish_reason, "length") {
        Some(Json::Object(Object::new().with("reason", Json::text("max_output_tokens"))))
    } else if is_text(finish_reason, "content_filter") {
        Some(Json::Object(Object::new().with("reason", Json::text("content_filter"))))
    } else {
        None
    }
}

/// Whether a turn with the given status may be stored; one that never reached a
/// terminal status may not.
pub fn should_persist_response_status(status: Option<ResponseStatus>) -> (r: bool)
    ensures
        r == (status matches Some(s) && s.persistable()),
{
    match status {
        Some(s) => s.is_persistable(),
        None => false,
    }
}

/// Whether a turn that ended with the given finish reason may be stored.
pub fn should_persist_finish_reason(finish_reason: Option<&str>) -> (r: bool)
    ensures
        r == status_of(opt_text(finish_reason)).persistable(),
{
    response_status_from_finish_reason(finish_reason).is_persistable()
}

/// The first choice of a Chat body.
pub open spec fn first_choice(body: Tree) -> Option<Tree> {
    match items_in(body.at("choices"@)) {
        Some(s) => if s.len() > 0 {
            Some(s[0])
        } else {
            None
        },
        None => None,
    }
}

/// The member `k` of an optional document.
pub open spec fn at_opt(o: Option<Tree>, k: Seq<char>) -> Option<Tree> {
    match o {
        Some(t) => t.at(k),
        None => None,
    }
}

/// The first choice of a Chat body.
pub fn first_choice_of(chat_body: &Json) -> (r: Option<&Json>)
    ensures
        opt_tree(r) == first_choice(chat_body@),
{
    match chat_body.get_array("choices") {
        Some(items) => {
            if items.len() > 0 {
                Some(&items[0])
            } else {
                None
            }
        },
        None => None,
    }
}

/// The finish reason of the first choice of a Chat body.
pub fn chat_finish_reason(chat_body: &Json) -> (r: Option<String>)
    ensures
        opt_string(r) == text_in(at_opt(first_choice(chat_body@), "finish_reason"@)),
{
    match first_choice_of(chat_body) {
        Some(c) => match c.get_str("finish_reason") {
            Some(s) => Some(s.to_owned()),
            None => None,
        },
        None => None,
    }
}

/// A count of a usage object; zero where it is missing or no integer.
pub open spec fn count_at(usage: Map<Seq<char>, Tree>, k: Seq<char>) -> int {
    match int_in(member(usage, k)) {
        Some(n) => n,
        None => 0,
    }
}

/// The larger of two counts.
pub open spec fn larger(a: int, b: int) -> int {
    if a >= b {
        a
    } else {
        b
    }
}

/// The 64-bit integer that a sum of two such integers wraps to.
pub open spec fn wrapped(n: int) -> int {
    if n > i64::MAX {
        n - 0x1_0000_0000_0000_0000
    } else if n < i64::MIN {
        n + 0x1_0000_0000_0000_0000
    } else {
        n
    }
}

/// `result` with the member `name` set to the first of `usage`'s members `k1`
/// and `k2` that is there, unless that is null.
pub open spec fn with_details(
    result: Map<Seq<char>, Tree>,
    usage: Map<Seq<char>, Tree>,
    k1: Seq<char>,
    k2: Seq<char>,
) -> Map<Seq<char>, Tree> {
    let found = if usage.contains_key(k1) {
        member(usage, k1)
    } else {
        member(usage, k2)
    };
    match found {
        Some(d) => if d == Tree::Null {
            result
        } else {
            result.insert(k1, d)
        },
        None => result,
    }
}

/// The token counts of a usage object: each the larger of its two names, and a
/// total that is never below their sum.
pub open spec fn usage_counts(usage: Map<Seq<char>, Tree>) -> (int, int, int) {
    let input = larger(count_at(usage, "input_tokens"@), count_at(usage, "prompt_tokens"@));
    let output = larger(count_at(usage, "output_tokens"@), count_at(usage, "completion_tokens"@));
    (input, output, larger(count_at(usage, "total_tokens"@), wrapped(input + output)))
}

/// A usage object with only its three counts.
pub open spec fn usage_object(input: int, output: int, total: int) -> Map<Seq<char>, Tree> {
    map![
        "input_tokens"@ => Tree::Int(input),
        "output_tokens"@ => Tree::Int(output),
        "total_tokens"@ => Tree::Int(total),
    ]
}

/// The Responses usage of a Chat usage.
pub open spec fn mapped_usage(usage: Option<Tree>) -> Tree {
    match members_in(usage) {
        Some(m) => {
            let (input, output, total) = usage_counts(m);
            let counts = usage_object(input, output, total);
            let with_input = with_details(
                counts,
                m,
                "input_tokens_details"@,
                "prompt_tokens_details"@,
            );
            Tree::Object(
                with_details(
                    with_input,
                    m,
                    "output_tokens_details"@,
                    "completion_tokens_details"@,
                ),
            )
        },
        None => Tree::Object(usage_object(0, 0, 0)),
    }
}

fn count_of(usage: &Object, k: &str) -> (r: i64)
    ensures
        r == count_at(usage@, k@),
{
    match usage.get(k) {
        Some(v) => match v.as_i64() {
            Some(n) => n,
            None => 0,
        },
        None => 0,
    }
}

fn larger_of(a: i64, b: i64) -> (r: i64)
    ensures
        r == larger(a as int, b as int),
{
    if a >= b {
        a
    } else {
        b
    }
}

fn add_details(result: &mut Object, usage: &Object, k1: &str, k2: &str)
    ensures
        final(result)@ == with_details(old(result)@, usage@, k1@, k2@),
{
    let found = if usage.has(k1) {
        usage.get(k1)
    } else {
        usage.get(k2)
    };
    if let Some(d) = found {
        if !d.is_null() {
            result.insert(k1, d.clone());
        }
    }
}

/// A usage object with only its three counts.
pub fn usage_of(input: i64, output: i64, total: i64) -> (r: Object)
    ensures
        r@ == usage_object(input as int, output as int, total as int),
{
    Object::new().with("input_tokens", Json::integer(input)).with(
        "output_tokens",
        Json::integer(output),
    ).with("total_tokens", Json::integer(total))
}

/// The Responses usage of a Chat usage.
pub fn map_chat_usage(usage: Option<&Json>) -> (r: Json)
    ensures
        r@ == mapped_usage(opt_tree(usage)),
{
    let found = match usage {
        Some(u) => u.as_object(),
        None => None,
    };
    match found {
        Some(u) => {
            let input = larger_of(count_of(u, "input_tokens"), count_of(u, "prompt_tokens"));
            let output = larger_of(count_of(u, "output_tokens"), count_of(u, "completion_tokens"));
            let total = larger_of(count_of(u, "total_tokens"), input.wrapping_add(output));
            let mut result = usage_of(input, output, total);
            add_details(&mut result, u, "input_tokens_details", "prompt_tokens_details");
            add_details(&mut result, u, "output_tokens_details", "completion_tokens_details");
            Json::Object(result)
        },
        None => Json::Object(usage_of(0, 0, 0)),
    }
}

/// Only the finish reasons that leave a turn incomplete keep it from being
/// stored, and exactly those carry details.
pub proof fn incomplete_turns_are_not_persisted(finish_reason: Option<Seq<char>>)
    ensures
        status_of(finish_reason).persistable() <==> incomplete_details(finish_reason) is None,
        status_of(finish_reason) == ResponseStatus::Incomplete <==> incomplete_details(
            finish_reason,
        ) is Some,
        status_of(finish_reason) != ResponseStatus::Failed,
{
    reveal_strlit("tool_calls");
    reveal_strlit("length");
    reveal_strlit("content_filter");
    assert("tool_calls"@.len() == 10 && "length"@.len() == 6 && "content_filter"@.len() == 14);
}

/// Where the two sums do not leave 64 bits, the total is at least their sum.
pub proof fn usage_total_covers_both_counts(usage: Map<Seq<char>, Tree>)
    ensures
        ({
            let (input, output, total) = usage_counts(usage);
            i64::MIN <= input + output <= i64::MAX ==> total >= input + output
        }),
{
}

/// Copying members leaves all others alone.
pub proof fn lemma_copied_other(
    into: Map<Seq<char>, Tree>,
    from: Map<Seq<char>, Tree>,
    names: Seq<Seq<char>>,
    k: Seq<char>,
)
    requires
        forall|i: int| 0 <= i < names.len() ==> #[trigger] names[i] != k,
    ensures
        member(copied(into, from, names), k) == member(into, k),
    decreases names.len(),
{
    if names.len() > 0 {
        let rest = names.drop_last();
        assert(names[names.len() - 1] != k);
        assert forall|i: int| 0 <= i < rest.len() implies #[trigger] rest[i] != k by {
            assert(rest[i] == names[i]);
        }
        lemma_copied_other(into, from, rest, k);
    }
}

} // verus!
