//! What becomes of a request that the provider refuses.
use vstd::prelude::*;
use crate::compat::{first_attempt, Attempt};
use crate::json::{member, Tree};
use crate::reasoning::CanonicalEffort;
use crate::text::{contains, lower};

verus! {

/// Whether an error mentions none of the members that a request can do without.
pub open spec fn mentions_none(error: Seq<char>) -> bool {
    let e = lower(error);
    &&& !contains(e, "top_p"@)
    &&& !contains(e, "include_usage"@)
    &&& !contains(e, "stream_options"@)
    &&& !contains(e, "parallel_tool_calls"@)
    &&& !contains(e, "tool_choice"@)
    &&& !contains(e, "reasoning_effort"@)
    &&& !contains(e, "thinking"@)
}

/// Whether two bodies agree but for one member.
pub open spec fn agree_but_for(
    a: Map<Seq<char>, Tree>,
    b: Map<Seq<char>, Tree>,
    name: Seq<char>,
) -> bool {
    forall|k: Seq<char>| k != name ==> #[trigger] member(a, k) == member(b, k)
}

/// A bad request whose error mentions `top_p` is sent again with a `top_p` just below one,
/// once; nothing else of the body changes.
pub proof fn refused_top_p_is_lowered(a: Attempt, error: Seq<char>)
    requires
        a.applied.len() == 0,
        member(a.body, "top_p"@) matches Some(v) && v != Tree::Null,
        contains(lower(error), "top_p"@),
    ensures
        ({
            let b = a.retried(error, 400);
            &&& b != a
            &&& b.applied.len() == 1
            &&& member(b.body, "top_p"@) == Some(Tree::Float("0.999"@))
            &&& agree_but_for(b.body, a.body, "top_p"@)
            &&& b.retried(error, 400).body["top_p"@] == b.body["top_p"@]
        }),
{
    reveal_strlit("top_p");
    reveal_strlit("stream_options");
    reveal_strlit("parallel_tool_calls");
    reveal_strlit("thinking");
    reveal_strlit("reasoning_effort");
    assert("top_p"@.len() == 5);
    assert("stream_options"@.len() == 14);
    assert("parallel_tool_calls"@.len() == 19);
    assert("thinking"@.len() == 8);
    assert("reasoning_effort"@.len() == 16);
    let b = a.retried(error, 400);
    assert(b.applied[0] == crate::compat::Reason::TopP.label_text());
}

/// A bad request whose error mentions `include_usage` is sent again without asking for
/// usage; nothing else of the body changes, nor any other stream option.
pub proof fn refused_usage_is_not_asked_for(
    a: Attempt,
    error: Seq<char>,
    options: Map<Seq<char>, Tree>,
)
    requires
        a.applied.len() == 0,
        member(a.body, "stream_options"@) == Some(Tree::Object(options)),
        member(options, "include_usage"@) == Some(Tree::Bool(true)),
        contains(lower(error), "include_usage"@),
        !contains(lower(error), "top_p"@),
    ensures
        ({
            let b = a.retried(error, 400);
            &&& b.applied.len() == 1
            &&& agree_but_for(b.body, a.body, "stream_options"@)
            &&& member(b.body, "stream_options"@) matches Some(Tree::Object(o))
            &&& member(o, "include_usage"@) == Some(Tree::Bool(false))
            &&& agree_but_for(o, options, "include_usage"@)
        }),
{
}

/// A bad request whose error mentions one member that the body can do without, and no other,
/// is sent again without that member; nothing else of the body changes.
pub proof fn refused_members_are_left_out(a: Attempt, error: Seq<char>, name: Seq<char>)
    requires
        a.applied.len() == 0,
        name == "stream_options"@ || name == "parallel_tool_calls"@,
        member(a.body, name) matches Some(v) && v != Tree::Null,
        contains(lower(error), name),
        !contains(lower(error), "top_p"@),
        !contains(lower(error), "include_usage"@),
        name != "stream_options"@ ==> !contains(lower(error), "stream_options"@),
    ensures
        ({
            let b = a.retried(error, 400);
            &&& b.applied.len() == 1
            &&& member(b.body, name) is None
            &&& agree_but_for(b.body, a.body, name)
        }),
{
    reveal_strlit("stream_options");
    reveal_strlit("parallel_tool_calls");
    assert("stream_options"@.len() == 14);
    assert("parallel_tool_calls"@.len() == 19);
}

/// A bad request whose error mentions the reasoning effort, and nothing else that the body
/// can do without, is sent again without any reasoning parameter, so that the provider
/// chooses.
pub proof fn refused_efforts_are_left_out(body: Map<Seq<char>, Tree>, error: Seq<char>)
    requires
        first_attempt(body).body.contains_key("reasoning_effort"@),
        contains(lower(error), "reasoning_effort"@),
        !contains(lower(error), "top_p"@),
        !contains(lower(error), "include_usage"@),
        !contains(lower(error), "stream_options"@),
        !contains(lower(error), "parallel_tool_calls"@),
        !contains(lower(error), "tool_choice"@),
    ensures
        ({
            let a = first_attempt(body);
            let b = a.retried(error, 400);
            &&& b.applied.len() == 1
            &&& member(b.body, "reasoning_effort"@) is None
            &&& member(b.body, "thinking"@) is None
            &&& forall|k: Seq<char>|
                k != "reasoning_effort"@ && k != "thinking"@ ==> #[trigger] member(b.body, k)
                    == member(body, k)
        }),
{
    reveal_strlit("thinking");
    reveal_strlit("reasoning_effort");
    assert("thinking"@.len() == 8);
    assert("reasoning_effort"@.len() == 16);
}

/// A request with a tool choice object, and no word on the effort, that is refused because
/// the model thinks is sent again with thinking turned off. So is one whose stream the
/// provider closed before it sent anything.
pub proof fn thinking_gives_way_to_the_tool_choice(
    a: Attempt,
    choice: Map<Seq<char>, Tree>,
    error: Seq<char>,
    status: int,
)
    requires
        a.applied.len() == 0,
        a.effort == CanonicalEffort::Unspecified,
        member(a.body, "tool_choice"@) == Some(Tree::Object(choice)),
        ({
            let e = lower(error);
            ||| {
                &&& status == 400
                &&& contains(e, "tool_choice"@)
                &&& contains(e, "thinking mode"@)
                &&& !contains(e, "top_p"@)
                &&& !contains(e, "include_usage"@)
                &&& !contains(e, "stream_options"@)
                &&& !contains(e, "parallel_tool_calls"@)
            }
            ||| {
                &&& status == 500 || status == 503
                &&& member(a.body, "stream"@) == Some(Tree::Bool(true))
                &&& contains(e, "empty_stream"@) || contains(
                    e,
                    "upstream stream closed before first payload"@,
                )
            }
        }),
    ensures
        ({
            let b = a.retried(error, status);
            &&& b.applied.len() == 1
            &&& member(b.body, "reasoning_effort"@) == Some(Tree::Str("none"@))
            &&& member(b.body, "thinking"@) is None
            &&& forall|k: Seq<char>|
                k != "reasoning_effort"@ && k != "thinking"@ ==> #[trigger] member(b.body, k)
                    == member(a.body, k)
        }),
{
    reveal_strlit("thinking");
    reveal_strlit("reasoning_effort");
    assert("thinking"@.len() == 8);
    assert("reasoning_effort"@.len() == 16);
}

/// A request is sent again only for an error that speaks of it: one that mentions none of
/// the members is final unless a stream came to nothing, and so is every error of a status
/// that speaks of neither a bad request nor a failing server.
pub proof fn other_errors_are_final(a: Attempt, error: Seq<char>, status: int)
    requires
        mentions_none(error) && status == 400 || status != 400 && status != 500 && status != 503,
    ensures
        a.retried(error, status) == a,
{
}

/// The first attempt says of the reasoning only what the model takes: an effort where one
/// was asked for, and never a `thinking` member. All else of the body goes as it is.
pub proof fn first_attempts_keep_the_body(body: Map<Seq<char>, Tree>)
    ensures
        ({
            let a = first_attempt(body);
            &&& a.applied.len() == 0
            &&& member(a.body, "thinking"@) is None
            &&& a.effort == CanonicalEffort::Unspecified ==> member(a.body, "reasoning_effort"@)
                is None
            &&& member(a.body, "reasoning_effort"@) is None || member(a.body, "reasoning_effort"@)
                == Some(Tree::Str(a.effort.label()))
            &&& forall|k: Seq<char>|
                k != "reasoning_effort"@ && k != "thinking"@ ==> #[trigger] member(a.body, k)
                    == member(body, k)
        }),
{
    reveal_strlit("thinking");
    reveal_strlit("reasoning_effort");
    assert("thinking"@.len() == 8);
    assert("reasoning_effort"@.len() == 16);
}

} // verus!
