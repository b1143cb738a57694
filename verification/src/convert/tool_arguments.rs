//! Tool arguments and call ids.
use vstd::prelude::*;
use crate::json::{
    opt_tree, opt_value, parsed, rendered, text_at, Json, Object, Tree,
};
use crate::reasoning::is_blank;
use crate::text::trim;

verus! {

/// What the argument text of a tool call denotes, where the arguments are a
/// text.
pub open spec fn denoted_arguments(value: Option<Tree>) -> Option<Tree> {
    match value {
        Some(Tree::Str(s)) => parsed(s),
        _ => None,
    }
}

/// The canonical text of tool arguments: the compact text of what they denote.
/// Missing or blank arguments are an empty object, and a text that denotes
/// nothing stays as it is.
pub open spec fn canonical_arguments(value: Option<Tree>, denoted: Option<Tree>) -> Seq<char> {
    match value {
        None | Some(Tree::Null) => "{}"@,
        Some(Tree::Str(s)) => if trim(s).len() == 0 {
            "{}"@
        } else {
            match denoted {
                Some(t) => rendered(t),
                None => s,
            }
        },
        Some(other) => rendered(other),
    }
}

/// The canonical text of tool arguments, by what their text denotes.
pub fn canonicalize_denoted_arguments(value: Option<&Json>, denoted: Option<Json>) -> (r: String)
    ensures
        r@ == canonical_arguments(opt_tree(value), opt_value(denoted)),
{
    match value {
        None | Some(Json::Null) => "{}".to_owned(),
        Some(Json::Str(s)) => {
            if is_blank(s.as_str()) {
                "{}".to_owned()
            } else {
                match denoted {
                    Some(t) => canonical_json_string(&t),
                    None => s.clone(),
                }
            }
        },
        Some(other) => canonical_json_string(other),
    }
}

/// The canonical text of tool arguments.
pub fn canonicalize_tool_arguments(value: Option<&Json>) -> (r: String)
    ensures
        r@ == canonical_arguments(opt_tree(value), denoted_arguments(opt_tree(value))),
{
    match value {
        Some(Json::Str(s)) => canonicalize_denoted_arguments(value, Json::parse(s.as_str())),
        _ => canonicalize_denoted_arguments(value, None),
    }
}

/// The arguments of a custom tool call with the given input: a text as it is,
/// any other input as its compact text.
pub open spec fn custom_arguments(input: Option<Tree>) -> Seq<char> {
    match input {
        None | Some(Tree::Null) => Seq::empty(),
        Some(Tree::Str(s)) => s,
        Some(other) => rendered(other),
    }
}

/// The arguments of a custom tool call with the given input.
pub fn custom_tool_input_to_chat_arguments(input: Option<&Json>) -> (r: String)
    ensures
        r@ == custom_arguments(opt_tree(input)),
{
    match input {
        None | Some(Json::Null) => String::new(),
        Some(Json::Str(s)) => s.clone(),
        Some(other) => canonical_json_string(other),
    }
}

/// The compact text of a document.
pub fn canonical_json_string(value: &Json) -> (r: String)
    ensures
        r@ == rendered(value@),
{
    value.render()
}

/// The call id of an item: its `call_id`, or where that is no text its `id`; a
/// fresh one where that is missing or empty.
pub open spec fn call_id_of(item: Map<Seq<char>, Tree>, fresh: Seq<char>) -> Seq<char> {
    let own = match text_at(item, "call_id"@) {
        Some(s) => Some(s),
        None => text_at(item, "id"@),
    };
    match own {
        Some(s) if s.len() > 0 => s,
        _ => fresh,
    }
}

/// The call id of an item, with `fresh` for one that has none.
pub fn resolve_tool_call_id(obj: &Object, fresh: &str) -> (r: String)
    ensures
        r@ == call_id_of(obj@, fresh@),
{
    let own = match obj.get_str("call_id") {
        Some(s) => Some(s),
        None => obj.get_str("id"),
    };
    match own {
        Some(s) => {
            if s.is_empty() {
                fresh.to_owned()
            } else {
                s.to_owned()
            }
        },
        None => fresh.to_owned(),
    }
}

} // verus!
