//! Identifiers that the bridge mints.
//!
//! Every identifier a client sees is made here, so that the buffered and the
//! streamed rendering of a turn agree on all of them:
//!
//! * the response id (`resp_bridge_<hex>`), under which a turn is stored;
//! * the output item ids of a turn, derived from the response id: reasoning
//!   (`rs_<response id>`) and message (`msg_<response id>`);
//! * the output item ids of tool calls, derived from the call id: function
//!   (`fc_<call id>`) and custom tool (`ctc_<call id>`);
//! * synthetic call ids (`call_auto_<hex>`) for tool calls that carry none.
use vstd::prelude::*;
use crate::text::{cat, chars_of, text_of};

verus! {

/// Whether `c` is a digit of a lower-case hexadecimal text.
pub open spec fn is_hex(c: char) -> bool {
    '0' <= c <= '9' || 'a' <= c <= 'f'
}

/// Whether `s` is `n` lower-case hexadecimal digits.
pub open spec fn hex_text(s: Seq<char>, n: nat) -> bool {
    s.len() == n && forall|i: int| 0 <= i < s.len() ==> is_hex(#[trigger] s[i])
}

/// Whether `s` has the shape of a response id.
pub open spec fn is_response_id(s: Seq<char>) -> bool {
    exists|h: Seq<char>| #[trigger] hex_text(h, 12) && s == "resp_bridge_"@ + h
}

/// Whether `s` has the shape of a synthetic call id.
pub open spec fn is_synthetic_call_id(s: Seq<char>) -> bool {
    exists|h: Seq<char>| #[trigger] hex_text(h, 16) && s == "call_auto_"@ + h
}

/// The output item id of a response's reasoning item.
pub open spec fn reasoning_id(response_id: Seq<char>) -> Seq<char> {
    "rs_"@ + response_id
}

/// The output item id of a response's message item.
pub open spec fn message_id(response_id: Seq<char>) -> Seq<char> {
    "msg_"@ + response_id
}

/// The output item id of a function call.
pub open spec fn function_call_id(call_id: Seq<char>) -> Seq<char> {
    "fc_"@ + call_id
}

/// The output item id of a custom tool call.
pub open spec fn custom_tool_call_id(call_id: Seq<char>) -> Seq<char> {
    "ctc_"@ + call_id
}

/// `uuid::Uuid::new_v4` in its simple form: 32 lower-case hexadecimal digits.
/// Which digits is left to chance.
#[verifier::external_body]
fn random_hex() -> (r: String)
    ensures
        hex_text(r@, 32),
{
    uuid::Uuid::new_v4().simple().to_string()
}

/// A random identifier of 32 hexadecimal digits.
pub fn new_request_id() -> (r: String)
    ensures
        hex_text(r@, 32),
{
    random_hex()
}

/// The first `len` digits of a random identifier.
pub fn short_uuid(len: usize) -> (r: String)
    requires
        len <= 32,
    ensures
        hex_text(r@, len as nat),
{
    let v = chars_of(random_hex().as_str());
    text_of(&v, 0, len)
}

/// Mint a fresh response id.
pub fn new_response_id() -> (r: String)
    ensures
        is_response_id(r@),
{
    let h = short_uuid(12);
    let r = cat("resp_bridge_", h.as_str());
    assert(hex_text(h@, 12) && r@ == "resp_bridge_"@ + h@);
    r
}

/// The output item id of a response's reasoning item.
pub fn reasoning_item_id(response_id: &str) -> (r: String)
    ensures
        r@ == reasoning_id(response_id@),
{
    cat("rs_", response_id)
}

/// The output item id of a response's message item.
pub fn message_item_id(response_id: &str) -> (r: String)
    ensures
        r@ == message_id(response_id@),
{
    cat("msg_", response_id)
}

/// The output item id of a function call.
pub fn function_call_item_id(call_id: &str) -> (r: String)
    ensures
        r@ == function_call_id(call_id@),
{
    cat("fc_", call_id)
}

/// The output item id of a custom tool call.
pub fn custom_tool_call_item_id(call_id: &str) -> (r: String)
    ensures
        r@ == custom_tool_call_id(call_id@),
{
    cat("ctc_", call_id)
}

/// A call id for a tool call that carries none.
pub fn synthetic_tool_call_id() -> (r: String)
    ensures
        is_synthetic_call_id(r@),
{
    let h = short_uuid(16);
    let r = cat("call_auto_", h.as_str());
    assert(hex_text(h@, 16) && r@ == "call_auto_"@ + h@);
    r
}

/// One synthetic call id for each of `n` tool calls.
pub fn synthetic_tool_call_ids(n: usize) -> (r: Vec<String>)
    ensures
        r@.len() == n,
        forall|i: int| 0 <= i < n ==> is_synthetic_call_id(#[trigger] r@[i]@),
{
    let mut r: Vec<String> = Vec::new();
    let mut i: usize = 0;
    while i < n
        invariant
            i <= n,
            r@.len() == i,
            forall|j: int| 0 <= j < i ==> is_synthetic_call_id(#[trigger] r@[j]@),
        decreases n - i,
    {
        r.push(synthetic_tool_call_id());
        i += 1;
    }
    r
}

/// Different responses have different item ids, and a reasoning item never
/// shares its id with a message item.
pub proof fn item_ids_are_distinct(a: Seq<char>, b: Seq<char>)
    ensures
        reasoning_id(a) == reasoning_id(b) ==> a == b,
        message_id(a) == message_id(b) ==> a == b,
        reasoning_id(a) != message_id(b),
{
    reveal_strlit("rs_");
    reveal_strlit("msg_");
    assert(a =~= reasoning_id(a).skip(3));
    assert(b =~= reasoning_id(b).skip(3));
    assert(a =~= message_id(a).skip(4));
    assert(b =~= message_id(b).skip(4));
    assert(reasoning_id(a)[0] == 'r');
    assert(message_id(b)[0] == 'm');
}

/// Different calls have different item ids, and a function call never shares
/// its id with a custom tool call.
pub proof fn call_item_ids_are_distinct(a: Seq<char>, b: Seq<char>)
    ensures
        function_call_id(a) == function_call_id(b) ==> a == b,
        custom_tool_call_id(a) == custom_tool_call_id(b) ==> a == b,
        function_call_id(a) != custom_tool_call_id(b),
{
    reveal_strlit("fc_");
    reveal_strlit("ctc_");
    assert(a =~= function_call_id(a).skip(3));
    assert(b =~= function_call_id(b).skip(3));
    assert(a =~= custom_tool_call_id(a).skip(4));
    assert(b =~= custom_tool_call_id(b).skip(4));
    assert(function_call_id(a)[0] == 'f');
    assert(custom_tool_call_id(b)[0] == 'c');
}

} // verus!
