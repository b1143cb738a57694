//! Rules that every request passes: its id, its size, its key, and whether it has to
//! wait for its turn.
use vstd::prelude::*;
use crate::config::{number, parse_number};
use crate::error::BridgeError;
use crate::id_gen::{hex_text, new_request_id};
use crate::text::{
    after, begins, chars_of, in_list, listed, opt_text, same, starts, texts, trim, trimmed,
};

verus! {

/// Whether a text can be the id of a request: not empty, at most 128 characters, and all
/// of them visible ASCII.
pub open spec fn is_request_id(s: Seq<char>) -> bool {
    0 < s.len() <= 128 && forall|i: int| 0 <= i < s.len() ==> '!' <= #[trigger] s[i] <= '~'
}

/// The id that a request brings, where it can be one.
pub open spec fn brought_id(header: Option<Seq<char>>) -> Option<Seq<char>> {
    match header {
        Some(raw) => if is_request_id(trim(raw)) {
            Some(trim(raw))
        } else {
            None
        },
        None => None,
    }
}

/// The id that a request brings, where it can be one.
pub fn accepted_request_id(header: Option<&str>) -> (r: Option<String>)
    ensures
        crate::text::opt_string(r) == brought_id(opt_text(header)),
{
    let raw = match header {
        Some(raw) => raw,
        None => {
            return None;
        },
    };
    let candidate = trimmed(raw);
    let v = chars_of(candidate.as_str());
    if v.len() == 0 || v.len() > 128 {
        return None;
    }
    let mut i: usize = 0;
    while i < v.len()
        invariant
            i <= v@.len(),
            v@ == candidate@,
            forall|k: int| 0 <= k < i ==> '!' <= #[trigger] v@[k] <= '~',
            candidate@ == trim(raw@),
            header == Some(raw),
        decreases v.len() - i,
    {
        if v[i] < '!' || v[i] > '~' {
            assert(!is_request_id(candidate@));
            return None;
        }
        i += 1;
    }
    Some(candidate)
}

/// The id of a request: the one that it brings, or else a fresh one of 32 hexadecimal
/// digits.
pub fn resolve_request_id(header: Option<&str>) -> (r: String)
    ensures
        match brought_id(opt_text(header)) {
            Some(id) => r@ == id,
            None => hex_text(r@, 32),
        },
        is_request_id(r@),
{
    match accepted_request_id(header) {
        Some(id) => id,
        None => {
            let id = new_request_id();
            proof {
                lemma_hex_is_id(id@);
            }
            id
        },
    }
}

proof fn lemma_hex_is_id(s: Seq<char>)
    requires
        hex_text(s, 32),
    ensures
        is_request_id(s),
{
    assert forall|i: int| 0 <= i < s.len() implies '!' <= #[trigger] s[i] <= '~' by {
        assert(crate::id_gen::is_hex(s[i]));
    }
}

/// Whether a request waits for its turn: the routes to the model do, all others are
/// served at once.
pub open spec fn waits(path: Seq<char>) -> bool {
    path == "/v1/chat/completions"@ || path == "/v1/responses"@ || path
        == "/v1/responses/compact"@
}

/// Whether a request waits for its turn.
pub fn is_concurrency_limited(path: &str) -> (r: bool)
    ensures
        r == waits(path@),
{
    same(path, "/v1/chat/completions") || same(path, "/v1/responses") || same(
        path,
        "/v1/responses/compact",
    )
}

/// Whether the length that a request declares is too large. What declares no length is
/// measured when it comes.
pub fn declares_too_much(declared: Option<&str>, max: usize) -> (r: bool)
    ensures
        r == match declared {
            Some(s) => number(s@, usize::MAX as int) matches Some(n) && n > max,
            None => false,
        },
{
    match declared {
        Some(s) => match parse_number(s, usize::MAX as u64) {
            Some(n) => n > max as u64,
            None => false,
        },
        None => false,
    }
}

/// Whether a path needs a key.
pub open spec fn needs_key(path: Seq<char>) -> bool {
    begins(path, "/v1/"@)
}

/// Whether a request may pass: no keys are asked for, its path needs none, or it brings
/// one of them as a bearer token.
pub open spec fn may_pass(keys: Seq<Seq<char>>, path: Seq<char>, header: Option<Seq<char>>) -> bool {
    keys.len() == 0 || !needs_key(path) || (header matches Some(h) && begins(h, "Bearer "@)
        && listed(keys, h.skip(7)))
}

/// Let a request pass, or say why it may not.
pub fn authorize(keys: &Vec<String>, path: &str, header: Option<&str>) -> (r: Result<(), BridgeError>)
    ensures
        match r {
            Ok(_) => may_pass(texts(keys@), path@, opt_text(header)),
            Err(e) => {
                &&& !may_pass(texts(keys@), path@, opt_text(header))
                &&& e matches BridgeError::Unauthorized { message } && message@
                    == "Missing or invalid API key."@
            },
        },
{
    assert(texts(keys@).len() == keys@.len());
    if keys.len() == 0 || !starts(path, "/v1/") {
        return Ok(());
    }
    if let Some(h) = header {
        if starts(h, "Bearer ") {
            proof {
                reveal_strlit("Bearer ");
                assert("Bearer "@.len() == 7);
            }
            let key = after(h, 7);
            if in_list(keys, key.as_str()) {
                return Ok(());
            }
        }
    }
    Err(
        BridgeError::Unauthorized {
            message: "Missing or invalid API key.".to_owned(),
        },
    )
}

/// Health and metrics are open to all, whatever keys are asked for.
pub proof fn control_routes_need_no_key(keys: Seq<Seq<char>>, header: Option<Seq<char>>)
    ensures
        may_pass(keys, "/health"@, header),
        may_pass(keys, "/metrics"@, header),
        !waits("/health"@),
        !waits("/metrics"@),
{
    reveal_strlit("/health");
    reveal_strlit("/metrics");
    reveal_strlit("/v1/");
    reveal_strlit("/v1/chat/completions");
    reveal_strlit("/v1/responses");
    reveal_strlit("/v1/responses/compact");
    assert("/health"@.subrange(0, 4)[1] != "/v1/"@[1]);
    assert("/metrics"@.subrange(0, 4)[1] != "/v1/"@[1]);
    assert("/health"@.len() == 7);
    assert("/metrics"@.len() == 8);
    assert("/v1/chat/completions"@.len() == 20);
    assert("/v1/responses"@.len() == 13);
    assert("/v1/responses/compact"@.len() == 21);
}

} // verus!
