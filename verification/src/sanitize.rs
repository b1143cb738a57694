//! Text sanitization.
//!
//! Text, reasoning, call ids and tool names pass through here on their way to
//! the upstream or the client, so that no raw control character reaches either.
use vstd::prelude::*;
use crate::text::chars_of;

verus! {

/// Whether sanitization keeps `c`: every character from the space upwards, and
/// line feed, carriage return and tab.
pub open spec fn kept(c: char) -> bool {
    c >= ' ' || c == '\n' || c == '\r' || c == '\t'
}

/// `s` without the control characters that sanitization drops.
pub open spec fn sanitized(s: Seq<char>) -> Seq<char> {
    s.filter(|c: char| kept(c))
}

/// Remove control characters below the space, except line feed, carriage return
/// and tab.
pub fn sanitize_string(value: &str) -> (r: String)
    ensures
        r@ == sanitized(value@),
{
    let v = chars_of(value);
    let mut r = String::new();
    let mut i: usize = 0;
    assert(v@.take(0) =~= Seq::<char>::empty());
    reveal(Seq::filter);
    while i < v.len()
        invariant
            i <= v@.len(),
            v@ == value@,
            r@ == sanitized(v@.take(i as int)),
        decreases v.len() - i,
    {
        reveal(Seq::filter);
        let c = v[i];
        assert(v@.take(i as int + 1).drop_last() =~= v@.take(i as int));
        if c >= ' ' || c == '\n' || c == '\r' || c == '\t' {
            r.push(c);
        }
        i += 1;
    }
    assert(v@.take(i as int) =~= v@);
    r
}

/// Sanitization leaves a text without dropped characters as it is.
pub proof fn sanitizing_clean_text_changes_nothing(s: Seq<char>)
    requires
        forall|i: int| 0 <= i < s.len() ==> kept(s[i]),
    ensures
        sanitized(s) == s,
    decreases s.len(),
{
    reveal(Seq::filter);
    if s.len() > 0 {
        sanitizing_clean_text_changes_nothing(s.drop_last());
        assert(s.drop_last().push(s.last()) =~= s);
    } else {
        assert(sanitized(s) =~= s);
    }
}

/// A sanitized text holds no dropped character.
pub proof fn sanitized_text_is_clean(s: Seq<char>)
    ensures
        forall|i: int| 0 <= i < sanitized(s).len() ==> kept(#[trigger] sanitized(s)[i]),
    decreases s.len(),
{
    reveal(Seq::filter);
    if s.len() > 0 {
        sanitized_text_is_clean(s.drop_last());
    }
}

/// Sanitizing twice is sanitizing once.
pub proof fn sanitizing_is_idempotent(s: Seq<char>)
    ensures
        sanitized(sanitized(s)) == sanitized(s),
{
    sanitized_text_is_clean(s);
    sanitizing_clean_text_changes_nothing(sanitized(s));
}

} // verus!
