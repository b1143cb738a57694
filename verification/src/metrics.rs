//! Labels under which the bridge counts what it does.
use vstd::prelude::*;

verus! {

/// The label of a request that is streamed, or of one that comes as a whole.
pub fn stream_label(stream: bool) -> (r: &'static str)
    ensures
        r@ == if stream {
            "stream"@
        } else {
            "body"@
        },
{
    if stream {
        "stream"
    } else {
        "body"
    }
}

} // verus!
