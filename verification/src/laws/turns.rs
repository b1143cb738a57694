//! What becomes of a turn that goes on from an earlier one.
use vstd::prelude::*;
use crate::config::UnsupportedToolPolicy;
use crate::convert::responses_to_chat::converted;
use crate::json::{member, Tree};
use crate::service::{messages_for, model_for, registry_for};
use crate::session_bridge::Past;
use crate::types::ResponsesRequest;

verus! {

/// A request that names a model is served by that model, whatever turn it goes on from; one
/// that names none is served by the model of that turn. The Chat body names it.
pub proof fn requests_choose_their_model(
    payload: ResponsesRequest,
    past: Option<Past>,
    policy: UnsupportedToolPolicy,
    fresh: Seq<Seq<char>>,
)
    ensures
        ({
            let model = model_for(payload, past);
            let body = converted(
                payload,
                model,
                messages_for(past),
                registry_for(payload, past, policy),
                fresh,
            ).0;
            &&& member(body, "model"@) == Some(Tree::Str(model))
            &&& payload.model matches Some(m) ==> crate::text::trim(m@).len() > 0 ==> model
                == crate::text::trim(m@)
            &&& (match payload.model {
                Some(m) => crate::text::trim(m@).len() == 0,
                None => true,
            }) ==> model == match past {
                Some(p) => crate::text::trim(p.model),
                None => Seq::empty(),
            }
        }),
{
    crate::text::lemma_trim_empty();
    let model = model_for(payload, past);
    let end = crate::convert::responses_to_chat::appended(
        crate::convert::responses_to_chat::instructed(
            messages_for(past),
            crate::json::opt_value(payload.instructions),
        ),
        crate::json::opt_value(payload.input),
        registry_for(payload, past, policy),
        fresh,
    );
    crate::convert::responses_to_chat::chat_bodies_are_well_formed(
        payload,
        model,
        crate::convert::message_normalization::collapsed(
            crate::convert::message_normalization::sanitized_messages(end.messages),
        ),
        registry_for(payload, past, policy),
    );
}

} // verus!
