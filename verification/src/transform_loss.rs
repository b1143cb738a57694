//! Losses of the Responses to Chat conversion.
//!
//! The conversion is permissive: malformed, duplicate or unconvertible items
//! are dropped or downgraded rather than rejected. Each such case is recorded,
//! so that the degradation can be counted and logged.
use vstd::prelude::*;
use crate::text::{opt_string, opt_text};

verus! {

/// A category of loss during conversion.
#[derive(Debug, Clone, Copy, PartialEq, Eq, Structural)]
pub enum TransformLoss {
    /// The input item was no object.
    SkippedNonDictItem,
    /// The input item had an unrecognized `type`.
    SkippedUnknownItemType,
    /// The `input_image` item could not be converted.
    SkippedUnsupportedImage,
    /// The `input_audio` item could not be converted.
    SkippedUnsupportedAudio,
    /// The tool call or output is already in the message history.
    SkippedDuplicateToolCall,
    /// The tool output has no preceding tool call and became a user message.
    DowngradedOrphanToolOutput,
    /// The reasoning item had no text.
    DroppedEmptyReasoning,
    /// The message had an unrecognized role and became a user message.
    DowngradedInvalidRole,
}

impl TransformLoss {
    /// The stable name of the category.
    pub open spec fn label(self) -> Seq<char> {
        match self {
            TransformLoss::SkippedNonDictItem => "SkippedNonDictItem"@,
            TransformLoss::SkippedUnknownItemType => "SkippedUnknownItemType"@,
            TransformLoss::SkippedUnsupportedImage => "SkippedUnsupportedImage"@,
            TransformLoss::SkippedUnsupportedAudio => "SkippedUnsupportedAudio"@,
            TransformLoss::SkippedDuplicateToolCall => "SkippedDuplicateToolCall"@,
            TransformLoss::DowngradedOrphanToolOutput => "DowngradedOrphanToolOutput"@,
            TransformLoss::DroppedEmptyReasoning => "DroppedEmptyReasoning"@,
            TransformLoss::DowngradedInvalidRole => "DowngradedInvalidRole"@,
        }
    }

    /// The stable name of the category.
    pub fn name(self) -> (r: &'static str)
        ensures
            r@ == self.label(),
    {
        match self {
            TransformLoss::SkippedNonDictItem => "SkippedNonDictItem",
            TransformLoss::SkippedUnknownItemType => "SkippedUnknownItemType",
            TransformLoss::SkippedUnsupportedImage => "SkippedUnsupportedImage",
            TransformLoss::SkippedUnsupportedAudio => "SkippedUnsupportedAudio",
            TransformLoss::SkippedDuplicateToolCall => "SkippedDuplicateToolCall",
            TransformLoss::DowngradedOrphanToolOutput => "DowngradedOrphanToolOutput",
            TransformLoss::DroppedEmptyReasoning => "DroppedEmptyReasoning",
            TransformLoss::DowngradedInvalidRole => "DowngradedInvalidRole",
        }
    }
}

/// One loss, with the `type` of the item it befell where it has one.
#[derive(Debug)]
pub struct TransformLossEvent {
    pub kind: TransformLoss,
    pub item_type: Option<String>,
    pub reason: String,
}

/// The model of a loss.
pub ghost struct Loss {
    pub kind: TransformLoss,
    pub item_type: Option<Seq<char>>,
    pub reason: Seq<char>,
}

impl View for TransformLossEvent {
    type V = Loss;

    open spec fn view(&self) -> Loss {
        Loss { kind: self.kind, item_type: opt_string(self.item_type), reason: self.reason@ }
    }
}

/// The losses of one conversion, in the order in which they befell.
#[derive(Debug)]
pub struct TransformLossCollector {
    events: Vec<TransformLossEvent>,
}

impl View for TransformLossCollector {
    type V = Seq<Loss>;

    closed spec fn view(&self) -> Seq<Loss> {
        self.events@.map_values(|e: TransformLossEvent| e@)
    }
}

impl TransformLossCollector {
    /// A collector without losses.
    pub fn new() -> (r: TransformLossCollector)
        ensures
            r@ == Seq::<Loss>::empty(),
    {
        let r = TransformLossCollector { events: Vec::new() };
        assert(r@ =~= Seq::<Loss>::empty());
        r
    }

    /// Record one loss.
    pub fn record(&mut self, kind: TransformLoss, item_type: Option<&str>, reason: String)
        ensures
            final(self)@ == old(self)@.push(
                Loss { kind, item_type: opt_text(item_type), reason: reason@ },
            ),
    {
        let item_type: Option<String> = match item_type {
            Some(t) => Some(t.to_owned()),
            None => None,
        };
        let event = TransformLossEvent { kind, item_type, reason };
        self.events.push(event);
        assert(self@ =~= old(self)@.push(event@));
    }

    /// Whether nothing was lost.
    pub fn is_empty(&self) -> (r: bool)
        ensures
            r == (self@.len() == 0),
    {
        self.events.len() == 0
    }

    /// The losses, in order.
    pub fn events(&self) -> (r: &Vec<TransformLossEvent>)
        ensures
            r@.map_values(|e: TransformLossEvent| e@) == self@,
    {
        &self.events
    }
}

} // verus!
