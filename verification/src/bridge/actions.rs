//! What an interruption of the stream triggers.

use vstd::prelude::*;
use crate::ts::demux::{Degradation, Discontinuity};

verus! {

/// What a discontinuity or a degradation of the input triggers.
#[derive(Debug, Clone, Copy, PartialEq, Eq, Structural)]
pub struct EventAction {
    /// Reset the state that the audio decoders carry from frame to frame.
    pub reset_decoders: bool,
    /// Mark the media segmenter discontinuous.
    pub mark_segmenter_discontinuity: bool,
}

impl EventAction {
    /// Go on as before.
    pub fn none() -> (action: EventAction)
        ensures
            !action.reset_decoders,
            !action.mark_segmenter_discontinuity,
    {
        EventAction { reset_decoders: false, mark_segmenter_discontinuity: false }
    }

    /// Start afresh in both places.
    pub fn full_reset() -> (action: EventAction)
        ensures
            action.reset_decoders,
            action.mark_segmenter_discontinuity,
    {
        EventAction { reset_decoders: true, mark_segmenter_discontinuity: true }
    }
}

/// The action for a discontinuity of this kind.
///
/// - Signalled: a genuine splice that the source flagged itself. Audio on
///   either side is not one coded sequence.
/// - Timeline re-anchored: the drift may be barely over the threshold, and a
///   reset for each would be audible far more often than a real splice occurs,
///   so nothing is done.
/// - Budget exceeded: payload was dropped, which the decoders cannot know.
/// - Unknown: assume the worst.
pub fn discontinuity_action(kind: Discontinuity) -> (action: EventAction)
    ensures
        action.reset_decoders == (kind != Discontinuity::TimelineReanchored),
        action.mark_segmenter_discontinuity == (kind != Discontinuity::TimelineReanchored),
{
    match kind {
        Discontinuity::Signalled => EventAction::full_reset(),
        Discontinuity::TimelineReanchored => EventAction::none(),
        Discontinuity::BudgetExceeded { .. } => EventAction::full_reset(),
        Discontinuity::Unknown => EventAction::full_reset(),
    }
}

/// The action for a degradation of this kind.
///
/// - Transport error: one corrupt packet harms one frame at most.
/// - Continuity gap: packets were lost, so the state of the decoders cannot be
///   trusted. The timestamps of what survives are still right, so the
///   segmenter goes on.
/// - Unknown: as for lost packets.
pub fn degradation_action(kind: Degradation) -> (action: EventAction)
    ensures
        action == (EventAction {
            reset_decoders: kind != Degradation::TransportError,
            mark_segmenter_discontinuity: false,
        }),
{
    match kind {
        Degradation::TransportError => EventAction::none(),
        Degradation::ContinuityGap { .. } => EventAction {
            reset_decoders: true,
            mark_segmenter_discontinuity: false,
        },
        Degradation::Unknown => EventAction {
            reset_decoders: true,
            mark_segmenter_discontinuity: false,
        },
    }
}

} // verus!
