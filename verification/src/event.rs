//! The commentary event log: what the coach did to the picture, and when.

use vstd::prelude::*;

verus! {

/// What the coach did. The drawings and zooms themselves are replayed from
/// the log by the compositor; replaying the *timeline* only needs to know that
/// they happened.
#[derive(Debug, Clone, Copy, PartialEq, Eq, Structural)]
pub enum EventKind {
    /// Playback resumed, with the source position on screen at the keystroke.
    Play { source_time: i64 },
    /// Playback paused, with the source position on screen at the keystroke.
    Pause { source_time: i64 },
    /// The source position jumped by `delta` ticks.
    Skip { delta: i64 },
    /// A drawing.
    Stroke,
    /// Every drawing was wiped.
    ClearAll,
    /// The zoom or pan changed.
    Zoom,
    /// An event written by a later version.
    Unknown,
}

/// One entry of the log.
#[derive(Debug, Clone, Copy, PartialEq, Eq, Structural)]
pub struct CommentaryEvent {
    /// Ticks into the recording.
    pub record_time: i64,
    pub kind: EventKind,
}

impl CommentaryEvent {
    pub fn new(record_time: i64, kind: EventKind) -> (event: CommentaryEvent)
        ensures
            event == (CommentaryEvent { record_time, kind }),
    {
        CommentaryEvent { record_time, kind }
    }

    /// Whether this event changes the playback rate or moves the source, and
    /// so splits the timeline.
    pub open spec fn splits(self) -> bool {
        self.kind is Play || self.kind is Pause || self.kind is Skip
    }
}

/// Whether the log is in time order, as the recorder writes it.
pub open spec fn in_time_order(events: Seq<CommentaryEvent>) -> bool {
    forall|i: int, j: int|
        0 <= i <= j < events.len() ==> events[i].record_time <= events[j].record_time
}

} // verus!
