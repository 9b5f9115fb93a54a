//! What the window asks for, and what is let through.

use vstd::prelude::*;

use crate::id::Id;
use crate::match_events::ReelEnd;
use crate::plan::ExportTarget;
use crate::project::{Quality, Resolution};
use crate::scoreboard_config::{MatchEventKind, ScoreboardConfig};
use crate::state::WhisperModel;
use crate::undo::ClipEdit;

verus! {

/// What the window asks for.
#[allow(inconsistent_fields)]
#[derive(Debug, PartialEq, Eq)]
pub enum Command {
    // Project.
    /// Open the project in a folder, creating one if it has none.
    OpenProject(String),
    /// Reopen the last successfully opened project, if it still exists. Never
    /// creates one.
    RestoreLastProject,
    RenameProject(String),
    // Sources.
    AddSource(String),
    RemoveSource(usize),
    MoveSource { from: usize, to: usize },
    RelinkSource(usize, String),
    // Clips. Each change is one undo step, and none is one if it changes
    // nothing.
    EditClip { id: Id, edit: ClipEdit },
    /// Move the clip to the trash, undoably.
    DeleteClip(Id),
    MoveClip { from: usize, to: usize },
    /// Order the clips by source, then start.
    SortClipsBySource,
    /// Pause the game video at the clip's start.
    JumpToClip(Id),
    Undo,
    Redo,
    // Match events. Tagging, deleting and trimming are undo steps of their own;
    // the setup is not.
    /// The position is the readout's at the keypress.
    TagMatchEvent { kind: MatchEventKind, source_index: usize, source_time: i64 },
    DeleteMatchEvent(Id),
    /// Put an end of a goal's span in the reel at a moment on a source, or back
    /// on the default.
    SetReelTrim { goal: Id, end: ReelEnd, at: Option<(usize, i64)> },
    SetScoreboard(ScoreboardConfig),
    // Transport. Positions are on the whole timeline unless they say
    // otherwise; `host_ns` is the moment of the input event.
    TogglePlay { host_ns: u64, source_time: Option<i64> },
    /// Skip by a number of ticks; presses in quick succession accumulate.
    Skip { delta: i64, host_ns: u64 },
    /// Live scrub preview: a keyframe seek, latest wins.
    ScrubMove { abs: i128 },
    /// Scrub release: one frame-accurate seek.
    ScrubRelease { abs: i128 },
    /// In millionths; kept only on `commit`.
    SetVolume { value: Option<i32>, commit: bool },
    // Recording.
    /// While idle, starts a recording; while recording, stops it.
    ToggleRecording,
    StopRecording,
    /// The zoom changed. Logged while recording, ignored otherwise.
    Zoom { host_ns: u64 },
    /// A drawing finished, at its last point. Logged while recording, ignored
    /// otherwise.
    Stroke { host_ns: u64 },
    /// Every drawing was wiped. Logged while recording, ignored otherwise.
    ClearAll { host_ns: u64 },
    /// The project's preferred camera; `None` is the system default.
    SetCamera(Option<String>),
    /// The project's preferred microphone, likewise.
    SetMic(Option<String>),
    // Export.
    Export { targets: Vec<ExportTarget>, resolution: Resolution, quality: Quality },
    CancelExport,
    // Transcription.
    Transcribe { clip_id: Id },
    CancelTranscription,
    SetTranscribeModel(WhisperModel),
    // Preview.
    OpenPreview(Id),
    ClosePreview,
    // Lifecycle.
    /// The window's graphics context has arrived.
    GlReady,
    Shutdown,
}

/// What may run while a recording does. Everything else waits, so a command
/// added later does too.
pub open spec fn runs_while_recording(command: Command) -> bool {
    match command {
        Command::TogglePlay { .. } => true,
        Command::Skip { .. } => true,
        Command::SetVolume { .. } => true,
        Command::Zoom { .. } => true,
        Command::Stroke { .. } => true,
        Command::ClearAll { .. } => true,
        Command::ToggleRecording => true,
        Command::StopRecording => true,
        Command::GlReady => true,
        // A metadata edit can't disturb a recording, and a field's focus-loss
        // commit arrives after the toggle that took its focus.
        Command::EditClip { .. } => true,
        // The match is tagged while scanning *or* recording.
        Command::TagMatchEvent { .. } => true,
        // Shutting down keeps the recording's clip first.
        Command::Shutdown => true,
        _ => false,
    }
}

/// The one guard while recording.
pub fn admitted(recording: bool, command: &Command) -> (let_through: bool)
    ensures
        let_through == (!recording || runs_while_recording(*command)),
{
    if !recording {
        return true;
    }
    matches!(
        command,
        Command::TogglePlay { .. }
        | Command::Skip { .. }
        | Command::SetVolume { .. }
        | Command::Zoom { .. }
        | Command::Stroke { .. }
        | Command::ClearAll { .. }
        | Command::ToggleRecording
        | Command::StopRecording
        | Command::GlReady
        | Command::EditClip { .. }
        | Command::TagMatchEvent { .. }
        | Command::Shutdown
    )
}

/// **A recording's project holds still**: while one runs, no command that
/// opens a project, changes its sources, its clip list, its undo history or
/// its setup is let through, nor one that starts an export, a transcription or
/// a preview.
pub proof fn law_a_recording_holds_the_project_still(command: Command)
    ensures
        command is OpenProject || command is RestoreLastProject || command is RenameProject
            || command is AddSource || command is RemoveSource || command is MoveSource
            || command is RelinkSource || command is DeleteClip || command is MoveClip
            || command is SortClipsBySource || command is Undo || command is Redo
            || command is DeleteMatchEvent || command is SetReelTrim || command is SetScoreboard
            || command is Export || command is Transcribe || command is OpenPreview ==> !runs_while_recording(command),
{
}

/// **A recording goes on being steered**: while one runs, the coach can play
/// and pause, skip, set the volume, zoom, draw and wipe, edit a clip's fields,
/// tag the match, and stop the recording or the program; nothing else gets
/// through.
pub proof fn law_a_recording_goes_on_being_steered(command: Command)
    ensures
        command is TogglePlay || command is Skip || command is SetVolume || command is Zoom
            || command is Stroke || command is ClearAll || command is ToggleRecording
            || command is StopRecording || command is GlReady || command is EditClip
            || command is TagMatchEvent || command is Shutdown <==> runs_while_recording(command),
{
}

// ---------------------------------------------------------------------------
// Deadlines.

/// The earlier of two deadlines, of those that are armed.
pub open spec fn earlier(a: Option<u64>, b: Option<u64>) -> Option<u64> {
    match (a, b) {
        (Some(x), Some(y)) => Some(
            if x <= y {
                x
            } else {
                y
            },
        ),
        (Some(x), None) => Some(x),
        (None, y) => y,
    }
}

/// How long to wait for an input, in milliseconds: until the earlier of the
/// skip debounce and the recording's start timeout, and not at all once that
/// has passed. With neither armed, for as long as it takes (`None`).
pub fn wait(skip: Option<u64>, start: Option<u64>, now: u64) -> (wait: Option<u64>)
    ensures
        wait == match earlier(skip, start) {
            Some(deadline) => Some(
                if deadline > now {
                    (deadline - now) as u64
                } else {
                    0
                },
            ),
            None => None,
        },
{
    let deadline: Option<u64> = match (skip, start) {
        (Some(x), Some(y)) => Some(
            if x <= y {
                x
            } else {
                y
            },
        ),
        (Some(x), None) => Some(x),
        (None, y) => y,
    };
    match deadline {
        Some(deadline) => Some(
            if deadline > now {
                deadline - now
            } else {
                0
            },
        ),
        None => None,
    }
}

/// Whether a deadline has passed.
pub fn due(deadline: Option<u64>, now: u64) -> (passed: bool)
    ensures
        passed == (deadline is Some && deadline->0 <= now),
{
    match deadline {
        Some(deadline) => deadline <= now,
        None => false,
    }
}

/// **No deadline is slept past**: waiting ends no later than either deadline
/// that is still ahead, and at once if one has passed.
pub proof fn law_no_deadline_is_slept_past(skip: Option<u64>, start: Option<u64>)
    ensures
        skip is Some ==> earlier(skip, start) is Some && earlier(skip, start)->0 <= skip->0,
        start is Some ==> earlier(skip, start) is Some && earlier(skip, start)->0 <= start->0,
        earlier(skip, start) is Some ==> earlier(skip, start) == skip || earlier(skip, start)
            == start,
{
}

/// **The next input is waited for until the nearer deadline**, and not at all
/// once that has passed; without one it is waited for as long as it takes.
pub proof fn law_waiting_ends_at_the_nearer_deadline(
    skip: Option<u64>,
    start: Option<u64>,
    now: u64,
    waited: Option<u64>,
)
    requires
        call_ensures(wait, (skip, start, now), waited),
    ensures
        waited is None <==> skip is None && start is None,
        waited matches Some(ms) ==> {
            &&& skip matches Some(due) ==> now + ms <= due || (ms == 0 && due <= now)
            &&& start matches Some(due) ==> now + ms <= due || (ms == 0 && due <= now)
            &&& ms > 0 ==> skip == Some((now + ms) as u64) || start == Some((now + ms) as u64)
            &&& ms == 0 ==> (skip is Some && skip->0 <= now) || (start is Some && start->0 <= now)
        },
{
}

} // verus!
