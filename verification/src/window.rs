//! What the window knows, from the events it hears, and what it shows thirty
//! times a second.

use vstd::prelude::*;

use crate::drawing;
use crate::drawing::LiveDrawings;
use crate::export_run;
use crate::export_run::{find_clip, ExportRun, ExportTargetRun};
use crate::format::{format_hms, format_hms_tenths, sentence};
use crate::id::Id;
use crate::project;
use crate::project::Project;
use crate::rows;
use crate::rows::{clip_name, passes_filter, report, Queue, RunReport, Stage};
use crate::time;
use crate::transport;
use crate::user_error::UserError;

verus! {

/// How long a notice stays up: six seconds, in milliseconds.
pub const NOTICE_MS: u64 = 6_000;

/// How long the self-view stays up without a new frame: one second. It is
/// hidden when its frames stop, rather than frozen on the last one.
pub const SELF_VIEW_QUIET_MS: u64 = 1_000;

/// A full level bar: sixty decibels, in thousandths.
pub const FULL_LEVEL: i32 = 60_000;

/// Where a recording is.
#[derive(Debug, Clone, Copy, PartialEq, Eq, Structural)]
pub enum RecordingStatus {
    Idle,
    Starting,
    /// Since this moment, in nanoseconds.
    Recording { t0_ns: u64 },
}

/// What the window hears.
#[derive(Debug, PartialEq, Eq)]
pub enum Event {
    /// A project was opened or created.
    ProjectOpened,
    /// The open project changed, or which of its sources are missing did.
    ProjectChanged,
    /// The source the player holds or is heading for, and while a seek is
    /// outstanding its target.
    Position { source_index: usize, target: Option<i128> },
    Playing(bool),
    Recording(RecordingStatus),
    /// The microphone's peak, in thousandths of a decibel; `None` if it isn't
    /// a number.
    Level(Option<i32>),
    Export(ExportRun),
    /// The clip being previewed, or `None` once the preview closed.
    Preview(Option<Id>),
    Transcription(Queue),
    Select(Id),
    Error(UserError),
}

/// What a [`Window`] knows, as mathematical values.
#[verifier::ext_equal]
pub struct WindowView {
    pub source_index: usize,
    pub target: Option<i128>,
    pub last_at: i64,
    pub playing: bool,
    pub recording: RecordingStatus,
    pub elapsed: int,
    pub level: int,
    pub level_seen: bool,
    pub self_view_at: Option<u64>,
    pub drawings: drawing::Drawings,
    pub notice: Seq<char>,
    pub notice_until: Option<u64>,
    pub error: Seq<char>,
    pub selected: Option<Id>,
    pub tag_filter: Seq<char>,
    pub volume: i32,
    pub previewing: Option<Id>,
    pub previewing_name: Seq<char>,
    pub preview_duration: Option<i64>,
    pub run: Option<ExportRun>,
    pub queue: Queue,
    pub since: Option<u64>,
}

/// What kind of work a transcription is at: on which clip, and whether it is
/// downloading.
pub open spec fn work_of(running: Option<(Id, Stage)>) -> Option<(Id, bool)> {
    match running {
        Some((id, stage)) => Some((id, stage is Downloading)),
        None => None,
    }
}

/// No transcription.
pub open spec fn is_empty_queue(queue: Queue) -> bool {
    &&& queue.queued@.len() == 0
    &&& queue.running is None
    &&& queue.finished is None
}

/// A level bar's height: −60 to 0 dB across it, and nothing for a level that
/// isn't a number.
pub open spec fn level_of(peak: Option<i32>) -> int {
    match peak {
        Some(db) => time::clamped(db + FULL_LEVEL, 0, FULL_LEVEL as int),
        None => 0,
    }
}

/// A clip of the open project.
pub open spec fn open_clip(open: Option<&Project>, id: Id) -> Option<project::Clip> {
    match open {
        Some(p) => match export_run::clip_index(p.clips@, id) {
            Some(i) => Some(p.clips@[i]),
            None => None,
        },
        None => None,
    }
}

impl WindowView {
    /// With the selection dropped if its clip is gone.
    pub open spec fn reselected(self, open: Option<&Project>) -> WindowView {
        if self.selected is Some && open is Some && open_clip(open, self.selected->0) is None {
            WindowView { selected: None, ..self }
        } else {
            self
        }
    }

    /// With a notice up.
    pub open spec fn noticed(self, said: Seq<char>, now: u64) -> WindowView {
        WindowView {
            notice: said,
            notice_until: Some(time::smaller(now + NOTICE_MS, u64::MAX as int) as u64),
            ..self
        }
    }

    /// With an error in the dialog, unless one is up already: one failure can
    /// report several, and the first says what went wrong.
    pub open spec fn failed(self, why: Seq<char>) -> WindowView {
        if self.error.len() == 0 {
            WindowView { error: crate::format::capitalized(why), ..self }
        } else {
            self
        }
    }

    /// After a project was opened, but for the transcription, which starts
    /// afresh.
    pub open spec fn opened(self, open: Option<&Project>) -> WindowView {
        WindowView {
            source_index: 0,
            target: None,
            last_at: 0,
            selected: None,
            tag_filter: seq![],
            run: None,
            since: None,
            volume: match open {
                Some(p) => p.preferences.scan_volume,
                None => self.volume,
            },
            ..self
        }
    }

    /// After a recording's phase changed. Drawings belong to one recording, so
    /// every change wipes them.
    pub open spec fn recorded(self, status: RecordingStatus) -> WindowView {
        WindowView {
            drawings: drawing::Drawings::none(),
            recording: status,
            self_view_at: if status is Idle {
                None
            } else {
                self.self_view_at
            },
            level: if status is Starting {
                0
            } else {
                self.level
            },
            level_seen: if status is Starting {
                false
            } else {
                self.level_seen
            },
            elapsed: if status is Starting {
                0
            } else {
                self.elapsed
            },
            ..self
        }
    }

    /// After a run's update.
    pub open spec fn ran(self, run: ExportRun, now: u64) -> WindowView {
        let shown = WindowView { run: Some(run), ..self };
        if run.going() {
            shown
        } else if rows::first_failure(run.targets@) is Some {
            shown.failed("export failed: "@ + rows::first_failure(run.targets@)->0)
        } else if rows::written(run.targets@) > 0 {
            shown.noticed(rows::exported_text(rows::written(run.targets@)), now)
        } else {
            shown
        }
    }

    /// After a clip was to be selected. A tag filter that hides it is cleared,
    /// so it is listed too.
    pub open spec fn chose(self, open: Option<&Project>, id: Id) -> WindowView {
        let hidden = self.tag_filter.len() > 0 && match open_clip(open, id) {
            Some(clip) => !rows::passes(clip, self.tag_filter),
            None => false,
        };
        WindowView {
            selected: Some(id),
            tag_filter: if hidden {
                seq![]
            } else {
                self.tag_filter
            },
            ..self
        }
    }

    /// After a preview opened or closed. The transport runs over the clip while
    /// one is open.
    pub open spec fn previewed(self, open: Option<&Project>, id: Option<Id>) -> WindowView {
        let clip = match id {
            Some(id) => open_clip(open, id),
            None => None,
        };
        WindowView {
            previewing: id,
            previewing_name: match clip {
                Some(c) => rows::shown_name(c.name@),
                None => seq![],
            },
            preview_duration: match clip {
                Some(c) => Some(c.recording_duration),
                None => None,
            },
            ..self
        }
    }

    /// After the transcription was published. A different clip restarts the
    /// clock, and so does a different kind of work; a new percent does not.
    pub open spec fn transcribed(self, queue: Queue, now: u64) -> WindowView {
        WindowView {
            queue,
            since: if work_of(self.queue.running) == work_of(queue.running) {
                self.since
            } else if queue.running is Some {
                Some(now)
            } else {
                None
            },
            ..self
        }
    }

    /// After an error or a notice. A notice never takes the dialog, which
    /// would swallow a recording's keys.
    pub open spec fn told(self, error: UserError, now: u64) -> WindowView {
        if error.notice() {
            self.noticed(crate::format::capitalized(error.sentence()), now)
        } else {
            self.failed(error.sentence())
        }
    }

    /// After an event other than a project's opening. `open` is the project as
    /// it is now.
    pub open spec fn heard(self, event: Event, open: Option<&Project>, now: u64) -> WindowView {
        match event {
            Event::ProjectOpened => self.opened(open),
            Event::ProjectChanged => self.reselected(open),
            Event::Position { source_index, target } => WindowView {
                source_index,
                target,
                ..self
            },
            Event::Playing(playing) => WindowView { playing, ..self },
            Event::Recording(status) => self.recorded(status),
            Event::Level(peak) => WindowView { level: level_of(peak), level_seen: true, ..self },
            Event::Export(run) => self.ran(run, now),
            Event::Preview(id) => self.previewed(open, id),
            Event::Transcription(queue) => self.transcribed(queue, now),
            Event::Select(id) => self.chose(open, id),
            Event::Error(error) => self.told(error, now),
        }
    }
}

/// What the window knows.
#[derive(Debug, PartialEq, Eq)]
pub struct Window {
    /// The source the player holds (or is loading).
    source_index: usize,
    /// While a seek is outstanding, where it's headed.
    target: Option<i128>,
    /// The last position heard of, in ticks into the source. Kept when a
    /// query fails.
    last_at: i64,
    playing: bool,
    recording: RecordingStatus,
    /// How long the recording has run, in ticks.
    elapsed: i128,
    level: i32,
    level_seen: bool,
    /// When the self-view's latest frame arrived, in milliseconds.
    self_view_at: Option<u64>,
    drawings: LiveDrawings,
    notice: String,
    /// When the notice clears, in milliseconds.
    notice_until: Option<u64>,
    /// The error dialog's text; empty for none.
    error: String,
    selected: Option<Id>,
    tag_filter: String,
    volume: i32,
    previewing: Option<Id>,
    previewing_name: String,
    /// The previewed clip's duration while a preview is open.
    preview_duration: Option<i64>,
    run: Option<ExportRun>,
    queue: Queue,
    /// When the running transcription was first seen at its current work.
    since: Option<u64>,
}

impl View for Window {
    type V = WindowView;

    closed spec fn view(&self) -> WindowView {
        WindowView {
            source_index: self.source_index,
            target: self.target,
            last_at: self.last_at,
            playing: self.playing,
            recording: self.recording,
            elapsed: self.elapsed as int,
            level: self.level as int,
            level_seen: self.level_seen,
            self_view_at: self.self_view_at,
            drawings: self.drawings@,
            notice: self.notice@,
            notice_until: self.notice_until,
            error: self.error@,
            selected: self.selected,
            tag_filter: self.tag_filter@,
            volume: self.volume,
            previewing: self.previewing,
            previewing_name: self.previewing_name@,
            preview_duration: self.preview_duration,
            run: self.run,
            queue: self.queue,
            since: self.since,
        }
    }
}

fn empty_queue() -> (queue: Queue)
    ensures
        is_empty_queue(queue),
{
    Queue { queued: Vec::new(), running: None, finished: None }
}

fn same_work(a: &Queue, b: &Queue) -> (same: bool)
    ensures
        same == (work_of(a.running) == work_of(b.running)),
{
    match (a.running, b.running) {
        (Some((x, s)), Some((y, t))) => {
            let x_down = matches!(s, Stage::Downloading(_));
            let y_down = matches!(t, Stage::Downloading(_));
            x == y && x_down == y_down
        },
        (None, None) => true,
        _ => false,
    }
}

impl Default for Window {
    fn default() -> (window: Window)
        ensures
            window@.source_index == 0,
            window@.target is None,
            window@.last_at == 0,
            !window@.playing,
            window@.recording == RecordingStatus::Idle,
            window@.elapsed == 0,
            window@.level == 0,
            !window@.level_seen,
            window@.self_view_at is None,
            window@.drawings == drawing::Drawings::none(),
            window@.notice.len() == 0,
            window@.notice_until is None,
            window@.error.len() == 0,
            window@.selected is None,
            window@.tag_filter.len() == 0,
            window@.volume == project::FULL_VOLUME,
            window@.previewing is None,
            window@.previewing_name.len() == 0,
            window@.preview_duration is None,
            window@.run is None,
            is_empty_queue(window@.queue),
            window@.since is None,
    {
        Window {
            source_index: 0,
            target: None,
            last_at: 0,
            playing: false,
            recording: RecordingStatus::Idle,
            elapsed: 0,
            level: 0,
            level_seen: false,
            self_view_at: None,
            drawings: LiveDrawings::default(),
            notice: String::new(),
            notice_until: None,
            error: String::new(),
            selected: None,
            tag_filter: String::new(),
            volume: project::FULL_VOLUME,
            previewing: None,
            previewing_name: String::new(),
            preview_duration: None,
            run: None,
            queue: empty_queue(),
            since: None,
        }
    }
}

/// What the readout is made from, thirty times a second.
#[derive(Debug, Clone, Copy, PartialEq, Eq, Structural)]
pub struct Tick {
    pub now_ms: u64,
    pub now_ns: u64,
    /// Whether a recording is under way, so that its self-view may show.
    pub recording: bool,
    /// Whether the picture has a place on the window yet, and whether that
    /// changed since the drawings were last drawn.
    pub placed: bool,
    pub resized: bool,
    /// The scrubber's own value while it is dragged.
    pub scrubbing: Option<i128>,
    /// Where the preview is, in ticks into its clip.
    pub preview_at: i64,
    /// Where the player is, in ticks into its source, if it says.
    pub position: Option<i64>,
}

/// The transport, as the window shows it.
#[derive(Debug, PartialEq, Eq)]
pub struct Readout {
    /// How long the transport's scale is, in ticks: the previewed clip's
    /// while a preview is open, and the whole timeline's otherwise.
    pub total: i128,
    pub current: i128,
    /// `"0:05 / 1:30:00"`.
    pub text: String,
    /// The moment the Match panel's live line is read at. `None` without a
    /// scoreboard, and while a preview is open: the line then stands still,
    /// since the transport is record time within one clip.
    pub match_at: Option<i128>,
}

/// What a tick changes on the window.
#[derive(Debug, PartialEq, Eq)]
pub struct Ticked {
    pub self_view_shown: bool,
    /// The drawings have to be drawn again.
    pub redraw: bool,
    /// The transcript row has to be shown again: its readout is a clock, so it
    /// moves with time and not with what it hears.
    pub transcribing: bool,
    /// The transport; `None` without a project.
    pub readout: Option<Readout>,
}

/// Where the game video is on the whole timeline, as the readout has it: an
/// outstanding seek's target, else the player's position on the source it
/// holds, or the last one heard of.
pub open spec fn scanned(w: WindowView, open: &Project, position: Option<i64>) -> int {
    match w.target {
        Some(target) => target as int,
        None => if open.source_videos@.len() == 0 {
            0
        } else {
            open.offset(w.source_index as int) + match position {
                Some(at) => at,
                None => w.last_at,
            }
        },
    }
}

/// The last position heard of, after looking where the game video is.
pub open spec fn heard_at(w: WindowView, open: &Project, position: Option<i64>) -> i64 {
    if w.target is None && open.source_videos@.len() > 0 && position is Some {
        position->0
    } else {
        w.last_at
    }
}

impl WindowView {
    /// How long the transport's scale is.
    pub open spec fn scale(self, open: &Project) -> int {
        match self.preview_duration {
            Some(duration) => duration as int,
            None => project::laid_end_to_end(open.source_videos@),
        }
    }

    /// Where the transport is.
    pub open spec fn place(self, open: &Project, tick: Tick) -> int {
        match tick.scrubbing {
            Some(at) => at as int,
            None => {
                let at = if self.preview_duration is Some {
                    tick.preview_at as int
                } else {
                    scanned(self, open, tick.position)
                };
                time::clamped(at, 0, time::larger(self.scale(open), 0))
            },
        }
    }

    /// The readout. Tenths while paused, so a frame step shows; whole seconds
    /// while playing, so the digits don't flicker.
    pub open spec fn reads(self, open: &Project, tick: Tick) -> Seq<char> {
        let current = self.place(open, tick);
        (if self.playing {
            crate::format::hms(current)
        } else {
            crate::format::hms_tenths(current)
        }) + " / "@ + crate::format::hms(self.scale(open))
    }

    /// After a tick.
    pub open spec fn ticked(self, open: Option<&Project>, tick: Tick) -> WindowView {
        let over = self.notice_until is Some && self.notice_until->0 <= tick.now_ms;
        WindowView {
            drawings: if tick.placed {
                self.drawings.expired(tick.now_ns)
            } else {
                self.drawings
            },
            elapsed: match self.recording {
                RecordingStatus::Recording { t0_ns } => if tick.now_ns > t0_ns {
                    (tick.now_ns - t0_ns) * 3
                } else {
                    0
                },
                _ => self.elapsed,
            },
            notice: if over {
                seq![]
            } else {
                self.notice
            },
            notice_until: if over {
                None
            } else {
                self.notice_until
            },
            last_at: if open is Some && tick.scrubbing is None && self.preview_duration is None {
                heard_at(self, open->0, tick.position)
            } else {
                self.last_at
            },
            ..self
        }
    }
}

impl Window {
    fn show_notice(&mut self, said: String, now: u64)
        ensures
            final(self)@ == old(self)@.noticed(said@, now),
    {
        self.notice = said;
        self.notice_until = Some(
            if now > u64::MAX - NOTICE_MS {
                u64::MAX
            } else {
                now + NOTICE_MS
            },
        );
    }

    /// Shows an error in the dialog, unless one is up already.
    pub fn show_error(&mut self, why: &str)
        ensures
            final(self)@ == old(self)@.failed(why@),
    {
        if self.error.as_str().is_empty() {
            self.error = sentence(why);
        }
    }

    /// The dialog was answered.
    pub fn dismiss_error(&mut self)
        ensures
            final(self)@ == (WindowView { error: seq![], ..old(self)@ }),
    {
        self.error = String::new();
        assert(self.error@ =~= seq![]);
    }

    /// The dialog's text; empty for none.
    pub fn error(&self) -> (error: &String)
        ensures
            error@ == self@.error,
    {
        &self.error
    }

    /// The notice line; empty for none.
    pub fn notice(&self) -> (notice: &String)
        ensures
            notice@ == self@.notice,
    {
        &self.notice
    }

    /// The selected clip.
    pub fn selected(&self) -> (selected: Option<Id>)
        ensures
            selected == self@.selected,
    {
        self.selected
    }

    /// The clip list's tag filter; empty for none.
    pub fn tag_filter(&self) -> (filter: &String)
        ensures
            filter@ == self@.tag_filter,
    {
        &self.tag_filter
    }

    /// A tag was picked to filter by, or none.
    pub fn set_tag_filter(&mut self, filter: String)
        ensures
            final(self)@ == (WindowView { tag_filter: filter@, ..old(self)@ }),
    {
        self.tag_filter = filter;
    }

    /// The level bar, in thousandths of a decibel above its foot, and whether
    /// any level was heard of in this recording.
    pub fn level(&self) -> (level: (i32, bool))
        ensures
            level.0 == self@.level,
            level.1 == self@.level_seen,
    {
        (self.level, self.level_seen)
    }

    /// How long the recording has run, as the window shows it.
    pub fn elapsed(&self) -> (shown: String)
        ensures
            shown@ == crate::format::hms(self@.elapsed),
    {
        format_hms(self.elapsed)
    }

    /// The name of the clip previewed; empty for none.
    pub fn previewing_name(&self) -> (name: &String)
        ensures
            name@ == self@.previewing_name,
    {
        &self.previewing_name
    }

    /// The drawings on the live picture.
    pub fn drawings(&self) -> (drawings: &LiveDrawings)
        ensures
            drawings@ == self@.drawings,
    {
        &self.drawings
    }

    /// The pen went down on the picture.
    pub fn draw_press(&mut self)
        ensures
            final(self)@ == (WindowView {
                drawings: (drawing::Drawings { drawing: true, ..old(self)@.drawings }),
                ..old(self)@
            }),
    {
        self.drawings.press();
    }

    /// The pen lifted. Returns whether a drawing was finished, to be logged.
    pub fn draw_release(&mut self, key: u64, pen_up: u64, auto_clear: bool, placed: bool) -> (finished:
        bool)
        ensures
            final(self)@ == (WindowView {
                drawings: old(self)@.drawings.released(key, pen_up, auto_clear, placed),
                ..old(self)@
            }),
            finished == (old(self)@.drawings.drawing && placed),
    {
        self.drawings.release(key, pen_up, auto_clear, placed)
    }

    /// The drawing under the pen was given up.
    pub fn draw_cancel(&mut self)
        ensures
            final(self)@ == (WindowView {
                drawings: (drawing::Drawings { drawing: false, ..old(self)@.drawings }),
                ..old(self)@
            }),
    {
        self.drawings.cancel();
    }

    /// Every drawing was wiped. Returns whether there was any, to be logged.
    pub fn clear_drawings(&mut self) -> (had_any: bool)
        ensures
            final(self)@ == (WindowView {
                drawings: drawing::Drawings::none(),
                ..old(self)@
            }),
            had_any == old(self)@.drawings.any(),
    {
        self.drawings.clear()
    }

    /// A drag over the picture began. Outside a recording it can only pan, and
    /// at no zoom (`unzoomed`) that visibly does nothing, so it is answered
    /// with a hint.
    pub fn drag_began(&mut self, unzoomed: bool, recording: bool, now: u64)
        ensures
            final(self)@ == if unzoomed && !recording {
                old(self)@.noticed("Drawing works while recording — press R"@, now)
            } else {
                old(self)@
            },
    {
        if unzoomed && !recording {
            self.show_notice("Drawing works while recording — press R".to_owned(), now);
        }
    }

    /// The self-view drew a frame.
    pub fn self_view_arrived(&mut self, now: u64)
        ensures
            final(self)@ == (WindowView { self_view_at: Some(now), ..old(self)@ }),
    {
        self.self_view_at = Some(now);
    }

    /// The transcription as the window was last told, and how long its current
    /// work has taken at `now`, in ticks.
    pub fn transcription(&self, now: u64) -> (shown: (&Queue, i128))
        ensures
            *shown.0 == self@.queue,
            shown.1 == match self@.since {
                Some(at) => if now > at {
                    (now - at) * 3_000_000
                } else {
                    0
                },
                None => 0,
            },
    {
        let elapsed: i128 = match self.since {
            Some(at) => if now > at {
                (now - at) as i128 * 3_000_000
            } else {
                0
            },
            None => 0,
        };
        (&self.queue, elapsed)
    }

    /// Applies an event. `open` is the project as it is now; `now` is in
    /// milliseconds.
    pub fn on_event(&mut self, event: Event, open: Option<&Project>, now: u64)
        ensures
            !(event is ProjectOpened) ==> final(self)@ == old(self)@.heard(event, open, now),
            event is ProjectOpened ==> is_empty_queue(final(self)@.queue) && final(self)@ == (
            WindowView { queue: final(self)@.queue, ..old(self)@.opened(open) }),
    {
        match event {
            Event::ProjectOpened => {
                self.source_index = 0;
                self.target = None;
                self.last_at = 0;
                self.queue = empty_queue();
                self.since = None;
                self.selected = None;
                self.tag_filter = String::new();
                assert(self.tag_filter@ =~= seq![]);
                self.run = None;
                if let Some(project) = open {
                    self.volume = project.preferences.scan_volume;
                }
            },
            Event::ProjectChanged => {
                if let (Some(id), Some(project)) = (self.selected, open) {
                    if find_clip(&project.clips, id).is_none() {
                        self.selected = None;
                    }
                }
            },
            Event::Position { source_index, target } => {
                self.source_index = source_index;
                self.target = target;
            },
            Event::Playing(playing) => {
                self.playing = playing;
            },
            Event::Recording(status) => {
                self.drawings.clear();
                self.recording = status;
                match status {
                    RecordingStatus::Idle => {
                        self.self_view_at = None;
                    },
                    RecordingStatus::Starting => {
                        self.level_seen = false;
                        self.level = 0;
                        self.elapsed = 0;
                    },
                    RecordingStatus::Recording { .. } => {},
                }
            },
            Event::Level(peak) => {
                self.level = match peak {
                    Some(db) => if db <= -60_000 {
                        0
                    } else if db >= 0 {
                        60_000
                    } else {
                        db + 60_000
                    },
                    None => 0,
                };
                self.level_seen = true;
            },
            Event::Export(run) => {
                let said = report(&run);
                self.run = Some(run);
                match said {
                    RunReport::Nothing => {},
                    RunReport::Failed(why) => {
                        self.show_error(why.as_str());
                    },
                    RunReport::Exported(what) => {
                        self.show_notice(what, now);
                    },
                }
            },
            Event::Preview(id) => {
                self.preview(open, id);
            },
            Event::Transcription(queue) => {
                if !same_work(&self.queue, &queue) {
                    self.since = if queue.running.is_some() {
                        Some(now)
                    } else {
                        None
                    };
                }
                self.queue = queue;
            },
            Event::Select(id) => {
                self.select(open, id);
            },
            Event::Error(error) => {
                let message = error.message();
                if error.is_notice() {
                    let said = sentence(message.as_str());
                    self.show_notice(said, now);
                } else {
                    self.show_error(message.as_str());
                }
            },
        }
    }

    fn preview(&mut self, open: Option<&Project>, id: Option<Id>)
        ensures
            final(self)@ == old(self)@.previewed(open, id),
    {
        self.previewing = id;
        self.previewing_name = String::new();
        assert(self.previewing_name@ =~= seq![]);
        self.preview_duration = None;
        if let (Some(id), Some(project)) = (id, open) {
            if let Some(i) = find_clip(&project.clips, id) {
                self.previewing_name = clip_name(&project.clips[i]);
                self.preview_duration = Some(project.clips[i].recording_duration);
            }
        }
    }

    fn select(&mut self, open: Option<&Project>, id: Id)
        ensures
            final(self)@ == old(self)@.chose(open, id),
    {
        if !self.tag_filter.as_str().is_empty() {
            if let Some(project) = open {
                if let Some(i) = find_clip(&project.clips, id) {
                    if !passes_filter(&project.clips[i], &self.tag_filter) {
                        self.tag_filter = String::new();
                        assert(self.tag_filter@ =~= seq![]);
                    }
                }
            }
        }
        self.selected = Some(id);
    }

    /// Where the game video is on the whole timeline.
    pub fn scan_abs(&mut self, project: &Project, position: Option<i64>) -> (abs: i128)
        ensures
            abs == scanned(old(self)@, project, position),
            final(self)@ == (WindowView {
                last_at: heard_at(old(self)@, project, position),
                ..old(self)@
            }),
    {
        if let Some(target) = self.target {
            return target;
        }
        if project.source_videos.len() == 0 {
            return 0;
        }
        if let Some(at) = position {
            self.last_at = at;
        }
        project.abs_seconds(self.source_index, self.last_at)
    }

    /// The readout and scrubber's update, and everything else that time moves:
    /// the recording's elapsed time, the notice's expiry, the drawings', and
    /// whether the self-view is still arriving.
    pub fn tick(&mut self, open: Option<&Project>, tick: Tick) -> (ticked: Ticked)
        ensures
            final(self)@ == old(self)@.ticked(open, tick),
            ticked.self_view_shown == (tick.recording && old(self)@.self_view_at is Some
                && tick.now_ms - old(self)@.self_view_at->0 < SELF_VIEW_QUIET_MS),
            ticked.redraw == (tick.placed && (final(self)@.drawings.strokes.len() != old(
                self,
            )@.drawings.strokes.len() || (tick.resized && final(self)@.drawings.strokes.len()
                > 0))),
            match open {
                None => ticked.readout is None,
                Some(project) => ticked.readout is Some && ticked.readout->0.total == old(
                    self,
                )@.scale(project) && ticked.readout->0.current == old(self)@.place(project, tick)
                    && ticked.readout->0.text@ == old(self)@.reads(project, tick)
                    && ticked.readout->0.match_at == if old(self)@.preview_duration is None
                    && project.scoreboard is Some {
                    Some(ticked.readout->0.current)
                } else {
                    None
                },
            },
            ticked.transcribing == (old(self)@.queue.running is Some),
    {
        let self_view_shown = tick.recording && match self.self_view_at {
            Some(at) => at > tick.now_ms || tick.now_ms - at < SELF_VIEW_QUIET_MS,
            None => false,
        };
        let redraw = tick.placed && self.drawings.expire(tick.now_ns, tick.resized);
        if let RecordingStatus::Recording { t0_ns } = self.recording {
            self.elapsed =
            if tick.now_ns > t0_ns {
                (tick.now_ns - t0_ns) as i128 * 3
            } else {
                0
            };
        }
        if let Some(until) = self.notice_until {
            if until <= tick.now_ms {
                self.notice_until = None;
                self.notice = String::new();
                assert(self.notice@ =~= seq![]);
            }
        }
        let transcribing = self.queue.running.is_some();
        let project = match open {
            Some(project) => project,
            None => {
                return Ticked { self_view_shown, redraw, transcribing, readout: None };
            },
        };
        let total: i128 = match self.preview_duration {
            Some(duration) => duration as i128,
            None => project.total_source_duration(),
        };
        let current: i128 = match tick.scrubbing {
            Some(at) => at,
            None => {
                let at: i128 = if self.preview_duration.is_some() {
                    tick.preview_at as i128
                } else {
                    self.scan_abs(project, tick.position)
                };
                if at < 0 || total < 0 {
                    0
                } else if at > total {
                    total
                } else {
                    at
                }
            },
        };
        let mut text = if self.playing {
            format_hms(current)
        } else {
            format_hms_tenths(current)
        };
        text.append(" / ");
        let whole = format_hms(total);
        text.append(whole.as_str());
        let match_at: Option<i128> = if self.preview_duration.is_none()
            && project.scoreboard.is_some() {
            Some(current)
        } else {
            None
        };
        Ticked {
            self_view_shown,
            redraw,
            transcribing,
            readout: Some(Readout { total, current, text, match_at }),
        }
    }
}

// ---------------------------------------------------------------------------
// Laws.

/// **The first error stays**: while the dialog is up, no error replaces what
/// it says, and a notice never touches it.
pub proof fn law_the_first_error_stays(w: WindowView, error: UserError, now: u64)
    ensures
        w.error.len() > 0 ==> w.told(error, now).error == w.error,
        error.notice() ==> w.told(error, now).error == w.error,
{
}

/// **Every recording starts on a bare picture**: whatever phase a recording
/// goes into, no drawing is left on the picture.
pub proof fn law_a_recording_starts_on_a_bare_picture(w: WindowView, status: RecordingStatus)
    ensures
        !w.recorded(status).drawings.any(),
{
}

/// **The readout stays on its scale**: unless the scrubber is being dragged,
/// the transport is between the scale's start and its end.
pub proof fn law_the_readout_stays_on_its_scale(w: WindowView, open: &Project, tick: Tick)
    requires
        tick.scrubbing is None,
    ensures
        0 <= w.place(open, tick) <= time::larger(w.scale(open), 0),
{
}

/// **A percent does not restart the clock**: the transcription's clock runs on
/// while the same clip is at the same kind of work, and starts again when
/// either changes.
pub proof fn law_a_percent_does_not_restart_the_clock(w: WindowView, queue: Queue, now: u64)
    ensures
        work_of(w.queue.running) == work_of(queue.running) ==> w.transcribed(queue, now).since
            == w.since,
        work_of(w.queue.running) != work_of(queue.running) && queue.running is Some
            ==> w.transcribed(queue, now).since == Some(now),
{
}

/// **A selected clip is listed**: after a clip is selected, it passes the tag
/// filter.
pub proof fn law_a_selected_clip_is_listed(w: WindowView, open: Option<&Project>, id: Id)
    requires
        open_clip(open, id) is Some,
    ensures
        w.chose(open, id).selected == Some(id),
        rows::passes(open_clip(open, id)->0, w.chose(open, id).tag_filter),
{
}

/// **The readout shows the moment**: the place of the drag while the scrubber
/// is dragged; in a preview, where that is in its clip; otherwise where an
/// outstanding seek is heading, or the player's place on the sources laid end
/// to end, or the last one heard of. It is kept on the scale, and reads in
/// tenths while paused.
pub proof fn law_the_readout_shows_the_moment(
    w: WindowView,
    open: &Project,
    tick: Tick,
    starts: Seq<int>,
)
    requires
        transport::start_at(open.source_videos@, starts),
        open.source_videos@.len() > 0,
        w.source_index < open.source_videos@.len(),
    ensures
        ({
            let total = match w.preview_duration {
                Some(duration) => duration as int,
                None => starts.last(),
            };
            let at = match (w.preview_duration, w.target, tick.position) {
                (Some(_), _, _) => tick.preview_at as int,
                (None, Some(heading), _) => heading as int,
                (None, None, Some(position)) => starts[w.source_index as int] + position,
                (None, None, None) => starts[w.source_index as int] + w.last_at,
            };
            let place = w.place(open, tick);
            &&& w.scale(open) == total
            &&& tick.scrubbing matches Some(dragged) ==> place == dragged
            &&& tick.scrubbing is None && (at < 0 || total < 0) ==> place == 0
            &&& tick.scrubbing is None && 0 <= at <= total ==> place == at
            &&& tick.scrubbing is None && at > total >= 0 ==> place == total
            &&& w.playing ==> w.reads(open, tick) == crate::format::hms(place) + " / "@
                + crate::format::hms(total)
            &&& !w.playing ==> w.reads(open, tick) == crate::format::hms_tenths(place) + " / "@
                + crate::format::hms(total)
        }),
{
    let all = open.source_videos@;
    transport::lemma_starts(all, starts, all.len() as int);
    transport::lemma_starts(all, starts, w.source_index as int);
    assert(all.take(all.len() as int) =~= all);
}

/// **A tick moves only what time moves**: a notice clears when it is due, a
/// recording's clock shows how long it has run, due drawings clear, and the
/// player's position is remembered while it is the readout's. Everything else
/// stays.
pub proof fn law_a_tick_moves_only_what_time_moves(
    w: WindowView,
    open: Option<&Project>,
    tick: Tick,
)
    ensures
        ({
            let next = w.ticked(open, tick);
            let over = w.notice_until is Some && w.notice_until->0 <= tick.now_ms;
            &&& over ==> next.notice.len() == 0 && next.notice_until is None
            &&& !over ==> next.notice == w.notice && next.notice_until == w.notice_until
            &&& w.recording matches RecordingStatus::Recording { t0_ns } ==> (tick.now_ns
                >= t0_ns ==> next.elapsed == 3 * (tick.now_ns - t0_ns)) && (tick.now_ns < t0_ns
                ==> next.elapsed == 0)
            &&& !(w.recording is Recording) ==> next.elapsed == w.elapsed
            &&& !tick.placed ==> next.drawings == w.drawings
            &&& tick.placed ==> next.drawings.strokes == w.drawings.strokes.filter(
                |s: drawing::LiveStroke| s.expires is None || s.expires->0 > tick.now_ns,
            ) && next.drawings.drawing == w.drawings.drawing
            &&& open is Some && open->0.source_videos@.len() > 0 && tick.scrubbing is None
                && w.preview_duration is None && w.target is None && tick.position is Some
                ==> next.last_at == tick.position->0
            &&& open is None || tick.scrubbing is Some || w.preview_duration is Some
                || w.target is Some || tick.position is None ==> next.last_at == w.last_at
            &&& next == (WindowView {
                notice: next.notice,
                notice_until: next.notice_until,
                elapsed: next.elapsed,
                drawings: next.drawings,
                last_at: next.last_at,
                ..w
            })
        }),
{
    drawing::law_only_what_is_due_clears(w.drawings, tick.now_ns);
}

/// **The window takes over what it hears, and nothing more**: where the player
/// is, whether it plays, and how loud the microphone is between silence and the
/// full bar.
pub proof fn law_the_window_takes_over_what_it_hears(
    w: WindowView,
    open: Option<&Project>,
    now: u64,
    source_index: usize,
    target: Option<i128>,
    playing: bool,
    peak: i32,
)
    ensures
        w.heard(Event::Position { source_index, target }, open, now) == (WindowView {
            source_index,
            target,
            ..w
        }),
        w.heard(Event::Playing(playing), open, now) == (WindowView { playing, ..w }),
        ({
            let next = w.heard(Event::Level(Some(peak)), open, now);
            &&& next == (WindowView { level: next.level, level_seen: true, ..w })
            &&& -60_000 <= peak <= 0 ==> next.level == peak + 60_000
            &&& peak < -60_000 ==> next.level == 0
            &&& peak > 0 ==> next.level == 60_000
        }),
        w.heard(Event::Level(None), open, now) == (WindowView { level: 0, level_seen: true, ..w }),
{
}

/// **A project opens afresh**: at the start of its first source, with nothing
/// selected, no filter and no run shown, at its own volume.
pub proof fn law_a_project_opens_afresh(w: WindowView, open: &Project, now: u64)
    ensures
        w.heard(Event::ProjectOpened, Some(open), now) == (WindowView {
            source_index: 0,
            target: None,
            last_at: 0,
            selected: None,
            tag_filter: Seq::empty(),
            run: None,
            since: None,
            volume: open.preferences.scan_volume,
            ..w
        }),
{
    assert(w.opened(Some(open)).tag_filter =~= Seq::empty());
}

/// **A recording's phase is shown**: a start sets its level and clock back, an
/// end takes the self-view away, and every change wipes the drawings.
pub proof fn law_a_recording_s_phase_is_shown(
    w: WindowView,
    open: Option<&Project>,
    now: u64,
    t0_ns: u64,
)
    ensures
        ({
            let starting = w.heard(Event::Recording(RecordingStatus::Starting), open, now);
            let going = w.heard(
                Event::Recording(RecordingStatus::Recording { t0_ns }),
                open,
                now,
            );
            let idle = w.heard(Event::Recording(RecordingStatus::Idle), open, now);
            &&& starting == (WindowView {
                recording: RecordingStatus::Starting,
                level: 0,
                level_seen: false,
                elapsed: 0,
                drawings: starting.drawings,
                ..w
            })
            &&& going == (WindowView {
                recording: RecordingStatus::Recording { t0_ns },
                drawings: going.drawings,
                ..w
            })
            &&& idle == (WindowView {
                recording: RecordingStatus::Idle,
                self_view_at: None,
                drawings: idle.drawings,
                ..w
            })
            &&& starting.drawings.strokes.len() == 0 && !starting.drawings.drawing
            &&& going.drawings.strokes.len() == 0 && !going.drawings.drawing
            &&& idle.drawings.strokes.len() == 0 && !idle.drawings.drawing
        }),
{
}

/// **A preview is shown by its clip**: with the clip's name and its recording's
/// length while it is open, and neither once it closed.
pub proof fn law_a_preview_is_shown_by_its_clip(
    w: WindowView,
    open: &Project,
    now: u64,
    i: int,
)
    requires
        0 <= i < open.clips@.len(),
        forall|k: int| 0 <= k < i ==> (#[trigger] open.clips@[k]).id != open.clips@[i].id,
    ensures
        ({
            let clip = open.clips@[i];
            let shown = w.heard(Event::Preview(Some(clip.id)), Some(open), now);
            let closed = w.heard(Event::Preview(None), Some(open), now);
            &&& shown == (WindowView {
                previewing: Some(clip.id),
                previewing_name: rows::shown_name(clip.name@),
                preview_duration: Some(clip.recording_duration),
                ..w
            })
            &&& closed == (WindowView {
                previewing: None,
                previewing_name: Seq::empty(),
                preview_duration: None,
                ..w
            })
        }),
{
    export_run::lemma_first_clip(open.clips@, open.clips@[i].id, i);
    assert(w.previewed(Some(open), None).previewing_name =~= Seq::empty());
}

/// **A selection lasts as long as its clip**: a change of the project drops it
/// with the clip, and only then. Choosing a clip clears a tag filter that hides
/// it, and no other.
pub proof fn law_a_selection_lasts_as_long_as_its_clip(
    w: WindowView,
    open: &Project,
    now: u64,
    i: int,
)
    requires
        0 <= i < open.clips@.len(),
        forall|k: int| 0 <= k < i ==> (#[trigger] open.clips@[k]).id != open.clips@[i].id,
    ensures
        w.selected == Some(open.clips@[i].id) ==> w.heard(Event::ProjectChanged, Some(open), now)
            == w,
        w.selected is None ==> w.heard(Event::ProjectChanged, Some(open), now) == w,
        w.selected matches Some(id) && (forall|k: int|
            0 <= k < open.clips@.len() ==> (#[trigger] open.clips@[k]).id != id) ==> w.heard(
            Event::ProjectChanged,
            Some(open),
            now,
        ) == (WindowView { selected: None, ..w }),
        ({
            let chosen = w.heard(Event::Select(open.clips@[i].id), Some(open), now);
            let listed = w.tag_filter.len() == 0 || exists|t: int|
                0 <= t < open.clips@[i].tags@.len() && (#[trigger] open.clips@[i].tags@[t])@
                    == w.tag_filter;
            &&& listed ==> chosen == (WindowView { selected: Some(open.clips@[i].id), ..w })
            &&& !listed ==> chosen == (WindowView {
                selected: Some(open.clips@[i].id),
                tag_filter: Seq::empty(),
                ..w
            })
        }),
{
    let clip = open.clips@[i];
    export_run::lemma_first_clip(open.clips@, clip.id, i);
    if let Some(id) = w.selected {
        if forall|k: int| 0 <= k < open.clips@.len() ==> (#[trigger] open.clips@[k]).id != id {
            export_run::lemma_no_clip(open.clips@, id);
        }
    }
    assert(w.tag_filter.len() > 0 ==> (rows::passes(clip, w.tag_filter) <==> exists|t: int|
        0 <= t < clip.tags@.len() && (#[trigger] clip.tags@[t])@ == w.tag_filter)) by {
        if clip@.tags.contains(w.tag_filter) {
            let t = choose|t: int| 0 <= t < clip@.tags.len() && clip@.tags[t] == w.tag_filter;
            assert(clip.tags@[t]@ == w.tag_filter);
        }
        if exists|t: int| 0 <= t < clip.tags@.len() && (#[trigger] clip.tags@[t])@ == w.tag_filter {
            let t = choose|t: int|
                0 <= t < clip.tags@.len() && (#[trigger] clip.tags@[t])@ == w.tag_filter;
            assert(clip@.tags[t] == w.tag_filter);
        }
    }
    let chosen = w.chose(Some(open), clip.id);
    assert(chosen.tag_filter == w.tag_filter || chosen.tag_filter =~= Seq::empty());
}

/// **An error is said once, a notice for six seconds**: an error takes the
/// dialog if that is free, a notice the line; neither touches anything else.
pub proof fn law_an_error_is_said(w: WindowView, open: Option<&Project>, error: UserError, now: u64)
    requires
        now + 6_000 <= u64::MAX,
    ensures
        ({
            let next = w.heard(Event::Error(error), open, now);
            let said = crate::format::capitalized(error.sentence());
            &&& error.notice() ==> next == (WindowView {
                notice: said,
                notice_until: Some((now + 6_000) as u64),
                ..w
            })
            &&& !error.notice() && w.error.len() == 0 ==> next == (WindowView {
                error: said,
                ..w
            })
            &&& !error.notice() && w.error.len() > 0 ==> next == w
        }),
{
}

/// **A run's end is reported**: while something is left to render the run is
/// only shown; once it is over, its first failure takes the dialog, or else the
/// number of videos written the notice line, or else nothing is said.
pub proof fn law_a_run_s_end_is_reported(
    w: WindowView,
    open: Option<&Project>,
    run: ExportRun,
    now: u64,
    i: int,
)
    requires
        now + 6_000 <= u64::MAX,
        0 <= i < run.targets@.len(),
    ensures
        ({
            let next = w.heard(Event::Export(run), open, now);
            let done = run.targets@.filter(|t: ExportTargetRun| t.state is Done).len();
            let going = exists|k: int|
                0 <= k < run.targets@.len() && ((#[trigger] run.targets@[k]).state is Pending
                    || run.targets@[k].state is Running);
            let failed = exists|k: int|
                0 <= k < run.targets@.len() && (#[trigger] run.targets@[k]).state is Failed;
            &&& going ==> next == (WindowView { run: Some(run), ..w })
            &&& !going && w.error.len() == 0 && (run.targets@[i].state is Failed) && (forall|
                k: int,
            |
                0 <= k < i ==> !((#[trigger] run.targets@[k]).state is Failed)) ==> next == (
            WindowView {
                run: Some(run),
                error: crate::format::capitalized(
                    "export failed: "@ + run.targets@[i].state->Failed_0@,
                ),
                ..w
            })
            &&& !going && w.error.len() > 0 && failed ==> next == (WindowView {
                run: Some(run),
                ..w
            })
            &&& !going && !failed && done > 0 ==> next == (WindowView {
                run: Some(run),
                notice: rows::exported_text(done),
                notice_until: Some((now + 6_000) as u64),
                ..w
            })
            &&& !going && !failed && done == 0 ==> next == (WindowView { run: Some(run), ..w })
        }),
{
    rows::lemma_first_failure(run.targets@);
    rows::lemma_written(run.targets@);
    assert(run.going() <==> exists|k: int|
        0 <= k < run.targets@.len() && ((#[trigger] run.targets@[k]).state is Pending
            || run.targets@[k].state is Running)) by {
        if run.going() {
            let k = choose|k: int|
                0 <= k < run.targets@.len() && !(#[trigger] run.targets@[k]).state.ended();
            assert(run.targets@[k].state is Pending || run.targets@[k].state is Running);
        }
        if exists|k: int|
            0 <= k < run.targets@.len() && ((#[trigger] run.targets@[k]).state is Pending
                || run.targets@[k].state is Running) {
            let k = choose|k: int|
                0 <= k < run.targets@.len() && ((#[trigger] run.targets@[k]).state is Pending
                    || run.targets@[k].state is Running);
            assert(!run.targets@[k].state.ended());
        }
    }
}

/// **A tick shows what is on**: the self-view while its frames come, a running
/// transcription's clock, and the readout of an open project; the match is read
/// at its moment with a scoreboard and without a preview.
pub proof fn law_a_tick_shows_what_is_on(
    window: &mut Window,
    open: &Project,
    tick: Tick,
    ticked: Ticked,
)
    requires
        call_ensures(Window::tick, (window, Some(open), tick), ticked),
    ensures
        ({
            let was = old(window)@;
            &&& ticked.self_view_shown <==> tick.recording && was.self_view_at is Some
                && tick.now_ms < was.self_view_at->0 + 1_000
            &&& ticked.transcribing <==> was.queue.running is Some
            &&& ticked.readout is Some
            &&& ticked.readout->0.total == was.scale(open)
            &&& ticked.readout->0.current == was.place(open, tick)
            &&& ticked.readout->0.text@ == was.reads(open, tick)
            &&& open.scoreboard is Some && was.preview_duration is None
                ==> ticked.readout->0.match_at == Some(ticked.readout->0.current)
            &&& open.scoreboard is None || was.preview_duration is Some
                ==> ticked.readout->0.match_at is None
            &&& !tick.placed ==> !ticked.redraw
            &&& final(window)@ == was.ticked(Some(open), tick)
        }),
{
}

} // verus!
