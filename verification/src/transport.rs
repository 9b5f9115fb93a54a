//! Transport: play and pause, skips, scrubs and volume, and what the player
//! reports back.
//!
//! Every seek goes through the player's single-flight slot. Skips go through
//! the [`SkipCoordinator`] first, on the timeline of the sources laid end to
//! end, and every outcome of a skip's flight reaches it: a completion drives
//! the burst on, while a displacement or failure resets it, so it can never be
//! left waiting for a landing that won't come.
//!
//! The machine touches no player: each input answers with the [`Action`]s to
//! carry out, in order.

use vstd::prelude::*;

use crate::project;
use crate::project::{Project, SourceRef, FULL_VOLUME};
use crate::skip::{SkipCoordinator, SkipDecision, SkipState};
use crate::sources;
use crate::sources::{any_missing, clamp_in_source, END_MARGIN};
use crate::time;

verus! {

/// Whose request a seek is.
#[derive(Debug, Clone, Copy, PartialEq, Eq, Structural)]
pub enum Origin {
    /// A load or reload of the library's own.
    System,
    Scrub,
    Skip,
}

/// A seek or load for the player.
#[derive(Debug, Clone, Copy, PartialEq, Eq, Structural)]
pub struct Request {
    pub source: usize,
    /// Ticks into the source.
    pub at: i64,
    /// Land on the exact frame, rather than on a keyframe.
    pub exact: bool,
    pub origin: Origin,
}

/// Something for the caller to carry out.
#[derive(Debug, Clone, Copy, PartialEq, Eq, Structural)]
pub enum Action {
    /// Hand the player a request.
    Seek(Request),
    /// Play or pause, and tell the user interface which.
    Playing(bool),
    /// Drop the source the player holds, so no stale frame stays up.
    Unload,
    /// Publish where the player is, or the target it is heading for.
    Position { source_index: usize, target: Option<i128> },
    /// Report the player's failure, and look again which files are missing.
    ReportFailure,
}

/// What the player reported.
#[derive(Debug, Clone, Copy, PartialEq, Eq, Structural)]
pub enum PlayerEvent {
    SeekDone(Origin),
    /// A later request took the slot.
    SeekDisplaced(Origin),
    SeekFailed(Origin),
    Loaded,
    /// The end of the stream.
    Ended,
    /// The player dropped its flight and its source.
    Failed,
}

/// What the player says of itself.
#[derive(Debug, Clone, Copy, PartialEq, Eq, Structural)]
pub struct Player {
    /// Whether it holds, or is heading for, the current source.
    pub holds: bool,
    /// Where it is heading, in ticks into the source, while a seek is
    /// outstanding.
    pub target: Option<i64>,
    /// Where it is, or where it was when it dropped its source.
    pub position: Option<i64>,
    pub idle: bool,
}

impl Player {
    /// Where the player is, or is heading.
    pub open spec fn at(self) -> i64 {
        match (self.target, self.position) {
            (Some(t), _) => t,
            (None, Some(p)) => p,
            (None, None) => 0,
        }
    }

    /// Where the player is, or is heading, in ticks into the current source.
    pub fn current_at(&self) -> (at: i64)
        ensures
            at == self.at(),
    {
        match (self.target, self.position) {
            (Some(t), _) => t,
            (None, Some(p)) => p,
            (None, None) => 0,
        }
    }
}

// ---------------------------------------------------------------------------
// Where a moment on the whole timeline is.

/// The source a moment falls on, and how far into it, clamped to the
/// timeline. There is at least one source.
pub open spec fn located(all: Seq<SourceRef>, abs: int) -> (int, int)
    decreases all.len(),
{
    let start = project::laid_end_to_end(all.drop_last());
    if all.len() <= 1 || abs >= start {
        (all.len() - 1, time::larger(time::smaller(abs - start, all.last().duration as int), 0))
    } else {
        located(all.drop_last(), abs)
    }
}

impl Project {
    /// The source a moment on the timeline falls on, and how far into it in
    /// ticks. A moment outside the timeline is clamped to it.
    pub fn locate(&self, abs: i128) -> (place: (usize, i64))
        requires
            self.source_videos@.len() > 0,
        ensures
            (place.0 as int, place.1 as int) == located(self.source_videos@, abs as int),
            place.0 < self.source_videos@.len(),
    {
        let ghost all = self.source_videos@;
        let mut index: usize = self.source_videos.len() - 1;
        assert(all.take(all.len() as int) =~= all);
        loop
            invariant
                all == self.source_videos@,
                index < all.len(),
                located(all, abs as int) == located(all.take(index + 1), abs as int),
            decreases index,
        {
            let through = self.cumulative_offset(index);
            assert(all.take(index + 1).drop_last() =~= all.take(index as int));
            if index == 0 || abs >= through {
                let into: i64 = offset_into(abs, through, self.source_videos[index].duration);
                return (index, into);
            }
            index = index - 1;
        }
    }
}

/// How far a moment is into a source that starts at `start`.
fn offset_into(abs: i128, start: i128, duration: i64) -> (into: i64)
    requires
        -0x7fff_ffff_ffff_ffff_8000_0000_0000_0000 <= start <= 0x7fff_ffff_ffff_ffff_0000_0000_0000_0000,
    ensures
        into == time::larger(time::smaller(abs - start, duration as int), 0),
{
    if abs <= start || duration <= 0 {
        0
    } else if abs >= start + duration as i128 {
        duration
    } else {
        (abs - start) as i64
    }
}

/// A time that a player can be asked for.
pub open spec fn saturated(t: int) -> i64 {
    time::clamped(t, i64::MIN as int, i64::MAX as int) as i64
}

fn saturate(t: i128) -> (s: i64)
    ensures
        s == saturated(t as int),
{
    if t < i64::MIN as i128 {
        i64::MIN
    } else if t > i64::MAX as i128 {
        i64::MAX
    } else {
        t as i64
    }
}

// ---------------------------------------------------------------------------
// The machine.

/// What a [`Transport`] knows.
#[verifier::ext_equal]
pub struct TransportState {
    pub playing: bool,
    pub current: usize,
    pub skip: SkipState,
    pub deadline: Option<u64>,
    pub last_position: (usize, Option<i128>),
    pub missing: Seq<bool>,
    pub addressed: Seq<bool>,
}

/// A state, and what to carry out on the way to it.
pub type Step = (TransportState, Seq<Action>);

/// The sources of the open project; none without one.
pub open spec fn open_sources(open: Option<&Project>) -> Seq<SourceRef> {
    match open {
        Some(p) => p.source_videos@,
        None => seq![],
    }
}

impl TransportState {
    /// Whether seeks are allowed: some sources, none missing.
    pub open spec fn seekable(self, all: Seq<SourceRef>) -> bool {
        all.len() > 0 && !sources::some_missing(self.missing)
    }

    /// Whether a source can be loaded: it is there, and its file has an
    /// address.
    pub open spec fn addresses(self, all: Seq<SourceRef>, index: int) -> bool {
        0 <= index < all.len() && index < self.addressed.len() && self.addressed[index]
    }

    /// With the skip burst forgotten, and its debounce.
    pub open spec fn unskipped(self) -> TransportState {
        TransportState {
            skip: SkipState::idle(self.skip.burst_window),
            deadline: None,
            ..self
        }
    }

    /// The request that a load of a source is.
    pub open spec fn loading(
        self,
        all: Seq<SourceRef>,
        index: usize,
        at: i64,
        exact: bool,
        origin: Origin,
    ) -> Step {
        (
            TransportState { current: index, ..self },
            seq![
                Action::Seek(
                    Request {
                        source: index,
                        at: sources::inside(at as int, all[index as int].duration as int) as i64,
                        exact,
                        origin,
                    },
                ),
            ],
        )
    }

    /// After a seek on the whole timeline; `None` if it can't be issued.
    pub open spec fn sought(
        self,
        all: Seq<SourceRef>,
        abs: int,
        exact: bool,
        origin: Origin,
    ) -> Option<Step> {
        let (index, into) = located(all, abs);
        if self.seekable(all) && self.addresses(all, index) {
            Some(self.loading(all, index as usize, into as i64, exact, origin))
        } else {
            None
        }
    }

    /// After the skip coordinator decided something.
    pub open spec fn decided(
        self,
        all: Seq<SourceRef>,
        decision: SkipDecision,
        now: u64,
    ) -> Step {
        let armed = TransportState {
            deadline: match decision.arm_debounce {
                Some(debounce) => Some(time::smaller(now + debounce, u64::MAX as int) as u64),
                None => self.deadline,
            },
            ..self
        };
        match decision.seek {
            Some(seek) => match armed.sought(all, seek.target as int, seek.exact, Origin::Skip) {
                Some(step) => step,
                // A seek that can't be issued would leave the coordinator
                // waiting for its landing.
                None => (armed.unskipped(), seq![]),
            },
            None => (armed, seq![]),
        }
    }

    /// After playing or pausing.
    pub open spec fn set_to(self, playing: bool) -> Step {
        (TransportState { playing, ..self }, seq![Action::Playing(playing)])
    }

    /// After the play key.
    pub open spec fn toggled(self, all: Seq<SourceRef>, player: Player) -> Step {
        if self.playing || !self.seekable(all) {
            self.set_to(false)
        } else if player.holds {
            self.set_to(true)
        } else if self.addresses(all, self.current as int) {
            let (loaded, request) = self.loading(
                all,
                self.current,
                player.at(),
                true,
                Origin::System,
            );
            (loaded.set_to(true).0, request + loaded.set_to(true).1)
        } else {
            self.set_to(false)
        }
    }

    /// After a skip key.
    pub open spec fn skipped(
        self,
        open: Option<&Project>,
        player: Player,
        delta: i64,
        now: u64,
    ) -> Step {
        let all = open_sources(open);
        if !self.seekable(all) {
            (self, seq![])
        } else {
            let at = saturated(open->0.offset(self.current as int) + player.at());
            let end = saturated(
                time::larger(project::laid_end_to_end(all) - END_MARGIN, 0),
            );
            let (skip, decision) = self.skip.pressed(delta, at, end);
            (TransportState { skip, ..self }).decided(all, decision, now)
        }
    }

    /// After a scrub.
    pub open spec fn scrubbed(self, all: Seq<SourceRef>, abs: int, release: bool) -> Step {
        let free = if release {
            self.unskipped()
        } else {
            self
        };
        match free.sought(all, abs, release, Origin::Scrub) {
            Some(step) => step,
            None => (free, seq![]),
        }
    }

    /// After the passing of time: a debounce that is due has fired.
    pub open spec fn dispatched(self, all: Seq<SourceRef>, now: u64) -> Step {
        match self.deadline {
            Some(due) => if due <= now {
                let (skip, decision) = self.skip.burst_over();
                (TransportState { skip, deadline: None, ..self }).decided(all, decision, now)
            } else {
                (self, seq![])
            },
            None => (self, seq![]),
        }
    }

    /// After the end of the current source's stream.
    pub open spec fn ended(self, all: Seq<SourceRef>) -> Step {
        if !self.playing {
            (self, seq![])
        } else if self.addresses(all, self.current + 1) {
            self.loading(all, (self.current + 1) as usize, 0, true, Origin::System)
        } else {
            self.set_to(false)
        }
    }

    /// After something the player reported.
    pub open spec fn heard(self, all: Seq<SourceRef>, event: PlayerEvent, now: u64) -> Step {
        match event {
            PlayerEvent::SeekDone(Origin::Skip) => {
                let (skip, decision) = self.skip.landed();
                (TransportState { skip, ..self }).decided(all, decision, now)
            },
            PlayerEvent::SeekDisplaced(Origin::Skip) | PlayerEvent::SeekFailed(Origin::Skip) => (
                self.unskipped(),
                seq![],
            ),
            PlayerEvent::SeekDone(_)
            | PlayerEvent::SeekDisplaced(_)
            | PlayerEvent::SeekFailed(_)
            | PlayerEvent::Loaded => (self, seq![]),
            PlayerEvent::Ended => self.ended(all),
            PlayerEvent::Failed => if self.playing {
                (
                    TransportState { playing: false, ..self.unskipped() },
                    seq![Action::Playing(false), Action::ReportFailure],
                )
            } else {
                (self.unskipped(), seq![Action::ReportFailure])
            },
        }
    }

    /// After dropping the loaded source.
    pub open spec fn unloaded(self) -> Step {
        if self.playing {
            (
                TransportState { playing: false, ..self.unskipped() },
                seq![Action::Unload, Action::Playing(false)],
            )
        } else {
            (self.unskipped(), seq![Action::Unload])
        }
    }

    /// After making sure that the player holds what there is to hold.
    pub open spec fn ensured(self, all: Seq<SourceRef>, player: Player, at: i64) -> Step {
        let present = self.current < all.len() && self.current < self.missing.len()
            && !self.missing[self.current as int];
        if !present {
            self.unloaded()
        } else if !player.holds && self.addresses(all, self.current as int) {
            self.loading(all, self.current, at, true, Origin::System)
        } else {
            (self, seq![])
        }
    }

    /// After jumping to a place on a source, paused.
    pub open spec fn jumped(self, all: Seq<SourceRef>, index: usize, at: i64) -> Step {
        let (paused, pausing) = self.unskipped().set_to(false);
        if paused.seekable(all) && paused.addresses(all, index as int) {
            let (there, request) = paused.loading(all, index, at, true, Origin::Scrub);
            (there, pausing + request)
        } else {
            (paused, pausing)
        }
    }

    /// After publishing where the player is, unless nothing changed. A pause
    /// settling with nothing requested publishes nothing.
    pub open spec fn published(self, open: Option<&Project>, player: Player) -> Step {
        let target = match (player.target, open) {
            (Some(t), Some(p)) => Some((p.offset(self.current as int) + t) as i128),
            _ => None,
        };
        let position = (self.current, target);
        if (player.target is Some || player.idle) && position != self.last_position {
            (
                TransportState { last_position: position, ..self },
                seq![Action::Position { source_index: self.current, target }],
            )
        } else {
            (self, seq![])
        }
    }
}

/// The transport.
#[derive(Debug)]
pub struct Transport {
    playing: bool,
    /// The latest request's source: the one the player holds, or is heading
    /// for.
    current: usize,
    skip: SkipCoordinator,
    /// When the skip debounce fires, if armed, in milliseconds.
    deadline: Option<u64>,
    /// The last position published: the source, and the target.
    last_position: (usize, Option<i128>),
    /// One entry per source: whether its file is missing.
    missing: Vec<bool>,
    /// One entry per source: whether its file has an address to load it by.
    addressed: Vec<bool>,
}

impl View for Transport {
    type V = TransportState;

    closed spec fn view(&self) -> TransportState {
        TransportState {
            playing: self.playing,
            current: self.current,
            skip: self.skip@,
            deadline: self.deadline,
            last_position: self.last_position,
            missing: self.missing@,
            addressed: self.addressed@,
        }
    }
}

impl Default for Transport {
    fn default() -> (transport: Transport)
        ensures
            transport@ == (TransportState {
                playing: false,
                current: 0,
                skip: SkipState::idle(crate::skip::DEFAULT_BURST_WINDOW),
                deadline: None,
                last_position: (0, None),
                missing: seq![],
                addressed: seq![],
            }),
    {
        let transport = Transport {
            playing: false,
            current: 0,
            skip: SkipCoordinator::default(),
            deadline: None,
            last_position: (0, None),
            missing: Vec::new(),
            addressed: Vec::new(),
        };
        assert(transport.missing@ =~= seq![]);
        assert(transport.addressed@ =~= seq![]);
        transport
    }
}

impl Transport {
    /// Whether the game video plays.
    pub fn is_playing(&self) -> (playing: bool)
        ensures
            playing == self@.playing,
    {
        self.playing
    }

    /// The source the player holds, or is heading for.
    pub fn current(&self) -> (current: usize)
        ensures
            current == self@.current,
    {
        self.current
    }

    /// When the skip debounce fires, if armed.
    pub fn deadline(&self) -> (deadline: Option<u64>)
        ensures
            deadline == self@.deadline,
    {
        self.deadline
    }

    /// Takes over a fresh look at the sources' files.
    pub fn set_files(&mut self, missing: Vec<bool>, addressed: Vec<bool>)
        ensures
            final(self)@ == (TransportState {
                missing: missing@,
                addressed: addressed@,
                ..old(self)@
            }),
    {
        self.missing = missing;
        self.addressed = addressed;
    }

    fn seekable(&self, open: Option<&Project>) -> (yes: bool)
        ensures
            yes == self@.seekable(open_sources(open)),
    {
        match open {
            Some(project) => project.source_videos.len() > 0 && !any_missing(&self.missing),
            None => false,
        }
    }

    fn addresses(&self, open: Option<&Project>, index: usize) -> (yes: bool)
        ensures
            yes == self@.addresses(open_sources(open), index as int),
    {
        match open {
            Some(project) => index < project.source_videos.len() && index < self.addressed.len()
                && self.addressed[index],
            None => false,
        }
    }

    /// Asks for `at` of source `index`, clamped inside it.
    fn load(
        &mut self,
        project: &Project,
        index: usize,
        at: i64,
        exact: bool,
        origin: Origin,
    ) -> (request: Action)
        requires
            index < project.source_videos@.len(),
        ensures
            (final(self)@, seq![request]) == old(self)@.loading(
                project.source_videos@,
                index,
                at,
                exact,
                origin,
            ),
    {
        let at: i64 = clamp_in_source(Some(at), Some(project.source_videos[index].duration));
        self.current = index;
        Action::Seek(Request { source: index, at, exact, origin })
    }

    /// Forgets any skip burst and its debounce. For user context switches and
    /// a skip flight that won't land — never for a load that fulfils a skip.
    pub fn reset_skip(&mut self)
        ensures
            final(self)@ == old(self)@.unskipped(),
    {
        self.skip.reset();
        self.deadline = None;
    }

    /// Plays or pauses.
    pub fn set_playing(&mut self, playing: bool) -> (actions: Vec<Action>)
        ensures
            (final(self)@, actions@) == old(self)@.set_to(playing),
    {
        self.playing = playing;
        let mut actions: Vec<Action> = Vec::new();
        actions.push(Action::Playing(playing));
        assert(actions@ =~= seq![Action::Playing(playing)]);
        actions
    }

    /// The play key. Play is refused (answered with a pause) with no sources
    /// or while any is missing. If the player dropped the current source, play
    /// reloads it where it was first. Pausing is always allowed.
    pub fn toggle_play(&mut self, open: Option<&Project>, player: &Player) -> (actions: Vec<
        Action,
    >)
        ensures
            (final(self)@, actions@) == old(self)@.toggled(open_sources(open), *player),
    {
        if self.playing || !self.seekable(open) {
            return self.set_playing(false);
        }
        if player.holds {
            return self.set_playing(true);
        }
        let current: usize = self.current;
        if let Some(project) = open {
            if self.addresses(open, current) {
                let request = self.load(
                    project,
                    current,
                    player.current_at(),
                    true,
                    Origin::System,
                );
                self.playing = true;
                let mut actions: Vec<Action> = Vec::new();
                actions.push(request);
                actions.push(Action::Playing(true));
                assert(actions@ =~= seq![request] + seq![Action::Playing(true)]);
                return actions;
            }
        }
        self.set_playing(false)
    }

    /// Seeks to a moment on the whole timeline. `None` if no request can be
    /// issued.
    fn seek_abs(
        &mut self,
        open: Option<&Project>,
        abs: i128,
        exact: bool,
        origin: Origin,
    ) -> (request: Option<Action>)
        ensures
            match request {
                Some(r) => Some((final(self)@, seq![r])) == old(self)@.sought(
                    open_sources(open),
                    abs as int,
                    exact,
                    origin,
                ),
                None => old(self)@.sought(open_sources(open), abs as int, exact, origin) is None
                    && final(self)@ == old(self)@,
            },
    {
        if !self.seekable(open) {
            return None;
        }
        match open {
            Some(project) => {
                let (index, into) = project.locate(abs);
                if self.addresses(open, index) {
                    Some(self.load(project, index, into, exact, origin))
                } else {
                    None
                }
            },
            None => None,
        }
    }

    fn apply_skip(&mut self, open: Option<&Project>, decision: SkipDecision, now: u64) -> (actions:
        Vec<Action>)
        ensures
            (final(self)@, actions@) == old(self)@.decided(open_sources(open), decision, now),
    {
        if let Some(debounce) = decision.arm_debounce {
            self.deadline = Some(
                if debounce > u64::MAX - now {
                    u64::MAX
                } else {
                    now + debounce
                },
            );
        }
        let mut actions: Vec<Action> = Vec::new();
        assert(actions@ =~= seq![]);
        if let Some(seek) = decision.seek {
            match self.seek_abs(open, seek.target as i128, seek.exact, Origin::Skip) {
                Some(request) => {
                    actions.push(request);
                    assert(actions@ =~= seq![request]);
                },
                None => {
                    self.reset_skip();
                },
            }
        }
        actions
    }

    /// Skips by `delta` ticks from the burst's accumulated target, or from
    /// where the player is (or is heading) if no burst is running. `now` is in
    /// milliseconds.
    pub fn skip(&mut self, open: Option<&Project>, player: &Player, delta: i64, now: u64) -> (actions:
        Vec<Action>)
        ensures
            (final(self)@, actions@) == old(self)@.skipped(open, *player, delta, now),
    {
        if self.seekable(open) {
            if let Some(project) = open {
                let end: i128 = project.total_source_duration() - END_MARGIN as i128;
                let end: i64 = saturate(
                    if end < 0 {
                        0
                    } else {
                        end
                    },
                );
                let at: i64 = saturate(project.abs_seconds(self.current, player.current_at()));
                let decision = self.skip.request_skip(delta, at, end);
                return self.apply_skip(open, decision, now);
            }
        }
        let actions: Vec<Action> = Vec::new();
        assert(actions@ =~= seq![]);
        actions
    }

    /// A scrub move is a keyframe seek, latest wins. A release is a new user
    /// context: it abandons any skip burst, then lands on the exact frame.
    pub fn scrub(&mut self, open: Option<&Project>, abs: i128, release: bool) -> (actions: Vec<
        Action,
    >)
        ensures
            (final(self)@, actions@) == old(self)@.scrubbed(
                open_sources(open),
                abs as int,
                release,
            ),
    {
        if release {
            self.reset_skip();
        }
        let mut actions: Vec<Action> = Vec::new();
        assert(actions@ =~= seq![]);
        if let Some(request) = self.seek_abs(open, abs, release, Origin::Scrub) {
            actions.push(request);
            assert(actions@ =~= seq![request]);
        }
        actions
    }

    /// Runs the skip debounce if it is due: the burst is over.
    pub fn dispatch_deadlines(&mut self, open: Option<&Project>, now: u64) -> (actions: Vec<Action>)
        ensures
            (final(self)@, actions@) == old(self)@.dispatched(open_sources(open), now),
    {
        if let Some(due) = self.deadline {
            if due <= now {
                self.deadline = None;
                let decision = self.skip.burst_ended();
                return self.apply_skip(open, decision, now);
            }
        }
        let actions: Vec<Action> = Vec::new();
        assert(actions@ =~= seq![]);
        actions
    }

    /// Something the player reported. A burst's next seek is issued in answer
    /// to the landing, so the player is never idle between a burst's flights.
    pub fn player_event(&mut self, open: Option<&Project>, event: PlayerEvent, now: u64) -> (actions:
        Vec<Action>)
        ensures
            (final(self)@, actions@) == old(self)@.heard(open_sources(open), event, now),
    {
        let mut actions: Vec<Action> = Vec::new();
        assert(actions@ =~= seq![]);
        match event {
            PlayerEvent::SeekDone(Origin::Skip) => {
                let decision = self.skip.seek_completed();
                return self.apply_skip(open, decision, now);
            },
            PlayerEvent::SeekDisplaced(Origin::Skip) | PlayerEvent::SeekFailed(Origin::Skip) => {
                self.reset_skip();
            },
            PlayerEvent::SeekDone(_)
            | PlayerEvent::SeekDisplaced(_)
            | PlayerEvent::SeekFailed(_)
            | PlayerEvent::Loaded => {},
            PlayerEvent::Ended => {
                return self.end_of_stream(open);
            },
            PlayerEvent::Failed => {
                self.reset_skip();
                if self.playing {
                    self.playing = false;
                    actions.push(Action::Playing(false));
                    actions.push(Action::ReportFailure);
                    assert(actions@ =~= seq![Action::Playing(false), Action::ReportFailure]);
                } else {
                    actions.push(Action::ReportFailure);
                    assert(actions@ =~= seq![Action::ReportFailure]);
                }
            },
        }
        actions
    }

    /// Playback reached the end of the current source: continue into the next
    /// one from its start, or stop at the end of the last one, where its final
    /// frame stays up.
    fn end_of_stream(&mut self, open: Option<&Project>) -> (actions: Vec<Action>)
        ensures
            (final(self)@, actions@) == old(self)@.ended(open_sources(open)),
    {
        let mut actions: Vec<Action> = Vec::new();
        assert(actions@ =~= seq![]);
        if !self.playing {
            return actions;
        }
        if let Some(project) = open {
            let count: usize = project.source_videos.len();
            if self.current < count && self.addresses(open, self.current + 1) {
                let next: usize = self.current + 1;
                let request = self.load(project, next, 0, true, Origin::System);
                actions.push(request);
                assert(actions@ =~= seq![request]);
                return actions;
            }
        }
        self.set_playing(false)
    }

    /// Drops the loaded source, so no stale frame stays up: for no sources, or
    /// a current source that is missing.
    pub fn unload(&mut self) -> (actions: Vec<Action>)
        ensures
            (final(self)@, actions@) == old(self)@.unloaded(),
    {
        self.reset_skip();
        let mut actions: Vec<Action> = Vec::new();
        actions.push(Action::Unload);
        if self.playing {
            self.playing = false;
            actions.push(Action::Playing(false));
            assert(actions@ =~= seq![Action::Unload, Action::Playing(false)]);
        } else {
            assert(actions@ =~= seq![Action::Unload]);
        }
        actions
    }

    /// Loads the current source at `at` unless the player already holds it,
    /// and unloads the player when there is nothing to hold — no sources, or a
    /// missing current source.
    pub fn ensure_loaded(&mut self, open: Option<&Project>, player: &Player, at: i64) -> (actions:
        Vec<Action>)
        ensures
            (final(self)@, actions@) == old(self)@.ensured(open_sources(open), *player, at),
    {
        let current: usize = self.current;
        let mut actions: Vec<Action> = Vec::new();
        assert(actions@ =~= seq![]);
        match open {
            Some(project) => {
                if current >= project.source_videos.len() || current >= self.missing.len()
                    || self.missing[current] {
                    return self.unload();
                }
                if !player.holds && self.addresses(open, current) {
                    let request = self.load(project, current, at, true, Origin::System);
                    actions.push(request);
                    assert(actions@ =~= seq![request]);
                }
            },
            None => {
                return self.unload();
            },
        }
        actions
    }

    /// Pauses the game video at a place on a source: an exact user seek, like
    /// a scrub release. The skip burst is dropped first, so its debounce can't
    /// move the video afterwards.
    pub fn jump(&mut self, open: Option<&Project>, index: usize, at: i64) -> (actions: Vec<Action>)
        ensures
            (final(self)@, actions@) == old(self)@.jumped(open_sources(open), index, at),
    {
        self.reset_skip();
        self.playing = false;
        let mut actions: Vec<Action> = Vec::new();
        actions.push(Action::Playing(false));
        assert(actions@ =~= seq![Action::Playing(false)]);
        if self.seekable(open) && self.addresses(open, index) {
            if let Some(project) = open {
                let request = self.load(project, index, at, true, Origin::Scrub);
                actions.push(request);
                assert(actions@ =~= seq![Action::Playing(false)] + seq![request]);
            }
        }
        actions
    }

    /// Publishes where the player is heading, or the settled position once it
    /// is idle, unless that is what was published last.
    pub fn publish_position(&mut self, open: Option<&Project>, player: &Player) -> (actions: Vec<
        Action,
    >)
        ensures
            (final(self)@, actions@) == old(self)@.published(open, *player),
    {
        let mut actions: Vec<Action> = Vec::new();
        assert(actions@ =~= seq![]);
        if player.target.is_none() && !player.idle {
            return actions;
        }
        let target: Option<i128> = match (player.target, open) {
            (Some(t), Some(project)) => Some(project.abs_seconds(self.current, t)),
            _ => None,
        };
        let same = self.current == self.last_position.0 && match (target, self.last_position.1) {
            (Some(a), Some(b)) => a == b,
            (None, None) => true,
            _ => false,
        };
        if !same {
            self.last_position = (self.current, target);
            actions.push(Action::Position { source_index: self.current, target });
            assert(actions@ =~= seq![Action::Position { source_index: self.current, target }]);
        }
        actions
    }

    /// A source was removed: `kept` is where the current one is now, or `None`
    /// if it was the one removed, at `index`. Then the one that took its place
    /// is current, or the new last one.
    pub fn source_removed(&mut self, kept: Option<usize>, index: usize, remaining: usize)
        ensures
            final(self)@ == (TransportState {
                current: match kept {
                    Some(current) => current,
                    None => if index < remaining {
                        index
                    } else if remaining > 0 {
                        (remaining - 1) as usize
                    } else {
                        0
                    },
                },
                ..old(self)@.unskipped()
            }),
    {
        self.current = match kept {
            Some(current) => current,
            None => if index < remaining {
                index
            } else if remaining > 0 {
                remaining - 1
            } else {
                0
            },
        };
        self.reset_skip();
    }

    /// The sources were reordered: `current` is where the current one is now.
    pub fn source_moved(&mut self, current: usize)
        ensures
            final(self)@ == (TransportState { current, ..old(self)@.unskipped() }),
    {
        self.current = current;
        self.reset_skip();
    }

    /// Another file took source `index`'s place. Returns whether the player
    /// still shows the old one, and has to drop it; it resumes where it was, or
    /// was heading.
    pub fn source_relinked(&mut self, index: usize) -> (stale: bool)
        ensures
            stale == (index == old(self)@.current),
            final(self)@ == old(self)@.unskipped(),
    {
        self.reset_skip();
        index == self.current
    }

    /// Another project was opened: everything tied to the previous one is
    /// reset, and the game video pauses.
    pub fn project_opened(&mut self) -> (actions: Vec<Action>)
        ensures
            (final(self)@, actions@) == (TransportState {
                current: 0,
                ..old(self)@.unskipped()
            }).set_to(false),
    {
        self.reset_skip();
        self.current = 0;
        self.set_playing(false)
    }
}

// ---------------------------------------------------------------------------
// Volume.

/// A volume to apply.
#[derive(Debug, Clone, Copy, PartialEq, Eq, Structural)]
pub struct VolumeChange {
    /// In millionths.
    pub volume: i32,
    /// Whether it becomes the project's.
    pub keep: bool,
}

/// Sets the volume: applied at once, kept by the open project only on
/// `commit`. `None` is a value that isn't a number, and changes nothing.
pub fn set_volume(value: Option<i32>, commit: bool, project_open: bool) -> (change: Option<
    VolumeChange,
>)
    ensures
        change == match value {
            Some(v) => Some(
                VolumeChange {
                    volume: time::clamped(v as int, 0, FULL_VOLUME as int) as i32,
                    keep: commit && project_open,
                },
            ),
            None => None,
        },
{
    match value {
        Some(v) => {
            let volume: i32 = if v < 0 {
                0
            } else if v > FULL_VOLUME {
                FULL_VOLUME
            } else {
                v
            };
            Some(VolumeChange { volume, keep: commit && project_open })
        },
        None => None,
    }
}

// ---------------------------------------------------------------------------
// Laws.

/// Whether a skip's request is among some actions.
pub open spec fn asks_a_skip(actions: Seq<Action>) -> bool {
    exists|i: int|
        0 <= i < actions.len() && #[trigger] actions[i] is Seek && actions[i]->Seek_0.origin
            == Origin::Skip
}

/// **A burst is never left waiting**: after a skip key, a debounce or a
/// landing, the coordinator waits for a landing only if a skip was in flight
/// already or its request was just issued; and a displaced or failed flight,
/// or a player that failed, leaves it waiting for nothing.
pub proof fn law_a_burst_is_never_left_waiting(
    state: TransportState,
    open: Option<&Project>,
    player: Player,
    delta: i64,
    now: u64,
)
    ensures
        ({
            let (next, actions) = state.skipped(open, player, delta, now);
            next.skip.flying is Some ==> state.skip.flying is Some || asks_a_skip(actions)
        }),
        ({
            let (next, actions) = state.dispatched(open_sources(open), now);
            next.skip.flying is Some ==> state.skip.flying is Some || asks_a_skip(actions)
        }),
        ({
            let (next, actions) = state.heard(
                open_sources(open),
                PlayerEvent::SeekDone(Origin::Skip),
                now,
            );
            next.skip.flying is Some ==> asks_a_skip(actions)
        }),
        state.heard(
            open_sources(open),
            PlayerEvent::SeekDisplaced(Origin::Skip),
            now,
        ).0.skip.flying is None,
        state.heard(
            open_sources(open),
            PlayerEvent::SeekFailed(Origin::Skip),
            now,
        ).0.skip.flying is None,
        state.heard(open_sources(open), PlayerEvent::Failed, now).0.skip.flying is None,
{
    let all = open_sources(open);
    if state.seekable(all) {
        let at = saturated(open->0.offset(state.current as int) + player.at());
        let end = saturated(time::larger(project::laid_end_to_end(all) - END_MARGIN, 0));
        let (skip, decision) = state.skip.pressed(delta, at, end);
        lemma_a_decision_is_issued(TransportState { skip, ..state }, all, decision, now);
    }
    let (over, ending) = state.skip.burst_over();
    lemma_a_decision_is_issued(
        TransportState { skip: over, deadline: None, ..state },
        all,
        ending,
        now,
    );
    let (down, landing) = state.skip.landed();
    lemma_a_decision_is_issued(TransportState { skip: down, ..state }, all, landing, now);
}

proof fn lemma_a_decision_is_issued(
    state: TransportState,
    all: Seq<SourceRef>,
    decision: SkipDecision,
    now: u64,
)
    ensures
        ({
            let (next, actions) = state.decided(all, decision, now);
            &&& decision.seek is Some ==> next.skip.flying is None || asks_a_skip(actions)
            &&& decision.seek is None ==> next.skip == state.skip
        }),
{
    if let Some(seek) = decision.seek {
        let armed = TransportState {
            deadline: match decision.arm_debounce {
                Some(debounce) => Some(time::smaller(now + debounce, u64::MAX as int) as u64),
                None => state.deadline,
            },
            ..state
        };
        if let Some((next, actions)) = armed.sought(
            all,
            seek.target as int,
            seek.exact,
            Origin::Skip,
        ) {
            assert(actions[0] is Seek && actions[0]->Seek_0.origin == Origin::Skip);
        }
    }
}

/// **Nothing plays while a source is missing**, nor without sources: the play
/// key starts playback only when seeks are allowed. **Pausing is always
/// allowed.**
pub proof fn law_play_needs_every_source(
    state: TransportState,
    all: Seq<SourceRef>,
    player: Player,
)
    ensures
        state.toggled(all, player).0.playing ==> state.seekable(all) && !state.playing,
        state.playing ==> state.toggled(all, player) == state.set_to(false),
{
}

/// **Every load lands inside its source**, short of its end: whatever the
/// moment asked for, the request for source `index` is at its start or later
/// and never within [`END_MARGIN`] of its end, unless it is shorter than that.
pub proof fn law_loads_land_inside_their_source(
    state: TransportState,
    all: Seq<SourceRef>,
    index: usize,
    at: i64,
    exact: bool,
    origin: Origin,
)
    requires
        index < all.len(),
    ensures
        ({
            let (_, actions) = state.loading(all, index, at, exact, origin);
            let duration = all[index as int].duration;
            let landed = actions[0]->Seek_0.at;
            &&& actions.len() == 1
            &&& actions[0] is Seek
            &&& actions[0]->Seek_0.source == index
            &&& 0 <= landed
            &&& landed <= time::larger(duration - END_MARGIN, 0)
            &&& 0 <= at <= duration - END_MARGIN ==> landed == at
        }),
{
}

/// **A moment is where its source starts, and as far in as it says**: a moment
/// inside a source on the timeline is found on that source.
pub proof fn law_a_moment_is_found_on_its_source(all: Seq<SourceRef>, index: int, into: int)
    requires
        0 <= index < all.len(),
        0 <= into < all[index].duration,
        forall|i: int| 0 <= i < all.len() ==> 0 <= #[trigger] all[i].duration,
    ensures
        located(all, project::laid_end_to_end(all.take(index)) + into) == (index, into),
    decreases all.len(),
{
    let abs = project::laid_end_to_end(all.take(index)) + into;
    if index == all.len() - 1 {
        assert(all.take(index) =~= all.drop_last());
    } else {
        lemma_prefixes_grow(all, index + 1, all.len() - 1);
        assert(all.take(index + 1).drop_last() =~= all.take(index));
        assert(all.take(all.len() - 1) =~= all.drop_last());
        assert(abs < project::laid_end_to_end(all.drop_last()));
        assert(all.drop_last().take(index) =~= all.take(index));
        assert forall|i: int| 0 <= i < all.drop_last().len() implies 0
            <= #[trigger] all.drop_last()[i].duration by {
            assert(all.drop_last()[i] == all[i]);
        }
        law_a_moment_is_found_on_its_source(all.drop_last(), index, into);
    }
}

proof fn lemma_prefixes_grow(all: Seq<SourceRef>, from: int, to: int)
    requires
        0 <= from <= to <= all.len(),
        forall|i: int| 0 <= i < all.len() ==> 0 <= #[trigger] all[i].duration,
    ensures
        project::laid_end_to_end(all.take(from)) <= project::laid_end_to_end(all.take(to)),
    decreases to - from,
{
    if from < to {
        lemma_prefixes_grow(all, from, to - 1);
        assert(all.take(to).drop_last() =~= all.take(to - 1));
        assert(all.take(to).last() == all[to - 1]);
    }
}

/// **A position is never repeated unchanged**: publishing again with nothing
/// new publishes nothing.
pub proof fn law_a_position_is_published_once(
    state: TransportState,
    open: Option<&Project>,
    player: Player,
)
    ensures
        state.published(open, player).0.published(open, player) == (
            state.published(open, player).0,
            Seq::<Action>::empty(),
        ),
{
}

/// **Playback runs on into the next source** and stops at the end of the last
/// one, which stays current.
pub proof fn law_playback_runs_on(state: TransportState, all: Seq<SourceRef>)
    requires
        state.playing,
        state.current < all.len() <= usize::MAX,
        forall|i: int| 0 <= i < all.len() ==> #[trigger] state.addresses(all, i),
    ensures
        state.current + 1 < all.len() ==> state.ended(all).0.playing && state.ended(all).0.current
            == state.current + 1,
        state.current + 1 == all.len() ==> !state.ended(all).0.playing && state.ended(all).0.current
            == state.current,
{
    if state.current + 1 < all.len() {
        assert(state.addresses(all, state.current + 1));
    }
}

/// Where each source starts on the whole timeline, and where the last one
/// ends.
pub open spec fn start_at(all: Seq<SourceRef>, starts: Seq<int>) -> bool {
    &&& starts.len() == all.len() + 1
    &&& starts[0] == 0
    &&& forall|i: int|
        #![trigger all[i]]
        0 <= i < all.len() ==> all[i].duration >= 0 && starts[i + 1] == starts[i] + all[i].duration
}

/// Whether a moment falls on source `index`: not before it starts, and before
/// the next one does.
pub open spec fn falls_on(starts: Seq<int>, moment: int, index: int) -> bool {
    &&& 0 <= index < starts.len() - 1
    &&& starts[index] <= moment
    &&& index < starts.len() - 2 ==> moment < starts[index + 1]
}

/// Whether every source's file is there, and there is one.
pub open spec fn all_are_there(state: TransportState, all: Seq<SourceRef>) -> bool {
    all.len() > 0 && forall|i: int| 0 <= i < state.missing.len() ==> !#[trigger] state.missing[i]
}

/// Whether `landed` is as far into a source as asked, but short of the last
/// 0.05 s.
pub open spec fn lands(landed: int, into: int, duration: int) -> bool {
    &&& 0 <= landed
    &&& 0 <= into <= duration - 150_000_000 ==> landed == into
    &&& into >= duration - 150_000_000 >= 0 ==> landed == duration - 150_000_000
    &&& into < 0 || duration < 150_000_000 ==> landed == 0
}

/// Where a source starts is as long as those before it are.
pub proof fn lemma_starts(all: Seq<SourceRef>, starts: Seq<int>, i: int)
    requires
        start_at(all, starts),
        0 <= i <= all.len(),
    ensures
        project::laid_end_to_end(all.take(i)) == starts[i],
        starts[i] >= 0,
    decreases i,
{
    if i > 0 {
        lemma_starts(all, starts, i - 1);
        assert(all.take(i).drop_last() =~= all.take(i - 1));
        assert(all.take(i).last() == all[i - 1]);
    }
}

proof fn lemma_starts_grow(all: Seq<SourceRef>, starts: Seq<int>, from: int, to: int)
    requires
        start_at(all, starts),
        0 <= from <= to <= all.len(),
    ensures
        starts[from] <= starts[to],
    decreases to - from,
{
    if from < to {
        lemma_starts_grow(all, starts, from, to - 1);
        assert(all[to - 1].duration >= 0);
    }
}

proof fn lemma_located(all: Seq<SourceRef>, starts: Seq<int>, moment: int, index: int, count: int)
    requires
        start_at(all, starts),
        falls_on(starts, moment, index),
        index < count <= all.len(),
        moment <= starts[all.len() as int],
    ensures
        located(all.take(count), moment) == (index, moment - starts[index]),
    decreases count,
{
    let some = all.take(count);
    assert(some.drop_last() =~= all.take(count - 1));
    lemma_starts(all, starts, count - 1);
    assert(some.last() == all[count - 1]);
    if index == count - 1 {
        assert(starts[index + 1] == starts[index] + all[index].duration);
        assert(moment <= starts[index + 1]);
    } else {
        lemma_starts_grow(all, starts, index + 1, count - 1);
        lemma_located(all, starts, moment, index, count - 1);
    }
}

/// **A skip key seeks**, playing or not: while every source is there and no
/// skip is in flight, it asks for one exact seek, to where the burst was
/// heading or the player is (or is heading), `delta` further on the whole
/// timeline, kept short of its end. It plays on if it played.
pub proof fn law_a_skip_key_seeks(
    state: TransportState,
    open: &Project,
    player: Player,
    delta: i64,
    now: u64,
    starts: Seq<int>,
    wanted: int,
    index: int,
)
    requires
        start_at(open.source_videos@, starts),
        all_are_there(state, open.source_videos@),
        starts.last() <= i64::MAX,
        state.current < open.source_videos@.len(),
        state.skip.flying is None,
        ({
            let into = match (player.target, player.position) {
                (Some(heading), _) => heading as int,
                (None, Some(position)) => position as int,
                (None, None) => 0,
            };
            let base = match state.skip.target {
                Some(burst) => burst as int,
                None => starts[state.current as int] + into,
            };
            let end = starts.last() - 150_000_000;
            &&& starts[state.current as int] + into <= i64::MAX
            &&& base + delta < 0 || end < 0 ==> wanted == 0
            &&& base + delta > end >= 0 ==> wanted == end
            &&& 0 <= base + delta <= end ==> wanted == base + delta
        }),
        falls_on(starts, wanted, index),
        index < state.addressed.len() && state.addressed[index],
        open.source_videos@.len() <= usize::MAX,
    ensures
        ({
            let (next, actions) = state.skipped(Some(open), player, delta, now);
            &&& actions.len() == 1
            &&& actions[0] is Seek
            &&& actions[0]->Seek_0.exact
            &&& actions[0]->Seek_0.origin == Origin::Skip
            &&& actions[0]->Seek_0.source == index
            &&& lands(
                actions[0]->Seek_0.at as int,
                wanted - starts[index],
                open.source_videos@[index].duration as int,
            )
            &&& next.playing == state.playing
            &&& next.current == index
            &&& next.skip.target == Some(wanted as i64)
            &&& next.skip.flying == Some(wanted as i64)
            &&& next.deadline == state.deadline
            &&& next.missing == state.missing && next.addressed == state.addressed
        }),
{
    let all = open.source_videos@;
    let n = all.len() as int;
    lemma_starts(all, starts, n);
    lemma_starts(all, starts, state.current as int);
    assert(all.take(n) =~= all);
    lemma_located(all, starts, wanted, index, n);
    lemma_starts_grow(all, starts, index, n);
    lemma_starts(all, starts, index);
}

/// **A scrub seeks**: a move asks for a keyframe, a release for the exact
/// frame, of the place on the whole timeline; a moment past an end of the
/// timeline is that end. A release drops the skip burst, a move leaves it.
/// Neither plays or pauses.
pub proof fn law_a_scrub_seeks(
    state: TransportState,
    all: Seq<SourceRef>,
    abs: int,
    release: bool,
    starts: Seq<int>,
    wanted: int,
    index: int,
)
    requires
        start_at(all, starts),
        all_are_there(state, all),
        abs < 0 ==> wanted == 0 && index == 0,
        abs > starts.last() ==> wanted == starts.last(),
        0 <= abs <= starts.last() ==> wanted == abs,
        abs >= 0 ==> falls_on(starts, wanted, index),
        index < state.addressed.len() && state.addressed[index],
        all.len() <= usize::MAX,
    ensures
        ({
            let (next, actions) = state.scrubbed(all, abs, release);
            &&& actions.len() == 1
            &&& actions[0] is Seek
            &&& actions[0]->Seek_0.exact == release
            &&& actions[0]->Seek_0.origin == Origin::Scrub
            &&& actions[0]->Seek_0.source == index
            &&& lands(
                actions[0]->Seek_0.at as int,
                wanted - starts[index],
                all[index].duration as int,
            )
            &&& next.playing == state.playing
            &&& next.current == index
            &&& release ==> next.skip.target is None && next.skip.flying is None
                && !next.skip.exact_pending && next.deadline is None
            &&& !release ==> next.skip == state.skip && next.deadline == state.deadline
        }),
{
    let n = all.len() as int;
    assert(all.take(n) =~= all);
    lemma_starts(all, starts, n);
    if abs < 0 {
        lemma_located_before(all, starts, abs, n);
    } else {
        lemma_located(all, starts, wanted, index, n);
        if abs > starts.last() {
            lemma_starts(all, starts, n - 1);
            lemma_starts_grow(all, starts, n - 1, n);
            assert(all.drop_last() =~= all.take(n - 1));
        }
    }
    lemma_starts(all, starts, index);
}

proof fn lemma_located_before(all: Seq<SourceRef>, starts: Seq<int>, moment: int, count: int)
    requires
        start_at(all, starts),
        moment < 0,
        0 < count <= all.len(),
    ensures
        located(all.take(count), moment) == (0int, 0int),
    decreases count,
{
    let some = all.take(count);
    assert(some.drop_last() =~= all.take(count - 1));
    lemma_starts(all, starts, count - 1);
    assert(some.last() == all[count - 1]);
    if count > 1 {
        lemma_located_before(all, starts, moment, count - 1);
    }
}

/// **Nothing seeks without its files**: with a source missing, or none at all,
/// a skip key does nothing, and a scrub and a jump ask for no seek.
pub proof fn law_nothing_seeks_without_its_files(
    state: TransportState,
    open: Option<&Project>,
    player: Player,
    delta: i64,
    now: u64,
    abs: int,
    release: bool,
    index: usize,
    at: i64,
)
    requires
        open is None || (open->0).source_videos@.len() == 0 || exists|i: int|
            0 <= i < state.missing.len() && #[trigger] state.missing[i],
    ensures
        state.skipped(open, player, delta, now) == (state, Seq::<Action>::empty()),
        state.scrubbed(open_sources(open), abs, release).1.len() == 0,
        state.scrubbed(open_sources(open), abs, release).0.playing == state.playing,
        state.scrubbed(open_sources(open), abs, release).0.current == state.current,
        state.jumped(open_sources(open), index, at).1 == seq![Action::Playing(false)],
        state.jumped(open_sources(open), index, at).0.current == state.current,
{
}

/// **A skip key during a flight only adds up**: it asks for nothing, moves the
/// burst's target, and puts the debounce off by the burst window.
pub proof fn law_a_skip_key_in_flight_adds_up(
    state: TransportState,
    open: &Project,
    player: Player,
    delta: i64,
    now: u64,
    starts: Seq<int>,
)
    requires
        start_at(open.source_videos@, starts),
        all_are_there(state, open.source_videos@),
        150_000_000 <= starts.last() <= i64::MAX,
        state.skip.flying is Some,
        state.skip.target is Some,
        now + state.skip.burst_window <= u64::MAX,
    ensures
        ({
            let (next, actions) = state.skipped(Some(open), player, delta, now);
            let summed = state.skip.target->0 + delta;
            let end = starts.last() - 150_000_000;
            &&& actions.len() == 0
            &&& next.playing == state.playing && next.current == state.current
            &&& next.deadline == Some((now + state.skip.burst_window) as u64)
            &&& next.skip.flying == state.skip.flying
            &&& next.skip.target is Some
            &&& summed < 0 ==> next.skip.target->0 == 0
            &&& summed > end ==> next.skip.target->0 == end
            &&& 0 <= summed <= end ==> next.skip.target->0 == summed
        }),
{
    let all = open.source_videos@;
    lemma_starts(all, starts, all.len() as int);
    assert(all.take(all.len() as int) =~= all);
}

/// **A burst chases its target and settles on it**: a landing while the target
/// has moved on asks for a keyframe there, the debounce for the exact frame,
/// and either goes to the place the burst added up to. Neither plays or
/// pauses.
pub proof fn law_a_burst_goes_where_it_added_up_to(
    state: TransportState,
    all: Seq<SourceRef>,
    now: u64,
    starts: Seq<int>,
    index: int,
)
    requires
        start_at(all, starts),
        all_are_there(state, all),
        state.skip.target is Some,
        0 <= state.skip.target->0 <= starts.last(),
        falls_on(starts, state.skip.target->0 as int, index),
        index < state.addressed.len() && state.addressed[index],
        all.len() <= usize::MAX,
    ensures
        state.skip.flying is Some && !state.skip.exact_pending && state.skip.flying
            != state.skip.target ==> ({
            let (next, actions) = state.heard(all, PlayerEvent::SeekDone(Origin::Skip), now);
            &&& actions.len() == 1 && actions[0] is Seek
            &&& !actions[0]->Seek_0.exact
            &&& actions[0]->Seek_0.origin == Origin::Skip
            &&& actions[0]->Seek_0.source == index
            &&& lands(
                actions[0]->Seek_0.at as int,
                state.skip.target->0 - starts[index],
                all[index].duration as int,
            )
            &&& next.playing == state.playing
            &&& next.skip.target == state.skip.target
        }),
        state.skip.flying is Some && state.skip.exact_pending ==> ({
            let (next, actions) = state.heard(all, PlayerEvent::SeekDone(Origin::Skip), now);
            &&& actions.len() == 1 && actions[0] is Seek
            &&& actions[0]->Seek_0.exact
            &&& actions[0]->Seek_0.origin == Origin::Skip
            &&& actions[0]->Seek_0.source == index
            &&& lands(
                actions[0]->Seek_0.at as int,
                state.skip.target->0 - starts[index],
                all[index].duration as int,
            )
            &&& next.playing == state.playing
            &&& next.skip.target is None
        }),
        state.skip.flying is None && state.deadline is Some && state.deadline->0 <= now ==> ({
            let (next, actions) = state.dispatched(all, now);
            &&& actions.len() == 1 && actions[0] is Seek
            &&& actions[0]->Seek_0.exact
            &&& actions[0]->Seek_0.origin == Origin::Skip
            &&& actions[0]->Seek_0.source == index
            &&& lands(
                actions[0]->Seek_0.at as int,
                state.skip.target->0 - starts[index],
                all[index].duration as int,
            )
            &&& next.playing == state.playing
            &&& next.skip.target is None && next.deadline is None
        }),
        state.skip.flying is Some && state.deadline is Some && state.deadline->0 <= now ==> ({
            let (next, actions) = state.dispatched(all, now);
            &&& actions.len() == 0
            &&& next.skip.exact_pending && next.skip.target == state.skip.target
            &&& next.deadline is None
        }),
        state.deadline is None || state.deadline->0 > now ==> state.dispatched(all, now) == (
            state,
            Seq::<Action>::empty(),
        ),
{
    let n = all.len() as int;
    assert(all.take(n) =~= all);
    lemma_located(all, starts, state.skip.target->0 as int, index, n);
    lemma_starts(all, starts, index);
}

/// **The play key plays what is there**: paused, with every source there, it
/// plays; if the player dropped its source, that is loaded first, where it was.
/// Playing, or with a source missing, it pauses.
pub proof fn law_the_play_key_plays(
    state: TransportState,
    all: Seq<SourceRef>,
    player: Player,
)
    requires
        state.current < all.len(),
        state.current < state.addressed.len() && state.addressed[state.current as int],
    ensures
        state.playing ==> state.toggled(all, player).1 == seq![Action::Playing(false)]
            && !state.toggled(all, player).0.playing,
        !state.playing && !all_are_there(state, all) ==> state.toggled(all, player).1
            == seq![Action::Playing(false)] && !state.toggled(all, player).0.playing,
        !state.playing && all_are_there(state, all) && player.holds ==> state.toggled(
            all,
            player,
        ).1 == seq![Action::Playing(true)] && state.toggled(all, player).0.playing,
        !state.playing && all_are_there(state, all) && !player.holds ==> ({
            let (next, actions) = state.toggled(all, player);
            &&& next.playing
            &&& actions.len() == 2
            &&& actions[0] is Seek
            &&& actions[0]->Seek_0.source == state.current
            &&& actions[0]->Seek_0.exact
            &&& actions[0]->Seek_0.origin == Origin::System
            &&& lands(
                actions[0]->Seek_0.at as int,
                match (player.target, player.position) {
                    (Some(heading), _) => heading as int,
                    (None, Some(position)) => position as int,
                    (None, None) => 0,
                },
                all[state.current as int].duration as int,
            )
            &&& actions[1] == Action::Playing(true)
        }),
        state.toggled(all, player).0.current == state.current,
        state.toggled(all, player).0.skip == state.skip,
{
}

/// **A jump pauses, and seeks to the exact place**; the skip burst is dropped.
pub proof fn law_a_jump_pauses_there(
    state: TransportState,
    all: Seq<SourceRef>,
    index: usize,
    at: i64,
)
    requires
        all_are_there(state, all),
        index < all.len(),
        index < state.addressed.len() && state.addressed[index as int],
    ensures
        ({
            let (next, actions) = state.jumped(all, index, at);
            &&& !next.playing
            &&& next.current == index
            &&& next.skip.target is None && next.skip.flying is None && next.deadline is None
            &&& actions.len() == 2
            &&& actions[0] == Action::Playing(false)
            &&& actions[1] is Seek
            &&& actions[1]->Seek_0.source == index
            &&& actions[1]->Seek_0.exact
            &&& actions[1]->Seek_0.origin == Origin::Scrub
            &&& lands(actions[1]->Seek_0.at as int, at as int, all[index as int].duration as int)
        }),
{
}

/// **What the player reports is answered**: at the end of a source that plays,
/// the next one is loaded from its start, and after the last one it pauses; a
/// failure is reported, and stops playback; what is no skip's changes nothing.
pub proof fn law_the_player_is_answered(
    state: TransportState,
    all: Seq<SourceRef>,
    now: u64,
    origin: Origin,
)
    requires
        state.current < all.len() <= usize::MAX,
        state.addressed.len() == all.len(),
    ensures
        state.playing && state.current + 1 < all.len() && state.addressed[state.current + 1] ==> ({
            let (next, actions) = state.heard(all, PlayerEvent::Ended, now);
            &&& next.playing && next.current == state.current + 1
            &&& actions.len() == 1 && actions[0] is Seek
            &&& actions[0]->Seek_0.source == state.current + 1
            &&& actions[0]->Seek_0.at == 0
            &&& actions[0]->Seek_0.exact
            &&& actions[0]->Seek_0.origin == Origin::System
        }),
        state.playing && state.current + 1 == all.len() ==> ({
            let (next, actions) = state.heard(all, PlayerEvent::Ended, now);
            !next.playing && next.current == state.current && actions == seq![
                Action::Playing(false),
            ]
        }),
        !state.playing ==> state.heard(all, PlayerEvent::Ended, now) == (
            state,
            Seq::<Action>::empty(),
        ),
        ({
            let (next, actions) = state.heard(all, PlayerEvent::Failed, now);
            &&& !next.playing && next.current == state.current
            &&& next.skip.target is None && next.skip.flying is None && next.deadline is None
            &&& actions.last() == Action::ReportFailure
            &&& actions.contains(Action::Playing(false)) == state.playing
        }),
        origin != Origin::Skip ==> state.heard(all, PlayerEvent::SeekDone(origin), now) == (
            state,
            Seq::<Action>::empty(),
        ) && state.heard(all, PlayerEvent::SeekDisplaced(origin), now) == (
            state,
            Seq::<Action>::empty(),
        ) && state.heard(all, PlayerEvent::SeekFailed(origin), now) == (
            state,
            Seq::<Action>::empty(),
        ),
        state.heard(all, PlayerEvent::Loaded, now) == (state, Seq::<Action>::empty()),
        ({
            let (next, actions) = state.heard(all, PlayerEvent::SeekDisplaced(Origin::Skip), now);
            &&& actions.len() == 0 && next.playing == state.playing && next.current
                == state.current
            &&& next.skip.target is None && next.skip.flying is None && next.deadline is None
        }),
        ({
            let (next, actions) = state.heard(all, PlayerEvent::SeekFailed(Origin::Skip), now);
            &&& actions.len() == 0 && next.playing == state.playing && next.current
                == state.current
            &&& next.skip.target is None && next.skip.flying is None && next.deadline is None
        }),
{
    if state.playing {
        assert(state.heard(all, PlayerEvent::Failed, now).1[0] == Action::Playing(false));
    }
}

/// **The player holds what there is to hold**: a source that is there and not
/// held is loaded, one that is missing is dropped and playback stops.
pub proof fn law_the_player_holds_what_is_there(
    state: TransportState,
    all: Seq<SourceRef>,
    player: Player,
    at: i64,
)
    requires
        state.missing.len() == all.len(),
        state.addressed.len() == all.len(),
    ensures
        ({
            let (next, actions) = state.ensured(all, player, at);
            let there = state.current < all.len() && !state.missing[state.current as int];
            &&& next.current == state.current
            &&& !there ==> !next.playing && next.skip.target is None && next.skip.flying is None
                && next.deadline is None && actions[0] == Action::Unload && actions.contains(
                Action::Playing(false),
            ) == state.playing
            &&& there ==> next.playing == state.playing
            &&& there && player.holds ==> actions.len() == 0
            &&& there && !player.holds && state.addressed[state.current as int] ==> {
                &&& actions.len() == 1 && actions[0] is Seek
                &&& actions[0]->Seek_0.source == state.current
                &&& actions[0]->Seek_0.exact
                &&& actions[0]->Seek_0.origin == Origin::System
                &&& lands(
                    actions[0]->Seek_0.at as int,
                    at as int,
                    all[state.current as int].duration as int,
                )
            }
        }),
{
    let (_, actions) = state.ensured(all, player, at);
    if state.playing && actions.len() == 2 {
        assert(actions[1] == Action::Playing(false));
    }
}

/// **A position is published as it is**: on its source, and the moment of the
/// whole timeline it is heading for, as soon as that is new.
pub proof fn law_a_new_position_is_published(
    state: TransportState,
    open: &Project,
    player: Player,
    starts: Seq<int>,
)
    requires
        start_at(open.source_videos@, starts),
        state.current < open.source_videos@.len(),
        starts.last() <= i64::MAX,
    ensures
        player.target matches Some(t) ==> ({
            let (next, actions) = state.published(Some(open), player);
            let moment = (starts[state.current as int] + t) as i128;
            &&& state.last_position != (state.current, Some(moment)) ==> actions == seq![
                Action::Position { source_index: state.current, target: Some(moment) },
            ]
            &&& next.last_position == (state.current, Some(moment))
        }),
        player.target is None && player.idle ==> ({
            let (next, actions) = state.published(Some(open), player);
            &&& state.last_position != (state.current, None::<i128>) ==> actions == seq![
                Action::Position { source_index: state.current, target: None },
            ]
            &&& next.last_position == (state.current, None::<i128>)
        }),
        player.target is None && !player.idle ==> state.published(Some(open), player) == (
            state,
            Seq::<Action>::empty(),
        ),
{
    lemma_starts(open.source_videos@, starts, state.current as int);
}

/// **A volume is kept between silence and full**, and is the project's only
/// once it is committed in one. What is no number changes nothing.
pub proof fn law_a_volume_is_kept_in_range(
    value: i32,
    commit: bool,
    project_open: bool,
    change: Option<VolumeChange>,
    none: Option<VolumeChange>,
)
    requires
        call_ensures(set_volume, (Some(value), commit, project_open), change),
        call_ensures(set_volume, (None, commit, project_open), none),
    ensures
        none is None,
        change is Some,
        0 <= value <= 1_000_000 ==> change->0.volume == value,
        value < 0 ==> change->0.volume == 0,
        value > 1_000_000 ==> change->0.volume == 1_000_000,
        change->0.keep <==> commit && project_open,
{
}

/// **The skip key skips**: pressed while every source is there and nothing is
/// in flight, with no burst going on, it asks for one exact seek to `delta`
/// past where the player is on the whole timeline, and playback goes on if it
/// was on.
pub proof fn law_the_skip_key_skips(
    transport: &mut Transport,
    open: &Project,
    player: &Player,
    delta: i64,
    now: u64,
    actions: Vec<Action>,
    starts: Seq<int>,
    into: i64,
    wanted: int,
    index: int,
)
    requires
        call_ensures(Transport::skip, (transport, Some(open), player, delta, now), actions),
        start_at(open.source_videos@, starts),
        all_are_there(old(transport)@, open.source_videos@),
        150_000_000 <= starts.last() <= i64::MAX,
        old(transport)@.current < open.source_videos@.len() <= usize::MAX,
        old(transport)@.skip.flying is None,
        old(transport)@.skip.target is None,
        player.target == Some(into) || (player.target is None && player.position == Some(into)),
        ({
            let here = starts[old(transport)@.current as int] + into;
            let end = starts.last() - 150_000_000;
            &&& here <= i64::MAX
            &&& here + delta < 0 ==> wanted == 0
            &&& here + delta > end ==> wanted == end
            &&& 0 <= here + delta <= end ==> wanted == here + delta
        }),
        falls_on(starts, wanted, index),
        index < old(transport)@.addressed.len() && old(transport)@.addressed[index],
    ensures
        actions@.len() == 1,
        actions@[0] is Seek,
        actions@[0]->Seek_0.exact,
        actions@[0]->Seek_0.origin == Origin::Skip,
        actions@[0]->Seek_0.source == index,
        lands(
            actions@[0]->Seek_0.at as int,
            wanted - starts[index],
            open.source_videos@[index].duration as int,
        ),
        final(transport)@.playing == old(transport)@.playing,
        final(transport)@.current == index,
{
    law_a_skip_key_seeks(
        old(transport)@,
        open,
        *player,
        delta,
        now,
        starts,
        wanted,
        index,
    );
}

/// **The play key turns playback on and off**: off from playing, on from paused
/// while every source is there.
pub proof fn law_the_play_key_turns_playback(
    transport: &mut Transport,
    open: &Project,
    player: &Player,
    actions: Vec<Action>,
)
    requires
        call_ensures(Transport::toggle_play, (transport, Some(open), player), actions),
        old(transport)@.current < open.source_videos@.len(),
        old(transport)@.current < old(transport)@.addressed.len(),
        old(transport)@.addressed[old(transport)@.current as int],
    ensures
        final(transport)@.playing <==> !old(transport)@.playing && all_are_there(
            old(transport)@,
            open.source_videos@,
        ),
        actions@.len() > 0,
        actions@.last() == Action::Playing(final(transport)@.playing),
{
    law_the_play_key_plays(old(transport)@, open.source_videos@, *player);
}

/// **A change of the sources stops no playback, and ends the skip burst**: what
/// was current stays so where it is now; where it was removed, the one that took
/// its place is, or the last one left.
pub proof fn law_a_change_of_the_sources_keeps_what_is_current(
    removing: &mut Transport,
    moving: &mut Transport,
    relinking: &mut Transport,
    kept: Option<usize>,
    index: usize,
    remaining: usize,
    current: usize,
    stale: bool,
)
    requires
        call_ensures(Transport::source_removed, (removing, kept, index, remaining), ()),
        call_ensures(Transport::source_moved, (moving, current), ()),
        call_ensures(Transport::source_relinked, (relinking, index), stale),
    ensures
        kept matches Some(place) ==> final(removing)@.current == place,
        kept is None && index < remaining ==> final(removing)@.current == index,
        kept is None && index >= remaining > 0 ==> final(removing)@.current == remaining - 1,
        kept is None && remaining == 0 ==> final(removing)@.current == 0,
        final(removing)@.playing == old(removing)@.playing,
        final(removing)@.skip.target is None && final(removing)@.skip.flying is None
            && final(removing)@.deadline is None,
        final(moving)@.current == current,
        final(moving)@.playing == old(moving)@.playing,
        final(moving)@.skip.target is None && final(moving)@.skip.flying is None
            && final(moving)@.deadline is None,
        stale <==> index == old(relinking)@.current,
        final(relinking)@.current == old(relinking)@.current,
        final(relinking)@.skip.target is None && final(relinking)@.skip.flying is None
            && final(relinking)@.deadline is None,
{
}

/// **A project opens paused, on its first source.**
pub proof fn law_a_project_opens_paused(transport: &mut Transport, actions: Vec<Action>)
    requires
        call_ensures(Transport::project_opened, (transport,), actions),
    ensures
        !final(transport)@.playing,
        final(transport)@.current == 0,
        final(transport)@.skip.target is None && final(transport)@.skip.flying is None
            && final(transport)@.deadline is None,
        actions@ == seq![Action::Playing(false)],
{
}

} // verus!
