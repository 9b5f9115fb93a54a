//! Transport: skip bursts over the concat timeline, scrub release, the end of
//! the stream and the clamp at a source's end. A small player stands in for
//! the pipeline: a request lands as soon as it is looked at.

use video_coach::project::{Project, SourceRef};
use video_coach::skip::{SeekParams, SkipCoordinator, SkipDecision, DEFAULT_BURST_WINDOW};
use video_coach::transport::{
    set_volume, Action, Origin, Player, PlayerEvent, Request, Transport, VolumeChange,
};

fn ticks(seconds: f64) -> i64 {
    (seconds * 3_000_000_000.0).round() as i64
}

fn at(seconds: f64) -> i128 {
    i128::from(ticks(seconds))
}

fn project(durations: &[f64]) -> Project {
    let mut p = Project::new("p".to_string());
    for (i, &d) in durations.iter().enumerate() {
        p.source_videos.push(SourceRef {
            relative_path: format!("{i}.webm"),
            display_name: format!("{i}.webm"),
            duration: ticks(d),
            display_aspect: 1_777_777_778,
        });
    }
    p
}

struct Rig {
    project: Project,
    transport: Transport,
    held: Option<usize>,
    position: Option<i64>,
    flying: Option<Request>,
    now: u64,
    log: Vec<Action>,
}

impl Rig {
    fn open(durations: &[f64]) -> Self {
        let mut rig = Rig {
            project: project(durations),
            transport: Transport::default(),
            held: None,
            position: None,
            flying: None,
            now: 1_000,
            log: Vec::new(),
        };
        rig.all_present();
        let opened = rig.transport.project_opened();
        rig.carry_out(opened);
        let player = rig.player();
        let load = rig.transport.ensure_loaded(Some(&rig.project), &player, 0);
        rig.carry_out(load);
        rig.settle_at(0, 0.0);
        rig
    }

    fn all_present(&mut self) {
        let n = self.project.source_videos.len();
        self.transport.set_files(vec![false; n], vec![true; n]);
    }

    fn player(&self) -> Player {
        let heading = self.flying.map(|r| r.source).or(self.held);
        Player {
            holds: heading == Some(self.transport.current()),
            target: self.flying.map(|r| r.at),
            position: self.position,
            idle: self.flying.is_none(),
        }
    }

    fn carry_out(&mut self, actions: Vec<Action>) {
        for action in actions {
            self.log.push(action);
            match action {
                Action::Seek(request) => {
                    if let Some(displaced) = self.flying.replace(request) {
                        let more = self.transport.player_event(
                            Some(&self.project),
                            PlayerEvent::SeekDisplaced(displaced.origin),
                            self.now,
                        );
                        self.carry_out(more);
                    }
                }
                Action::Unload => {
                    self.held = None;
                    self.flying = None;
                }
                _ => {}
            }
        }
    }

    /// Lands requests and lets the debounce fire until nothing is left to do.
    fn settle(&mut self) {
        loop {
            if let Some(request) = self.flying.take() {
                self.held = Some(request.source);
                self.position = Some(request.at);
                self.now += 5;
                let more = self.transport.player_event(
                    Some(&self.project),
                    PlayerEvent::SeekDone(request.origin),
                    self.now,
                );
                self.carry_out(more);
            } else if let Some(due) = self.transport.deadline() {
                self.now = self.now.max(due);
                let more = self.transport.dispatch_deadlines(Some(&self.project), self.now);
                self.carry_out(more);
            } else {
                break;
            }
        }
        let player = self.player();
        let position = self.transport.publish_position(Some(&self.project), &player);
        self.carry_out(position);
    }

    fn settle_at(&mut self, index: usize, seconds: f64) {
        self.settle();
        assert_eq!(self.held, Some(index));
        assert_eq!(self.position, Some(ticks(seconds)), "in source {index}");
        assert_eq!(self.transport.current(), index);
    }

    fn skips(&mut self, deltas: &[f64]) {
        for &delta in deltas {
            let player = self.player();
            let actions = self.transport.skip(
                Some(&self.project),
                &player,
                ticks(delta),
                self.now,
            );
            self.carry_out(actions);
        }
    }

    fn scrub(&mut self, seconds: f64, release: bool) {
        let actions = self.transport.scrub(Some(&self.project), at(seconds), release);
        self.carry_out(actions);
    }

    fn toggle(&mut self) -> Vec<Action> {
        let player = self.player();
        let actions = self.transport.toggle_play(Some(&self.project), &player);
        self.carry_out(actions.clone());
        actions
    }

    fn ended(&mut self) -> Vec<Action> {
        let actions = self.transport.player_event(
            Some(&self.project),
            PlayerEvent::Ended,
            self.now,
        );
        self.carry_out(actions.clone());
        actions
    }
}

#[test]
fn a_skip_burst_across_a_source_boundary_lands_on_the_accumulated_target() {
    let mut rig = Rig::open(&[2.0, 2.0]);
    rig.skips(&[0.8, 0.8, 0.8, 0.8]);
    rig.settle_at(1, 3.2 - 2.0);
    // The landing that settled the burst was exact.
    let last = rig.log.iter().rev().find_map(|a| match a {
        Action::Seek(r) => Some(*r),
        _ => None,
    });
    assert!(last.unwrap().exact);

    // And back across it.
    rig.skips(&[-0.8, -0.8]);
    rig.settle_at(0, 1.6);
}

#[test]
fn a_skip_burst_then_a_scrub_release_never_sticks() {
    let mut rig = Rig::open(&[2.0, 2.0]);
    rig.skips(&[0.8, 0.8, 0.8, 0.8]);
    rig.scrub(0.5, true);
    rig.settle_at(0, 0.5);

    // The abandoned burst doesn't resume, and the next skip works.
    rig.skips(&[1.0]);
    rig.settle_at(0, 1.5);
    rig.skips(&[0.7, 0.7]);
    rig.settle_at(1, 0.9);
}

#[test]
fn eos_advances_to_the_next_source_and_keeps_playing() {
    let mut rig = Rig::open(&[1.0, 1.0]);
    assert_eq!(rig.toggle(), [Action::Playing(true)]);
    rig.position = Some(ticks(1.0));
    let advanced = rig.ended();
    assert_eq!(
        advanced,
        [Action::Seek(Request { source: 1, at: 0, exact: true, origin: Origin::System })]
    );
    rig.settle_at(1, 0.0);
    assert!(rig.transport.is_playing(), "playback stopped at the boundary");
}

#[test]
fn eos_on_the_last_source_leaves_it_paused_at_the_end() {
    let mut rig = Rig::open(&[1.0]);
    rig.toggle();
    rig.position = Some(ticks(1.0));
    assert_eq!(rig.ended(), [Action::Playing(false)]);
    rig.settle();
    assert_eq!(rig.position, Some(ticks(1.0)), "nothing reloaded after the end");
    assert_eq!(rig.held, Some(0));
}

#[test]
fn a_seek_in_the_final_second_stays_in_its_source() {
    let mut rig = Rig::open(&[2.0, 2.0]);
    rig.scrub(1.5, true);
    rig.settle_at(0, 1.5);
    // Just short of the boundary: clamped short of a's end, not into b.
    rig.scrub(1.99, true);
    rig.settle_at(0, 1.95);
    // A skip to the same place, from the start.
    rig.scrub(0.0, true);
    rig.settle_at(0, 0.0);
    rig.skips(&[1.99]);
    rig.settle_at(0, 1.95);

    // Past the end of the timeline: short of the last source's end.
    rig.skips(&[10.0]);
    rig.settle_at(1, 1.95);
    rig.scrub(100.0, true);
    rig.settle_at(1, 1.95);
}

#[test]
fn the_position_survives_removing_an_earlier_source() {
    let mut rig = Rig::open(&[2.0, 2.0, 2.0]);
    rig.scrub(4.7, true);
    rig.settle_at(2, 0.7);

    let kept = rig.project.remove_source(0, 2).unwrap();
    rig.transport.source_removed(kept, 0, rig.project.source_videos.len());
    rig.all_present();
    rig.held = kept;
    // c is now source 1, still at 0.7: nothing reloaded.
    let player = rig.player();
    let actions = rig.transport.ensure_loaded(Some(&rig.project), &player, 0);
    assert!(actions.is_empty());
    rig.settle_at(1, 0.7);

    // Skips work from the new offsets.
    rig.skips(&[0.5]);
    rig.settle_at(1, 1.2);
}

#[test]
fn a_relinked_source_resumes_where_it_was() {
    let mut rig = Rig::open(&[2.0, 2.0]);
    rig.scrub(0.7, true);
    rig.settle_at(0, 0.7);

    // Another source: nothing reloads.
    assert!(!rig.transport.source_relinked(1));
    let resume = rig.player().current_at();
    let player = rig.player();
    assert!(rig.transport.ensure_loaded(Some(&rig.project), &player, resume).is_empty());

    // The current one.
    assert!(rig.transport.source_relinked(0));
    rig.held = None;
    let player = rig.player();
    let load = rig.transport.ensure_loaded(Some(&rig.project), &player, resume);
    rig.carry_out(load);
    rig.settle_at(0, 0.7);
}

#[test]
fn a_missing_source_blocks_play_until_relinked() {
    let mut rig = Rig::open(&[2.0, 2.0]);
    rig.transport.set_files(vec![false, true], vec![true, true]);
    assert_eq!(rig.toggle(), [Action::Playing(false)]);
    assert!(!rig.transport.is_playing());
    // Nor does anything seek.
    rig.skips(&[1.0]);
    rig.scrub(1.0, true);
    rig.settle_at(0, 0.0);

    rig.all_present();
    assert_eq!(rig.toggle(), [Action::Playing(true)]);
}

#[test]
fn a_failed_player_is_reported_and_forgets_its_burst() {
    let mut rig = Rig::open(&[2.0]);
    rig.toggle();
    rig.skips(&[0.5, 0.5]);
    let actions = rig.transport.player_event(Some(&rig.project), PlayerEvent::Failed, rig.now);
    assert_eq!(actions, [Action::Playing(false), Action::ReportFailure]);
    assert_eq!(rig.transport.deadline(), None);
}

#[test]
fn a_jump_pauses_and_lands_exactly() {
    let mut rig = Rig::open(&[2.0, 2.0]);
    rig.toggle();
    let actions = rig.transport.jump(Some(&rig.project), 1, ticks(0.5));
    assert_eq!(
        actions,
        [
            Action::Playing(false),
            Action::Seek(Request {
                source: 1,
                at: ticks(0.5),
                exact: true,
                origin: Origin::Scrub,
            }),
        ]
    );
}

#[test]
fn a_position_is_published_once() {
    let mut rig = Rig::open(&[2.0, 2.0]);
    rig.scrub(3.0, false);
    let player = rig.player();
    assert_eq!(
        rig.transport.publish_position(Some(&rig.project), &player),
        [Action::Position { source_index: 1, target: Some(at(3.0)) }]
    );
    assert!(rig.transport.publish_position(Some(&rig.project), &player).is_empty());
}

#[test]
fn dropping_the_source_pauses_and_unloads() {
    let mut rig = Rig::open(&[2.0]);
    rig.toggle();
    assert_eq!(rig.transport.unload(), [Action::Unload, Action::Playing(false)]);
    assert_eq!(rig.transport.unload(), [Action::Unload]);
}

#[test]
fn a_moved_source_stays_current() {
    let mut rig = Rig::open(&[2.0, 2.0]);
    let current = rig.project.move_source(0, 1, 0);
    rig.transport.source_moved(current);
    assert_eq!(rig.transport.current(), 1);
}

#[test]
fn a_moment_is_found_on_its_source() {
    let p = project(&[2.0, 3.0]);
    assert_eq!(p.locate(at(-1.0)), (0, 0));
    assert_eq!(p.locate(at(1.5)), (0, ticks(1.5)));
    assert_eq!(p.locate(at(2.0)), (1, 0));
    assert_eq!(p.locate(at(4.0)), (1, ticks(2.0)));
    assert_eq!(p.locate(at(99.0)), (1, ticks(3.0)));
}

#[test]
fn a_volume_is_clamped_and_kept_on_commit() {
    assert_eq!(set_volume(None, true, true), None);
    assert_eq!(
        set_volume(Some(2_000_000), true, true),
        Some(VolumeChange { volume: 1_000_000, keep: true })
    );
    assert_eq!(
        set_volume(Some(-1), false, true),
        Some(VolumeChange { volume: 0, keep: false })
    );
    assert_eq!(
        set_volume(Some(500_000), true, false),
        Some(VolumeChange { volume: 500_000, keep: false })
    );
}

#[test]
fn a_lone_press_is_one_exact_seek() {
    let mut c = SkipCoordinator::new(DEFAULT_BURST_WINDOW);
    let pressed = c.request_skip(10, 100, 1_000);
    assert_eq!(pressed.seek, Some(SeekParams { target: 110, exact: true }));
    // It lands: nothing more to seek.
    assert_eq!(c.seek_completed().seek, None);
    assert_eq!(c.burst_ended().seek, None);
}

#[test]
fn presses_accumulate_on_the_target_and_not_on_the_position() {
    let mut c = SkipCoordinator::default();
    c.request_skip(10, 100, 1_000);
    assert_eq!(c.request_skip(10, 100, 1_000).seek, None, "one seek in flight");
    assert_eq!(c.request_skip(10, 100, 1_000).seek, None);
    // The landing starts the next seek, to the accumulated target.
    assert_eq!(
        c.seek_completed().seek,
        Some(SeekParams { target: 130, exact: false })
    );
    // The burst over: the target exactly.
    c.seek_completed();
    assert_eq!(
        c.burst_ended().seek,
        Some(SeekParams { target: 130, exact: true })
    );
}

#[test]
fn a_skip_is_clamped_to_the_timeline() {
    let mut c = SkipCoordinator::default();
    assert_eq!(c.request_skip(-500, 100, 1_000).seek.unwrap().target, 0);
    c.reset();
    assert_eq!(c.request_skip(5_000, 100, 1_000).seek.unwrap().target, 1_000);
    c.reset();
    assert_eq!(c.seek_completed(), SkipDecision { seek: None, arm_debounce: None });
}
