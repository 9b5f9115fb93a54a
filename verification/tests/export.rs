//! Export: what is offered, what is refused, and how a run goes.

use video_coach::command::{admitted, Command};
use video_coach::event::{CommentaryEvent, EventKind};
use video_coach::export_job::{
    begin_run, export_targets, job, may_export, prepare_run, remember_pickers,
};
use video_coach::export_run::{
    clip_label, de_duplicate, file_name, label, ActiveRun, ExportRun, ExportTargetRun, TargetEnd,
    TargetState,
};
use video_coach::id::Id;
use video_coach::plan::ExportTarget;
use video_coach::preview::{preview_frames, start_preview, PreviewMessage, Previews};
use video_coach::project::{Clip, Preferences, Project, Quality, Resolution, SourceRef};
use video_coach::reel::ReelSide;
use video_coach::rows::{finish_rate, report, run_row, RunReport};
use video_coach::scoreboard_config::{MatchEventKind, MatchEventRecord};
use video_coach::user_error::UserError;

fn ticks(seconds: f64) -> i64 {
    (seconds * 3_000_000_000.0).round() as i64
}

fn clip(bits: u128, name: &str, seconds: f64) -> Clip {
    Clip {
        id: Id { bits },
        name: name.to_string(),
        notes: String::new(),
        tags: Vec::new(),
        source_index: 0,
        start_source: 0,
        recording_duration: ticks(seconds),
        recording_filename: "r.mkv".to_string(),
        events: Vec::new(),
        show_pip: true,
        sort_index: 0,
        created_at: String::new(),
        transcript: String::new(),
    }
}

fn project(clips: Vec<Clip>) -> Project {
    let mut p = Project::new("Game".to_string());
    p.source_videos.push(SourceRef {
        relative_path: "../media/a.webm".to_string(),
        display_name: "a.webm".to_string(),
        duration: ticks(2.0),
        display_aspect: 1_777_777_778,
    });
    p.clips = clips;
    p
}

fn run_target(frames: u64, state: TargetState) -> ExportTargetRun {
    ExportTargetRun { label: "t".to_string(), frames, state }
}

fn cant(why: &str) -> UserError {
    UserError::CantExport(why.to_string())
}

#[test]
fn a_file_name_joins_the_label_and_the_project_without_path_characters() {
    assert_eq!(file_name("All clips", "Game"), "All clips - Game.mp4");
    assert_eq!(
        file_name("4/4 press", "U13 vs. Ash: away"),
        "4-4 press - U13 vs. Ash- away.mp4"
    );
}

#[test]
fn the_remaining_frames_are_the_unrendered_ones() {
    let run = ExportRun {
        targets: vec![
            run_target(100, TargetState::Done("a.mp4".to_string())),
            run_target(100, TargetState::Running(30)),
            run_target(50, TargetState::Pending),
        ],
        rate: None,
    };
    assert_eq!(run.remaining_frames(), 120);
    assert!(run.is_running());

    // A failed target owes nothing: the run goes on without it.
    let stopped = ExportRun {
        targets: vec![
            run_target(100, TargetState::Failed("no encoder".to_string())),
            run_target(50, TargetState::Cancelled),
        ],
        rate: None,
    };
    assert_eq!(stopped.remaining_frames(), 0);
    assert!(!stopped.is_running());
}

/// A failed target is reported, and doesn't block the next.
#[test]
fn a_failed_export_is_reported_and_the_next_one_runs() {
    let mut active = ActiveRun::start(vec![
        run_target(30, TargetState::Pending),
        run_target(30, TargetState::Pending),
    ]);
    assert_eq!(active.run().targets[0].state, TargetState::Running(0));
    assert_eq!(active.finished(TargetEnd::Failed("disk full".to_string())), Some(1));
    assert_eq!(active.run().targets[1].state, TargetState::Running(0));
    assert_eq!(active.finished(TargetEnd::Done("clip.mp4".to_string())), None);
    assert_eq!(
        active.run().targets[1].state,
        TargetState::Done("clip.mp4".to_string())
    );
    assert_eq!(
        report(active.run()),
        RunReport::Failed("export failed: disk full".to_string())
    );
}

/// One export at a time, and never alongside a preview. Cancel stops the one
/// running, leaving nothing.
#[test]
fn while_exporting_a_second_export_is_refused_and_a_cancel_ends_the_run() {
    assert_eq!(may_export(true, false, true, 1), Err(cant("an export is running")));
    assert_eq!(
        may_export(false, true, true, 1),
        Err(cant("a preview is open; close it first"))
    );
    assert_eq!(may_export(false, false, false, 1), Err(cant("no project is open")));
    assert_eq!(may_export(false, false, true, 0), Err(cant("nothing is ticked")));
    assert_eq!(may_export(false, false, true, 1), Ok(()));

    let mut active = ActiveRun::start(vec![
        run_target(300, TargetState::Pending),
        run_target(30, TargetState::Pending),
    ]);
    active.cancel();
    assert_eq!(active.finished(TargetEnd::Cancelled), None);
    assert!(active.run().targets.iter().all(|t| t.state == TargetState::Cancelled));
    assert_eq!(report(active.run()), RunReport::Nothing);
}

#[test]
fn an_export_needs_the_files_of_its_clips() {
    let p = project(vec![clip(1, "Corner", 1.0)]);
    let target = ExportTarget::Clip(Id { bits: 1 });
    assert_eq!(
        job(&p, &vec![true], &vec![true], &target, "Corner", &vec![]),
        Err(cant("Corner's game video is missing; relink it first"))
    );
    assert_eq!(
        job(&p, &vec![false], &vec![false], &target, "Corner", &vec![]),
        Err(cant("Corner's commentary recording is missing"))
    );
    let gone = vec![ExportTarget::Clip(Id { bits: 9 })];
    assert_eq!(
        prepare_run(&p, &vec![false], &vec![true], &gone, &vec![]),
        Err(cant("the clip is gone"))
    );
}

#[test]
fn an_export_needs_its_clip_and_game_video() {
    let p = project(vec![clip(1, "the clip", 1.0)]);
    let targets = vec![ExportTarget::Clip(Id { bits: 1 })];
    assert_eq!(
        prepare_run(&p, &vec![true], &vec![true], &targets, &vec![]),
        Err(cant("the clip's game video is missing; relink it first"))
    );
    let other = vec![ExportTarget::Clip(Id { bits: 2 })];
    assert_eq!(
        prepare_run(&p, &vec![true], &vec![true], &other, &vec![]),
        Err(cant("the clip is gone"))
    );
}

#[test]
fn an_export_needs_frames() {
    let p = project(vec![clip(1, "the clip", 0.0)]);
    let targets = vec![ExportTarget::Clip(Id { bits: 1 })];
    assert_eq!(
        prepare_run(&p, &vec![false], &vec![true], &targets, &vec![]),
        Err(cant("the clip has nothing to export"))
    );
}

/// A clip of ten seconds, frozen on its last picture: 300 frames.
#[test]
fn while_exporting_a_second_export_and_recording_are_refused() {
    let p = project(vec![clip(1, "Corner", 10.0)]);
    let targets = vec![ExportTarget::Clip(Id { bits: 1 })];
    let ready = prepare_run(&p, &vec![false], &vec![true], &targets, &vec![]).unwrap();
    let mut active = begin_run(&ready).unwrap();
    assert_eq!(active.run().targets[0].state, TargetState::Running(0));
    assert_eq!(active.run().targets[0].frames, 300);

    assert_eq!(
        may_export(active.run().is_running(), false, true, 1),
        Err(UserError::CantExport("an export is running".to_string()))
    );
    active.cancel();
    assert_eq!(active.finished(TargetEnd::Cancelled), None);
    assert_eq!(active.run().targets[0].state, TargetState::Cancelled);
    assert_eq!(may_export(active.run().is_running(), false, true, 1), Ok(()));
}

#[test]
fn a_run_has_a_row_for_each_prepared_target() {
    assert!(begin_run(&vec![]).is_none());
    let p = project(vec![clip(1, "Corner", 1.0), clip(2, "Corner", 2.0)]);
    let targets = vec![
        ExportTarget::Clip(Id { bits: 1 }),
        ExportTarget::Clip(Id { bits: 2 }),
        ExportTarget::AllClips,
    ];
    let ready = prepare_run(&p, &vec![false], &vec![true, true], &targets, &vec![]).unwrap();
    let active = begin_run(&ready).unwrap();
    let rows: Vec<(&str, u64, &TargetState)> = active
        .run()
        .targets
        .iter()
        .map(|t| (t.label.as_str(), t.frames, &t.state))
        .collect();
    assert_eq!(
        rows,
        [
            ("Corner", 30, &TargetState::Running(0)),
            ("Corner (2)", 60, &TargetState::Pending),
            ("All clips", 90, &TargetState::Pending),
        ]
    );
    assert_eq!(active.index(), 0);
    assert_eq!(active.run().remaining_frames(), 180);
}

/// More frames than a target was to have: it owes none, and the run goes on
/// counting what was rendered.
#[test]
fn a_target_may_outrun_its_frames() {
    let mut active = ActiveRun::start(vec![
        run_target(30, TargetState::Pending),
        run_target(30, TargetState::Pending),
    ]);
    active.progress(45, ticks(1.0));
    assert_eq!(active.run().targets[0].state, TargetState::Running(45));
    assert_eq!(active.run().remaining_frames(), 30);
    assert_eq!(active.finished(TargetEnd::Failed("no space".to_string())), Some(1));
    active.progress(10, ticks(2.0));
    assert_eq!(active.run().remaining_frames(), 20);
}

/// A preview shows what an export of its clip alone would write.
#[test]
fn a_preview_shows_its_clip() {
    let p = project(vec![clip(1, "Corner", 1.0), clip(2, "Press", 0.5)]);
    assert!(start_preview(false, Some(&p), &vec![false], true, Id { bits: 2 }).is_ok());
    let frames = preview_frames(&p, Id { bits: 2 }, &vec![]);
    assert_eq!(frames.len(), 15);
    assert_eq!(frames[0].source_time, 0);
    assert_eq!(frames[14].source_time, 14 * 100_000_000);
    let targets = vec![ExportTarget::Clip(Id { bits: 2 })];
    let ready = prepare_run(&p, &vec![false], &vec![true, true], &targets, &vec![]).unwrap();
    assert_eq!(frames, ready[0].compilation.frames);
    assert!(preview_frames(&p, Id { bits: 9 }, &vec![]).is_empty());
}

/// A reel entry has no clip to name, so the refusal names the game video's
/// file.
#[test]
fn a_missing_game_video_is_refused_naming_the_file() {
    let mut p = project(vec![]);
    p.source_videos.push(SourceRef {
        relative_path: "../media/b.webm".to_string(),
        display_name: "b.webm".to_string(),
        duration: ticks(2.0),
        display_aspect: 1_777_777_778,
    });
    for (bits, source_index, at) in [(1, 0, 1.0), (2, 1, 0.5), (3, 1, 1.5)] {
        p.match_events.push(MatchEventRecord {
            id: Id { bits },
            kind: MatchEventKind::HomeGoal,
            source_index,
            source_time: ticks(at),
            is_auto_back_anchor: false,
            reel_lead_in: None,
            reel_tail: None,
        });
    }
    let targets = vec![ExportTarget::Reel(ReelSide::All)];
    let scores = vec![None; 3];
    assert_eq!(
        prepare_run(&p, &vec![false, true], &vec![], &targets, &scores),
        Err(cant("b.webm (a goal's game video) is missing; relink it first"))
    );
}

#[test]
fn a_target_without_frames_is_refused() {
    let p = project(vec![clip(1, "Corner", 0.0)]);
    let target = ExportTarget::Clip(Id { bits: 1 });
    assert_eq!(
        job(&p, &vec![false], &vec![true], &target, "Corner", &vec![]),
        Err(cant("Corner has nothing to export"))
    );
}

/// The recording guard drops it: the UI greys the menu item out, so it's
/// only reached through a UI bug.
#[test]
fn an_export_while_recording_is_dropped() {
    let export = Command::Export {
        targets: vec![ExportTarget::AllClips],
        resolution: Resolution::R1080,
        quality: Quality::Medium,
    };
    assert!(!admitted(true, &export));
    assert!(admitted(false, &export));
    assert!(admitted(true, &Command::StopRecording));
    assert!(admitted(true, &Command::Shutdown));
}

/// The sheet offers "All goals" once there is a goal, after the tag rows, and
/// not before.
#[test]
fn the_all_goals_row_follows_the_goals() {
    let mut p = project(vec![]);
    assert!(export_targets(&p, &vec![], None, &vec![]).is_empty());
    p.match_events.push(MatchEventRecord {
        id: Id { bits: 3 },
        kind: MatchEventKind::HomeGoal,
        source_index: 0,
        source_time: ticks(2.0),
        is_auto_back_anchor: false,
        reel_lead_in: None,
        reel_tail: None,
    });
    let rows = export_targets(&p, &vec![], None, &vec![None]);
    assert_eq!(rows.len(), 1, "{rows:#?}");
    assert_eq!(rows[0].target, ExportTarget::Reel(ReelSide::All));
    assert_eq!(rows[0].label, "All goals");
    assert_eq!((rows[0].count, rows[0].unit), (1, "goal"));
}

#[test]
fn rows_come_clips_first_then_tags_goals_and_the_selected_clip() {
    let mut a = clip(1, "a", 1.0);
    a.tags = vec!["shot".to_string()];
    let p = project(vec![a, clip(2, "", 1.0)]);
    let rows = export_targets(&p, &vec!["shot".to_string()], Some(Id { bits: 2 }), &vec![]);
    let labels: Vec<&str> = rows.iter().map(|r| r.label.as_str()).collect();
    assert_eq!(labels, ["All clips", "shot", "Untitled"]);
    assert_eq!((rows[0].count, rows[0].unit, rows[0].frames), (2, "clip", 60));
    assert_eq!(rows[1].frames, 30);
}

#[test]
fn labels_are_made_unique() {
    let same = |n: usize| vec!["Corner".to_string(); n];
    assert_eq!(de_duplicate(same(3)), ["Corner", "Corner (2)", "Corner (3)"]);
    assert_eq!(
        de_duplicate(vec!["a".to_string(), "b".to_string(), "a".to_string()]),
        ["a", "b", "a (2)"]
    );
}

#[test]
fn a_target_s_label_says_what_it_is() {
    let p = project(vec![clip(1, " ", 1.0)]);
    assert_eq!(label(&p, &ExportTarget::AllClips).unwrap(), "All clips");
    assert_eq!(label(&p, &ExportTarget::Tag("shot".to_string())).unwrap(), "shot");
    assert_eq!(label(&p, &ExportTarget::Clip(Id { bits: 1 })).unwrap(), "Untitled");
    assert_eq!(label(&p, &ExportTarget::Reel(ReelSide::All)).unwrap(), "All goals");
    assert_eq!(
        label(&p, &ExportTarget::Clip(Id { bits: 5 })),
        Err(cant("the clip is gone"))
    );
    assert_eq!(clip_label(&p.clips[0]), "Untitled");
}

#[test]
fn a_prepared_run_is_frozen_with_its_frames() {
    let p = project(vec![clip(1, "Corner", 1.0), clip(2, "Corner", 0.5)]);
    let targets = vec![
        ExportTarget::Clip(Id { bits: 1 }),
        ExportTarget::Clip(Id { bits: 2 }),
    ];
    let run = prepare_run(&p, &vec![false], &vec![true, true], &targets, &vec![]).unwrap();
    assert_eq!(run[0].label, "Corner");
    assert_eq!(run[1].label, "Corner (2)");
    assert_eq!(run[0].compilation.frames.len(), 30);
    assert_eq!(run[1].compilation.frames.len(), 15);
}

#[test]
fn a_run_s_progress_makes_its_rate() {
    let mut active = ActiveRun::start(vec![run_target(3_000, TargetState::Pending)]);
    for n in 0..6u64 {
        active.progress(n * 10, ticks(n as f64));
    }
    assert_eq!(active.index(), 0);
    assert_eq!(active.run().targets[0].state, TargetState::Running(50));
    let rate = finish_rate(active.run()).unwrap();
    assert_eq!(rate.frames * i128::from(ticks(1.0)), rate.ticks * 10);
    let row = run_row(&active.run().targets[0]);
    assert_eq!((row.rendering, row.done, row.frames), (true, 50, 3_000));
}

#[test]
fn a_finished_run_says_how_many() {
    let done = |n: usize| ExportRun {
        targets: (0..n).map(|_| run_target(1, TargetState::Done("x".to_string()))).collect(),
        rate: None,
    };
    assert_eq!(
        report(&done(1)),
        RunReport::Exported("Exported 1 video to the project's exports folder".to_string())
    );
    assert_eq!(
        report(&done(2)),
        RunReport::Exported("Exported 2 videos to the project's exports folder".to_string())
    );
    assert_eq!(run_row(&done(1).targets[0]).status, "Done");
}

#[test]
fn the_pickers_are_remembered() {
    let mut prefs = Preferences::default();
    assert!(!remember_pickers(&mut prefs, Resolution::R1080, Quality::Medium));
    assert!(remember_pickers(&mut prefs, Resolution::R2160, Quality::High));
    assert_eq!(prefs.last_export_resolution, Resolution::R2160);
    assert_eq!(prefs.last_export_quality, Quality::High);
}

#[test]
fn a_preview_needs_what_it_shows() {
    let p = project(vec![clip(1, "a", 1.0), clip(2, "b", 0.0)]);
    let id = |bits: u128| Id { bits };
    let cant = |why: &str| Err(UserError::CantPreview(why.to_string()));
    let here = vec![false];
    assert_eq!(start_preview(false, Some(&p), &here, true, id(1)), Ok(0));
    assert_eq!(start_preview(true, Some(&p), &here, true, id(1)), cant("an export is running"));
    assert_eq!(start_preview(false, None, &here, true, id(1)), cant("no project is open"));
    assert_eq!(start_preview(false, Some(&p), &here, true, id(9)), cant("the clip is gone"));
    assert_eq!(
        start_preview(false, Some(&p), &vec![true], true, id(1)),
        cant("the clip's game video is missing; relink it first")
    );
    assert_eq!(
        start_preview(false, Some(&p), &here, false, id(1)),
        cant("the clip's commentary recording is missing")
    );
    assert_eq!(
        start_preview(false, Some(&p), &here, true, id(2)),
        cant("the clip has nothing to preview")
    );
    // An event past a recording's end still has frames to show.
    let mut late = project(vec![clip(1, "a", 0.0)]);
    late.clips[0].events = vec![CommentaryEvent::new(
        ticks(1.0),
        EventKind::Pause { source_time: 0 },
    )];
    assert_eq!(start_preview(false, Some(&late), &here, true, id(1)), Ok(0));
    let mut off = project(vec![clip(1, "a", 1.0)]);
    off.clips[0].source_index = 4;
    assert_eq!(
        start_preview(false, Some(&off), &here, true, id(1)),
        cant("the clip's game video is gone")
    );
}

#[test]
fn a_closed_preview_is_not_heard() {
    let mut previews = Previews::default();
    let (_, first) = previews.open(Id { bits: 1 });
    assert!(previews.close());
    assert!(!previews.close());
    assert!(!previews.message(first, PreviewMessage::Failed));
    let (_, second) = previews.open(Id { bits: 2 });
    assert!(!previews.message(first, PreviewMessage::Failed));
    assert!(previews.message(second, PreviewMessage::Failed));
}
