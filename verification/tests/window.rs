//! What the window shows, and what its controls send.

use video_coach::callbacks::{
    by_id, device_choice, drag_payload, dropped_index, edit_clip, match_over_cap, move_clip,
    move_source, relink_source, remove_source, rename_project, row_index, seek_match_event,
    set_transcribe_model, tag_match_event, ClipField, Verb,
};
use video_coach::command::{due, wait, Command};
use video_coach::drawing::{LiveDrawings, AUTO_CLEAR_NS};
use video_coach::export_job::export_targets;
use video_coach::id::Id;
use video_coach::lifecycle::{self, opening, Opening};
use video_coach::match_panel::{blank_config, parse_hex};
use video_coach::plan::ExportTarget;
use video_coach::project::{Clip, Project, Quality, Resolution, SourceRef};
use video_coach::rows::{
    can_play, clip_fields, clip_rows, device_rows, download_prompt, first_missing, model_picker,
    source_rows, tag_detail, transcript_row,
    Device, Ending, Queue, Stage, TranscriptState,
};
use video_coach::scoreboard_config::{MatchEventKind, MatchEventRecord, MatchFormat};
use video_coach::sheets::{match_setup, open_export_sheet, open_match_setup};
use video_coach::state::WhisperModel;
use video_coach::store::StoreError;
use video_coach::undo::ClipEdit;
use video_coach::user_error::UserError;
use video_coach::window::{
    Event, RecordingStatus, Tick, Window, NOTICE_MS, SELF_VIEW_QUIET_MS,
};

fn ticks(seconds: f64) -> i64 {
    (seconds * 3_000_000_000.0).round() as i64
}

fn clip(bits: u128, name: &str, tags: &[&str]) -> Clip {
    Clip {
        id: Id { bits },
        name: name.to_string(),
        notes: String::new(),
        tags: tags.iter().map(|t| t.to_string()).collect(),
        source_index: 0,
        start_source: 0,
        recording_duration: ticks(5.0),
        recording_filename: "r.mkv".to_string(),
        events: Vec::new(),
        show_pip: true,
        sort_index: 0,
        created_at: String::new(),
        transcript: String::new(),
    }
}

fn project() -> Project {
    let mut p = Project::new("p".to_string());
    for name in ["a.webm", "b.webm"] {
        p.source_videos.push(SourceRef {
            relative_path: name.to_string(),
            display_name: name.to_string(),
            duration: ticks(90.0),
            display_aspect: 1_777_777_778,
        });
    }
    p.clips = vec![clip(1, "Corner", &["shot"]), clip(2, "", &[])];
    p
}

fn tick(position: Option<i64>) -> Tick {
    Tick {
        now_ms: 0,
        now_ns: 0,
        recording: false,
        placed: true,
        resized: false,
        scrubbing: None,
        preview_at: 0,
        position,
    }
}

fn text_of(bits: u128) -> String {
    Id { bits }.text()
}

#[test]
fn the_first_error_stays_until_it_is_dismissed() {
    let mut w = Window::default();
    w.on_event(Event::Error(UserError::NoCamera), None, 0);
    let first = w.error().clone();
    assert!(first.starts_with("No camera"));
    w.on_event(Event::Error(UserError::Io("later".to_string())), None, 0);
    assert_eq!(*w.error(), first);
    w.dismiss_error();
    assert_eq!(w.error(), "");
    w.show_error("again");
    assert_eq!(w.error(), "Again");
}

#[test]
fn a_notice_clears_by_itself() {
    let mut w = Window::default();
    w.on_event(Event::Error(UserError::Scoreboard("no".to_string())), None, 1_000);
    assert_eq!(w.notice(), "No");
    assert_eq!(w.error(), "");
    let mut t = tick(None);
    t.now_ms = 1_000 + NOTICE_MS - 1;
    w.tick(None, t);
    assert_eq!(w.notice(), "No");
    t.now_ms = 1_000 + NOTICE_MS;
    w.tick(None, t);
    assert_eq!(w.notice(), "");
}

#[test]
fn the_readout_is_on_the_whole_timeline() {
    let p = project();
    let mut w = Window::default();
    assert_eq!(w.tick(None, tick(None)).readout, None);
    w.on_event(Event::Playing(true), Some(&p), 0);
    w.on_event(Event::Position { source_index: 1, target: None }, Some(&p), 0);
    let shown = w.tick(Some(&p), tick(Some(ticks(5.0)))).readout.unwrap();
    assert_eq!(shown.total, i128::from(ticks(180.0)));
    assert_eq!(shown.current, i128::from(ticks(95.0)));
    assert_eq!(shown.text, "1:35 / 3:00");
    // Kept when a query fails.
    let kept = w.tick(Some(&p), tick(None)).readout.unwrap();
    assert_eq!(kept.current, i128::from(ticks(95.0)));
    // An outstanding seek's target comes first.
    let target = Some(i128::from(ticks(10.0)));
    w.on_event(Event::Position { source_index: 0, target }, Some(&p), 0);
    assert_eq!(w.scan_abs(&p, Some(0)), i128::from(ticks(10.0)));
}

#[test]
fn a_level_fills_its_bar() {
    let mut w = Window::default();
    w.on_event(Event::Level(Some(-15_000)), None, 0);
    assert_eq!(w.level(), (45_000, true));
    w.on_event(Event::Level(Some(-90_000)), None, 0);
    assert_eq!(w.level().0, 0);
    w.on_event(Event::Level(None), None, 0);
    assert_eq!(w.level().0, 0);
}

#[test]
fn a_recording_starts_on_a_bare_picture() {
    let p = project();
    let mut w = Window::default();
    w.on_event(Event::Recording(RecordingStatus::Recording { t0_ns: 0 }), Some(&p), 0);
    w.draw_press();
    assert!(w.draw_release(1, 10, false, true));
    assert_eq!(w.drawings().strokes().len(), 1);
    w.on_event(Event::Recording(RecordingStatus::Idle), Some(&p), 0);
    w.on_event(Event::Recording(RecordingStatus::Starting), Some(&p), 0);
    assert!(w.drawings().strokes().is_empty());
}

#[test]
fn a_selected_clip_is_listed() {
    let p = project();
    let mut w = Window::default();
    w.set_tag_filter("shot".to_string());
    w.on_event(Event::Select(Id { bits: 2 }), Some(&p), 0);
    assert_eq!(w.selected(), Some(Id { bits: 2 }));
    let listed = clip_rows(&p, w.tag_filter());
    assert!(listed.iter().any(|r| r.id == Id { bits: 2 }));
}

#[test]
fn an_automatic_drawing_expires() {
    let mut d = LiveDrawings::default();
    d.press();
    assert!(d.is_drawing());
    assert!(d.release(7, 1_000, true, true));
    assert!(!d.is_drawing());
    assert!(!d.expire(1_000 + AUTO_CLEAR_NS - 1, false));
    assert_eq!(d.strokes().len(), 1);
    assert!(d.expire(1_000 + AUTO_CLEAR_NS, false));
    assert!(d.strokes().is_empty());
    assert!(!d.clear());
    d.press();
    d.cancel();
    assert!(!d.is_drawing());
}

#[test]
fn a_drop_names_the_dragged_row() {
    assert_eq!(drag_payload("clips", 3), "clips:3");
    assert_eq!(dropped_index("clips", "clips:3"), 3);
    assert_eq!(dropped_index("sources", "clips:3"), -1);
    assert_eq!(dropped_index("clips", "clips"), -1);
    assert_eq!(dropped_index("clips", "clips:x"), -1);
    assert_eq!(row_index(-1), None);
    assert_eq!(row_index(4), Some(4));
}

#[test]
fn list_controls_send_their_commands() {
    assert_eq!(remove_source(1), Some(Command::RemoveSource(1)));
    assert_eq!(remove_source(-1), None);
    assert_eq!(move_source(2, 0), Some(Command::MoveSource { from: 2, to: 0 }));
    assert_eq!(move_clip(0, -1), None);
    assert_eq!(
        relink_source(0, "/v".to_string()),
        Some(Command::RelinkSource(0, "/v".to_string()))
    );
    let p = project();
    assert_eq!(
        rename_project(" Final ", Some(&p)),
        Some(Command::RenameProject("Final".to_string()))
    );
    assert_eq!(rename_project("p", Some(&p)), None);
    assert_eq!(rename_project("  ", Some(&p)), None);
    assert_eq!(
        by_id(Verb::DeleteClip, &text_of(5)),
        Some(Command::DeleteClip(Id { bits: 5 }))
    );
    assert_eq!(
        by_id(Verb::ShowPip(false), &text_of(5)),
        Some(Command::EditClip { id: Id { bits: 5 }, edit: ClipEdit::ShowPip(false) })
    );
    assert_eq!(by_id(Verb::JumpToClip, "no id"), None);
}

#[test]
fn an_edit_is_sent_only_if_it_changes_its_clip() {
    let p = project();
    let sent = edit_clip(&text_of(1), ClipField::Name, "Throw-in", Some(&p));
    assert_eq!(
        sent,
        Some(Command::EditClip {
            id: Id { bits: 1 },
            edit: ClipEdit::Name("Throw-in".to_string()),
        })
    );
    assert_eq!(edit_clip(&text_of(1), ClipField::Name, "Corner", Some(&p)), None);
    assert_eq!(edit_clip(&text_of(1), ClipField::Tags, " SHOT ", Some(&p)), None);
    assert_eq!(
        edit_clip(&text_of(1), ClipField::Tags, "a, B", Some(&p)),
        Some(Command::EditClip {
            id: Id { bits: 1 },
            edit: ClipEdit::Tags(vec!["a".to_string(), "b".to_string()]),
        })
    );
    assert_eq!(edit_clip(&text_of(9), ClipField::Notes, "n", Some(&p)), None);
}

#[test]
fn match_controls_send_their_commands() {
    let mut p = project();
    assert_eq!(
        tag_match_event(MatchEventKind::HomeGoal, i128::from(ticks(95.0)), Some(&p)),
        Some(Command::TagMatchEvent {
            kind: MatchEventKind::HomeGoal,
            source_index: 1,
            source_time: ticks(5.0),
        })
    );
    assert_eq!(tag_match_event(MatchEventKind::HomeGoal, 0, None), None);
    p.match_events.push(MatchEventRecord {
        id: Id { bits: 8 },
        kind: MatchEventKind::StartStop,
        source_index: 1,
        source_time: ticks(5.0),
        is_auto_back_anchor: false,
        reel_lead_in: None,
        reel_tail: None,
    });
    assert_eq!(
        seek_match_event(&text_of(8), Some(&p)),
        Some(Command::ScrubRelease { abs: i128::from(ticks(95.0)) })
    );
    assert_eq!(seek_match_event(&text_of(7), Some(&p)), None);
}

#[test]
fn the_setup_sheet_warns_of_what_has_no_period() {
    let mut p = project();
    for bits in 0..3 {
        p.match_events.push(MatchEventRecord {
            id: Id { bits },
            kind: MatchEventKind::StartStop,
            source_index: 0,
            source_time: 0,
            is_auto_back_anchor: false,
            reel_lead_in: None,
            reel_tail: None,
        });
    }
    assert!(match_over_cap("1", "0", false, Some(&p)).starts_with("1 tagged start/stop"));
    assert_eq!(match_over_cap("2", "0", false, Some(&p)), "");
}

#[test]
fn device_and_model_choices_are_sent() {
    assert_eq!(device_choice(String::new()), None);
    assert_eq!(device_choice("cam".to_string()), Some("cam".to_string()));
    assert_eq!(
        set_transcribe_model(1, false),
        Some(Command::SetTranscribeModel(WhisperModel::Base))
    );
    assert_eq!(set_transcribe_model(1, true), None);
    assert_eq!(set_transcribe_model(9, false), None);
}

#[test]
fn the_choice_always_shows() {
    let found = vec![Device { node_name: "cam".to_string(), label: "Camera".to_string() }];
    let rows = device_rows(&found, Some(&"cam".to_string()), "camera");
    assert_eq!(rows.len(), 2);
    assert!(rows[1].chosen && !rows[0].chosen);
    let gone = "gone".to_string();
    let rows = device_rows(&found, Some(&gone), "camera");
    assert_eq!(rows.last().unwrap().label, "The chosen camera (not connected)");
    assert!(rows.last().unwrap().chosen);
    let rows = device_rows(&found, None, "camera");
    assert_eq!(rows[0].label, "System default");
    assert!(rows[0].chosen);
}

#[test]
fn lists_show_their_rows() {
    let p = project();
    let rows = source_rows(&p, &vec![false, true]);
    assert_eq!((rows[0].duration.as_str(), rows[0].referenced), ("1:30", true));
    assert!(rows[1].missing && !rows[1].referenced);
    assert_eq!(first_missing(&p, &vec![false, true]), Some(1));
    assert!(!can_play(&p, &vec![false, true]));
    assert!(can_play(&p, &vec![false, false]));

    let all = clip_rows(&p, &String::new());
    assert_eq!(all.iter().map(|r| r.name.as_str()).collect::<Vec<_>>(), ["Corner", "Untitled"]);
    assert_eq!(all[0].duration, "0:05");
    assert_eq!(clip_rows(&p, &"shot".to_string()).len(), 1);

    let fields = clip_fields(Some(&p), Some(Id { bits: 1 }));
    assert_eq!((fields.name.as_str(), fields.tags.as_str()), ("Corner", "shot"));
    assert_eq!(clip_fields(Some(&p), None).name, "");
}

#[test]
fn a_transcript_says_what_it_is_at() {
    let c = clip(1, "Corner", &[]);
    let elapsed = i128::from(ticks(65.0));
    let said = |running, finished, queued| {
        transcript_row(&Queue { queued, running, finished }, &c, elapsed)
    };
    let me = Id { bits: 1 };
    assert_eq!(said(None, None, vec![]), (TranscriptState::Idle, String::new()));
    assert_eq!(
        said(None, None, vec![me]),
        (TranscriptState::Queued, "Queued".to_string())
    );
    assert_eq!(
        said(Some((me, Stage::Transcribing(0))), None, vec![]),
        (TranscriptState::Running, "Transcribing… 1:05".to_string())
    );
    assert_eq!(
        said(Some((me, Stage::Transcribing(40))), None, vec![]),
        (TranscriptState::Running, "Transcribing… 1:05 · 40%".to_string())
    );
    assert_eq!(
        said(Some((me, Stage::Downloading(7))), None, vec![]),
        (TranscriptState::Running, "Downloading the speech model… 7%".to_string())
    );
    assert_eq!(
        said(None, Some((me, Ending::Failed("no model".to_string()))), vec![]),
        (TranscriptState::Failed, "Couldn't transcribe: no model".to_string())
    );
    assert_eq!(
        said(None, Some((me, Ending::Silent)), vec![]),
        (TranscriptState::Idle, "No speech found".to_string())
    );
}

#[test]
fn the_export_sheet_sends_what_is_ticked() {
    let mut p = project();
    p.preferences.last_export_resolution = Resolution::R720;
    let offered = export_targets(&p, &vec!["shot".to_string()], Some(Id { bits: 2 }), &vec![]);
    let mut sheet = open_export_sheet(&p, offered, false);
    assert_eq!(sheet.rows[0].detail, "2 clips · 0:10");
    let ticked: Vec<bool> = sheet.rows.iter().map(|r| r.ticked).collect();
    assert_eq!(ticked, [true, true, false]);
    sheet.tick_target(0, false);
    sheet.tick_target(1, false);
    assert!(!sheet.any_ticked());
    sheet.tick_target(2, true);
    sheet.tick_target(99, true);
    assert_eq!(
        sheet.start_export(sheet.resolution, sheet.quality),
        Command::Export {
            targets: vec![ExportTarget::Clip(Id { bits: 2 })],
            resolution: Resolution::R720,
            quality: Quality::Medium,
        }
    );
}

/// Rows and targets are paired from the front, whichever list is longer.
#[test]
fn a_row_without_a_target_asks_for_nothing() {
    let p = project();
    let offered = || export_targets(&p, &vec!["shot".to_string()], None, &vec![]);
    let sent = |rows: usize, targets: usize| {
        let mut sheet = open_export_sheet(&p, offered(), false);
        sheet.rows.truncate(rows);
        sheet.targets.truncate(targets);
        match sheet.start_export(1, 1) {
            Command::Export { targets, .. } => targets,
            other => panic!("{other:?}"),
        }
    };
    let tag = ExportTarget::Tag("shot".to_string());
    assert_eq!(sent(2, 2), [ExportTarget::AllClips, tag]);
    assert_eq!(sent(2, 1), [ExportTarget::AllClips]);
    assert_eq!(sent(1, 2), [ExportTarget::AllClips]);
    assert!(sent(0, 2).is_empty());
    assert!(sent(2, 0).is_empty());
}

#[test]
fn a_setup_survives_its_sheet() {
    let mut config = blank_config();
    config.home.name = "Rovers".to_string();
    config.away.name = "United".to_string();
    config.format = MatchFormat { overtime_periods: 2, ..MatchFormat::default() };
    config.auto_back_anchor_p1 = true;
    // Colours of whole bytes, which a field holds exactly.
    config.home.primary_color = parse_hex("#1f4fd9").unwrap();
    config.away.primary_color = parse_hex("#c72b1c").unwrap();
    let mut fields = open_match_setup(&config);
    assert_eq!(match_setup(&fields), Some(config));
    fields.home.primary = "fuchsia".to_string();
    assert_eq!(match_setup(&fields), None);
}

#[test]
fn opening_a_folder_without_a_project_creates_one() {
    let missing = StoreError::MissingProjectJson("/p/Game".to_string());
    match opening("/p/Game", Some(missing)) {
        Opening::Create(p) => assert_eq!(p, Project::new("Game".to_string())),
        other => panic!("{other:?}"),
    }
    match opening("/", Some(StoreError::MissingProjectJson("/".to_string()))) {
        Opening::Create(p) => assert_eq!(p.name, "Untitled"),
        other => panic!("{other:?}"),
    }
    assert_eq!(opening("/p/Game", None), Opening::Commit);
    assert_eq!(
        opening("/p/Game", Some(StoreError::TooNew { found: 8, supported: 7 })),
        Opening::Refuse(UserError::TooNewProject { found: 8 })
    );
}

#[test]
fn a_project_is_renamed_to_something() {
    let mut p = project();
    assert!(lifecycle::rename_project(&mut p, " Final "));
    assert_eq!(p.name, "Final");
    assert!(!lifecycle::rename_project(&mut p, "Final"));
    assert!(!lifecycle::rename_project(&mut p, "   "));
    assert_eq!(p.name, "Final");
}

#[test]
fn no_deadline_is_slept_past() {
    assert_eq!(wait(None, None, 5), None);
    assert_eq!(wait(Some(10), None, 5), Some(5));
    assert_eq!(wait(Some(10), Some(7), 5), Some(2));
    assert_eq!(wait(Some(3), Some(7), 5), Some(0));
    assert!(due(Some(5), 5) && !due(Some(6), 5) && !due(None, 5));
}

#[test]
fn the_model_picker_gives_way_to_the_environment() {
    let picker = model_picker(WhisperModel::Base, None);
    assert_eq!(picker.rows, ["small.en", "base.en"]);
    assert_eq!((picker.chosen, picker.enabled), (1, true));
    let picker = model_picker(WhisperModel::Base, Some("/m/own.bin"));
    assert_eq!(picker.rows, ["own.bin"]);
    assert_eq!((picker.chosen, picker.enabled), (0, false));
    // A model the app ships is called what the picker calls it.
    for (path, name) in [
        ("/m/ggml-small.en.bin", "small.en"),
        ("/m/ggml-base.en.bin", "base.en"),
        ("/m/ggml-small.en.bin.old", "ggml-small.en.bin.old"),
        ("/", ""),
    ] {
        let picker = model_picker(WhisperModel::Base, Some(path));
        assert_eq!(picker.rows, [name]);
        assert_eq!((picker.chosen, picker.enabled), (0, false));
    }
}

#[test]
fn a_download_names_its_size() {
    assert_eq!(download_prompt(None), "");
    assert_eq!(download_prompt(Some(487_601_967)), "Download 488 MB and transcribe");
    // As the float is written: a tie goes to the even one.
    for bytes in [0, 499_999, 500_000, 500_001, 1_500_000, 2_500_000, 141_500_000] {
        assert_eq!(
            download_prompt(Some(bytes)),
            format!("Download {:.0} MB and transcribe", bytes as f64 / 1e6)
        );
    }
}

#[test]
fn a_tag_says_what_carries_it() {
    assert_eq!(tag_detail(1, i128::from(ticks(5.0))), "1 clip · 0:05");
    assert_eq!(tag_detail(3, i128::from(ticks(65.0))), "3 clips · 1:05");
}

#[test]
fn the_match_line_stands_still_during_a_preview() {
    let mut p = project();
    let mut w = Window::default();
    assert_eq!(w.tick(Some(&p), tick(Some(0))).readout.unwrap().match_at, None);
    p.scoreboard = Some(blank_config());
    let live = w.tick(Some(&p), tick(Some(ticks(5.0)))).readout.unwrap();
    assert_eq!(live.match_at, Some(i128::from(ticks(5.0))));
    w.on_event(Event::Preview(Some(Id { bits: 1 })), Some(&p), 0);
    assert_eq!(w.previewing_name(), "Corner");
    let shown = w.tick(Some(&p), tick(Some(ticks(5.0)))).readout.unwrap();
    assert_eq!(shown.match_at, None);
    assert_eq!(shown.total, i128::from(ticks(5.0)), "the clip's own scale");
}

#[test]
fn drawings_are_given_up_and_cleared() {
    let mut w = Window::default();
    w.draw_press();
    w.draw_cancel();
    assert!(!w.drawings().is_drawing());
    assert!(!w.clear_drawings(), "nothing on screen, nothing to log");
    w.draw_press();
    assert!(!w.draw_release(1, 0, false, false), "no picture to draw on");
    w.draw_press();
    assert!(w.draw_release(2, 0, false, true));
    assert!(w.clear_drawings());
}

#[test]
fn a_drag_that_can_do_nothing_is_answered_with_a_hint() {
    let mut w = Window::default();
    w.drag_began(false, false, 0);
    w.drag_began(true, true, 0);
    assert_eq!(w.notice(), "");
    w.drag_began(true, false, 0);
    assert_eq!(w.notice(), "Drawing works while recording — press R");
}

#[test]
fn the_self_view_hides_when_its_frames_stop() {
    let mut w = Window::default();
    w.self_view_arrived(10);
    let mut t = tick(None);
    t.recording = true;
    t.now_ms = 500;
    assert!(w.tick(None, t).self_view_shown);
    t.now_ms = 10 + SELF_VIEW_QUIET_MS;
    assert!(!w.tick(None, t).self_view_shown);
}

#[test]
fn a_percent_does_not_restart_the_clock() {
    let mut w = Window::default();
    let me = Id { bits: 1 };
    let at = |stage| Event::Transcription(Queue {
        queued: vec![],
        running: Some((me, stage)),
        finished: None,
    });
    w.on_event(at(Stage::Downloading(0)), None, 1_000);
    w.on_event(at(Stage::Transcribing(0)), None, 2_000);
    w.on_event(at(Stage::Transcribing(40)), None, 3_000);
    let (queue, elapsed) = w.transcription(5_000);
    assert_eq!(queue.running, Some((me, Stage::Transcribing(40))));
    assert_eq!(elapsed, i128::from(ticks(3.0)));
    assert!(w.tick(None, tick(None)).transcribing);
}
