//! The project document: defaults, the version guard, and the timeline.

use video_coach::event::{CommentaryEvent, EventKind};
use video_coach::id::Id;
use video_coach::project::{
    Clip, Preferences, Project, Quality, Resolution, SourceRef, CURRENT_FORMAT_VERSION,
    FULL_VOLUME,
};
use video_coach::recording::PendingClip;
use video_coach::store::{
    admit_document, admit_version, format_version_of, read_document, stamp, StoreError,
    VersionField,
};

fn ticks(seconds: f64) -> i64 {
    (seconds * 3_000_000_000.0).round() as i64
}

fn sample_clip() -> Clip {
    Clip {
        id: Id { bits: 0 },
        name: "Transition".to_string(),
        notes: String::new(),
        tags: vec!["transition".to_string()],
        source_index: 0,
        start_source: ticks(12.5),
        recording_duration: ticks(8.0),
        recording_filename: "00000000-0000-0000-0000-000000000000.mkv".to_string(),
        events: Vec::new(),
        show_pip: true,
        sort_index: 0,
        created_at: "2026-09-19T12:00:00Z".to_string(),
        transcript: String::new(),
    }
}

fn over(durations: &[f64]) -> Project {
    let mut p = Project::new("p".to_string());
    for &d in durations {
        p.source_videos.push(SourceRef {
            relative_path: "x.mp4".to_string(),
            display_name: "x".to_string(),
            duration: ticks(d),
            display_aspect: 1_777_777_778,
        });
    }
    p
}

fn at(seconds: f64) -> i128 {
    i128::from(ticks(seconds))
}

#[test]
fn preferences_defaults_are_not_zero() {
    let p = Preferences::default();
    assert_eq!(p.scan_volume, FULL_VOLUME);
    assert_eq!(p.preview_source_volume, FULL_VOLUME);
    assert_eq!(p.preview_commentary_volume, FULL_VOLUME);
    assert_eq!(p.last_export_resolution, Resolution::R1080);
    assert_eq!(p.last_export_quality, Quality::Medium);
    assert!(p.pip_for_new_recordings);
    assert_eq!(p.preferred_camera_id, None);
    assert_eq!(p.preferred_mic_id, None);
}

/// A document whose root is not an object is not a project at all, and must
/// not be reported as one of an older format.
#[test]
fn a_non_object_root_is_malformed_not_legacy() {
    for body in ["[]", "\"hello\"", "42", "null"] {
        match read_document(body) {
            Err(StoreError::Malformed(_)) => {}
            other => panic!("root {body}: expected Malformed, got {other:?}"),
        }
    }
}

#[test]
fn swift_era_v6_is_refused() {
    match read_document(r#"{"formatVersion": 6, "name": "x", "sourceVideos": [], "clips": []}"#) {
        Err(StoreError::LegacyProject { found, minimum }) => {
            assert_eq!((found, minimum), (6, CURRENT_FORMAT_VERSION));
        }
        other => panic!("expected LegacyProject, got {other:?}"),
    }
}

#[test]
fn absent_format_version_is_treated_as_v1_and_refused() {
    match read_document(r#"{"name": "x", "sourceVideos": [], "clips": []}"#) {
        Err(StoreError::LegacyProject { found, .. }) => assert_eq!(found, 1),
        other => panic!("expected LegacyProject{{found: 1}}, got {other:?}"),
    }
}

/// A float for an integral version must not be misread as v1 and reported as
/// an older format: a confidently wrong error is the worst kind.
#[test]
fn integral_float_format_version_is_accepted() {
    let document = read_document(r#"{"formatVersion": 7.0, "clips": []}"#);
    assert!(document.is_ok(), "7.0 must not be read as v1");
    // The document goes on as the number it stands for.
    assert_eq!(document.unwrap()["formatVersion"].as_u64(), Some(7));
}

#[test]
fn non_numeric_format_version_is_malformed() {
    assert!(matches!(
        read_document(r#"{"formatVersion": "7", "name": "x", "clips": []}"#),
        Err(StoreError::Malformed(_))
    ));
}

#[test]
fn newer_format_is_refused_as_too_new() {
    assert!(matches!(
        read_document(r#"{"formatVersion": 8, "name": "x", "sourceVideos": [], "clips": []}"#),
        Err(StoreError::TooNew { found: 8, .. })
    ));
}

#[test]
fn truncated_json_is_malformed() {
    assert!(matches!(
        read_document("{\"formatVersion\": 7, \"na"),
        Err(StoreError::Malformed(_))
    ));
}

#[test]
fn the_current_version_is_read_whole() {
    let document = read_document(r#"{"formatVersion": 7, "name": "x", "clips": [1]}"#).unwrap();
    assert_eq!(document["name"].as_str(), Some("x"));
    assert_eq!(document["clips"][0].as_u64(), Some(1));
}

#[test]
fn a_version_is_an_integer_however_it_is_spelled() {
    assert_eq!(format_version_of(&VersionField::Absent), Ok(1));
    assert_eq!(format_version_of(&VersionField::Integer(7)), Ok(7));
    assert_eq!(format_version_of(&VersionField::Float("7".to_string())), Ok(7));
    for bad in ["7.5", "-7", "4294967296", ""] {
        assert!(
            matches!(
                format_version_of(&VersionField::Float(bad.to_string())),
                Err(StoreError::Malformed(_))
            ),
            "{bad}"
        );
    }
    assert!(matches!(
        format_version_of(&VersionField::Integer(1 << 32)),
        Err(StoreError::Malformed(_))
    ));
    assert!(matches!(
        format_version_of(&VersionField::Other("\"7\"".to_string())),
        Err(StoreError::Malformed(_))
    ));
    assert_eq!(admit_version(&VersionField::Integer(7)), Ok(7));
    assert_eq!(
        admit_version(&VersionField::Integer(6)),
        Err(StoreError::LegacyProject { found: 6, minimum: 7 })
    );
    assert_eq!(
        admit_version(&VersionField::Integer(9)),
        Err(StoreError::TooNew { found: 9, supported: 7 })
    );
}

#[test]
fn every_store_error_has_its_sentence() {
    let said = |e: StoreError| e.message();
    assert_eq!(
        said(StoreError::MissingProjectJson("/p".to_string())),
        "no project.json in /p"
    );
    assert!(said(StoreError::LegacyProject { found: 6, minimum: 7 }).contains("v6"));
    assert!(said(StoreError::TooNew { found: 8, supported: 7 }).contains("v8"));
    assert!(said(StoreError::Malformed("m".to_string())).ends_with("m"));
    assert!(said(StoreError::NotSerializable("n".to_string())).ends_with("n"));
    assert!(said(StoreError::Io("gone".to_string())).ends_with("gone"));
}

#[test]
fn write_stamps_the_current_format_version() {
    let mut p = Project::new("Match vs Rovers".to_string());
    p.format_version = 1;
    stamp(&mut p);
    assert_eq!(p.format_version, CURRENT_FORMAT_VERSION);
    assert_eq!(p, Project::new("Match vs Rovers".to_string()));
}

#[test]
fn cumulative_offset_accumulates_preceding_sources() {
    let p = over(&[10.0, 20.0, 30.0]);
    assert_eq!(p.cumulative_offset(0), 0);
    assert_eq!(p.cumulative_offset(1), at(10.0));
    assert_eq!(p.cumulative_offset(2), at(30.0));
    assert_eq!(p.total_source_duration(), at(60.0));
}

/// Clamped at the top, so an index past the end returns the total rather than
/// panicking.
#[test]
fn cumulative_offset_clamps_index_past_the_end() {
    assert_eq!(over(&[10.0]).cumulative_offset(99), at(10.0));
}

#[test]
fn cumulative_offset_of_empty_project_is_zero() {
    let p = Project::new("p".to_string());
    assert_eq!(p.cumulative_offset(0), 0);
    assert_eq!(p.cumulative_offset(5), 0);
    assert_eq!(p.total_source_duration(), 0);
}

#[test]
fn abs_seconds_projects_onto_the_concat_timeline() {
    let p = over(&[100.0, 200.0]);
    assert_eq!(p.abs_seconds(0, ticks(5.0)), at(5.0));
    assert_eq!(p.abs_seconds(1, ticks(5.0)), at(105.0));
}

fn pending(start: f64) -> PendingClip {
    PendingClip { id: Id { bits: 0x1234 }, source_index: 1, start_source: ticks(start) }
}

#[test]
fn a_recorded_clip_is_built_from_the_pending_clip() {
    let mut p = Project::new("p".to_string());
    let events = vec![CommentaryEvent::new(0, EventKind::ClearAll)];
    p.add_recorded_clip(
        pending(3725.9),
        ticks(42.5),
        events.clone(),
        "2026-09-19T12:00:00Z".to_string(),
    );
    assert_eq!(p.clips.len(), 1);
    let c = &p.clips[0];
    assert_eq!(c.id, Id { bits: 0x1234 });
    // 3725.9 s floors to 1 h 2 min 5 s; the source number is 1-based.
    assert_eq!(c.name, "2-01:02:05");
    assert_eq!(c.recording_filename, "00000000-0000-0000-0000-000000001234.mkv");
    assert_eq!(c.source_index, 1);
    assert_eq!(c.start_source, ticks(3725.9));
    assert_eq!(c.recording_duration, ticks(42.5));
    assert_eq!(c.events, events);
    assert_eq!(c.created_at, "2026-09-19T12:00:00Z");
    assert!(c.notes.is_empty() && c.tags.is_empty() && c.transcript.is_empty());
    assert_eq!(c.sort_index, 0, "the first clip");
}

/// The clip count would repeat an index after a delete.
#[test]
fn sort_index_is_one_past_the_largest_even_after_a_gap() {
    let mut p = Project::new("p".to_string());
    let mut a = sample_clip();
    a.sort_index = 0;
    let mut b = sample_clip();
    b.sort_index = 5;
    p.clips = vec![b, a];
    p.add_recorded_clip(pending(0.0), ticks(1.0), Vec::new(), String::new());
    assert_eq!(p.clips.last().unwrap().sort_index, 6);
}

#[test]
fn show_pip_comes_from_preferences() {
    let mut p = Project::new("p".to_string());
    p.add_recorded_clip(pending(0.0), ticks(1.0), Vec::new(), String::new());
    assert!(p.clips[0].show_pip);
    p.preferences.pip_for_new_recordings = false;
    p.add_recorded_clip(pending(0.0), ticks(1.0), Vec::new(), String::new());
    assert!(!p.clips[1].show_pip);
}

#[test]
fn a_root_that_is_no_object_has_no_version() {
    assert!(matches!(
        admit_document(false, &VersionField::Absent),
        Err(StoreError::Malformed(_))
    ));
    assert_eq!(admit_document(true, &VersionField::Integer(7)), Ok(7));
    assert_eq!(
        admit_document(true, &VersionField::Absent),
        Err(StoreError::LegacyProject { found: 1, minimum: 7 })
    );
}
