//! Where a source's file is, and what a list change does.

use video_coach::id::Id;
use video_coach::project::{Clip, Project, SourceRef};
use video_coach::scoreboard_config::{MatchEventKind, MatchEventRecord};
use video_coach::sources::{
    any_missing, clamp_in_source, file_name, probed_source, relative_path, source_ref,
    AspectMismatch, SourceReferenced, ASPECT_TOLERANCE, END_MARGIN,
};
use video_coach::user_error::UserError;

const SECOND: i64 = 3_000_000_000;

fn ticks(seconds: f64) -> i64 {
    (seconds * SECOND as f64).round() as i64
}

fn source(name: &str) -> SourceRef {
    SourceRef {
        relative_path: format!("../media/{name}"),
        display_name: name.to_string(),
        duration: 2 * SECOND,
        display_aspect: 1_777_777_778,
    }
}

fn clip_on(source_index: usize) -> Clip {
    Clip {
        id: Id { bits: 1 },
        name: String::new(),
        notes: String::new(),
        tags: Vec::new(),
        source_index,
        start_source: 0,
        recording_duration: SECOND,
        recording_filename: "r.mkv".to_string(),
        events: Vec::new(),
        show_pip: true,
        sort_index: 0,
        created_at: String::new(),
        transcript: String::new(),
    }
}

fn event_on(source_index: usize) -> MatchEventRecord {
    MatchEventRecord {
        id: Id { bits: 2 },
        kind: MatchEventKind::HomeGoal,
        source_index,
        source_time: 0,
        is_auto_back_anchor: false,
        reel_lead_in: None,
        reel_tail: None,
    }
}

fn project(names: &[&str], clips: &[usize], events: &[usize]) -> Project {
    let mut p = Project::new("p".to_string());
    p.source_videos = names.iter().map(|n| source(n)).collect();
    p.clips = clips.iter().map(|&i| clip_on(i)).collect();
    p.match_events = events.iter().map(|&i| event_on(i)).collect();
    p
}

fn listed(p: &Project) -> Vec<&str> {
    p.source_videos.iter().map(|s| s.display_name.as_str()).collect()
}

fn indices(p: &Project) -> (Vec<usize>, Vec<usize>) {
    (
        p.clips.iter().map(|c| c.source_index).collect(),
        p.match_events.iter().map(|e| e.source_index).collect(),
    )
}

#[test]
fn relative_path_inside_the_folder() {
    assert_eq!(
        relative_path("/p/game/v/a.mp4", "/p/game").as_deref(),
        Some("v/a.mp4")
    );
}

#[test]
fn relative_path_climbs_out_of_the_folder() {
    assert_eq!(
        relative_path("/media/cam/a.mp4", "/p/game").as_deref(),
        Some("../../media/cam/a.mp4")
    );
    assert_eq!(
        relative_path("/p/a.mp4", "/p/game").as_deref(),
        Some("../a.mp4")
    );
}

#[test]
fn relative_path_round_trips_through_join() {
    let base = "/home/u/games/2026";
    for p in ["/home/u/videos/x.mp4", "/home/u/games/2026/x.mp4", "/x.mp4"] {
        let rel = relative_path(p, base).unwrap();
        let joined = format!("{base}/{rel}");
        let mut parts: Vec<&str> = Vec::new();
        for part in joined.split('/').filter(|s| !s.is_empty()) {
            if part == ".." {
                parts.pop();
            } else {
                parts.push(part);
            }
        }
        assert_eq!(format!("/{}", parts.join("/")), p, "{rel}");
    }
}

#[test]
fn relative_path_needs_absolute_paths() {
    assert_eq!(relative_path("a.mp4", "/p"), None);
    assert_eq!(relative_path("/a.mp4", "p"), None);
}

#[test]
fn relative_path_reads_names_and_nothing_else() {
    assert_eq!(relative_path("/p//game/./a", "/p/game/").as_deref(), Some("a"));
    assert_eq!(relative_path("/p", "/p").as_deref(), Some(""));
    assert_eq!(relative_path("/", "/a/b").as_deref(), Some("../.."));
}

#[test]
fn clamp_in_source_keeps_short_of_the_end() {
    let ten = Some(ticks(10.0));
    assert_eq!(clamp_in_source(Some(ticks(5.0)), ten), ticks(5.0));
    assert_eq!(clamp_in_source(Some(ticks(10.0)), ten), ticks(10.0) - END_MARGIN);
    assert_eq!(clamp_in_source(Some(ticks(-1.0)), ten), 0);
    assert_eq!(clamp_in_source(None, ten), 0);
    assert_eq!(clamp_in_source(Some(ticks(1.0)), None), ticks(1.0));
    assert_eq!(clamp_in_source(Some(ticks(1.0)), Some(0)), 0);
    assert_eq!(END_MARGIN, ticks(0.05));
}

#[test]
fn a_file_name_is_the_last_name_of_a_path() {
    assert_eq!(file_name("/a/b.mp4").as_deref(), Some("b.mp4"));
    assert_eq!(file_name("b/").as_deref(), Some("b"));
    assert_eq!(file_name("b/.").as_deref(), Some("b"));
    assert_eq!(file_name("b/.."), None);
    assert_eq!(file_name("/"), None);
    assert_eq!(file_name(""), None);
}

#[test]
fn a_probed_video_is_stored_relative_to_its_project() {
    let s = source_ref("/link/a.mp4", "/media/a.mp4", "/p/game", 7, 9).unwrap();
    assert_eq!(s.relative_path, "../../media/a.mp4");
    assert_eq!(s.display_name, "a.mp4");
    assert_eq!((s.duration, s.display_aspect), (7, 9));
    let e = source_ref("a.mp4", "a.mp4", "/p", 7, 9).unwrap_err();
    assert_eq!(
        e,
        UserError::Io(
            "a.mp4 can't be stored relative to the project folder (non-UTF-8 path?)".to_string()
        )
    );
}

fn shaped(name: &str, display_aspect: u64) -> SourceRef {
    SourceRef { display_aspect, ..source(name) }
}

#[test]
fn a_source_with_a_different_aspect_is_rejected() {
    let mut p = project(&[], &[], &[]);
    let at = |path: &str| Ok(path.to_string());
    let wide = probed_source(
        &p, None, "/media/wide.webm", &at("/media/wide.webm"), "/project", SECOND, 1_777_777_778,
    );
    p.add_source(wide.unwrap());
    assert_eq!(p.source_videos[0].display_name, "wide.webm");
    assert_eq!(p.source_videos[0].relative_path, "../media/wide.webm");

    let square = probed_source(
        &p, None, "/media/square.webm", &at("/media/square.webm"), "/project", SECOND,
        1_333_333_333,
    );
    assert_eq!(square, Err(UserError::AspectMismatch { existing: 1778, attempted: 1333 }));
    assert_eq!(p.source_videos.len(), 1);

    // Relinked, a video is not held to its own old shape.
    let mut p = project(&[], &[], &[]);
    p.add_source(shaped("a", 1_777_777_778));
    let square = probed_source(
        &p, Some(0), "/media/b", &at("/media/b"), "/project", SECOND, 1_333_333_333,
    );
    assert!(p.relink_source(0, square.unwrap()));
    assert_eq!(p.source_videos[0].display_name, "b");
    assert!(!p.relink_source(1, shaped("c", 0)));
    assert_eq!(p.source_videos.len(), 1);
}

#[test]
fn a_refused_shape_names_the_first_video_that_differs() {
    let mut p = project(&[], &[], &[]);
    assert_eq!(p.check_aspect(5, None), Ok(()));
    p.add_source(shaped("a", 100_000_000));
    p.add_source(shaped("b", 105_000_000));
    let most = 100_000_000 + ASPECT_TOLERANCE;
    assert_eq!(p.check_aspect(most, None), Ok(()));
    assert_eq!(
        p.check_aspect(most + 1, None),
        Err(AspectMismatch { existing: 100_000_000, attempted: most + 1 })
    );
    assert_eq!(p.check_aspect(most + 1, Some(0)), Ok(()));
    assert_eq!(
        p.check_aspect(0, Some(0)),
        Err(AspectMismatch { existing: 105_000_000, attempted: 0 })
    );
}

/// As a float is written with three decimals: a tie goes to the even digit.
#[test]
fn a_refused_shape_is_told_to_three_decimals() {
    for (billionths, thousandths) in [
        (1_562_500_000, 1562),
        (1_563_500_000, 1564),
        (1_562_500_001, 1563),
        (1_562_499_999, 1562),
        (0, 0),
        (u64::MAX, 18_446_744_073_710),
    ] {
        let mismatch = AspectMismatch { existing: billionths, attempted: 0 };
        assert_eq!(
            mismatch.reported(),
            UserError::AspectMismatch { existing: thousandths, attempted: 0 }
        );
    }
    assert_eq!(format!("{:.3}", 1.5625), "1.562");
}

#[test]
fn a_video_that_cannot_be_found_is_refused_by_its_path() {
    let p = project(&[], &[], &[]);
    let gone = Err("No such file or directory (os error 2)".to_string());
    assert_eq!(
        probed_source(&p, None, "/a.mp4", &gone, "/p", 1, 1),
        Err(UserError::Io("/a.mp4: No such file or directory (os error 2)".to_string()))
    );
}

#[test]
fn remove_and_move_remap_clips_match_events_and_the_current_source() {
    // A clip on c, a match event on a; d is current.
    let mut p = project(&["a.webm", "b.webm", "c.webm", "d.webm"], &[2], &[0]);

    // Move d before b: [a, d, b, c].
    let current = p.move_source(3, 1, 3);
    assert_eq!(listed(&p), ["a.webm", "d.webm", "b.webm", "c.webm"]);
    assert_eq!(indices(&p), (vec![3], vec![0]));
    assert_eq!(current, 1);

    // Remove b, which nothing references: [a, d, c].
    let current = p.remove_source(2, current).unwrap();
    assert_eq!(listed(&p), ["a.webm", "d.webm", "c.webm"]);
    assert_eq!(indices(&p), (vec![2], vec![0]));
    assert_eq!(current, Some(1));

    // Remove d, the current source.
    assert_eq!(p.remove_source(1, 1), Ok(None));
    assert_eq!(listed(&p), ["a.webm", "c.webm"]);
    assert_eq!(indices(&p), (vec![1], vec![0]));
}

#[test]
fn a_referenced_source_cannot_be_removed() {
    let mut p = project(&["a.webm", "b.webm", "c.webm"], &[2], &[1]);
    let before = project(&["a.webm", "b.webm", "c.webm"], &[2], &[1]);
    assert_eq!(p.remove_source(2, 0), Err(SourceReferenced { index: 2 }));
    assert_eq!(p.remove_source(1, 0), Err(SourceReferenced { index: 1 }));
    assert_eq!(p, before);
}

#[test]
fn moving_a_source_back_undoes_the_move() {
    for from in 0..4 {
        for to in 0..4 {
            let mut p = project(&["a", "b", "c", "d"], &[0, 1, 2, 3], &[3, 2]);
            let there = p.move_source(from, to, 2);
            let back = p.move_source(to, from, there);
            assert_eq!(back, 2);
            assert_eq!(p, project(&["a", "b", "c", "d"], &[0, 1, 2, 3], &[3, 2]));
        }
    }
}

#[test]
fn one_missing_file_is_enough() {
    assert!(!any_missing(&vec![]));
    assert!(!any_missing(&vec![false, false]));
    assert!(any_missing(&vec![false, true]));
}
