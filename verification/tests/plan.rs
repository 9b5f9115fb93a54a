//! Compilation planning: target filtering, ordering, and duration accounting.

use video_coach::event::{CommentaryEvent, EventKind};
use video_coach::export_run::find_clip;
use video_coach::id::Id;
use video_coach::plan::{compilation_plan, CompilationPlan, ExportTarget, PlanEntry};
use video_coach::project::{Clip, Project, SourceRef};

fn ticks(seconds: f64) -> i64 {
    (seconds * 3_000_000_000.0).round() as i64
}

fn clip(bits: u128, name: &str, sort_index: i64, tags: &[&str]) -> Clip {
    Clip {
        id: Id { bits },
        name: name.to_string(),
        notes: String::new(),
        tags: tags.iter().map(|t| t.to_string()).collect(),
        source_index: 0,
        start_source: ticks(10.0),
        recording_duration: ticks(5.0),
        recording_filename: format!("{name}.mkv"),
        events: Vec::new(),
        show_pip: true,
        sort_index,
        created_at: "2026-09-19T00:00:00Z".to_string(),
        transcript: String::new(),
    }
}

fn project_with(clips: Vec<Clip>) -> Project {
    let mut p = Project::new("p".to_string());
    p.source_videos.push(SourceRef {
        relative_path: "film.mp4".to_string(),
        display_name: "film".to_string(),
        duration: ticks(1000.0),
        display_aspect: 1_777_777_778,
    });
    p.clips = clips;
    p
}

fn plan_of(p: &Project, target: &ExportTarget) -> CompilationPlan {
    compilation_plan(p, target, &vec![])
}

fn total_duration(plan: &CompilationPlan) -> i64 {
    plan.entries
        .iter()
        .flat_map(|e| e.segments.iter())
        .map(|s| s.out_duration)
        .sum()
}

fn clip_of<'a>(p: &'a Project, entry: &PlanEntry) -> &'a Clip {
    &p.clips[find_clip(&p.clips, entry.clip_id.unwrap()).unwrap()]
}

#[test]
fn an_empty_project_plans_nothing() {
    let p = project_with(vec![]);
    let plan = plan_of(&p, &ExportTarget::AllClips);
    assert!(plan.entries.is_empty());
    assert_eq!(total_duration(&plan), 0);
    assert_eq!(plan.total_frames(), 0);
}

#[test]
fn a_single_clip_plans_one_entry() {
    let p = project_with(vec![clip(1, "a", 0, &["shot"])]);
    let plan = plan_of(&p, &ExportTarget::AllClips);
    assert_eq!(plan.entries.len(), 1);
    assert_eq!(total_duration(&plan), ticks(5.0));
}

/// The stored order is the order: a read keeps `clips` sorted, so the plan
/// doesn't re-sort by `sort_index`.
#[test]
fn clips_are_planned_in_stored_order() {
    let p = project_with(vec![
        clip(1, "third", 30, &[]),
        clip(2, "first", 10, &[]),
        clip(3, "second", 20, &[]),
    ]);
    let plan = plan_of(&p, &ExportTarget::AllClips);
    let ids: Vec<_> = plan.entries.iter().map(|e| e.clip_id).collect();
    let expect: Vec<_> = p.clips.iter().map(|c| Some(c.id)).collect();
    assert_eq!(ids, expect);
}

#[test]
fn a_tag_target_selects_only_matching_clips() {
    let p = project_with(vec![
        clip(1, "a", 0, &["shot", "transition"]),
        clip(2, "b", 1, &["transition"]),
        clip(3, "c", 2, &["set piece"]),
    ]);
    let plan = plan_of(&p, &ExportTarget::Tag("transition".to_string()));
    assert_eq!(plan.entries.len(), 2);
    assert_eq!(total_duration(&plan), ticks(10.0));
}

#[test]
fn a_tag_matching_nothing_plans_nothing() {
    let p = project_with(vec![clip(1, "a", 0, &["shot"])]);
    let plan = plan_of(&p, &ExportTarget::Tag("nope".to_string()));
    assert!(plan.entries.is_empty());
}

#[test]
fn all_clips_ignores_tags_entirely() {
    let p = project_with(vec![clip(1, "a", 0, &[]), clip(2, "b", 1, &["shot"])]);
    let plan = plan_of(&p, &ExportTarget::AllClips);
    assert_eq!(plan.entries.len(), 2);
}

/// The source duration comes from `SourceRef`, the single authority.
#[test]
fn source_duration_comes_from_the_project_by_default() {
    let mut c = clip(1, "a", 0, &[]);
    c.start_source = ticks(995.0);
    c.recording_duration = ticks(20.0);
    let p = project_with(vec![c]); // source is 1000 s long
    let plan = plan_of(&p, &ExportTarget::AllClips);

    // Only 5 s of source remains, so it plays 5 s then freezes for 15 s.
    let segs = &plan.entries[0].segments;
    assert_eq!(segs.len(), 2);
    assert_eq!(segs[0].out_duration, ticks(5.0));
    assert_eq!(segs[1].out_duration, ticks(15.0));
}

/// When a clip's source is missing, the fallback must be large enough that the
/// segment builder never clamps a forward skip it should not have.
#[test]
fn a_missing_source_falls_back_to_a_covering_duration() {
    let mut c = clip(1, "a", 0, &[]);
    c.source_index = 7; // no such source
    let p = project_with(vec![c]);
    let plan = plan_of(&p, &ExportTarget::AllClips);

    // start 10 + duration 5 = 15 of covering source, so the whole clip plays.
    let segs = &plan.entries[0].segments;
    assert_eq!(segs.len(), 1);
    assert_eq!(segs[0].out_duration, ticks(5.0));
    assert_eq!(total_duration(&plan), ticks(5.0));
}

#[test]
fn a_shorter_source_truncates_the_clip() {
    let mut c = clip(1, "a", 0, &[]);
    c.start_source = 0;
    c.recording_duration = ticks(20.0);
    let mut p = project_with(vec![c]);
    p.source_videos[0].duration = ticks(8.0);

    let plan = plan_of(&p, &ExportTarget::AllClips);
    let segs = &plan.entries[0].segments;
    assert_eq!(segs[0].out_duration, ticks(8.0), "plays the available 8 s");
    assert_eq!(segs[1].out_duration, ticks(12.0), "then freezes for the rest");
}

/// The frames come from the segment durations, not from the recording's. An
/// event past the end of the recording makes those disagree, and since the
/// frames are the export-progress denominator, the wrong one would show
/// progress climbing past 100%.
#[test]
fn total_duration_comes_from_segments_not_recording_duration() {
    let mut c = clip(1, "a", 0, &[]);
    c.recording_duration = ticks(5.0);
    // An event beyond the recording's end: the plan must stay self-consistent.
    c.events = vec![CommentaryEvent::new(
        ticks(9.0),
        EventKind::Pause { source_time: ticks(12.0) },
    )];
    let p = project_with(vec![c]);

    let plan = plan_of(&p, &ExportTarget::AllClips);
    let sum = total_duration(&plan);
    assert_eq!(plan.total_frames() as i64 * 100_000_000, sum);
    assert_ne!(
        sum,
        clip_of(&p, &plan.entries[0]).recording_duration,
        "this is the case where the two sums diverge"
    );
}

#[test]
fn entries_carry_their_clip_id_and_recording_duration() {
    let c = clip(1, "a", 0, &[]);
    let id = c.id;
    let p = project_with(vec![c]);
    let plan = plan_of(&p, &ExportTarget::AllClips);
    assert_eq!(plan.entries[0].clip_id, Some(id));
    assert_eq!(clip_of(&p, &plan.entries[0]).recording_duration, ticks(5.0));
}

#[test]
fn entries_follow_each_other_without_a_gap() {
    let p = project_with(vec![clip(1, "a", 0, &[]), clip(2, "b", 1, &[])]);
    let plan = plan_of(&p, &ExportTarget::AllClips);
    assert_eq!((plan.entries[0].start_frame, plan.entries[0].frames), (0, 150));
    assert_eq!((plan.entries[1].start_frame, plan.entries[1].frames), (150, 150));
    assert_eq!(plan.total_frames(), 300);
}
