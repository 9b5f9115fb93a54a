//! The compilation schedule: which source time lands at each output frame,
//! and where one entry ends and the next begins.
//!
//! Target filtering and empty targets are the plan's; these tests take the
//! selection as given and check the frames it produces.

use video_coach::event::{CommentaryEvent, EventKind};
use video_coach::export::{
    compilation_schedule, frame_count, Compilation, FrameSpec, Rate, RateWindow, OUTPUT_FPS,
};
use video_coach::id::Id;
use video_coach::plan::ExportTarget;
use video_coach::project::{Clip, Project, SourceRef};
use video_coach::timeline::{playback_segments, source_time, SegmentKind};

fn ticks(seconds: f64) -> i64 {
    (seconds * 3_000_000_000.0).round() as i64
}

fn clip(start: f64, duration: f64, events: Vec<CommentaryEvent>) -> Clip {
    Clip {
        id: Id { bits: 7 },
        name: "c".to_string(),
        notes: String::new(),
        tags: Vec::new(),
        source_index: 0,
        start_source: ticks(start),
        recording_duration: ticks(duration),
        recording_filename: "c.mkv".to_string(),
        events,
        show_pip: true,
        sort_index: 0,
        created_at: "2026-09-19T00:00:00Z".to_string(),
        transcript: String::new(),
    }
}

fn project_over(clips: Vec<Clip>, source_duration: f64) -> Project {
    let mut p = Project::new("p".to_string());
    p.source_videos.push(SourceRef {
        relative_path: "film.mp4".to_string(),
        display_name: "film".to_string(),
        duration: ticks(source_duration),
        display_aspect: 1_777_777_778,
    });
    p.clips = clips;
    p
}

/// Every clip of `clips`, over one source `source_duration` seconds long.
fn compile(clips: Vec<Clip>, source_duration: f64) -> Compilation {
    compilation_schedule(
        &project_over(clips, source_duration),
        &ExportTarget::AllClips,
        &vec![],
    )
}

/// The frames of a one-entry compilation: the single-clip export.
fn schedule(c: Clip, source_duration: f64) -> Vec<FrameSpec> {
    compile(vec![c], source_duration).frames
}

fn play(t: f64, anchor: f64) -> CommentaryEvent {
    CommentaryEvent::new(ticks(t), EventKind::Play { source_time: ticks(anchor) })
}
fn pause(t: f64, anchor: f64) -> CommentaryEvent {
    CommentaryEvent::new(ticks(t), EventKind::Pause { source_time: ticks(anchor) })
}
fn skip(t: f64, delta: f64) -> CommentaryEvent {
    CommentaryEvent::new(ticks(t), EventKind::Skip { delta: ticks(delta) })
}

/// Within a nanosecond, three ticks.
fn approx(at: i64, seconds: f64) -> bool {
    (at - ticks(seconds)).abs() < 3
}

const DUR: f64 = 1000.0;
const FPS: f64 = OUTPUT_FPS as f64;

#[test]
fn frame_count_covers_the_total() {
    assert_eq!(schedule(clip(0.0, 2.0, vec![]), DUR).len(), 60);
    // A partial trailing interval still gets its frame at 2.0 s.
    assert_eq!(schedule(clip(0.0, 2.01, vec![]), DUR).len(), 61);
    assert!(schedule(clip(0.0, 0.0, vec![]), DUR).is_empty());
}

#[test]
fn float_noise_in_the_total_adds_no_frame() {
    // 8.3 · 30 = 249.00000000000003 as a float.
    assert!(8.3 * FPS > 249.0);
    assert_eq!(schedule(clip(0.0, 8.3, vec![]), DUR).len(), 249);
    // The same total built from a sum of segments.
    let c = clip(0.0, 8.3, vec![pause(0.1, 0.1), play(0.2, 0.1)]);
    assert_eq!(schedule(c, DUR).len(), 249);
}

#[test]
fn a_frame_needs_more_than_the_slack() {
    assert_eq!(frame_count(-1), 0);
    assert_eq!(frame_count(100), 0);
    assert_eq!(frame_count(101), 1);
    assert_eq!(frame_count(100_000_100), 1);
    assert_eq!(frame_count(100_000_101), 2);
}

#[test]
fn play_maps_output_time_onto_the_source() {
    let s = schedule(clip(10.0, 1.0, vec![]), DUR);
    for (n, f) in s.iter().enumerate() {
        assert!(approx(f.source_time, 10.0 + n as f64 / FPS), "frame {n}");
    }
}

#[test]
fn freeze_holds_the_pause_anchor() {
    // Pause at 1 s with a captured anchor off the computed cursor, resume at 2 s.
    let c = clip(10.0, 3.0, vec![pause(1.0, 11.013), play(2.0, 11.013)]);
    let s = schedule(c, DUR);
    assert_eq!(s.len(), 90);
    assert!(approx(s[29].source_time, 10.0 + 29.0 / FPS));
    for f in &s[30..60] {
        assert_eq!(f.source_time, ticks(11.013));
    }
    assert!(approx(s[60].source_time, 11.013));
    assert!(approx(s[75].source_time, 11.013 + 0.5));
}

#[test]
fn skip_jumps_the_source() {
    let c = clip(10.0, 2.0, vec![skip(1.0, 5.0)]);
    let s = schedule(c, DUR);
    assert!(approx(s[29].source_time, 10.0 + 29.0 / FPS));
    assert!(approx(s[30].source_time, 16.0));
    assert!(approx(s[45].source_time, 16.5));
}

#[test]
fn a_sub_frame_segment_gets_a_frame_iff_it_contains_a_frame_time() {
    // [0.03, 0.04) contains 1/30 ≈ 0.0333: frame 1 is the freeze.
    let c = clip(10.0, 1.0, vec![pause(0.03, 50.0), play(0.04, 20.0)]);
    let s = schedule(c, DUR);
    assert_eq!(s[1].source_time, ticks(50.0));
    assert_eq!(s.iter().filter(|f| f.source_time == ticks(50.0)).count(), 1);

    // [0.04, 0.05) lies between 1/30 and 2/30: the freeze gets no frame.
    let c = clip(10.0, 1.0, vec![pause(0.04, 50.0), play(0.05, 20.0)]);
    let s = schedule(c, DUR);
    assert!(s.iter().all(|f| f.source_time != ticks(50.0)));
    assert!(approx(s[1].source_time, 10.0 + 1.0 / FPS));
    assert!(approx(s[2].source_time, 20.0 + (2.0 / FPS - 0.05)));
}

#[test]
fn a_frame_on_a_segment_boundary_belongs_to_the_later_segment() {
    // The pause sits exactly on frame 3; the boundary is the sum 0.1 + 0.2.
    let c = clip(10.0, 1.0, vec![pause(0.1, 50.0), play(0.1 + 0.2, 20.0)]);
    let s = schedule(c, DUR);
    assert!(approx(s[2].source_time, 10.0 + 2.0 / FPS));
    assert_eq!(s[3].source_time, ticks(50.0));
    assert_eq!(s[8].source_time, ticks(50.0));
    // Frame 9 is the start of the play, never a hair before its anchor.
    assert!(s[9].source_time >= ticks(20.0));
    assert!(approx(s[9].source_time, 20.0));
}

#[test]
fn playing_off_the_source_end_freezes_short_of_it() {
    // 1 s of source left, 2 s of recording: play to the end, then hold the
    // last frame, capped 50 ms before the end so the decoder has a sample.
    let s = schedule(clip(9.0, 2.0, vec![]), 10.0);
    assert_eq!(s.len(), 60);
    assert!(approx(s[29].source_time, 9.0 + 29.0 / FPS));
    for f in &s[30..] {
        assert!(approx(f.source_time, 9.95));
    }
}

#[test]
fn a_one_entry_compilation_tags_every_frame_with_entry_zero() {
    let c = compile(vec![clip(0.0, 1.0, vec![])], DUR);
    assert_eq!(c.plan.entries.len(), 1);
    assert_eq!(c.plan.entries[0].start_frame, 0);
    assert_eq!(c.plan.entries[0].frames, 30);
    assert_eq!(c.plan.total_frames(), 30);
    assert!(c.frames.iter().all(|f| f.entry == 0));
}

/// Each entry is rounded **up** to a whole frame and the next starts on the
/// boundary, so record time stays output time inside every entry. The price is
/// that the rendered video is longer than the plan's segment sum.
#[test]
fn entries_are_quantized_to_whole_frames() {
    // 2.01 s is 60.3 frames: 61 each, so the second entry starts at 61 rather
    // than at 2.01 s · 30 = 60.3.
    let c = compile(vec![clip(10.0, 2.01, vec![]), clip(20.0, 2.01, vec![])], DUR);

    let [a, b] = &c.plan.entries[..] else {
        panic!("two entries")
    };
    assert_eq!((a.start_frame, a.frames), (0, 61));
    assert_eq!((b.start_frame, b.frames), (61, 61));
    assert_eq!(c.plan.total_frames(), 122);
    assert_eq!(c.frames.len(), 122);

    // The frame count exceeds the segment sum by the rounding, one frame per
    // entry: 122/30 = 4.0667 s against 4.02 s.
    let sum: i64 = c
        .plan
        .entries
        .iter()
        .flat_map(|e| e.segments.iter())
        .map(|s| s.out_duration)
        .sum();
    assert!(approx(sum, 4.02));
    assert!(c.plan.total_frames() as i64 * 100_000_000 > sum);

    // The last frame of the first entry, then the first of the second.
    assert_eq!(c.frames[60].entry, 0);
    assert!(approx(c.frames[60].source_time, 10.0 + 2.0));
    assert_eq!(c.frames[61].entry, 1);
    assert!(approx(c.frames[61].source_time, 20.0));
}

/// The record time is derived from the entry and the global frame index, so an
/// entry's clock restarts at zero however many frames precede it.
#[test]
fn record_time_is_derived_from_the_entry_and_the_frame_index() {
    let c = compile(vec![clip(0.0, 2.01, vec![]), clip(0.0, 1.0, vec![])], DUR);
    let second = &c.plan.entries[1];

    assert_eq!(second.record_time(second.start_frame), 0);
    assert_eq!(
        second.record_time(second.start_frame + 15),
        i128::from(ticks(0.5))
    );
    assert_eq!(
        second.record_time(second.start_frame + second.frames - 1),
        29 * 100_000_000
    );
}

/// The entry carries what its frames don't: which source to pull from, and
/// which clip, whose recording is the PiP, with whether to show it.
#[test]
fn an_entry_carries_its_source_recording_and_pip_flag() {
    let mut a = clip(0.0, 1.0, vec![]);
    a.source_index = 0;
    a.recording_filename = "a.mkv".to_string();
    a.show_pip = false;

    let p = project_over(vec![a], DUR);
    let c = compilation_schedule(&p, &ExportTarget::AllClips, &vec![]);
    let entry = &c.plan.entries[0];
    assert_eq!(entry.source_index, 0);
    let of = p.clips.iter().find(|c| Some(c.id) == entry.clip_id).unwrap();
    assert_eq!(of.recording_filename, "a.mkv");
    assert!(!of.show_pip);
}

#[test]
fn the_text_line_numbers_the_clip_within_its_target() {
    let mut a = clip(0.0, 1.0, vec![]);
    a.name = "Back post header".to_string();
    a.tags = vec!["shot".to_string(), "set piece".to_string()];
    let mut b = clip(0.0, 1.0, vec![]);
    b.name = "Turnover".to_string();
    b.tags = vec![];

    let c = compile(vec![a, b], DUR);
    assert_eq!(
        c.plan.entries[0].text,
        "1 / 2 | Back post header | shot, set piece"
    );
    // No tags: the part and its separator both go.
    assert_eq!(c.plan.entries[1].text, "2 / 2 | Turnover");
}

#[test]
fn the_text_line_collapses_an_empty_name_and_empty_tags() {
    let mut a = clip(0.0, 1.0, vec![]);
    a.name = "   ".to_string();
    a.tags = vec!["shot".to_string()];
    let mut b = clip(0.0, 1.0, vec![]);
    b.name = String::new();
    b.tags = vec![];

    let c = compile(vec![a, b], DUR);
    assert_eq!(c.plan.entries[0].text, "1 / 2 | shot");
    assert_eq!(c.plan.entries[1].text, "2 / 2");
}

/// The total is the **target's** clip count, not the project's.
#[test]
fn the_text_line_counts_only_the_targets_clips() {
    let mut a = clip(0.0, 1.0, vec![]);
    a.name = "a".to_string();
    a.tags = vec!["shot".to_string()];
    let mut b = clip(0.0, 1.0, vec![]);
    b.name = "b".to_string();
    b.id = Id { bits: 8 };
    let id = b.id;
    let p = project_over(vec![a, b], DUR);

    let tag = compilation_schedule(&p, &ExportTarget::Tag("shot".to_string()), &vec![]);
    assert_eq!(tag.plan.entries[0].text, "1 / 1 | a | shot");

    let one = compilation_schedule(&p, &ExportTarget::Clip(id), &vec![]);
    assert_eq!(one.plan.entries.len(), 1);
    assert_eq!(one.plan.entries[0].text, "1 / 1 | b");
    assert_eq!(one.frames.len(), 30);
}

#[test]
fn segments_cover_the_recording() {
    let c = clip(10.0, 3.0, vec![pause(1.0, 11.0), skip(1.5, 2.0), play(2.0, 13.0)]);
    let segments = playback_segments(&c, ticks(DUR));
    let total: i64 = segments.iter().map(|s| s.out_duration).sum();
    assert_eq!(total, ticks(3.0));
    assert_eq!(segments[0].kind, SegmentKind::Play);
    assert_eq!(segments.last().unwrap().kind, SegmentKind::Play);
    assert_eq!(segments.last().unwrap().source_start, ticks(13.0));
}

#[test]
fn the_clock_and_the_segments_agree() {
    let c = clip(10.0, 3.0, vec![pause(1.0, 11.0), skip(1.5, 2.0), play(2.0, 13.0)]);
    for (at, shown) in [(0.5, 10.5), (1.25, 11.0), (1.75, 13.0), (2.5, 13.5)] {
        assert_eq!(source_time(&c, ticks(at), ticks(DUR)), ticks(shown), "{at}");
    }
}

#[test]
fn a_stroke_does_not_move_the_picture() {
    let stroke = CommentaryEvent::new(ticks(0.5), EventKind::Stroke);
    let with = clip(10.0, 2.0, vec![stroke, skip(1.0, 5.0)]);
    let without = clip(10.0, 2.0, vec![skip(1.0, 5.0)]);
    assert_eq!(
        playback_segments(&with, ticks(DUR)),
        playback_segments(&without, ticks(DUR))
    );
}

#[test]
fn a_rate_needs_samples_and_a_span() {
    let mut window = RateWindow::new();
    for n in 0..4u64 {
        assert_eq!(window.sample(n * 30, ticks(n as f64)), None);
    }
    let rate = window.sample(120, ticks(4.0)).unwrap();
    assert_eq!(rate, Rate { frames: 120, ticks: i128::from(ticks(4.0)) });
}

#[test]
fn a_rate_forgets_what_is_past_its_window() {
    let mut window = RateWindow::new();
    let mut last = None;
    for n in 0..100u64 {
        last = window.sample(n * 10, ticks(n as f64));
    }
    let rate = last.unwrap();
    assert!(rate.ticks <= i128::from(ticks(30.0)));
    // Ten frames a second, whatever the window holds.
    assert_eq!(rate.frames * i128::from(ticks(1.0)), rate.ticks * 10);
}

/// The clamp is at each move, not once on the way out.
#[test]
fn a_skip_past_the_end_is_forgotten() {
    let c = clip(0.0, 10.0, vec![pause(0.0, 0.0), skip(1.0, 1e6), skip(2.0, -10.0)]);
    assert_eq!(source_time(&c, ticks(3.0), ticks(DUR)), ticks(990.0));
}

#[test]
fn the_picture_stays_short_of_the_end_where_the_clock_reaches_it() {
    let c = clip(9.0, 2.0, vec![]);
    assert_eq!(source_time(&c, ticks(1.5), ticks(10.0)), ticks(10.0));
    let held = *playback_segments(&c, ticks(10.0)).last().unwrap();
    assert_eq!(held.kind, SegmentKind::Freeze);
    assert_eq!(held.source_start, ticks(9.95));
}
