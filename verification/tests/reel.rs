//! The goals reel's plan: which goals, each one's span, the clamps and merges
//! between them, and the text bar's line.

use video_coach::export::compilation_schedule;
use video_coach::id::Id;
use video_coach::match_events::ReelEnd;
use video_coach::plan::{compilation_plan, CompilationPlan, ExportTarget, Score};
use video_coach::project::{Project, SourceRef};
use video_coach::reel::{reel_spans, ReelSide, REEL_LEAD_IN, REEL_TAIL};
use video_coach::scoreboard_config::{
    MatchEventKind, MatchEventRecord, MatchFormat, Rgba, ScoreboardConfig, TeamConfig,
    CHANNEL_ONE,
};
use video_coach::timeline::SegmentKind;

const HOME: MatchEventKind = MatchEventKind::HomeGoal;
const AWAY: MatchEventKind = MatchEventKind::AwayGoal;

fn ticks(seconds: f64) -> i64 {
    (seconds * 3_000_000_000.0).round() as i64
}

/// A project over sources of these lengths, with no scoreboard.
fn project(durations: &[f64]) -> Project {
    let mut p = Project::new("p".to_string());
    for (i, &duration) in durations.iter().enumerate() {
        p.source_videos.push(SourceRef {
            relative_path: format!("half{i}.mp4"),
            display_name: format!("half{i}"),
            duration: ticks(duration),
            display_aspect: 1_777_777_778,
        });
    }
    p
}

fn with_scoreboard(mut p: Project) -> Project {
    let red = Rgba { r: CHANNEL_ONE, g: 0, b: 0, a: CHANNEL_ONE };
    p.scoreboard = Some(ScoreboardConfig {
        home: TeamConfig::new("Rovers".to_string(), red, red),
        away: TeamConfig::new("United".to_string(), red, red),
        format: MatchFormat::default(),
        auto_back_anchor_p1: false,
    });
    p
}

fn append(p: &mut Project, kind: MatchEventKind, source_index: usize, seconds: f64) -> usize {
    p.match_events.push(MatchEventRecord {
        id: Id { bits: p.match_events.len() as u128 },
        kind,
        source_index,
        source_time: ticks(seconds),
        is_auto_back_anchor: false,
        reel_lead_in: None,
        reel_tail: None,
    });
    p.match_events.len() - 1
}

fn trim_start(p: &mut Project, event: usize, at: f64) {
    let goal = p.match_events[event].id;
    p.set_reel_trim(goal, ReelEnd::Start, Some((0, ticks(at)))).unwrap();
}

fn trim_end(p: &mut Project, event: usize, at: f64) {
    let goal = p.match_events[event].id;
    p.set_reel_trim(goal, ReelEnd::End, Some((0, ticks(at)))).unwrap();
}

fn no_scores(p: &Project) -> Vec<Option<Score>> {
    vec![None; p.match_events.len()]
}

fn reel(p: &Project) -> CompilationPlan {
    compilation_plan(p, &ExportTarget::Reel(ReelSide::All), &no_scores(p))
}

/// Each entry's `(source_index, start, end)`, from its one `Play` segment.
fn spans(plan: &CompilationPlan) -> Vec<(usize, i64, i64)> {
    plan.entries
        .iter()
        .map(|e| {
            assert_eq!(e.segments.len(), 1, "one segment per entry");
            let s = e.segments[0];
            assert_eq!(s.kind, SegmentKind::Play);
            (e.source_index, s.source_start, s.source_start + s.out_duration)
        })
        .collect()
}

fn at(source: usize, start: f64, end: f64) -> (usize, i64, i64) {
    (source, ticks(start), ticks(end))
}

fn texts(plan: &CompilationPlan) -> Vec<&str> {
    plan.entries.iter().map(|e| e.text.as_str()).collect()
}

#[test]
fn a_goal_gets_thirty_seconds_before_and_six_after() {
    assert_eq!((REEL_LEAD_IN, REEL_TAIL), (ticks(30.0), ticks(6.0)));
    let mut p = project(&[1000.0]);
    append(&mut p, HOME, 0, 100.0);

    let plan = reel(&p);
    assert_eq!(spans(&plan), [at(0, 70.0, 106.0)]);
    let entry = &plan.entries[0];
    assert_eq!(entry.clip_id, None, "a reel entry has no clip");
    assert_eq!((entry.start_frame, entry.frames), (0, 36 * 30));
}

#[test]
fn a_span_is_clamped_to_its_source() {
    let mut p = project(&[100.0]);
    append(&mut p, HOME, 0, 10.0);
    append(&mut p, AWAY, 0, 97.0);

    assert_eq!(spans(&reel(&p)), [at(0, 0.0, 16.0), at(0, 67.0, 100.0)]);
}

#[test]
fn a_span_starts_no_earlier_than_the_previous_one_ends_on_its_source() {
    let mut p = project(&[1000.0]);
    append(&mut p, HOME, 0, 100.0);
    append(&mut p, AWAY, 0, 120.0);

    let plan = reel(&p);
    assert_eq!(spans(&plan), [at(0, 70.0, 106.0), at(0, 106.0, 126.0)]);
    assert_eq!(plan.entries[1].start_frame, plan.entries[0].frames);
}

#[test]
fn the_previous_span_on_another_source_does_not_clamp() {
    let mut p = project(&[1000.0, 1000.0]);
    append(&mut p, HOME, 0, 995.0);
    append(&mut p, HOME, 1, 50.0);

    assert_eq!(spans(&reel(&p)), [at(0, 965.0, 1000.0), at(1, 20.0, 56.0)]);
}

/// Its moment is already on screen, so it extends that entry instead of
/// replaying the same footage in one of its own.
#[test]
fn a_goal_inside_the_previous_entry_extends_it() {
    let mut p = project(&[1000.0]);
    append(&mut p, HOME, 0, 100.0);
    let second = append(&mut p, AWAY, 0, 103.0);
    // Its own lead-in is ignored: it doesn't pull the start back.
    trim_start(&mut p, second, 1.0);

    let plan = reel(&p);
    assert_eq!(spans(&plan), [at(0, 70.0, 109.0)]);
    assert_eq!(texts(&plan), ["1 / 1 | Home goal"], "numbering counts entries");
}

/// A goal inside the previous entry whose own tail ends sooner leaves the
/// entry's end alone.
#[test]
fn a_merged_goal_never_shortens_the_entry() {
    let mut p = project(&[1000.0]);
    let first = append(&mut p, HOME, 0, 100.0);
    trim_end(&mut p, first, 120.0);
    append(&mut p, AWAY, 0, 110.0);

    assert_eq!(spans(&reel(&p)), [at(0, 70.0, 120.0)]);
}

#[test]
fn one_side_of_a_trim_overrides_only_that_side() {
    let mut p = project(&[1000.0]);
    let a = append(&mut p, HOME, 0, 100.0);
    let b = append(&mut p, HOME, 0, 500.0);
    trim_start(&mut p, a, 95.0);
    trim_end(&mut p, b, 502.0);

    assert_eq!(spans(&reel(&p)), [at(0, 95.0, 106.0), at(0, 470.0, 502.0)]);
}

#[test]
fn a_trim_that_is_not_positive_is_ignored() {
    let mut p = project(&[1000.0]);
    let a = append(&mut p, HOME, 0, 100.0);
    p.match_events[a].reel_lead_in = Some(0);
    p.match_events[a].reel_tail = Some(-1);
    assert_eq!(p.match_events[a].reel_span(), (REEL_LEAD_IN, REEL_TAIL));
}

#[test]
fn goals_are_in_match_order_across_sources() {
    let mut p = project(&[1000.0, 1000.0]);
    // Stored out of match order: the second half's goal was tagged first.
    append(&mut p, AWAY, 1, 100.0);
    append(&mut p, HOME, 0, 900.0);
    append(&mut p, HOME, 0, 200.0);

    let plan = reel(&p);
    assert_eq!(
        spans(&plan),
        [at(0, 170.0, 206.0), at(0, 870.0, 906.0), at(1, 70.0, 106.0)]
    );
    assert_eq!(
        texts(&plan),
        ["1 / 3 | Home goal", "2 / 3 | Home goal", "3 / 3 | Away goal"]
    );
}

#[test]
fn the_text_carries_the_score_after_the_goal() {
    let mut p = with_scoreboard(project(&[3000.0]));
    append(&mut p, MatchEventKind::StartStop, 0, 10.0);
    append(&mut p, HOME, 0, 100.0);
    append(&mut p, AWAY, 0, 500.0);
    let scores = vec![
        Some(Score { home: 0, away: 0 }),
        Some(Score { home: 1, away: 0 }),
        Some(Score { home: 1, away: 1 }),
    ];
    let plan = compilation_plan(&p, &ExportTarget::Reel(ReelSide::All), &scores);
    assert_eq!(
        texts(&plan),
        ["1 / 2 | Rovers goal | 1-0", "2 / 2 | United goal | 1-1"]
    );
}

/// No state: a scoreboard is set up but no kick-off is tagged yet.
#[test]
fn the_text_drops_the_score_when_there_is_none() {
    let mut p = with_scoreboard(project(&[1000.0]));
    append(&mut p, AWAY, 0, 100.0);

    assert_eq!(texts(&reel(&p)), ["1 / 1 | United goal"]);
}

#[test]
fn the_text_says_home_or_away_with_no_scoreboard() {
    let mut p = project(&[1000.0]);
    append(&mut p, HOME, 0, 100.0);
    append(&mut p, AWAY, 0, 500.0);

    assert_eq!(texts(&reel(&p)), ["1 / 2 | Home goal", "2 / 2 | Away goal"]);
}

/// A goal tagged after the final whistle doesn't count, but it is the coach's
/// tagging slip to see, not something the reel hides.
#[test]
fn a_goal_the_scoreboard_does_not_count_still_has_an_entry() {
    let mut p = with_scoreboard(project(&[7000.0]));
    for t in [0.0, 2700.0, 3000.0, 5700.0] {
        append(&mut p, MatchEventKind::StartStop, 0, t);
    }
    append(&mut p, HOME, 0, 100.0);
    append(&mut p, HOME, 0, 6000.0);
    let counted = Some(Score { home: 1, away: 0 });
    let scores = vec![None, counted, counted, counted, counted, counted];
    let plan = compilation_plan(&p, &ExportTarget::Reel(ReelSide::All), &scores);
    assert_eq!(
        texts(&plan),
        ["1 / 2 | Rovers goal | 1-0", "2 / 2 | Rovers goal | 1-0"]
    );
}

#[test]
fn a_project_with_no_goals_has_an_empty_reel() {
    let mut p = with_scoreboard(project(&[1000.0]));
    assert!(reel(&p).entries.is_empty());
    append(&mut p, MatchEventKind::StartStop, 0, 10.0);
    assert!(reel(&p).entries.is_empty(), "a start/stop is not a goal");
}

#[test]
fn a_one_sided_reel_holds_its_side_s_goals() {
    let mut p = project(&[1000.0]);
    append(&mut p, HOME, 0, 100.0);
    append(&mut p, AWAY, 0, 300.0);
    append(&mut p, HOME, 0, 500.0);
    let starts = |side: ReelSide| -> Vec<i64> {
        reel_spans(&p, side).iter().map(|s| s.start).collect()
    };
    assert_eq!(starts(ReelSide::Home), [ticks(70.0), ticks(470.0)]);
    assert_eq!(starts(ReelSide::Away), [ticks(270.0)]);
}

/// Nothing reel-specific in the schedule: the source runs from the span's
/// start at 1x.
#[test]
fn the_schedule_plays_each_span_from_its_start() {
    let mut p = project(&[1000.0]);
    append(&mut p, HOME, 0, 100.0);

    let c = compilation_schedule(&p, &ExportTarget::Reel(ReelSide::All), &no_scores(&p));
    assert_eq!(c.frames.len() as u64, c.plan.total_frames());
    assert_eq!(c.frames[0].source_time, ticks(70.0));
    let last = c.frames.last().unwrap();
    assert_eq!(last.source_time, ticks(106.0) - 100_000_000);
}

/// Each goal with footage is inside some span of its source, whether it has one
/// of its own or shares an earlier goal's.
#[test]
fn every_goal_with_footage_is_shown() {
    let mut p = project(&[1000.0, 1000.0]);
    for (source, at) in [(0, 0.0), (0, 3.0), (0, 40.0), (0, 999.5), (1, 2.0), (1, 900.0)] {
        append(&mut p, if at > 10.0 { AWAY } else { HOME }, source, at);
    }
    let spans = reel_spans(&p, ReelSide::All);
    assert_eq!(spans.len(), 5);
    for goal in &p.match_events {
        assert!(
            spans.iter().any(|s| s.source_index == goal.source_index
                && s.start <= goal.source_time
                && goal.source_time <= s.end),
            "{goal:?}"
        );
    }
}
