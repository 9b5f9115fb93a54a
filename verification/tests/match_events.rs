//! Match events and the scoreboard's setup: tagging, deleting, the undo step
//! each is, the refusals, and the purge a source move makes of the history.

use video_coach::clips::{redo, undo};
use video_coach::id::Id;
use video_coach::match_events::{
    delete_match_event, set_reel_trim, set_scoreboard, tag_match_event, ReelEnd, TrimRefusal,
};
use video_coach::match_panel::{match_rows, over_cap, PeriodRole};
use video_coach::project::{Project, SourceRef};
use video_coach::scoreboard_config::{
    MatchEventKind, MatchEventRecord, MatchFormat, Rgba, ScoreboardConfig, TeamConfig,
    CHANNEL_ONE,
};
use video_coach::undo::UndoController;
use video_coach::user_error::UserError;

fn ticks(seconds: f64) -> i64 {
    (seconds * 3_000_000_000.0).round() as i64
}

fn open(videos: &[&str]) -> (Project, UndoController) {
    let mut p = Project::new("p".to_string());
    for name in videos {
        p.source_videos.push(SourceRef {
            relative_path: name.to_string(),
            display_name: name.to_string(),
            duration: ticks(2.0),
            display_aspect: 1_777_777_778,
        });
    }
    (p, UndoController::new())
}

fn tag(
    p: &mut Project,
    h: &mut UndoController,
    kind: MatchEventKind,
    source: usize,
    seconds: f64,
) -> Result<bool, UserError> {
    let id = Id { bits: 100 + p.match_events.len() as u128 };
    tag_match_event(p, h, id, kind, source, ticks(seconds)).map(|e| e.changed)
}

const WHITE: Rgba = Rgba { r: CHANNEL_ONE, g: CHANNEL_ONE, b: CHANNEL_ONE, a: CHANNEL_ONE };
const RED: Rgba = Rgba { r: CHANNEL_ONE, g: 0, b: 0, a: CHANNEL_ONE };

/// Two named teams and soccer's format: four start/stops, no back-anchor.
fn scoreboard() -> ScoreboardConfig {
    ScoreboardConfig {
        home: TeamConfig::new("Rovers".to_string(), RED, WHITE),
        away: TeamConfig::new("United".to_string(), WHITE, RED),
        format: MatchFormat::default(),
        auto_back_anchor_p1: false,
    }
}

/// Each tag and each delete is one undo step, taking the whole list back with
/// it.
#[test]
fn tagging_and_deleting_are_saved_and_undone_a_step_at_a_time() {
    let (mut p, mut h) = open(&["a.webm", "b.webm"]);
    tag(&mut p, &mut h, MatchEventKind::StartStop, 0, 0.5).unwrap();
    let one: Vec<MatchEventRecord> = p.match_events.clone();
    tag(&mut p, &mut h, MatchEventKind::HomeGoal, 1, 1.0).unwrap();
    let two = p.match_events.clone();
    assert_eq!(one.len(), 1);
    assert_eq!(one[0].source_time, ticks(0.5));
    assert_eq!(two[1].kind, MatchEventKind::HomeGoal);
    assert_eq!(two[1].source_index, 1);

    assert!(delete_match_event(&mut p, &mut h, two[0].id).changed);
    assert_eq!(p.match_events, two[1..]);

    // Back a step at a time: the delete, then the goal.
    undo(&mut p, &mut h, false);
    assert_eq!(p.match_events, two);
    undo(&mut p, &mut h, false);
    assert_eq!(p.match_events, one);
    redo(&mut p, &mut h);
    assert_eq!(p.match_events, two);
}

/// The cap is the format's start/stops, and it counts **records**: goals are
/// never capped.
#[test]
fn a_start_stop_past_the_format_is_refused_and_goals_are_not() {
    let (mut p, mut h) = open(&["a.webm"]);
    assert_eq!(set_scoreboard(&mut p, scoreboard()), Ok(true));
    for i in 0..4 {
        tag(&mut p, &mut h, MatchEventKind::StartStop, 0, f64::from(i) * 0.1).unwrap();
    }
    let err = tag(&mut p, &mut h, MatchEventKind::StartStop, 0, 1.0).unwrap_err();
    assert!(
        matches!(&err, UserError::Scoreboard(msg) if msg.contains("format")),
        "{err:?}"
    );
    tag(&mut p, &mut h, MatchEventKind::HomeGoal, 0, 1.5).unwrap();
    assert_eq!(p.match_events.len(), 5);
    assert_eq!(
        p.match_events
            .iter()
            .filter(|m| m.kind == MatchEventKind::StartStop)
            .count(),
        4,
        "the refused start/stop was stored anyway"
    );
}

/// The cap counts records, so none is lost to the back-computed start: with
/// the anchor on, the last one that is stored has no period.
#[test]
fn the_back_anchor_takes_no_place_of_the_cap() {
    let (mut p, mut h) = open(&["a.webm"]);
    let config = ScoreboardConfig { auto_back_anchor_p1: true, ..scoreboard() };
    assert_eq!(set_scoreboard(&mut p, config), Ok(true));
    for i in 0..4 {
        assert_eq!(
            tag(&mut p, &mut h, MatchEventKind::StartStop, 0, f64::from(i) * 0.1),
            Ok(true)
        );
    }
    assert_eq!(p.match_events.len(), 4);
    // The first half's start is derived, so three records have a period.
    let role = |i: usize, start: bool, period: &str| PeriodRole {
        id: p.match_events[i].id,
        start,
        period: period.to_string(),
    };
    let roles = vec![role(0, false, "1H"), role(1, true, "2H"), role(2, false, "2H")];
    let rows = match_rows(&p, &roles);
    assert_eq!(rows[3].label, "Start/stop (no period)");
    assert!(rows[3].role_less);
    assert_eq!(over_cap(&p, 2, true), 1);

    assert!(tag(&mut p, &mut h, MatchEventKind::StartStop, 0, 1.0).is_err());
    assert_eq!(p.match_events.len(), 4);
}

/// An empty team name is refused at the command, so the render path never has
/// to guard one.
#[test]
fn a_team_without_a_name_is_refused_and_the_setup_stands() {
    let (mut p, _) = open(&["a.webm"]);
    assert_eq!(set_scoreboard(&mut p, scoreboard()), Ok(true));
    let nameless = ScoreboardConfig {
        away: TeamConfig::new("  ".to_string(), RED, RED),
        ..scoreboard()
    };
    assert!(matches!(
        set_scoreboard(&mut p, nameless),
        Err(UserError::Scoreboard(_))
    ));
    assert_eq!(p.scoreboard, Some(scoreboard()));
    assert_eq!(set_scoreboard(&mut p, scoreboard()), Ok(false));
}

/// A source move remaps the stored records but not the snapshots on the undo
/// and redo stacks, so both are purged.
#[test]
fn a_source_move_purges_the_match_event_history() {
    let (mut p, mut h) = open(&["a.webm", "b.webm"]);
    // Two tags on b, the second undone so it sits on the redo stack.
    tag(&mut p, &mut h, MatchEventKind::HomeGoal, 1, 1.0).unwrap();
    tag(&mut p, &mut h, MatchEventKind::AwayGoal, 1, 1.5).unwrap();
    undo(&mut p, &mut h, false);
    assert_eq!(p.match_events.len(), 1);

    // b to the front: the live record is remapped to source 0.
    p.move_source(1, 0, 0);
    assert!(h.purge_for_source_change().is_empty());
    let moved = p.match_events.clone();
    assert_eq!(moved.len(), 1);
    assert_eq!(moved[0].source_index, 0);

    assert!(!undo(&mut p, &mut h, false).changed);
    assert!(!redo(&mut p, &mut h).changed);
    assert_eq!(p.match_events, moved);
}

#[test]
fn a_tag_off_the_sources_is_dropped() {
    let (mut p, mut h) = open(&["a.webm"]);
    assert_eq!(tag(&mut p, &mut h, MatchEventKind::HomeGoal, 1, 1.0), Ok(false));
    assert!(p.match_events.is_empty());
    assert!(!delete_match_event(&mut p, &mut h, Id { bits: 5 }).changed);
}

/// A trim is one undo step; a refused one is a notice and changes nothing.
#[test]
fn a_trim_is_set_undone_and_refused_out_loud() {
    let (mut p, mut h) = open(&["a.webm"]);
    tag(&mut p, &mut h, MatchEventKind::HomeGoal, 0, 2.0).unwrap();
    let goal = p.match_events[0].id;

    let edited = set_reel_trim(&mut p, &mut h, goal, ReelEnd::Start, Some((0, ticks(0.5)))).unwrap();
    assert!(edited.changed);
    assert_eq!(p.match_events[0].reel_lead_in, Some(ticks(1.5)));

    undo(&mut p, &mut h, false);
    assert_eq!(p.match_events[0].reel_lead_in, None);
    let undone = p.match_events.clone();

    // A start after the goal.
    let err = set_reel_trim(&mut p, &mut h, goal, ReelEnd::Start, Some((0, ticks(2.5)))).unwrap_err();
    assert!(
        matches!(&err, UserError::Scoreboard(msg) if msg.contains("before the goal")),
        "{err:?}"
    );
    assert!(err.is_notice());
    assert_eq!(p.match_events, undone);
    assert_eq!(h.undo_stack().len(), 1);
}

/// A trim's step holds source indices, so a source move purges it like a tag:
/// an undo can't bring back a stale one.
#[test]
fn a_source_move_purges_the_trim_history() {
    let (mut p, mut h) = open(&["a.webm", "b.webm"]);
    tag(&mut p, &mut h, MatchEventKind::HomeGoal, 1, 1.5).unwrap();
    let goal = p.match_events[0].id;
    set_reel_trim(&mut p, &mut h, goal, ReelEnd::Start, Some((1, ticks(1.0)))).unwrap();

    p.move_source(1, 0, 0);
    assert!(h.purge_for_source_change().is_empty());
    let moved = p.match_events.clone();
    assert_eq!(moved[0].source_index, 0);
    assert_eq!(moved[0].reel_lead_in, Some(ticks(0.5)));

    assert!(!undo(&mut p, &mut h, false).changed);
    assert_eq!(p.match_events, moved);
}

#[test]
fn a_trim_stays_on_its_side_of_its_goal() {
    let (mut p, mut h) = open(&["a.webm", "b.webm"]);
    tag(&mut p, &mut h, MatchEventKind::AwayGoal, 1, 1.0).unwrap();
    tag(&mut p, &mut h, MatchEventKind::StartStop, 1, 1.0).unwrap();
    let (goal, other) = (p.match_events[0].id, p.match_events[1].id);
    let at = |seconds: f64| Some((1, ticks(seconds)));

    assert_eq!(p.set_reel_trim(goal, ReelEnd::Start, at(1.0)), Err(TrimRefusal::NotBefore));
    assert_eq!(p.set_reel_trim(goal, ReelEnd::End, at(1.0)), Err(TrimRefusal::NotAfter));
    assert_eq!(p.set_reel_trim(goal, ReelEnd::End, Some((0, 0))), Err(TrimRefusal::OtherVideo));
    assert_eq!(p.match_events[0].reel_span(), (ticks(30.0), ticks(6.0)));

    assert_eq!(p.set_reel_trim(goal, ReelEnd::Start, at(0.25)), Ok(()));
    assert_eq!(p.set_reel_trim(goal, ReelEnd::End, at(1.75)), Ok(()));
    assert_eq!(p.match_events[0].reel_span(), (ticks(0.75), ticks(0.75)));
    assert_eq!(p.set_reel_trim(goal, ReelEnd::Start, None), Ok(()));
    assert_eq!(p.match_events[0].reel_span(), (ticks(30.0), ticks(0.75)));

    // Only goals have a span.
    let before = p.match_events.clone();
    assert_eq!(p.set_reel_trim(other, ReelEnd::Start, at(0.25)), Ok(()));
    assert_eq!(p.match_events, before);
    for refusal in [TrimRefusal::OtherVideo, TrimRefusal::NotBefore, TrimRefusal::NotAfter] {
        assert!(refusal.message().contains("the reel shows a goal"));
    }
}
