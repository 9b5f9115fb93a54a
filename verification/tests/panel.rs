//! The Match panel and the setup sheet's fields.

use video_coach::id::Id;
use video_coach::match_events::{start_stops_at_cap, ReelEnd};
use video_coach::match_panel::{
    blank_config, clock_text, hex, match_rows, next_chapter, over_cap, over_cap_warning,
    parse_hex, parse_minutes, parse_overtime_periods, parse_periods, previous_chapter,
    score_line, PeriodRole, ScoreboardState,
};
use video_coach::project::{Project, SourceRef};
use video_coach::scoreboard_config::{
    MatchEventKind, MatchEventRecord, MatchFormat, Rgba, ScoreboardConfig, TeamConfig,
    CHANNEL_ONE,
};

fn ticks(seconds: f64) -> i64 {
    (seconds * 3_000_000_000.0).round() as i64
}

fn red() -> Rgba {
    Rgba { r: CHANNEL_ONE, g: 0, b: 0, a: CHANNEL_ONE }
}

/// Two sources of ten minutes, one-minute halves.
fn project() -> Project {
    let mut p = Project::new("p".to_string());
    for i in 0..2 {
        p.source_videos.push(SourceRef {
            relative_path: format!("{i}.mp4"),
            display_name: format!("{i}"),
            duration: ticks(600.0),
            display_aspect: 1_777_777_778,
        });
    }
    p.scoreboard = Some(ScoreboardConfig {
        home: TeamConfig::new("Rovers".to_string(), red(), red()),
        away: TeamConfig::new("United".to_string(), red(), red()),
        format: MatchFormat { regulation_period_seconds: 60, ..MatchFormat::default() },
        auto_back_anchor_p1: false,
    });
    p
}

fn tag(p: &mut Project, kind: MatchEventKind, source_index: usize, seconds: f64) -> Id {
    let id = Id { bits: p.match_events.len() as u128 + 1 };
    p.match_events.push(MatchEventRecord {
        id,
        kind,
        source_index,
        source_time: ticks(seconds),
        is_auto_back_anchor: false,
        reel_lead_in: None,
        reel_tail: None,
    });
    id
}

fn role(id: Id, start: bool, period: &str) -> PeriodRole {
    PeriodRole { id, start, period: period.to_string() }
}

fn labels(p: &Project, roles: &Vec<PeriodRole>) -> Vec<String> {
    match_rows(p, roles).into_iter().map(|r| r.label).collect()
}

#[test]
fn rows_are_in_match_order_with_the_roles_the_scoreboard_gives_them() {
    let mut p = project();
    // Tagged out of order, and the second source's events are 600 s on.
    let end = tag(&mut p, MatchEventKind::StartStop, 1, 10.0);
    let start = tag(&mut p, MatchEventKind::StartStop, 0, 0.0);
    tag(&mut p, MatchEventKind::HomeGoal, 0, 30.0);

    let rows = match_rows(&p, &vec![role(start, true, "1H"), role(end, false, "1H")]);
    assert_eq!(
        rows.iter().map(|r| r.time.as_str()).collect::<Vec<_>>(),
        ["0:00", "0:30", "10:10"]
    );
    assert_eq!(
        rows.iter().map(|r| r.label.as_str()).collect::<Vec<_>>(),
        ["1H start", "Home goal", "1H end"]
    );
    assert!(rows.iter().all(|r| !r.role_less));
}

#[test]
fn a_start_stop_the_format_has_no_period_for_says_so() {
    let mut p = project();
    let config = p.scoreboard.take().unwrap();
    p.scoreboard = Some(ScoreboardConfig { auto_back_anchor_p1: true, ..config });
    let ids: Vec<Id> = (0..4)
        .map(|i| tag(&mut p, MatchEventKind::StartStop, 0, f64::from(i)))
        .collect();
    let roles = vec![
        role(ids[0], false, "1H"),
        role(ids[1], true, "2H"),
        role(ids[2], false, "2H"),
    ];
    assert_eq!(
        labels(&p, &roles),
        ["1H end", "2H start", "2H end", "Start/stop (no period)"]
    );
    assert!(match_rows(&p, &roles).last().unwrap().role_less);
    assert_eq!(over_cap(&p, 2, true), 1);
    assert_eq!(over_cap(&p, 1, true), 3);
    assert_eq!(over_cap(&p, 2, false), 0);
    assert!(over_cap_warning(&p, 2, true).starts_with("1 tagged start/stop has no period"));
    assert_eq!(over_cap_warning(&p, 2, false), "");
    assert!(over_cap_warning(&p, 1, false).starts_with("2 tagged start/stops have no period"));
    p.match_events.remove(0);
    assert!(over_cap_warning(&p, 1, false).starts_with("1 tagged start/stop has no period"));
}

#[test]
fn with_no_scoreboard_a_start_stop_is_just_a_start_stop() {
    let mut p = project();
    p.scoreboard = None;
    tag(&mut p, MatchEventKind::StartStop, 0, 1.0);
    assert_eq!(labels(&p, &vec![]), ["Start/stop"]);
    assert!(!match_rows(&p, &vec![]).last().unwrap().role_less);
}

#[test]
fn a_goal_row_shows_its_reel_span() {
    let mut p = project();
    tag(&mut p, MatchEventKind::StartStop, 0, 10.0);
    let goal = tag(&mut p, MatchEventKind::HomeGoal, 0, 100.0);
    let spans = |p: &Project| -> Vec<Option<String>> {
        match_rows(p, &vec![]).into_iter().map(|r| r.reel_span).collect()
    };
    // The defaults, and no span on a start/stop.
    assert_eq!(spans(&p), [None, Some("−30 s / +6 s".to_string())]);
    // One side trimmed: the other goes on following the default.
    p.set_reel_trim(goal, ReelEnd::Start, Some((0, ticks(88.0)))).unwrap();
    assert_eq!(spans(&p)[1].as_deref(), Some("−12 s / +6 s"));
    p.set_reel_trim(goal, ReelEnd::End, Some((0, ticks(104.5)))).unwrap();
    assert_eq!(spans(&p)[1].as_deref(), Some("−12 s / +4.5 s"));
    p.set_reel_trim(goal, ReelEnd::Start, None).unwrap();
    assert_eq!(spans(&p)[1].as_deref(), Some("−30 s / +4.5 s"));
}

#[test]
fn previous_and_next_chapter_skip_the_one_under_the_playhead() {
    let mut p = project();
    tag(&mut p, MatchEventKind::HomeGoal, 0, 100.0);
    tag(&mut p, MatchEventKind::StartStop, 0, 400.0);
    tag(&mut p, MatchEventKind::AwayGoal, 1, 212.0);
    tag(&mut p, MatchEventKind::StartStop, 1, 400.0);
    let rows = match_rows(&p, &vec![]);
    let at = |seconds: f64| i128::from(ticks(seconds));
    assert_eq!(
        rows.iter().map(|r| r.abs).collect::<Vec<_>>(),
        [at(100.0), at(400.0), at(812.0), at(1000.0)]
    );

    assert_eq!(previous_chapter(at(100.0), &rows), None);
    assert_eq!(previous_chapter(at(50.0), &rows), None);
    assert_eq!(next_chapter(at(1000.0), &rows), None);
    assert_eq!(next_chapter(at(1100.0), &rows), None);
    assert_eq!(next_chapter(at(0.0), &rows), Some(at(100.0)));
    assert_eq!(previous_chapter(at(1100.0), &rows), Some(at(1000.0)));

    assert_eq!(next_chapter(at(400.0), &rows), Some(at(812.0)));
    assert_eq!(previous_chapter(at(400.0), &rows), Some(at(100.0)));
    assert_eq!(next_chapter(at(811.999), &rows), Some(at(1000.0)));
    assert_eq!(previous_chapter(at(811.999), &rows), Some(at(400.0)));
    assert_eq!(next_chapter(at(812.3), &rows), Some(at(1000.0)));
    assert_eq!(previous_chapter(at(812.3), &rows), Some(at(400.0)));
    assert_eq!(previous_chapter(at(812.6), &rows), Some(at(812.0)));
    assert_eq!(next_chapter(at(811.4), &rows), Some(at(812.0)));
}

#[test]
fn the_live_line_shows_the_names_until_the_match_starts() {
    let p = project();
    let config = p.scoreboard.as_ref().unwrap();
    assert_eq!(score_line(config, None), "Rovers – United");
    assert_eq!(clock_text(None), "–");

    let during = ScoreboardState {
        home_score: 1,
        away_score: 0,
        clock_main: "00:40".to_string(),
        clock_trailing: String::new(),
    };
    assert_eq!(score_line(config, Some(&during)), "Rovers 1 – 0 United");
    assert_eq!(clock_text(Some(&during)), "00:40");

    let stoppage = ScoreboardState {
        clock_main: "01:00".to_string(),
        clock_trailing: "+0:15".to_string(),
        ..during
    };
    assert_eq!(clock_text(Some(&stoppage)), "01:00 +0:15");
}

#[test]
fn colours_round_trip_through_the_sheet_s_field() {
    // A field holds 8 bits a channel, so a colour goes through it rounded.
    let color = Rgba { r: 0, g: 128 * 100, b: CHANNEL_ONE, a: CHANNEL_ONE };
    assert_eq!(hex(color), "#0080ff");
    assert_eq!(parse_hex("#0080ff"), Some(color));
    assert_eq!(parse_hex(" 0080FF "), Some(color));
    assert_eq!(hex(parse_hex("#123456").unwrap()), "#123456");
    for bad in ["", "#12345", "#1234567", "#12345g", "fuchsia"] {
        assert_eq!(parse_hex(bad), None, "{bad}");
    }
}

#[test]
fn a_channel_is_rounded_to_the_nearest_byte() {
    // A hundredth of full is 2.55 bytes.
    let color = Rgba { r: 255, g: -1, b: 30_000, a: 0 };
    assert_eq!(hex(color), "#0300ff");
}

#[test]
fn a_format_count_has_to_be_a_number_in_its_field_s_range() {
    assert_eq!(parse_minutes(" 45 "), Some(45));
    assert_eq!(parse_minutes("180"), Some(180));
    assert_eq!(parse_minutes("181"), None);
    assert_eq!(parse_minutes("0"), None);
    // Only overtime may be none at all.
    assert_eq!(parse_overtime_periods("0"), Some(0));
    assert_eq!(parse_periods("0"), None);
    assert_eq!(parse_periods("10"), Some(10));
    assert_eq!(parse_periods("11"), None);
    for bad in ["-1", "4.5", "", "two"] {
        assert_eq!(parse_periods(bad), None, "{bad}");
    }
}

#[test]
fn team_font_color_defaults_to_secondary() {
    let white = Rgba { r: CHANNEL_ONE, g: CHANNEL_ONE, b: CHANNEL_ONE, a: CHANNEL_ONE };
    let t = TeamConfig::new("X".to_string(), red(), white);
    assert_eq!(t.font_color, white);
}

#[test]
fn match_format_defaults_to_soccer() {
    let f = MatchFormat::default();
    assert_eq!((f.regulation_periods, f.regulation_period_seconds), (2, 2700));
    assert_eq!(f.overtime_periods, 0);
}

#[test]
fn a_blank_sheet_has_a_colour_each_and_white_lettering() {
    let c = blank_config();
    assert_eq!((c.home.name.as_str(), c.away.name.as_str()), ("", ""));
    assert_eq!(hex(c.home.primary_color), "#1f4fd9");
    assert_eq!(hex(c.away.primary_color), "#c72b1c");
    assert_eq!(hex(c.home.font_color), "#ffffff");
    assert_eq!(c.format, MatchFormat::default());
    assert!(!c.auto_back_anchor_p1);
}

#[test]
fn the_cap_counts_starts_and_stops_alone() {
    let mut p = project();
    for i in 0..3 {
        tag(&mut p, MatchEventKind::StartStop, 0, f64::from(i));
    }
    tag(&mut p, MatchEventKind::HomeGoal, 0, 9.0);
    assert!(!start_stops_at_cap(&p));
    tag(&mut p, MatchEventKind::StartStop, 0, 10.0);
    assert!(start_stops_at_cap(&p));
    p.scoreboard = None;
    assert!(!start_stops_at_cap(&p));
}
