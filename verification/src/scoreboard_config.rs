//! Scoreboard and match-format configuration: what the project file stores.

use vstd::prelude::*;

use crate::id::Id;

verus! {

/// A full colour channel.
///
/// A channel is counted in 25 500ths: the coarsest unit in which both a
/// hundredth (255) and a byte's step of 1/255 (100) are whole, so colours
/// typed as hex digits and colours written as decimals are both exact.
pub const CHANNEL_ONE: i32 = 25_500;

/// A colour, each channel in 25 500ths of full ([`CHANNEL_ONE`]).
#[derive(Debug, Clone, Copy, PartialEq, Eq, Structural)]
pub struct Rgba {
    pub r: i32,
    pub g: i32,
    pub b: i32,
    pub a: i32,
}

/// One team's identity and colours.
#[derive(Debug, PartialEq, Eq)]
pub struct TeamConfig {
    pub name: String,
    pub primary_color: Rgba,
    pub secondary_color: Rgba,
    pub font_color: Rgba,
}

impl TeamConfig {
    /// A team whose lettering takes its secondary colour.
    pub fn new(name: String, primary: Rgba, secondary: Rgba) -> (team: TeamConfig)
        ensures
            team == (TeamConfig {
                name,
                primary_color: primary,
                secondary_color: secondary,
                font_color: secondary,
            }),
    {
        TeamConfig {
            name,
            primary_color: primary,
            secondary_color: secondary,
            font_color: secondary,
        }
    }
}

impl Clone for TeamConfig {
    fn clone(&self) -> (copy: TeamConfig)
        ensures
            copy == *self,
    {
        TeamConfig {
            name: self.name.clone(),
            primary_color: self.primary_color,
            secondary_color: self.secondary_color,
            font_color: self.font_color,
        }
    }
}

/// How long the match is, in periods.
#[derive(Debug, Clone, Copy, PartialEq, Eq, Structural)]
pub struct MatchFormat {
    pub regulation_periods: u32,
    pub regulation_period_seconds: u32,
    pub overtime_periods: u32,
    pub overtime_period_seconds: u32,
}

impl Default for MatchFormat {
    /// Soccer: two 45-minute halves, no overtime.
    fn default() -> (format: MatchFormat)
        ensures
            format == (MatchFormat {
                regulation_periods: 2,
                regulation_period_seconds: 2700,
                overtime_periods: 0,
                overtime_period_seconds: 900,
            }),
    {
        MatchFormat {
            regulation_periods: 2,
            regulation_period_seconds: 2700,
            overtime_periods: 0,
            overtime_period_seconds: 900,
        }
    }
}

/// The match's teams and its format.
#[derive(Debug, PartialEq, Eq)]
pub struct ScoreboardConfig {
    pub home: TeamConfig,
    pub away: TeamConfig,
    pub format: MatchFormat,
    /// Whether the first period's start is back-computed from its end.
    pub auto_back_anchor_p1: bool,
}

impl Clone for ScoreboardConfig {
    fn clone(&self) -> (copy: ScoreboardConfig)
        ensures
            copy == *self,
    {
        ScoreboardConfig {
            home: self.home.clone(),
            away: self.away.clone(),
            format: self.format,
            auto_back_anchor_p1: self.auto_back_anchor_p1,
        }
    }
}

/// What a tagged match event marks.
#[derive(Debug, Clone, Copy, PartialEq, Eq, Hash, Structural)]
pub enum MatchEventKind {
    /// A period's start or its stop: which one follows from the order.
    StartStop,
    HomeGoal,
    AwayGoal,
}

impl MatchEventKind {
    /// Whether this is a goal, of either side.
    pub open spec fn goal(self) -> bool {
        self is HomeGoal || self is AwayGoal
    }

    /// Whether this is a goal, of either side.
    pub fn is_goal(self) -> (goal: bool)
        ensures
            goal == self.goal(),
    {
        match self {
            MatchEventKind::StartStop => false,
            MatchEventKind::HomeGoal | MatchEventKind::AwayGoal => true,
        }
    }
}

/// A tagged match event, positioned on one source video.
#[derive(Debug, Clone, Copy, PartialEq, Eq, Structural)]
pub struct MatchEventRecord {
    pub id: Id,
    pub kind: MatchEventKind,
    pub source_index: usize,
    /// Ticks into that source.
    pub source_time: i64,
    /// Set on a period-1 start inserted because the recording missed kickoff.
    pub is_auto_back_anchor: bool,
    /// How long this goal's reel entry runs before the goal, in ticks, where
    /// the coach trimmed it.
    pub reel_lead_in: Option<i64>,
    /// How long this goal's reel entry runs after the goal, in ticks, where
    /// the coach trimmed it.
    pub reel_tail: Option<i64>,
}

} // verus!
