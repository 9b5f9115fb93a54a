//! Match events and the scoreboard's setup.
//!
//! A tag carries the position the readout had at the keypress. Each tag or
//! delete is one undo step holding the **whole** list: it is a handful of
//! records, and a snapshot needs no inverse per event.
//!
//! A start or stop past the format's last period would be a record that the
//! scoreboard ignores, so it is refused out loud. So is a trim of a goal's span
//! in the reel that the goal would not be in.

use vstd::prelude::*;

use crate::clips;
use crate::clips::Edited;
use crate::id::Id;
use crate::match_panel;
use crate::match_panel::start_stop_count;
use crate::project::Project;
use crate::reel;
use crate::scoreboard_config::{MatchEventKind, MatchEventRecord, ScoreboardConfig, TeamConfig};
use crate::text;
use crate::undo::{ActionView, UndoAction, UndoController};
use crate::user_error::UserError;

verus! {

/// Whether as many starts and stops are stored as the match format's periods
/// have: two each. Without a scoreboard there is no format to fill.
///
/// Records are counted, and nothing else: a back-computed start takes a
/// period, which [`match_panel::past_the_cap`] allows for, but no stored event
/// is ever refused on its account.
pub open spec fn at_cap(project: Project) -> bool {
    match project.scoreboard {
        Some(config) => match_panel::start_stops(project.match_events@) >= 2 * (
        config.format.regulation_periods + config.format.overtime_periods),
        None => false,
    }
}

/// The event that a tag makes.
pub open spec fn tagged(id: Id, kind: MatchEventKind, source_index: usize, at: i64) -> MatchEventRecord {
    MatchEventRecord {
        id,
        kind,
        source_index,
        source_time: at,
        is_auto_back_anchor: false,
        reel_lead_in: None,
        reel_tail: None,
    }
}

/// The events without the first one with this id.
pub open spec fn without(events: Seq<MatchEventRecord>, id: Id) -> Seq<MatchEventRecord>
    decreases events.len(),
{
    if events.len() == 0 {
        events
    } else if events[0].id == id {
        events.drop_first()
    } else {
        seq![events[0]] + without(events.drop_first(), id)
    }
}

/// Whether two projects differ in their match events alone.
pub open spec fn same_but_events(a: Project, b: Project) -> bool {
    &&& clips::same_but_lists(a, b)
    &&& a.clips == b.clips
}

/// Whether a change of the match events, as one undo step, came out right:
/// nothing happened if they are as they were, and the step is filed if not.
pub open spec fn edited_to(
    before: Project,
    history: UndoController,
    after: Seq<MatchEventRecord>,
    project_now: Project,
    history_now: UndoController,
    edited: Edited,
) -> bool {
    let was = before.match_events@;
    &&& same_but_events(project_now, before)
    &&& project_now.match_events@ == after
    &&& edited.changed == (was != after)
    &&& was == after ==> history_now@ == history@ && edited.shred@.len() == 0
    &&& was != after ==> exists|action: UndoAction| #[trigger]
        action@ == (ActionView::EditMatchEvents { before: was, after }) && history_now@
            == history@.recorded(action) && edited.shred@ == history@.dropped(action)
}

fn same_events(a: &Vec<MatchEventRecord>, b: &Vec<MatchEventRecord>) -> (same: bool)
    ensures
        same == (a@ == b@),
{
    if a.len() != b.len() {
        return false;
    }
    for i in 0..a.len()
        invariant
            a@.len() == b@.len(),
            forall|k: int| 0 <= k < i ==> a@[k] == b@[k],
    {
        if a[i] != b[i] {
            return false;
        }
    }
    assert(a@ =~= b@);
    true
}

/// Replaces the match events as one undo step, unless that changes nothing.
pub fn edit_match_events(
    project: &mut Project,
    history: &mut UndoController,
    after: Vec<MatchEventRecord>,
) -> (edited: Edited)
    ensures
        edited_to(
            *old(project),
            *old(history),
            after@,
            *final(project),
            *final(history),
            edited,
        ),
{
    if same_events(&project.match_events, &after) {
        return Edited { changed: false, shred: Vec::new() };
    }
    let mut before = clips::copy_events(&after);
    std::mem::swap(&mut before, &mut project.match_events);
    let action = UndoAction::EditMatchEvents { before, after };
    let ghost filed = action;
    let shred = history.push(action);
    assert(filed@ == (ActionView::EditMatchEvents { before: before@, after: after@ }));
    Edited { changed: true, shred }
}

/// Whether as many starts and stops are stored as the match format's periods
/// have.
pub fn start_stops_at_cap(project: &Project) -> (full: bool)
    ensures
        full == at_cap(*project),
{
    match &project.scoreboard {
        Some(config) => {
            let periods: u64 = config.format.regulation_periods as u64
                + config.format.overtime_periods as u64;
            start_stop_count(project) as u64 >= 2 * periods
        },
        None => false,
    }
}

/// Tags `kind` at a position, as event `id`. A source that isn't there changes
/// nothing; a start or stop past the format's last period is refused.
pub fn tag_match_event(
    project: &mut Project,
    history: &mut UndoController,
    id: Id,
    kind: MatchEventKind,
    source_index: usize,
    at: i64,
) -> (edited: Result<Edited, UserError>)
    ensures
        ({
            let there = source_index < old(project).source_videos@.len();
            let refused = there && kind is StartStop && at_cap(*old(project));
            match edited {
                Ok(e) => {
                    &&& !refused
                    &&& edited_to(
                        *old(project),
                        *old(history),
                        if there {
                            old(project).match_events@.push(tagged(id, kind, source_index, at))
                        } else {
                            old(project).match_events@
                        },
                        *final(project),
                        *final(history),
                        e,
                    )
                },
                Err(e) => {
                    &&& refused
                    &&& *final(project) == *old(project)
                    &&& final(history)@ == old(history)@
                    &&& e is Scoreboard
                    &&& e->Scoreboard_0@
                        == "every period of this match format is already tagged; change the format to tag more"@
                },
            }
        }),
{
    if source_index >= project.source_videos.len() {
        return Ok(Edited { changed: false, shred: Vec::new() });
    }
    if kind == MatchEventKind::StartStop && start_stops_at_cap(project) {
        return Err(
            UserError::Scoreboard(
                "every period of this match format is already tagged; change the format to tag more".to_owned(),
            ),
        );
    }
    let mut after = clips::copy_events(&project.match_events);
    after.push(
        MatchEventRecord {
            id,
            kind,
            source_index,
            source_time: at,
            is_auto_back_anchor: false,
            reel_lead_in: None,
            reel_tail: None,
        },
    );
    Ok(edit_match_events(project, history, after))
}

/// Deletes an event. One that isn't there changes nothing.
pub fn delete_match_event(project: &mut Project, history: &mut UndoController, id: Id) -> (edited:
    Edited)
    ensures
        edited_to(
            *old(project),
            *old(history),
            without(old(project).match_events@, id),
            *final(project),
            *final(history),
            edited,
        ),
{
    let ghost all = project.match_events@;
    let mut after: Vec<MatchEventRecord> = Vec::new();
    let mut found = false;
    assert(all.skip(0) =~= all);
    assert(after@ + without(all.skip(0), id) =~= without(all, id));
    for i in 0..project.match_events.len()
        invariant
            all == project.match_events@,
            without(all, id) == after@ + if found {
                all.skip(i as int)
            } else {
                without(all.skip(i as int), id)
            },
    {
        let event = project.match_events[i];
        let ghost kept = after@;
        let ghost rest = all.skip(i as int);
        assert(rest.drop_first() =~= all.skip(i + 1));
        if !found && event.id == id {
            found = true;
        } else {
            after.push(event);
            proof {
                assert(after@ + all.skip(i + 1) =~= kept + rest);
                assert(after@ + without(all.skip(i + 1), id) =~= kept + (seq![event] + without(
                    all.skip(i + 1),
                    id,
                )));
            }
        }
    }
    assert(all.skip(all.len() as int) =~= seq![]);
    assert(after@ =~= without(all, id));
    edit_match_events(project, history, after)
}

// ---------------------------------------------------------------------------
// A goal's trims.

/// An end of a goal's span in the reel.
#[derive(Debug, Clone, Copy, PartialEq, Eq, Structural)]
pub enum ReelEnd {
    Start,
    End,
}

/// Why a trim was refused.
#[derive(Debug, Clone, Copy, PartialEq, Eq, Structural)]
pub enum TrimRefusal {
    /// The moment is on another video than the goal.
    OtherVideo,
    /// A start that doesn't lie before the goal.
    NotBefore,
    /// An end that doesn't lie after the goal.
    NotAfter,
}

impl TrimRefusal {
    /// The sentence shown to the user.
    pub open spec fn sentence(self) -> Seq<char> {
        match self {
            TrimRefusal::OtherVideo => "the reel shows a goal from the goal's own video"@,
            TrimRefusal::NotBefore => "the reel shows a goal from a moment before the goal"@,
            TrimRefusal::NotAfter => "the reel shows a goal to a moment after the goal"@,
        }
    }

    /// The sentence shown to the user.
    pub fn message(&self) -> (message: String)
        ensures
            message@ == self.sentence(),
    {
        match self {
            TrimRefusal::OtherVideo => "the reel shows a goal from the goal's own video".to_owned(),
            TrimRefusal::NotBefore => "the reel shows a goal from a moment before the goal".to_owned(),
            TrimRefusal::NotAfter => "the reel shows a goal to a moment after the goal".to_owned(),
        }
    }
}

/// Where the first goal with this id is.
pub open spec fn goal_index(events: Seq<MatchEventRecord>, id: Id) -> Option<int>
    decreases events.len(),
{
    if events.len() == 0 {
        None
    } else {
        match goal_index(events.drop_last(), id) {
            Some(i) => Some(i),
            None => if events.last().id == id && events.last().kind.goal() {
                Some(events.len() - 1)
            } else {
                None
            },
        }
    }
}

/// Why an end of a goal's span can't be put at a moment on a source.
pub open spec fn refused_trim(
    goal: MatchEventRecord,
    end: ReelEnd,
    at: Option<(usize, i64)>,
) -> Option<TrimRefusal> {
    match at {
        None => None,
        Some((source_index, time)) => if source_index != goal.source_index {
            Some(TrimRefusal::OtherVideo)
        } else if end is Start && time >= goal.source_time {
            Some(TrimRefusal::NotBefore)
        } else if end is End && time <= goal.source_time {
            Some(TrimRefusal::NotAfter)
        } else {
            None
        },
    }
}

/// How far apart two moments are, in ticks.
pub open spec fn apart(a: i64, b: i64) -> i64 {
    let d = if a < b {
        b - a
    } else {
        a - b
    };
    if d > i64::MAX {
        i64::MAX
    } else {
        d as i64
    }
}

/// The goal with an end of its span put at a moment, or back on the default.
pub open spec fn with_trim(
    goal: MatchEventRecord,
    end: ReelEnd,
    at: Option<(usize, i64)>,
) -> MatchEventRecord {
    let trim = match at {
        None => None,
        Some((_, time)) => Some(apart(goal.source_time, time)),
    };
    match end {
        ReelEnd::Start => MatchEventRecord { reel_lead_in: trim, ..goal },
        ReelEnd::End => MatchEventRecord { reel_tail: trim, ..goal },
    }
}

/// The events with an end of a goal's span put at a moment, or why not. An id
/// that no goal has changes nothing.
pub open spec fn with_goal_trimmed(
    events: Seq<MatchEventRecord>,
    goal: Id,
    end: ReelEnd,
    at: Option<(usize, i64)>,
) -> Result<Seq<MatchEventRecord>, TrimRefusal> {
    match goal_index(events, goal) {
        None => Ok(events),
        Some(i) => match refused_trim(events[i], end, at) {
            Some(refusal) => Err(refusal),
            None => Ok(events.update(i, with_trim(events[i], end, at))),
        },
    }
}

proof fn lemma_goal_index_of_a_start(events: Seq<MatchEventRecord>, id: Id, n: int)
    requires
        0 <= n <= events.len(),
        goal_index(events.take(n), id) is Some,
    ensures
        goal_index(events, id) == goal_index(events.take(n), id),
    decreases events.len(),
{
    if n == events.len() {
        assert(events.take(n) =~= events);
    } else {
        assert(events.drop_last().take(n) =~= events.take(n));
        lemma_goal_index_of_a_start(events.drop_last(), id, n);
    }
}

fn find_goal(events: &Vec<MatchEventRecord>, id: Id) -> (found: Option<usize>)
    ensures
        match found {
            Some(i) => i < events@.len() && goal_index(events@, id) == Some(i as int),
            None => goal_index(events@, id) is None,
        },
{
    for i in 0..events.len()
        invariant
            goal_index(events@.take(i as int), id) is None,
    {
        proof {
            assert(events@.take(i + 1).drop_last() =~= events@.take(i as int));
        }
        if events[i].id == id && events[i].kind.is_goal() {
            proof {
                lemma_goal_index_of_a_start(events@, id, i + 1);
            }
            return Some(i);
        }
    }
    assert(events@.take(events@.len() as int) =~= events@);
    None
}

fn trim_events(
    events: &Vec<MatchEventRecord>,
    goal: Id,
    end: ReelEnd,
    at: Option<(usize, i64)>,
) -> (after: Result<Vec<MatchEventRecord>, TrimRefusal>)
    ensures
        match after {
            Ok(after) => with_goal_trimmed(events@, goal, end, at) == Ok::<
                Seq<MatchEventRecord>,
                TrimRefusal,
            >(after@),
            Err(refusal) => with_goal_trimmed(events@, goal, end, at) == Err::<
                Seq<MatchEventRecord>,
                TrimRefusal,
            >(refusal),
        },
{
    let mut after = clips::copy_events(events);
    let i: usize = match find_goal(events, goal) {
        None => {
            return Ok(after);
        },
        Some(i) => i,
    };
    let mut event = events[i];
    let trim: Option<i64> = match at {
        None => None,
        Some((source_index, time)) => {
            if source_index != event.source_index {
                return Err(TrimRefusal::OtherVideo);
            }
            if end == ReelEnd::Start && time >= event.source_time {
                return Err(TrimRefusal::NotBefore);
            }
            if end == ReelEnd::End && time <= event.source_time {
                return Err(TrimRefusal::NotAfter);
            }
            let apart: i128 = if event.source_time < time {
                time as i128 - event.source_time as i128
            } else {
                event.source_time as i128 - time as i128
            };
            Some(
                if apart > i64::MAX as i128 {
                    i64::MAX
                } else {
                    apart as i64
                },
            )
        },
    };
    match end {
        ReelEnd::Start => {
            event.reel_lead_in = trim;
        },
        ReelEnd::End => {
            event.reel_tail = trim;
        },
    }
    after.set(i, event);
    Ok(after)
}

impl Project {
    /// Puts an end of a goal's span in the reel at a moment on a source, or
    /// with `None` back on the default. Refused, with nothing changed, where
    /// the moment is on the wrong side of the goal or on another video.
    pub fn set_reel_trim(&mut self, goal: Id, end: ReelEnd, at: Option<(usize, i64)>) -> (set:
        Result<(), TrimRefusal>)
        ensures
            same_but_events(*final(self), *old(self)),
            match with_goal_trimmed(old(self).match_events@, goal, end, at) {
                Ok(after) => set is Ok && final(self).match_events@ == after,
                Err(refusal) => set == Err::<(), _>(refusal) && *final(self) == *old(self),
            },
    {
        match trim_events(&self.match_events, goal, end, at) {
            Ok(after) => {
                self.match_events = after;
                Ok(())
            },
            Err(refusal) => Err(refusal),
        }
    }
}

/// Trims a goal's span in the reel, as one undo step. A refused trim is said
/// out loud.
pub fn set_reel_trim(
    project: &mut Project,
    history: &mut UndoController,
    goal: Id,
    end: ReelEnd,
    at: Option<(usize, i64)>,
) -> (edited: Result<Edited, UserError>)
    ensures
        match with_goal_trimmed(old(project).match_events@, goal, end, at) {
            Ok(after) => edited matches Ok(e) && edited_to(
                *old(project),
                *old(history),
                after,
                *final(project),
                *final(history),
                e,
            ),
            Err(refusal) => {
                &&& edited matches Err(UserError::Scoreboard(said)) && said@ == refusal.sentence()
                &&& *final(project) == *old(project)
                &&& final(history)@ == old(history)@
            },
        },
{
    match trim_events(&project.match_events, goal, end, at) {
        Ok(after) => Ok(edit_match_events(project, history, after)),
        Err(refusal) => Err(UserError::Scoreboard(refusal.message())),
    }
}

/// **The reel cuts where a trim was set**: a goal's span starts, or ends, at
/// the moment its trim was put at, and its other end stays. Both moments lie on
/// the source.
pub proof fn law_the_reel_cuts_at_a_trim(goal: MatchEventRecord, end: ReelEnd, at: (usize, i64))
    requires
        goal.source_time >= 0,
        at.1 >= 0,
        refused_trim(goal, end, Some(at)) is None,
    ensures
        ({
            let trimmed = with_trim(goal, end, Some(at));
            let starts = |g: MatchEventRecord|
                g.source_time - reel::trim_or(g.reel_lead_in, reel::REEL_LEAD_IN);
            let ends = |g: MatchEventRecord|
                g.source_time + reel::trim_or(g.reel_tail, reel::REEL_TAIL);
            match end {
                ReelEnd::Start => starts(trimmed) == at.1 && ends(trimmed) == ends(goal),
                ReelEnd::End => ends(trimmed) == at.1 && starts(trimmed) == starts(goal),
            }
        }),
{
}

/// **A trim taken back is gone**: back on the default, an end of a goal's span
/// is where it was before any trim.
pub proof fn law_a_trim_taken_back_is_gone(
    goal: MatchEventRecord,
    end: ReelEnd,
    at: Option<(usize, i64)>,
)
    ensures
        refused_trim(goal, end, None) is None,
        with_trim(with_trim(goal, end, at), end, None) == with_trim(goal, end, None),
{
}

// ---------------------------------------------------------------------------
// The setup.

/// Whether two teams are the same.
pub open spec fn same_team(a: TeamConfig, b: TeamConfig) -> bool {
    &&& a.name@ == b.name@
    &&& a.primary_color == b.primary_color
    &&& a.secondary_color == b.secondary_color
    &&& a.font_color == b.font_color
}

/// Whether two setups are the same.
pub open spec fn same_setup(a: ScoreboardConfig, b: ScoreboardConfig) -> bool {
    &&& same_team(a.home, b.home)
    &&& same_team(a.away, b.away)
    &&& a.format == b.format
    &&& a.auto_back_anchor_p1 == b.auto_back_anchor_p1
}

/// Whether both teams have a name.
pub open spec fn named(config: ScoreboardConfig) -> bool {
    text::trimmed(config.home.name@).len() > 0 && text::trimmed(config.away.name@).len() > 0
}

fn teams_match(a: &TeamConfig, b: &TeamConfig) -> (same: bool)
    ensures
        same == same_team(*a, *b),
{
    a.name == b.name && a.primary_color == b.primary_color && a.secondary_color
        == b.secondary_color && a.font_color == b.font_color
}

/// The refusal of a setup in which a team has no name, so the render path
/// never has to guard one.
pub fn refused_setup(config: &ScoreboardConfig) -> (refused: Option<UserError>)
    ensures
        match refused {
            Some(e) => !named(*config) && e is Scoreboard && e->Scoreboard_0@
                == "both teams need a name"@,
            None => named(*config),
        },
{
    if text::trim(config.home.name.as_str()).as_str().is_empty() || text::trim(
        config.away.name.as_str(),
    ).as_str().is_empty() {
        Some(UserError::Scoreboard("both teams need a name".to_owned()))
    } else {
        None
    }
}

/// Replaces the scoreboard's setup: both teams, the format and the back-anchor
/// flag. Not an undo step: the setup sheet has its own Cancel. Returns whether
/// the project changed.
pub fn set_scoreboard(project: &mut Project, config: ScoreboardConfig) -> (changed: Result<
    bool,
    UserError,
>)
    ensures
        ({
            let same = old(project).scoreboard is Some && same_setup(
                old(project).scoreboard->0,
                config,
            );
            match changed {
                Ok(c) => {
                    &&& named(config)
                    &&& c == !same
                    &&& same ==> *final(project) == *old(project)
                    &&& !same ==> *final(project) == (Project {
                        scoreboard: Some(config),
                        ..*old(project)
                    })
                },
                Err(e) => {
                    &&& !named(config)
                    &&& e is Scoreboard
                    &&& e->Scoreboard_0@ == "both teams need a name"@
                    &&& *final(project) == *old(project)
                },
            }
        }),
{
    if let Some(e) = refused_setup(&config) {
        return Err(e);
    }
    let same = match &project.scoreboard {
        Some(now) => teams_match(&now.home, &config.home) && teams_match(&now.away, &config.away)
            && now.format == config.format && now.auto_back_anchor_p1
            == config.auto_back_anchor_p1,
        None => false,
    };
    if same {
        return Ok(false);
    }
    project.scoreboard = Some(config);
    Ok(true)
}

/// **A tag is taken back by its delete**: deleting the event that a tag added,
/// under an id of its own, leaves the list as it was.
pub proof fn law_a_tag_is_taken_back_by_its_delete(
    events: Seq<MatchEventRecord>,
    event: MatchEventRecord,
)
    requires
        forall|i: int| 0 <= i < events.len() ==> (#[trigger] events[i]).id != event.id,
    ensures
        without(events.push(event), event.id) == events,
    decreases events.len(),
{
    let all = events.push(event);
    if events.len() > 0 {
        assert(all.drop_first() =~= events.drop_first().push(event));
        assert forall|i: int| 0 <= i < events.drop_first().len() implies (
        #[trigger] events.drop_first()[i]).id != event.id by {
            assert(events.drop_first()[i] == events[i + 1]);
        }
        law_a_tag_is_taken_back_by_its_delete(events.drop_first(), event);
        assert(all[0] == events[0]);
        assert(seq![events[0]] + events.drop_first() =~= events);
    } else {
        assert(all[0] == event);
        assert(all.drop_first() =~= events);
    }
}

/// **The cap is two starts and stops for each period of the format**, overtime
/// included, and of what is tagged only those count: with fewer stored there is
/// room for one more, with as many there is none. Without a scoreboard there
/// always is.
pub proof fn law_the_cap_is_two_for_each_period(project: Project, config: ScoreboardConfig)
    ensures
        ({
            let stored = project.match_events@.filter(
                |e: MatchEventRecord| e.kind == MatchEventKind::StartStop,
            ).len();
            let periods = config.format.regulation_periods + config.format.overtime_periods;
            &&& at_cap(Project { scoreboard: Some(config), ..project }) <==> stored >= 2 * periods
            &&& !at_cap(Project { scoreboard: None, ..project })
            &&& !at_cap(Project { scoreboard: Some(config), ..project }) <==> periods > 0
                && match_panel::past_the_cap((stored + 1) as nat, periods as nat, false) == 0
        }),
{
    match_panel::lemma_start_stops_are_counted(project.match_events@);
}

/// **No stored event is lost to the back-computed start**: whether the match
/// has one does not change what may be tagged, and with one the last start or
/// stop that may be is the one its format has no period for.
pub proof fn law_the_anchor_takes_no_place_of_the_cap(
    project: Project,
    config: ScoreboardConfig,
    other: ScoreboardConfig,
    n: nat,
)
    requires
        config.format == other.format,
        n > 0,
    ensures
        at_cap(Project { scoreboard: Some(config), ..project }) == at_cap(
            Project { scoreboard: Some(other), ..project },
        ),
        match_panel::past_the_cap(2 * n, n, false) == 0,
        match_panel::past_the_cap((2 * n - 1) as nat, n, true) == 0,
        match_panel::past_the_cap(2 * n, n, true) == 1,
{
}

/// **Goals are never capped**: a goal counts for nothing toward the number of
/// starts and stops that the cap is held against.
pub proof fn law_goals_do_not_count_toward_the_cap(
    events: Seq<MatchEventRecord>,
    goal: MatchEventRecord,
)
    requires
        goal.kind.goal(),
    ensures
        match_panel::start_stops(events.push(goal)) == match_panel::start_stops(events),
{
    assert(events.push(goal).drop_last() =~= events);
}

/// **A tag is the event that was pressed**: the list gains one event at its
/// end, of the kind and at the place of the press and with no trims, and every
/// other stays.
pub proof fn law_a_tag_is_the_event_pressed(
    before: Project,
    history: UndoController,
    id: Id,
    kind: MatchEventKind,
    source_index: usize,
    at: i64,
    after: Project,
    history_after: UndoController,
    edited: Edited,
)
    requires
        edited_to(
            before,
            history,
            before.match_events@.push(tagged(id, kind, source_index, at)),
            after,
            history_after,
            edited,
        ),
    ensures
        ({
            let n = before.match_events@.len() as int;
            let event = after.match_events@[n];
            &&& edited.changed
            &&& after.match_events@.len() == n + 1
            &&& forall|i: int|
                0 <= i < n ==> #[trigger] after.match_events@[i] == before.match_events@[i]
            &&& event.id == id && event.kind == kind
            &&& event.source_index == source_index && event.source_time == at
            &&& !event.is_auto_back_anchor
            &&& event.reel_lead_in is None && event.reel_tail is None
            &&& after.clips == before.clips
            &&& after.source_videos == before.source_videos
            &&& after.scoreboard == before.scoreboard
        }),
{
    assert(before.match_events@.len() != after.match_events@.len());
}

/// **A delete takes one event out**: the first with the id, and every other
/// keeps its order. Without one nothing is taken.
pub proof fn law_a_delete_takes_one_event(events: Seq<MatchEventRecord>, id: Id, i: int)
    ensures
        0 <= i < events.len() && events[i].id == id && (forall|k: int|
            0 <= k < i ==> (#[trigger] events[k]).id != id) ==> without(events, id)
            == events.take(i) + events.skip(i + 1),
        (forall|k: int| 0 <= k < events.len() ==> (#[trigger] events[k]).id != id) ==> without(
            events,
            id,
        ) == events,
    decreases events.len(),
{
    if events.len() > 0 {
        let rest = events.drop_first();
        assert forall|k: int| 0 <= k < rest.len() implies #[trigger] rest[k] == events[k + 1] by {}
        law_a_delete_takes_one_event(rest, id, i - 1);
        if 0 <= i < events.len() && events[i].id == id && (forall|k: int|
            0 <= k < i ==> (#[trigger] events[k]).id != id) {
            if i == 0 {
                assert(events.take(0) + events.skip(1) =~= rest);
            } else {
                assert(events[0].id != id);
                assert forall|k: int| 0 <= k < i - 1 implies (#[trigger] rest[k]).id != id by {
                    assert(rest[k] == events[k + 1]);
                }
                assert(rest[i - 1] == events[i]);
                assert(seq![events[0]] + (rest.take(i - 1) + rest.skip(i)) =~= events.take(i)
                    + events.skip(i + 1));
            }
        }
        if forall|k: int| 0 <= k < events.len() ==> (#[trigger] events[k]).id != id {
            assert(events[0].id != id);
            assert forall|k: int| 0 <= k < rest.len() implies (#[trigger] rest[k]).id != id by {
                assert(rest[k] == events[k + 1]);
            }
            assert(seq![events[0]] + rest =~= events);
        }
    }
}

/// **A trim is set on its goal alone**: on the first goal with the id, at the
/// end named, as far from the goal as the moment is; it is refused where the
/// moment is on another video, or on the wrong side of the goal or at it. Every
/// other event stays, and so does everything where no goal has the id.
pub proof fn law_a_trim_is_set_on_its_goal(
    events: Seq<MatchEventRecord>,
    id: Id,
    end: ReelEnd,
    source_index: usize,
    time: i64,
    i: int,
)
    requires
        0 <= i < events.len(),
        events[i].id == id,
        events[i].kind is HomeGoal || events[i].kind is AwayGoal,
        forall|k: int|
            0 <= k < i ==> !((#[trigger] events[k]).id == id && (events[k].kind is HomeGoal
                || events[k].kind is AwayGoal)),
        events[i].source_time >= 0,
        time >= 0,
    ensures
        ({
            let set = with_goal_trimmed(events, id, end, Some((source_index, time)));
            let back = with_goal_trimmed(events, id, end, None);
            let goal = events[i];
            &&& source_index != goal.source_index ==> set == Err::<Seq<MatchEventRecord>, _>(
                TrimRefusal::OtherVideo,
            )
            &&& source_index == goal.source_index && end is Start && time >= goal.source_time
                ==> set == Err::<Seq<MatchEventRecord>, _>(TrimRefusal::NotBefore)
            &&& source_index == goal.source_index && end is End && time <= goal.source_time
                ==> set == Err::<Seq<MatchEventRecord>, _>(TrimRefusal::NotAfter)
            &&& source_index == goal.source_index && end is Start && time < goal.source_time
                ==> set == Ok::<_, TrimRefusal>(
                events.update(
                    i,
                    MatchEventRecord {
                        reel_lead_in: Some((goal.source_time - time) as i64),
                        ..goal
                    },
                ),
            )
            &&& source_index == goal.source_index && end is End && time > goal.source_time
                ==> set == Ok::<_, TrimRefusal>(
                events.update(
                    i,
                    MatchEventRecord {
                        reel_tail: Some((time - goal.source_time) as i64),
                        ..goal
                    },
                ),
            )
            &&& end is Start ==> back == Ok::<_, TrimRefusal>(
                events.update(i, MatchEventRecord { reel_lead_in: None, ..goal }),
            )
            &&& end is End ==> back == Ok::<_, TrimRefusal>(
                events.update(i, MatchEventRecord { reel_tail: None, ..goal }),
            )
        }),
{
    lemma_first_goal(events.take(i + 1), id, i);
    lemma_goal_index_of_a_start(events, id, i + 1);
}

proof fn lemma_first_goal(events: Seq<MatchEventRecord>, id: Id, i: int)
    requires
        0 <= i == events.len() - 1,
        events[i].id == id,
        events[i].kind is HomeGoal || events[i].kind is AwayGoal,
        forall|k: int|
            0 <= k < i ==> !((#[trigger] events[k]).id == id && (events[k].kind is HomeGoal
                || events[k].kind is AwayGoal)),
    ensures
        goal_index(events, id) == Some(i),
{
    lemma_no_goal(events.drop_last(), id);
}

proof fn lemma_no_goal(events: Seq<MatchEventRecord>, id: Id)
    requires
        forall|k: int|
            0 <= k < events.len() ==> !((#[trigger] events[k]).id == id && (
            events[k].kind is HomeGoal || events[k].kind is AwayGoal)),
    ensures
        goal_index(events, id) is None,
    decreases events.len(),
{
    if events.len() > 0 {
        let before = events.drop_last();
        assert forall|k: int| 0 <= k < before.len() implies !((#[trigger] before[k]).id == id && (
        before[k].kind is HomeGoal || before[k].kind is AwayGoal)) by {
            assert(before[k] == events[k]);
        }
        lemma_no_goal(before, id);
        assert(events.last() == events[events.len() - 1]);
    }
}

/// **A trim without its goal changes nothing**: where no goal has the id, the
/// events stay as they are.
pub proof fn law_a_trim_without_its_goal_changes_nothing(
    events: Seq<MatchEventRecord>,
    id: Id,
    end: ReelEnd,
    at: Option<(usize, i64)>,
)
    requires
        forall|k: int|
            0 <= k < events.len() ==> !((#[trigger] events[k]).id == id && (
            events[k].kind is HomeGoal || events[k].kind is AwayGoal)),
    ensures
        with_goal_trimmed(events, id, end, at) == Ok::<_, TrimRefusal>(events),
{
    lemma_no_goal(events, id);
}

/// **Tagging adds the event that was pressed**: at the end of the list, if its
/// source is there; a start or stop is refused, with nothing changed, once two
/// for each period are stored.
pub proof fn law_tagging_adds_the_event_pressed(
    project: &mut Project,
    history: &mut UndoController,
    id: Id,
    kind: MatchEventKind,
    source_index: usize,
    at: i64,
    edited: Result<Edited, UserError>,
)
    requires
        call_ensures(
            tag_match_event,
            (project, history, id, kind, source_index, at),
            edited,
        ),
    ensures
        ({
            let before = old(project).match_events@;
            let after = final(project).match_events@;
            let stored = before.filter(
                |e: MatchEventRecord| e.kind == MatchEventKind::StartStop,
            ).len();
            let full = old(project).scoreboard is Some && stored >= 2 * (
            old(project).scoreboard->0.format.regulation_periods
                + old(project).scoreboard->0.format.overtime_periods);
            let there = source_index < old(project).source_videos@.len();
            let refused = there && kind is StartStop && full;
            &&& edited is Err <==> refused
            &&& edited is Err || !there ==> after == before && final(history)@ == old(history)@
            &&& edited is Ok && there ==> {
                &&& edited->Ok_0.changed
                &&& after == before.push(
                    MatchEventRecord {
                        id,
                        kind,
                        source_index,
                        source_time: at,
                        is_auto_back_anchor: false,
                        reel_lead_in: None,
                        reel_tail: None,
                    },
                )
            }
            &&& final(project).clips == old(project).clips
            &&& final(project).source_videos == old(project).source_videos
            &&& final(project).scoreboard == old(project).scoreboard
        }),
{
    match_panel::lemma_start_stops_are_counted(old(project).match_events@);
    let before = old(project).match_events@;
    let event = tagged(id, kind, source_index, at);
    assert(before.push(event).len() != before.len());
}

/// **A setup is taken with both teams named**, and is the project's from then
/// on; without a name it is refused and nothing changes.
pub proof fn law_a_setup_needs_both_names(
    project: &mut Project,
    config: ScoreboardConfig,
    changed: Result<bool, UserError>,
)
    requires
        call_ensures(set_scoreboard, (project, config), changed),
    ensures
        changed is Err <==> text::trimmed(config.home.name@).len() == 0 || text::trimmed(
            config.away.name@,
        ).len() == 0,
        changed is Err ==> *final(project) == *old(project),
        changed is Ok ==> {
            &&& final(project).scoreboard is Some
            &&& final(project).scoreboard->0.home.name@ == config.home.name@
            &&& final(project).scoreboard->0.away.name@ == config.away.name@
            &&& final(project).scoreboard->0.home.primary_color == config.home.primary_color
            &&& final(project).scoreboard->0.away.primary_color == config.away.primary_color
            &&& final(project).scoreboard->0.format == config.format
            &&& final(project).scoreboard->0.auto_back_anchor_p1 == config.auto_back_anchor_p1
            &&& final(project).match_events == old(project).match_events
            &&& final(project).clips == old(project).clips
            &&& old(project).scoreboard is None ==> changed->Ok_0
        },
{
}

/// **A format is full with two starts and stops for each of its periods**,
/// overtime included.
pub proof fn law_a_format_is_full_with_two_for_each_period(project: &Project, full: bool)
    requires
        call_ensures(start_stops_at_cap, (project,), full),
    ensures
        project.scoreboard is None ==> !full,
        project.scoreboard matches Some(config) ==> (full <==> project.match_events@.filter(
            |e: MatchEventRecord| e.kind == MatchEventKind::StartStop,
        ).len() >= 2 * config.format.regulation_periods + 2 * config.format.overtime_periods),
{
    match_panel::lemma_start_stops_are_counted(project.match_events@);
}

} // verus!
