//! The goals reel: one output video of every goal of the match, or of one
//! side's.
//!
//! A reel is an [`ExportTarget::Reel`](crate::plan::ExportTarget::Reel), never
//! a clip. Each entry is one `Play` segment of game video around a goal, with
//! no clip behind it. What makes it a reel rather than a list of clips is the
//! span each goal gets, which lives here.

use vstd::prelude::*;

use crate::project::Project;
use crate::scoreboard_config::{MatchEventKind, MatchEventRecord};
use crate::time;
use crate::transport;

verus! {

/// How long a goal's entry runs before the goal, unless the goal says
/// otherwise: 30 s. Generous on purpose: a cut-off assist is the one failure
/// the reel must not have.
pub const REEL_LEAD_IN: i64 = 90_000_000_000;

/// How long a goal's entry runs after the goal, unless the goal says
/// otherwise: 6 s.
pub const REEL_TAIL: i64 = 18_000_000_000;

/// A trim that is set and positive, or the default.
pub open spec fn trim_or(trim: Option<i64>, default: i64) -> i64 {
    match trim {
        Some(t) if t > 0 => t,
        _ => default,
    }
}

fn positive_or(trim: Option<i64>, default: i64) -> (t: i64)
    ensures
        t == trim_or(trim, default),
{
    match trim {
        Some(t) => if t > 0 {
            t
        } else {
            default
        },
        None => default,
    }
}

impl MatchEventRecord {
    /// `(lead-in, tail)`: how long this goal's reel entry runs before and
    /// after it, each its stored trim or the default. A stored trim that isn't
    /// positive (only a file edited by hand has one) is ignored, one side at a
    /// time.
    pub fn reel_span(&self) -> (span: (i64, i64))
        ensures
            span.0 == trim_or(self.reel_lead_in, REEL_LEAD_IN),
            span.1 == trim_or(self.reel_tail, REEL_TAIL),
    {
        (positive_or(self.reel_lead_in, REEL_LEAD_IN), positive_or(self.reel_tail, REEL_TAIL))
    }
}

/// Whose goals a reel holds.
#[derive(Debug, Clone, Copy, PartialEq, Eq, Structural)]
pub enum ReelSide {
    /// Both sides' goals, in match order.
    All,
    Home,
    Away,
}

impl ReelSide {
    /// Whether a match event belongs in this reel.
    pub open spec fn holds(self, kind: MatchEventKind) -> bool {
        match self {
            ReelSide::All => kind.goal(),
            ReelSide::Home => kind is HomeGoal,
            ReelSide::Away => kind is AwayGoal,
        }
    }

    /// Whether a match event belongs in this reel.
    pub fn covers(self, kind: MatchEventKind) -> (covered: bool)
        ensures
            covered == self.holds(kind),
    {
        match self {
            ReelSide::All => kind.is_goal(),
            ReelSide::Home => kind == MatchEventKind::HomeGoal,
            ReelSide::Away => kind == MatchEventKind::AwayGoal,
        }
    }
}

// ---------------------------------------------------------------------------
// Match order.

/// Where match event `index` lies on the sources laid end to end.
pub open spec fn match_time(project: &Project, index: usize) -> int {
    let record = project.match_events@[index as int];
    project.offset(record.source_index as int) + record.source_time
}

/// `order` with one more event, after every one that is no later.
pub open spec fn placed(project: &Project, order: Seq<usize>, index: usize) -> Seq<usize>
    decreases order.len(),
{
    if order.len() == 0 || match_time(project, order.last()) <= match_time(project, index) {
        order.push(index)
    } else {
        placed(project, order.drop_last(), index).push(order.last())
    }
}

/// Whether a match event is wanted: one of a side's goals, or any at all.
pub open spec fn wanted(side: Option<ReelSide>, kind: MatchEventKind) -> bool {
    match side {
        Some(side) => side.holds(kind),
        None => true,
    }
}

/// The events wanted among the first `count` match events, as indices into
/// them, in match order; events of the same instant keep the order they were
/// tagged in.
pub open spec fn event_order(project: &Project, side: Option<ReelSide>, count: nat) -> Seq<usize>
    decreases count,
{
    if count == 0 {
        seq![]
    } else {
        let before = event_order(project, side, (count - 1) as nat);
        let index = (count - 1) as usize;
        if wanted(side, project.match_events@[index as int].kind) {
            placed(project, before, index)
        } else {
            before
        }
    }
}

/// Every goal of a side's reel, in match order.
pub open spec fn goals_of(project: &Project, side: ReelSide) -> Seq<usize> {
    event_order(project, Some(side), project.match_events@.len())
}

proof fn lemma_placed(project: &Project, order: Seq<usize>, index: usize)
    ensures
        placed(project, order, index).len() == order.len() + 1,
        forall|g: usize|
            #![trigger placed(project, order, index).contains(g)]
            #![trigger order.contains(g)]
            placed(project, order, index).contains(g) <==> order.contains(g) || g == index,
    decreases order.len(),
{
    let all = placed(project, order, index);
    if order.len() == 0 || match_time(project, order.last()) <= match_time(project, index) {
        assert(all[order.len() as int] == index);
        assert forall|g: usize| #[trigger] all.contains(g) <==> order.contains(g) || g == index by {
            if order.contains(g) {
                let i = choose|i: int| 0 <= i < order.len() && order[i] == g;
                assert(all[i] == g);
            }
        }
    } else {
        let before = placed(project, order.drop_last(), index);
        lemma_placed(project, order.drop_last(), index);
        assert(all == before.push(order.last()));
        assert forall|g: usize| #[trigger] all.contains(g) <==> order.contains(g) || g == index by {
            if all.contains(g) {
                let i = choose|i: int| 0 <= i < all.len() && all[i] == g;
                if i < before.len() {
                    assert(before.contains(g));
                    if g != index {
                        let j = choose|j: int|
                            0 <= j < order.drop_last().len() && order.drop_last()[j] == g;
                        assert(order[j] == g);
                    }
                } else {
                    assert(order[order.len() - 1] == g);
                }
            }
            if order.contains(g) || g == index {
                if g == order.last() {
                    assert(all[before.len() as int] == g);
                } else {
                    if g != index {
                        let j = choose|j: int| 0 <= j < order.len() && order[j] == g;
                        assert(order.drop_last()[j] == g);
                        assert(order.drop_last().contains(g));
                    }
                    assert(before.contains(g));
                    let k = choose|k: int| 0 <= k < before.len() && before[k] == g;
                    assert(all[k] == g);
                }
            }
        }
    }
}

/// Whether event `a` comes before event `b` in match order.
pub open spec fn precedes(project: &Project, a: usize, b: usize) -> bool {
    ||| match_time(project, a) < match_time(project, b)
    ||| match_time(project, a) == match_time(project, b) && a < b
}

proof fn lemma_placed_keeps_order(project: &Project, order: Seq<usize>, index: usize)
    requires
        forall|i: int, j: int|
            0 <= i < j < order.len() ==> precedes(project, order[i], order[j]),
        forall|i: int| 0 <= i < order.len() ==> order[i] < index,
    ensures
        forall|i: int, j: int|
            0 <= i < j < order.len() + 1 ==> precedes(
                project,
                placed(project, order, index)[i],
                placed(project, order, index)[j],
            ),
    decreases order.len(),
{
    let all = placed(project, order, index);
    lemma_placed(project, order, index);
    if order.len() == 0 || match_time(project, order.last()) <= match_time(project, index) {
        assert forall|i: int, j: int| 0 <= i < j < order.len() + 1 implies precedes(
            project,
            all[i],
            all[j],
        ) by {
            if j == order.len() && i < order.len() - 1 {
                assert(precedes(project, order[i], order[order.len() - 1]));
            }
        }
    } else {
        let earlier = order.drop_last();
        assert forall|i: int| 0 <= i < earlier.len() implies earlier[i] == order[i] by {}
        lemma_placed_keeps_order(project, earlier, index);
        lemma_placed(project, earlier, index);
        let before = placed(project, earlier, index);
        assert forall|i: int, j: int| 0 <= i < j < order.len() + 1 implies precedes(
            project,
            all[i],
            all[j],
        ) by {
            if j < before.len() {
                assert(precedes(project, before[i], before[j]));
            } else {
                assert(before.contains(before[i]));
                if before[i] != index {
                    let k = choose|k: int| 0 <= k < earlier.len() && earlier[k] == before[i];
                    assert(precedes(project, order[k], order[order.len() - 1]));
                }
            }
        }
    }
}

/// **A reel holds every goal of its side, once, in match order**: goals of the
/// same instant stay in the order they were tagged in, and nothing but its
/// side's goals is in it.
pub proof fn law_goals_are_in_match_order(project: &Project, side: ReelSide)
    requires
        project.match_events@.len() <= usize::MAX,
    ensures
        forall|g: usize| #[trigger]
            goals_of(project, side).contains(g) <==> g < project.match_events@.len() && match side {
                ReelSide::All => project.match_events@[g as int].kind is HomeGoal
                    || project.match_events@[g as int].kind is AwayGoal,
                ReelSide::Home => project.match_events@[g as int].kind is HomeGoal,
                ReelSide::Away => project.match_events@[g as int].kind is AwayGoal,
            },
        forall|i: int, j: int|
            0 <= i < j < goals_of(project, side).len() ==> precedes(
                project,
                goals_of(project, side)[i],
                goals_of(project, side)[j],
            ),
{
    lemma_event_order(project, Some(side), project.match_events@.len());
}

/// A reel has no more goals than there are match events.
pub proof fn lemma_goal_count(project: &Project, side: ReelSide)
    requires
        project.match_events@.len() <= usize::MAX,
    ensures
        goals_of(project, side).len() <= project.match_events@.len(),
{
    lemma_event_order(project, Some(side), project.match_events@.len());
}

/// What holds of every event order.
pub proof fn lemma_event_order(project: &Project, side: Option<ReelSide>, count: nat)
    requires
        count <= project.match_events@.len() <= usize::MAX,
    ensures
        event_order(project, side, count).len() <= count,
        side is None ==> event_order(project, side, count).len() == count,
        forall|g: usize| #[trigger]
            event_order(project, side, count).contains(g) <==> g < count && wanted(
                side,
                project.match_events@[g as int].kind,
            ),
        forall|i: int, j: int|
            0 <= i < j < event_order(project, side, count).len() ==> precedes(
                project,
                event_order(project, side, count)[i],
                event_order(project, side, count)[j],
            ),
    decreases count,
{
    if count > 0 {
        let before = event_order(project, side, (count - 1) as nat);
        let index = (count - 1) as usize;
        lemma_event_order(project, side, (count - 1) as nat);
        if wanted(
            side,
            project.match_events@[index as int].kind) {
            lemma_placed(project, before, index);
            assert forall|i: int| 0 <= i < before.len() implies before[i] < index by {
                assert(before.contains(before[i]));
            }
            lemma_placed_keeps_order(project, before, index);
        }
    }
}

fn match_time_of(project: &Project, index: usize) -> (at: i128)
    requires
        index < project.match_events@.len(),
    ensures
        at == match_time(project, index),
{
    let record = project.match_events[index];
    project.abs_seconds(record.source_index, record.source_time)
}

proof fn lemma_placed_at(project: &Project, order: Seq<usize>, index: usize, at: int)
    requires
        0 <= at <= order.len(),
        at > 0 ==> match_time(project, order[at - 1]) <= match_time(project, index),
        forall|i: int|
            at <= i < order.len() ==> match_time(project, #[trigger] order[i]) > match_time(
                project,
                index,
            ),
    ensures
        placed(project, order, index) == order.insert(at, index),
    decreases order.len(),
{
    if at == order.len() {
        assert(order.insert(at, index) =~= order.push(index));
    } else {
        assert(order.last() == order[order.len() - 1]);
        let earlier = order.drop_last();
        assert forall|i: int| at <= i < earlier.len() implies match_time(
            project,
            #[trigger] earlier[i],
        ) > match_time(project, index) by {
            assert(earlier[i] == order[i]);
        }
        lemma_placed_at(project, earlier, index, at);
        assert(earlier.insert(at, index).push(order.last()) =~= order.insert(at, index));
    }
}

/// The events wanted, as indices into the project's match events, in match
/// order.
pub fn ordered_events(project: &Project, side: Option<ReelSide>) -> (order: Vec<usize>)
    ensures
        order@ == event_order(project, side, project.match_events@.len()),
        order@.len() <= project.match_events@.len(),
        forall|i: int| 0 <= i < order@.len() ==> order@[i] < project.match_events@.len(),
{
    let mut order: Vec<usize> = Vec::new();
    for index in 0..project.match_events.len()
        invariant
            order@ == event_order(project, side, index as nat),
    {
        proof {
            lemma_event_order(project, side, index as nat);
            assert forall|i: int| 0 <= i < order@.len() implies order@[i] < index by {
                assert(order@.contains(order@[i]));
            }
        }
        let take = match side {
            Some(side) => side.covers(project.match_events[index].kind),
            None => true,
        };
        if take {
            let at_time = match_time_of(project, index);
            let mut at: usize = order.len();
            while at > 0 && match_time_of(project, order[at - 1]) > at_time
                invariant
                    at <= order@.len(),
                    index < project.match_events@.len(),
                    at_time == match_time(project, index),
                    forall|i: int| 0 <= i < order@.len() ==> order@[i] < index,
                    forall|i: int|
                        at <= i < order@.len() ==> match_time(project, #[trigger] order@[i])
                            > at_time,
                decreases at,
            {
                at = at - 1;
            }
            proof {
                lemma_placed_at(project, order@, index, at as int);
            }
            order.insert(at, index);
        }
    }
    proof {
        lemma_event_order(project, side, project.match_events@.len());
        assert forall|i: int| 0 <= i < order@.len() implies order@[i]
            < project.match_events@.len() by {
            assert(order@.contains(order@[i]));
        }
    }
    order
}

/// Every goal `side`'s reel holds, as indices into the project's match events,
/// in match order: what "goal n" and "N goals" count. Not the entries, which
/// can be fewer.
pub fn reel_goals(project: &Project, side: ReelSide) -> (goals: Vec<usize>)
    ensures
        goals@ == goals_of(project, side),
        goals@.len() <= project.match_events@.len(),
        forall|i: int| 0 <= i < goals@.len() ==> goals@[i] < project.match_events@.len(),
{
    ordered_events(project, Some(side))
}

// ---------------------------------------------------------------------------
// Spans.

/// One entry's span of game video, before it is numbered.
#[derive(Debug, Clone, Copy, PartialEq, Eq, Structural)]
pub struct Span {
    /// The entry's first goal, which names it, as an index into the project's
    /// match events.
    pub goal: usize,
    pub source_index: usize,
    /// Ticks on that source.
    pub start: i64,
    pub end: i64,
}

/// How long a source runs. A source that is missing bounds nothing: it counts
/// as the longest there can be.
pub open spec fn source_length(project: &Project, source_index: usize) -> i64 {
    if source_index < project.source_videos@.len() {
        project.source_videos@[source_index as int].duration
    } else {
        i64::MAX
    }
}

/// Where a goal's footage ends: its tail, clamped to its source.
pub open spec fn footage_end(project: &Project, goal: usize) -> int {
    let record = project.match_events@[goal as int];
    time::smaller(
        source_length(project, record.source_index) as int,
        record.source_time + trim_or(record.reel_tail, REEL_TAIL),
    )
}

/// The spans with one more goal. A goal already inside the previous entry
/// extends it; any other gets its own span, clamped to its source and never
/// starting before the previous entry on the same source ends.
pub open spec fn with_goal(project: &Project, spans: Seq<Span>, goal: usize) -> Seq<Span> {
    let record = project.match_events@[goal as int];
    let end = footage_end(project, goal);
    let follows = spans.len() > 0 && spans.last().source_index == record.source_index;
    if follows && record.source_time <= spans.last().end {
        let prev = spans.last();
        spans.drop_last().push(
            Span { end: time::larger(prev.end as int, end) as i64, ..prev },
        )
    } else {
        let start = time::larger(
            record.source_time - trim_or(record.reel_lead_in, REEL_LEAD_IN),
            if follows {
                spans.last().end as int
            } else {
                0
            },
        );
        if end > start {
            spans.push(
                Span {
                    goal,
                    source_index: record.source_index,
                    start: start as i64,
                    end: end as i64,
                },
            )
        } else {
            spans
        }
    }
}

/// The spans of a run of goals.
pub open spec fn spans_of(project: &Project, goals: Seq<usize>) -> Seq<Span>
    decreases goals.len(),
{
    if goals.len() == 0 {
        seq![]
    } else {
        with_goal(project, spans_of(project, goals.drop_last()), goals.last())
    }
}

/// A span there is something to play of, on its source.
pub open spec fn playable(project: &Project, span: Span) -> bool {
    &&& 0 <= span.start < span.end
    &&& span.end <= source_length(project, span.source_index)
    &&& span.goal < project.match_events@.len()
    &&& span.source_index == project.match_events@[span.goal as int].source_index
    &&& span.start <= time::larger(project.match_events@[span.goal as int].source_time as int, 0)
}

proof fn lemma_with_goal(project: &Project, spans: Seq<Span>, goal: usize)
    requires
        goal < project.match_events@.len(),
        forall|i: int| 0 <= i < spans.len() ==> playable(project, #[trigger] spans[i]),
    ensures
        forall|i: int|
            0 <= i < with_goal(project, spans, goal).len() ==> playable(
                project,
                #[trigger] with_goal(project, spans, goal)[i],
            ),
        with_goal(project, spans, goal).len() <= spans.len() + 1,
{
    if spans.len() > 0 {
        assert(playable(project, spans[spans.len() - 1]));
    }
}

pub proof fn lemma_spans(project: &Project, goals: Seq<usize>)
    requires
        forall|i: int| 0 <= i < goals.len() ==> goals[i] < project.match_events@.len(),
    ensures
        spans_of(project, goals).len() <= goals.len(),
        forall|i: int|
            0 <= i < spans_of(project, goals).len() ==> playable(
                project,
                #[trigger] spans_of(project, goals)[i],
            ),
        forall|i: int|
            0 <= i < spans_of(project, goals).len() ==> goals.contains(
                (#[trigger] spans_of(project, goals)[i]).goal,
            ),
    decreases goals.len(),
{
    if goals.len() > 0 {
        let earlier = spans_of(project, goals.drop_last());
        lemma_spans(project, goals.drop_last());
        lemma_with_goal(project, earlier, goals.last());
        assert forall|i: int| 0 <= i < spans_of(project, goals).len() implies goals.contains(
            (#[trigger] spans_of(project, goals)[i]).goal,
        ) by {
            if i < earlier.len() {
                assert(goals.drop_last().contains(earlier[i].goal));
                let k = choose|k: int|
                    0 <= k < goals.drop_last().len() && goals.drop_last()[k] == earlier[i].goal;
                assert(goals[k] == earlier[i].goal);
            } else {
                assert(goals[goals.len() - 1] == spans_of(project, goals)[i].goal);
            }
        }
    }
}

/// **A span plays real footage**: it starts on its goal's source, ends after
/// it starts and no later than the source does.
pub proof fn law_spans_lie_on_their_sources(project: &Project, goals: Seq<usize>, i: int)
    requires
        forall|k: int| 0 <= k < goals.len() ==> goals[k] < project.match_events@.len(),
        0 <= i < spans_of(project, goals).len(),
    ensures
        playable(project, spans_of(project, goals)[i]),
{
    lemma_spans(project, goals);
}

/// **Neighbouring spans of one source never overlap**, so no two entries in a
/// row replay the same footage.
pub proof fn law_spans_do_not_replay_footage(project: &Project, goals: Seq<usize>, i: int)
    requires
        forall|k: int| 0 <= k < goals.len() ==> goals[k] < project.match_events@.len(),
        0 <= i < spans_of(project, goals).len() - 1,
        spans_of(project, goals)[i].source_index == spans_of(project, goals)[i + 1].source_index,
    ensures
        spans_of(project, goals)[i].end <= spans_of(project, goals)[i + 1].start,
    decreases goals.len(),
{
    let earlier = spans_of(project, goals.drop_last());
    lemma_spans(project, goals.drop_last());
    let all = spans_of(project, goals);
    if i + 1 < earlier.len() {
        assert(all[i] == earlier[i]);
        law_spans_do_not_replay_footage(project, goals.drop_last(), i);
    } else {
        assert(earlier.last() == earlier[earlier.len() - 1]);
        assert(playable(project, earlier[earlier.len() - 1]));
    }
}

/// **A goal never shortens or moves what is there**: the spans before it keep
/// their starts, their goals and at least their ends.
pub proof fn law_a_goal_never_shortens_a_span(
    project: &Project,
    goals: Seq<usize>,
    goal: usize,
    i: int,
)
    requires
        forall|k: int| 0 <= k < goals.len() ==> goals[k] < project.match_events@.len(),
        goal < project.match_events@.len(),
        0 <= i < spans_of(project, goals).len(),
    ensures
        ({
            let before = spans_of(project, goals)[i];
            let after = spans_of(project, goals.push(goal))[i];
            &&& spans_of(project, goals.push(goal)).len() >= spans_of(project, goals).len()
            &&& after.goal == before.goal
            &&& after.source_index == before.source_index
            &&& after.start == before.start
            &&& after.end >= before.end
        }),
{
    assert(goals.push(goal).drop_last() =~= goals);
    lemma_spans(project, goals);
    let spans = spans_of(project, goals);
    assert(playable(project, spans[spans.len() - 1]));
}

/// A goal on its source, added in match order, lies inside the span that is
/// then the last one.
proof fn lemma_the_last_goal_is_shown(project: &Project, goals: Seq<usize>, goal: usize)
    requires
        forall|k: int| 0 <= k < goals.len() ==> goals[k] < project.match_events@.len(),
        forall|k: int|
            0 <= k < goals.len() ==> match_time(project, #[trigger] goals[k]) <= match_time(
                project,
                goal,
            ),
        goal < project.match_events@.len(),
        0 <= project.match_events@[goal as int].source_time < source_length(
            project,
            project.match_events@[goal as int].source_index,
        ),
    ensures
        ({
            let record = project.match_events@[goal as int];
            let spans = spans_of(project, goals.push(goal));
            &&& spans.len() > 0
            &&& spans.last().source_index == record.source_index
            &&& spans.last().start <= record.source_time <= spans.last().end
        }),
{
    assert(goals.push(goal).drop_last() =~= goals);
    lemma_spans(project, goals);
    let spans = spans_of(project, goals);
    if spans.len() > 0 {
        let last = spans[spans.len() - 1];
        assert(playable(project, last));
        assert(goals.contains(last.goal));
        let k = choose|k: int| 0 <= k < goals.len() && goals[k] == last.goal;
        assert(match_time(project, goals[k]) <= match_time(project, goal));
    }
}

proof fn lemma_spans_only_grow(project: &Project, goals: Seq<usize>, n: int, i: int)
    requires
        forall|k: int| 0 <= k < goals.len() ==> goals[k] < project.match_events@.len(),
        0 <= n <= goals.len(),
        0 <= i < spans_of(project, goals.take(n)).len(),
    ensures
        ({
            let before = spans_of(project, goals.take(n))[i];
            let after = spans_of(project, goals)[i];
            &&& i < spans_of(project, goals).len()
            &&& after.source_index == before.source_index
            &&& after.start == before.start
            &&& after.end >= before.end
        }),
    decreases goals.len(),
{
    if n == goals.len() {
        assert(goals.take(n) =~= goals);
    } else {
        let earlier = goals.drop_last();
        assert(earlier.take(n) =~= goals.take(n));
        lemma_spans_only_grow(project, earlier, n, i);
        law_a_goal_never_shortens_a_span(project, earlier, goals.last(), i);
        assert(earlier.push(goals.last()) =~= goals);
    }
}

/// Whether a goal lies inside a span, on its own source.
pub open spec fn shows(project: &Project, span: Span, goal: usize) -> bool {
    let record = project.match_events@[goal as int];
    &&& span.source_index == record.source_index
    &&& span.start <= record.source_time <= span.end
}

/// **Every goal with footage is on screen**: each goal of a reel's side that
/// lies on its source is inside some span of the reel, on that source.
pub proof fn law_every_goal_is_shown(project: &Project, side: ReelSide, goal: usize)
    requires
        project.match_events@.len() <= usize::MAX,
        goals_of(project, side).contains(goal),
        0 <= project.match_events@[goal as int].source_time < source_length(
            project,
            project.match_events@[goal as int].source_index,
        ),
    ensures
        exists|i: int|
            0 <= i < spans_of(project, goals_of(project, side)).len() && shows(
                project,
                #[trigger] spans_of(project, goals_of(project, side))[i],
                goal,
            ),
{
    let goals = goals_of(project, side);
    law_goals_are_in_match_order(project, side);
    assert forall|k: int| 0 <= k < goals.len() implies goals[k] < project.match_events@.len() by {
        assert(goals.contains(goals[k]));
    }
    let n = choose|n: int| 0 <= n < goals.len() && goals[n] == goal;
    let before = goals.take(n);
    assert forall|k: int| 0 <= k < before.len() implies match_time(project, #[trigger] before[k])
        <= match_time(project, goal) by {
        assert(precedes(project, goals[k], goals[n]));
    }
    lemma_the_last_goal_is_shown(project, before, goal);
    assert(before.push(goal) =~= goals.take(n + 1));
    let i = spans_of(project, goals.take(n + 1)).len() - 1;
    lemma_spans_only_grow(project, goals, n + 1, i);
    assert(shows(project, spans_of(project, goals)[i], goal));
}

/// Where a goal's tail ends: its stored one after the goal if that is positive,
/// 6 s after it if not, and no later than its source.
pub open spec fn tail_end(project: &Project, goal: usize) -> int {
    let record = project.match_events@[goal as int];
    let sources = project.source_videos@;
    let tail = match record.reel_tail {
        Some(t) => if t > 0 {
            t
        } else {
            18_000_000_000
        },
        None => 18_000_000_000,
    };
    if record.source_index < sources.len() && record.source_time + tail
        > sources[record.source_index as int].duration {
        sources[record.source_index as int].duration as int
    } else if record.source_time + tail > i64::MAX {
        i64::MAX as int
    } else {
        record.source_time + tail
    }
}

/// **A goal's trims cut its own span**: a span starts its goal's lead-in before
/// the goal, at the earliest where the span before it on that source ends, or at
/// the source's start; and it ends with the tail of its goal, or of a goal
/// inside it, at the latest where the source does. Each of a goal's two trims
/// is its stored one if that is positive, whatever the other is, and 30 s or
/// 6 s if not. Only a goal past the end of the span before it has its own.
pub proof fn law_a_span_is_cut_by_its_goal(project: &Project, goals: Seq<usize>, i: int)
    requires
        forall|k: int| 0 <= k < goals.len() ==> goals[k] < project.match_events@.len(),
        0 <= i < spans_of(project, goals).len(),
    ensures
        ({
            let spans = spans_of(project, goals);
            let span = spans[i];
            let goal = project.match_events@[span.goal as int];
            let lead_in = match goal.reel_lead_in {
                Some(t) => if t > 0 {
                    t
                } else {
                    90_000_000_000
                },
                None => 90_000_000_000,
            };
            let follows = i > 0 && spans[i - 1].source_index == span.source_index;
            let free = if follows {
                spans[i - 1].end as int
            } else {
                0
            };
            &&& goals.contains(span.goal)
            &&& span.source_index == goal.source_index
            &&& span.start == if goal.source_time - lead_in < free {
                free
            } else {
                goal.source_time - lead_in
            }
            &&& follows ==> goal.source_time > spans[i - 1].end
            &&& span.end >= tail_end(project, span.goal)
            &&& exists|k: int|
                0 <= k < goals.len() && span.end == tail_end(project, #[trigger] goals[k])
                    && project.match_events@[goals[k] as int].source_index == span.source_index
                    && (goals[k] == span.goal || project.match_events@[goals[k] as int].source_time
                    <= span.end)
        }),
    decreases goals.len(),
{
    let earlier = goals.drop_last();
    let before = spans_of(project, earlier);
    let spans = spans_of(project, goals);
    let last = goals.last();
    assert forall|k: int| 0 <= k < earlier.len() implies earlier[k] < project.match_events@.len() by {
        assert(earlier[k] == goals[k]);
    }
    lemma_spans(project, earlier);
    assert(goals[goals.len() - 1] == last);
    if before.len() > 0 {
        assert(playable(project, before[before.len() - 1]));
        assert(before.last() == before[before.len() - 1]);
    }
    if i < before.len() {
        law_a_span_is_cut_by_its_goal(project, earlier, i);
        let k = choose|k: int|
            0 <= k < earlier.len() && before[i].end == tail_end(project, #[trigger] earlier[k])
                && project.match_events@[earlier[k] as int].source_index == before[i].source_index
                && (earlier[k] == before[i].goal || project.match_events@[earlier[k] as int].source_time
                <= before[i].end);
        assert(goals[k] == earlier[k]);
        let named = choose|n: int| 0 <= n < earlier.len() && earlier[n] == before[i].goal;
        assert(goals[named] == before[i].goal);
        if i > 0 {
            assert(spans[i - 1] == before[i - 1]);
        }
        if spans[i] != before[i] {
            assert(i == before.len() - 1);
            if spans[i].end != before[i].end {
                assert(spans[i].end == tail_end(project, goals[goals.len() - 1]));
            }
        }
    } else {
        assert(spans[i].goal == last);
    }
}

/// **A goal inside the last span joins it**: that span then runs at least to the
/// goal's tail, and nothing else changes. **Any other goal gets its own**, after
/// what is there, so long as there is something of it to play.
pub proof fn law_a_goal_joins_a_span_or_gets_one(
    project: &Project,
    goals: Seq<usize>,
    goal: usize,
)
    requires
        forall|k: int| 0 <= k < goals.len() ==> goals[k] < project.match_events@.len(),
        goal < project.match_events@.len(),
    ensures
        ({
            let before = spans_of(project, goals);
            let after = spans_of(project, goals.push(goal));
            let record = project.match_events@[goal as int];
            let joins = before.len() > 0 && before.last().source_index == record.source_index
                && record.source_time <= before.last().end;
            let n = before.len() as int;
            &&& n <= after.len() <= n + 1
            &&& forall|i: int| 0 <= i < n - 1 ==> #[trigger] after[i] == before[i]
            &&& !joins && n > 0 ==> after[n - 1] == before[n - 1]
            &&& joins ==> {
                &&& after.len() == n
                &&& after[n - 1].goal == before[n - 1].goal
                &&& after[n - 1].start == before[n - 1].start
                &&& after[n - 1].end == if tail_end(project, goal) > before[n - 1].end {
                    tail_end(project, goal)
                } else {
                    before[n - 1].end as int
                }
            }
            &&& !joins && after.len() == n + 1 ==> after[n].goal == goal
            &&& !joins && 0 <= record.source_time < tail_end(project, goal) ==> after.len() == n
                + 1
            &&& !joins && tail_end(project, goal) <= 0 ==> after.len() == n
        }),
{
    assert(goals.push(goal).drop_last() =~= goals);
    lemma_spans(project, goals);
    let before = spans_of(project, goals);
    if before.len() > 0 {
        assert(playable(project, before[before.len() - 1]));
    }
}

/// `side`'s spans: one per goal in match order, except that a goal already
/// inside the previous entry extends it instead.
pub fn reel_spans(project: &Project, side: ReelSide) -> (spans: Vec<Span>)
    ensures
        spans@ == spans_of(project, goals_of(project, side)),
        spans@.len() <= project.match_events@.len(),
        forall|i: int| 0 <= i < spans@.len() ==> playable(project, #[trigger] spans@[i]),
{
    let goals = reel_goals(project, side);
    let mut spans: Vec<Span> = Vec::new();
    for i in 0..goals.len()
        invariant
            goals@ == goals_of(project, side),
            forall|k: int| 0 <= k < goals@.len() ==> goals@[k] < project.match_events@.len(),
            spans@ == spans_of(project, goals@.take(i as int)),
    {
        proof {
            lemma_spans(project, goals@.take(i as int));
            assert(goals@.take(i + 1).drop_last() =~= goals@.take(i as int));
            if spans@.len() > 0 {
                assert(playable(project, spans@[spans@.len() - 1]));
            }
        }
        let goal = goals[i];
        let record = project.match_events[goal];
        let duration: i64 = if record.source_index < project.source_videos.len() {
            project.source_videos[record.source_index].duration
        } else {
            i64::MAX
        };
        let (lead_in, tail) = record.reel_span();
        let unclamped: i128 = record.source_time as i128 + tail as i128;
        let end: i64 = if (duration as i128) < unclamped {
            duration
        } else {
            unclamped as i64
        };
        let mut prev_end: i64 = 0;
        let mut merged = false;
        if spans.len() > 0 {
            let last: usize = spans.len() - 1;
            let prev = spans[last];
            if prev.source_index == record.source_index {
                prev_end = prev.end;
                if record.source_time <= prev.end {
                    merged = true;
                    let longer: i64 = if prev.end >= end {
                        prev.end
                    } else {
                        end
                    };
                    let ghost before = spans@;
                    spans.set(last, Span { end: longer, ..prev });
                    assert(spans@ =~= before.drop_last().push(Span { end: longer, ..prev }));
                }
            }
        }
        if !merged {
            let from: i128 = record.source_time as i128 - lead_in as i128;
            let start: i64 = if from >= prev_end as i128 {
                from as i64
            } else {
                prev_end
            };
            // Only a goal past its source's end has nothing to play.
            if end > start {
                spans.push(Span { goal, source_index: record.source_index, start, end });
            }
        }
    }
    proof {
        assert(goals@.take(goals@.len() as int) =~= goals@);
        lemma_spans(project, goals@);
    }
    spans
}

/// **Goals are shown in the order they fell**: by where they lie on the sources
/// laid end to end, and at one moment in the order they were tagged.
pub proof fn law_goals_are_shown_as_they_fell(
    project: &Project,
    side: ReelSide,
    starts: Seq<int>,
    i: int,
    j: int,
)
    requires
        project.match_events@.len() <= usize::MAX,
        transport::start_at(project.source_videos@, starts),
        0 <= i < j < goals_of(project, side).len(),
        ({
            let a = project.match_events@[goals_of(project, side)[i] as int];
            let b = project.match_events@[goals_of(project, side)[j] as int];
            a.source_index < project.source_videos@.len() && b.source_index
                < project.source_videos@.len()
        }),
    ensures
        ({
            let first = goals_of(project, side)[i];
            let later = goals_of(project, side)[j];
            let a = project.match_events@[first as int];
            let b = project.match_events@[later as int];
            let fell = starts[a.source_index as int] + a.source_time;
            let then = starts[b.source_index as int] + b.source_time;
            fell < then || (fell == then && first < later)
        }),
{
    law_goals_are_in_match_order(project, side);
    let a = project.match_events@[goals_of(project, side)[i] as int];
    let b = project.match_events@[goals_of(project, side)[j] as int];
    transport::lemma_starts(project.source_videos@, starts, a.source_index as int);
    transport::lemma_starts(project.source_videos@, starts, b.source_index as int);
    assert(precedes(project, goals_of(project, side)[i], goals_of(project, side)[j]));
}

/// **A reel's spans are cut by their goals' trims**: each starts the lead-in of
/// its goal before it, at the earliest where the one before it on that source
/// ends, and shows its goal's tail; every goal of the side with footage is in
/// one.
pub proof fn law_a_reel_is_cut_by_its_goals(
    project: &Project,
    side: ReelSide,
    spans: Vec<Span>,
    i: int,
    goal: usize,
)
    requires
        call_ensures(reel_spans, (project, side), spans),
        project.match_events@.len() <= usize::MAX,
        0 <= i < spans@.len(),
    ensures
        ({
            let span = spans@[i];
            let named = project.match_events@[span.goal as int];
            let lead_in = match named.reel_lead_in {
                Some(t) if t > 0 => t,
                _ => 90_000_000_000,
            };
            let follows = i > 0 && spans@[i - 1].source_index == span.source_index;
            let free = if follows {
                spans@[i - 1].end as int
            } else {
                0
            };
            &&& span.source_index == named.source_index
            &&& span.start == free || span.start == named.source_time - lead_in
            &&& span.start >= free && span.start >= named.source_time - lead_in
            &&& span.end >= tail_end(project, span.goal)
            &&& side is Home ==> named.kind is HomeGoal
            &&& side is Away ==> named.kind is AwayGoal
            &&& !(named.kind is StartStop)
        }),
        goal < project.match_events@.len() && match side {
            ReelSide::All => !(project.match_events@[goal as int].kind is StartStop),
            ReelSide::Home => project.match_events@[goal as int].kind is HomeGoal,
            ReelSide::Away => project.match_events@[goal as int].kind is AwayGoal,
        } && project.match_events@[goal as int].source_index < project.source_videos@.len() && 0
            <= project.match_events@[goal as int].source_time
            < project.source_videos@[project.match_events@[goal as int].source_index as int].duration
            ==> exists|n: int|
            0 <= n < spans@.len() && (#[trigger] spans@[n]).source_index
                == project.match_events@[goal as int].source_index && spans@[n].start
                <= project.match_events@[goal as int].source_time <= spans@[n].end,
{
    let goals = goals_of(project, side);
    law_goals_are_in_match_order(project, side);
    assert forall|k: int| 0 <= k < goals.len() implies goals[k] < project.match_events@.len() by {
        assert(goals.contains(goals[k]));
    }
    law_a_span_is_cut_by_its_goal(project, goals, i);
    assert(goals.contains(spans@[i].goal));
    if goals.contains(goal) && project.match_events@[goal as int].source_index
        < project.source_videos@.len() && 0 <= project.match_events@[goal as int].source_time
        < project.source_videos@[project.match_events@[goal as int].source_index as int].duration {
        law_every_goal_is_shown(project, side, goal);
        let n = choose|n: int|
            0 <= n < spans@.len() && shows(project, #[trigger] spans@[n], goal);
        assert(shows(project, spans@[n], goal));
    }
}

} // verus!
