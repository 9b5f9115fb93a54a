//! The Match panel's text and the setup sheet's fields.
//!
//! The panel is a rendering of the project plus one instant of the scan.
//! Nothing here decides anything: tagging, deleting and the setup are commands.

use vstd::prelude::*;

use crate::format::format_hms;
use crate::id;
use crate::id::Id;
use crate::project::Project;
use crate::reel;
use crate::reel::{ordered_events, REEL_LEAD_IN, REEL_TAIL};
use crate::scoreboard_config::{
    MatchEventKind, MatchEventRecord, MatchFormat, Rgba, ScoreboardConfig, TeamConfig, CHANNEL_ONE,
};
use crate::text;
use crate::transport;

verus! {

// ---------------------------------------------------------------------------
// The event list.

/// The part a start or stop plays, as the scoreboard interprets it: a period's
/// start or its end.
#[derive(Debug, PartialEq, Eq)]
pub struct PeriodRole {
    /// The event that has it.
    pub id: Id,
    pub start: bool,
    /// The period's name, such as `"1H"`.
    pub period: String,
}

/// One row of the panel's event list, which is also a chapter: the scrubber's
/// marks are built from these rows.
#[derive(Debug, PartialEq, Eq)]
pub struct MatchRowText {
    pub id: Id,
    pub kind: MatchEventKind,
    /// Where it sits on the sources laid end to end, in ticks.
    pub abs: i128,
    /// The same, as a clock shows it.
    pub time: String,
    /// `"1H start"`, `"Home goal"`, …
    pub label: String,
    /// A start or stop the format has no period for. The record is kept, so
    /// the row says so rather than looking like every other one.
    pub role_less: bool,
    /// A goal's span in the reel; `None` for anything but a goal.
    pub reel_span: Option<String>,
}

/// What a [`MatchRowText`] holds, as mathematical values.
#[verifier::ext_equal]
pub struct MatchRowView {
    pub id: Id,
    pub kind: MatchEventKind,
    pub abs: int,
    pub time: Seq<char>,
    pub label: Seq<char>,
    pub role_less: bool,
    pub reel_span: Option<Seq<char>>,
}

impl View for MatchRowText {
    type V = MatchRowView;

    open spec fn view(&self) -> MatchRowView {
        MatchRowView {
            id: self.id,
            kind: self.kind,
            abs: self.abs as int,
            time: self.time@,
            label: self.label@,
            role_less: self.role_less,
            reel_span: match self.reel_span {
                Some(t) => Some(t@),
                None => None,
            },
        }
    }
}

/// The first role an event has.
pub open spec fn role_of(roles: Seq<PeriodRole>, id: Id) -> Option<PeriodRole>
    decreases roles.len(),
{
    if roles.len() == 0 {
        None
    } else if roles[0].id == id {
        Some(roles[0])
    } else {
        role_of(roles.drop_first(), id)
    }
}

/// What an event's row is called, and whether it has no period.
pub open spec fn label_of(
    record: MatchEventRecord,
    configured: bool,
    roles: Seq<PeriodRole>,
) -> (Seq<char>, bool) {
    match record.kind {
        MatchEventKind::HomeGoal => ("Home goal"@, false),
        MatchEventKind::AwayGoal => ("Away goal"@, false),
        MatchEventKind::StartStop => if !configured {
            ("Start/stop"@, false)
        } else {
            match role_of(roles, record.id) {
                Some(role) => if role.start {
                    (role.period@ + " start"@, false)
                } else {
                    (role.period@ + " end"@, false)
                },
                None => ("Start/stop (no period)"@, true),
            }
        },
    }
}

/// A length to the tenth of a second, and whole seconds without one.
pub open spec fn tenths_text(ticks: int) -> Seq<char> {
    let magnitude = if ticks < 0 {
        -ticks
    } else {
        ticks
    };
    let tenths = (magnitude + 150_000_000) / 300_000_000;
    (if ticks < 0 {
        "-"@
    } else {
        ""@
    }) + text::decimal((tenths / 10) as nat) + if tenths % 10 == 0 {
        ""@
    } else {
        "."@ + text::decimal((tenths % 10) as nat)
    }
}

/// A stored trim or the default.
pub open spec fn stored_or(trim: Option<i64>, default: i64) -> i64 {
    match trim {
        Some(t) => t,
        None => default,
    }
}

/// `"−30 s / +6 s"`: how far a goal's reel entry runs either side of it.
pub open spec fn span_text(record: MatchEventRecord) -> Seq<char> {
    "−"@ + tenths_text(stored_or(record.reel_lead_in, REEL_LEAD_IN) as int) + " s / +"@
        + tenths_text(stored_or(record.reel_tail, REEL_TAIL) as int) + " s"@
}

/// One event's row.
pub open spec fn row_of(project: &Project, roles: Seq<PeriodRole>, index: usize) -> MatchRowView {
    let record = project.match_events@[index as int];
    let at = reel::match_time(project, index);
    let (label, role_less) = label_of(record, project.scoreboard is Some, roles);
    MatchRowView {
        id: record.id,
        kind: record.kind,
        abs: at,
        time: crate::format::hms(at),
        label,
        role_less,
        reel_span: if record.kind.goal() {
            Some(span_text(record))
        } else {
            None
        },
    }
}

/// Every event's row, in match order.
pub open spec fn rows_of(project: &Project, roles: Seq<PeriodRole>) -> Seq<MatchRowView> {
    reel::event_order(project, None, project.match_events@.len()).map_values(
        |index: usize| row_of(project, roles, index),
    )
}

/// What each row of a list holds.
pub open spec fn row_views(rows: Seq<MatchRowText>) -> Seq<MatchRowView> {
    rows.map_values(|r: MatchRowText| r@)
}

fn find_role(roles: &Vec<PeriodRole>, id: Id) -> (found: Option<usize>)
    ensures
        match found {
            Some(i) => i < roles@.len() && role_of(roles@, id) == Some(roles@[i as int]),
            None => role_of(roles@, id) is None,
        },
{
    assert(roles@.skip(0) =~= roles@);
    for i in 0..roles.len()
        invariant
            role_of(roles@, id) == role_of(roles@.skip(i as int), id),
    {
        if roles[i].id == id {
            return Some(i);
        }
        assert(roles@.skip(i as int).drop_first() =~= roles@.skip(i + 1));
    }
    None
}

fn push_tenths(out: &mut String, ticks: i64)
    ensures
        final(out)@ == old(out)@ + tenths_text(ticks as int),
{
    let ghost before = out@;
    let magnitude: i128 = if ticks < 0 {
        out.append("-");
        -(ticks as i128)
    } else {
        ticks as i128
    };
    proof {
        reveal_strlit("");
    }
    let tenths: i128 = (magnitude + 150_000_000) / 300_000_000;
    text::push_decimal(out, (tenths / 10) as u64);
    if tenths % 10 != 0 {
        out.append(".");
        text::push_decimal(out, (tenths % 10) as u64);
    }
    assert(out@ =~= before + tenths_text(ticks as int));
}

fn reel_span(record: &MatchEventRecord) -> (shown: String)
    ensures
        shown@ == span_text(*record),
{
    let mut shown = String::new();
    shown.append("−");
    push_tenths(
        &mut shown,
        match record.reel_lead_in {
            Some(t) => t,
            None => REEL_LEAD_IN,
        },
    );
    shown.append(" s / +");
    push_tenths(
        &mut shown,
        match record.reel_tail {
            Some(t) => t,
            None => REEL_TAIL,
        },
    );
    shown.append(" s");
    assert(shown@ =~= span_text(*record));
    shown
}

fn row_label(record: &MatchEventRecord, configured: bool, roles: &Vec<PeriodRole>) -> (label: (
    String,
    bool,
))
    ensures
        (label.0@, label.1) == label_of(*record, configured, roles@),
{
    match record.kind {
        MatchEventKind::HomeGoal => ("Home goal".to_owned(), false),
        MatchEventKind::AwayGoal => ("Away goal".to_owned(), false),
        MatchEventKind::StartStop => {
            if !configured {
                return ("Start/stop".to_owned(), false);
            }
            match find_role(roles, record.id) {
                Some(i) => {
                    let mut label = roles[i].period.clone();
                    if roles[i].start {
                        label.append(" start");
                    } else {
                        label.append(" end");
                    }
                    (label, false)
                },
                None => ("Start/stop (no period)".to_owned(), true),
            }
        },
    }
}

/// Every tagged event in match order. `roles` are those the scoreboard gives
/// its starts and stops.
pub fn match_rows(project: &Project, roles: &Vec<PeriodRole>) -> (rows: Vec<MatchRowText>)
    ensures
        row_views(rows@) == rows_of(project, roles@),
{
    let order = ordered_events(project, None);
    let ghost all = rows_of(project, roles@);
    let mut rows: Vec<MatchRowText> = Vec::new();
    assert(row_views(rows@) =~= all.take(0));
    for i in 0..order.len()
        invariant
            order@ == reel::event_order(project, None, project.match_events@.len()),
            forall|k: int| 0 <= k < order@.len() ==> order@[k] < project.match_events@.len(),
            all == rows_of(project, roles@),
            row_views(rows@) == all.take(i as int),
    {
        let ghost before = row_views(rows@);
        let record = project.match_events[order[i]];
        let at = project.abs_seconds(record.source_index, record.source_time);
        let (label, role_less) = row_label(&record, project.scoreboard.is_some(), roles);
        let row = MatchRowText {
            id: record.id,
            kind: record.kind,
            abs: at,
            time: format_hms(at),
            label,
            role_less,
            reel_span: if record.kind.is_goal() {
                Some(reel_span(&record))
            } else {
                None
            },
        };
        let ghost view = row@;
        rows.push(row);
        proof {
            assert(view =~= row_of(project, roles@, order@[i as int]));
            assert(row_views(rows@) =~= before.push(view));
            assert(all.take(i + 1) =~= all.take(i as int).push(all[i as int]));
        }
    }
    assert(all.take(all.len() as int) =~= all);
    rows
}

/// **Every event has its row, and the rows are in match order**: one row for
/// each event, where it sits on the sources laid end to end, with a goal named
/// by its side and a start or stop by the period it begins or ends.
pub proof fn law_every_event_has_its_row(
    project: &Project,
    roles: Seq<PeriodRole>,
    starts: Seq<int>,
    g: int,
) -> (k: int)
    requires
        project.match_events@.len() <= usize::MAX,
        transport::start_at(project.source_videos@, starts),
        0 <= g < project.match_events@.len(),
        project.match_events@[g].source_index < project.source_videos@.len(),
    ensures
        0 <= k < rows_of(project, roles).len(),
        ({
            let record = project.match_events@[g];
            let rows = rows_of(project, roles);
            let row = rows[k];
            let at = starts[record.source_index as int] + record.source_time;
            &&& rows.len() == project.match_events@.len()
            &&& forall|a: int, b: int| 0 <= a < b < rows.len() ==> rows[a].abs <= rows[b].abs
            &&& row.id == record.id
            &&& row.kind == record.kind
            &&& row.abs == at
            &&& row.time == crate::format::hms(at)
            &&& record.kind is HomeGoal ==> row.label == "Home goal"@ && !row.role_less
            &&& record.kind is AwayGoal ==> row.label == "Away goal"@ && !row.role_less
            &&& record.kind is StartStop && project.scoreboard is None ==> row.label
                == "Start/stop"@ && !row.role_less
            &&& record.kind is StartStop && project.scoreboard is Some && (forall|r: int|
                0 <= r < roles.len() ==> (#[trigger] roles[r]).id != record.id) ==> row.label
                == "Start/stop (no period)"@ && row.role_less
            &&& row.reel_span is Some <==> record.kind is HomeGoal || record.kind is AwayGoal
        }),
        forall|r: int|
            #![trigger roles[r]]
            0 <= r < roles.len() && roles[r].id == project.match_events@[g].id
                && project.match_events@[g].kind is StartStop && project.scoreboard is Some
                && (forall|q: int| 0 <= q < r ==> (#[trigger] roles[q]).id != roles[r].id)
                ==> rows_of(project, roles)[k].label == roles[r].period@ + if roles[r].start {
                " start"@
            } else {
                " end"@
            } && !rows_of(project, roles)[k].role_less,
{
    let count = project.match_events@.len();
    let order = reel::event_order(project, None, count);
    let rows = rows_of(project, roles);
    let record = project.match_events@[g];
    reel::lemma_event_order(project, None, count);
    assert(order.contains(g as usize));
    let k = order.index_of(g as usize);
    transport::lemma_starts(project.source_videos@, starts, record.source_index as int);
    assert forall|a: int, b: int| 0 <= a < b < rows.len() implies rows[a].abs <= rows[b].abs by {
        assert(reel::precedes(project, order[a], order[b]));
    }
    lemma_role_is_the_first(roles, record.id);
    k
}

proof fn lemma_role_is_the_first(roles: Seq<PeriodRole>, id: Id)
    ensures
        forall|r: int|
            #![trigger roles[r]]
            0 <= r < roles.len() && roles[r].id == id && (forall|q: int|
                0 <= q < r ==> (#[trigger] roles[q]).id != id) ==> role_of(roles, id) == Some(
                roles[r],
            ),
        (forall|r: int| 0 <= r < roles.len() ==> (#[trigger] roles[r]).id != id) ==> role_of(
            roles,
            id,
        ) is None,
    decreases roles.len(),
{
    if roles.len() > 0 {
        let rest = roles.drop_first();
        lemma_role_is_the_first(rest, id);
        assert forall|r: int|
            #![trigger roles[r]]
            0 <= r < roles.len() && roles[r].id == id && (forall|q: int|
                0 <= q < r ==> (#[trigger] roles[q]).id != id) implies role_of(roles, id) == Some(
            roles[r],
        ) by {
            if r > 0 {
                assert(rest[r - 1] == roles[r]);
                assert(roles[0].id != id);
                assert forall|q: int| 0 <= q < r - 1 implies (#[trigger] rest[q]).id != id by {
                    assert(rest[q] == roles[q + 1]);
                }
            }
        }
        if forall|r: int| 0 <= r < roles.len() ==> (#[trigger] roles[r]).id != id {
            assert(roles[0].id != id);
            assert forall|r: int| 0 <= r < rest.len() implies (#[trigger] rest[r]).id != id by {
                assert(rest[r] == roles[r + 1]);
            }
        }
    }
}

// ---------------------------------------------------------------------------
// Chapters.

/// How near the playhead a chapter can be and still count as the one under it:
/// half a second. A seek lands on a frame, not on the tag's exact instant, so
/// a press there has to move on, not land again.
pub const CHAPTER_TOLERANCE: i128 = 1_500_000_000;

/// The first chapter far enough after a moment.
pub open spec fn next_after(rows: Seq<MatchRowView>, abs: int) -> Option<int>
    decreases rows.len(),
{
    if rows.len() == 0 {
        None
    } else if rows[0].abs > abs + CHAPTER_TOLERANCE {
        Some(rows[0].abs)
    } else {
        next_after(rows.drop_first(), abs)
    }
}

/// The last chapter far enough before a moment.
pub open spec fn last_before(rows: Seq<MatchRowView>, abs: int) -> Option<int>
    decreases rows.len(),
{
    if rows.len() == 0 {
        None
    } else if rows.last().abs < abs - CHAPTER_TOLERANCE {
        Some(rows.last().abs)
    } else {
        last_before(rows.drop_last(), abs)
    }
}

/// Where a step forward goes from `abs`: the first chapter more than
/// [`CHAPTER_TOLERANCE`] after it. `rows` are in match order.
pub fn next_chapter(abs: i128, rows: &Vec<MatchRowText>) -> (at: Option<i128>)
    requires
        abs <= i128::MAX - CHAPTER_TOLERANCE,
    ensures
        match at {
            Some(t) => next_after(row_views(rows@), abs as int) == Some(t as int),
            None => next_after(row_views(rows@), abs as int) is None,
        },
{
    let ghost all = row_views(rows@);
    assert(all.skip(0) =~= all);
    for i in 0..rows.len()
        invariant
            all == row_views(rows@),
            abs <= i128::MAX - CHAPTER_TOLERANCE,
            next_after(all, abs as int) == next_after(all.skip(i as int), abs as int),
    {
        assert(all[i as int] == rows@[i as int]@);
        if rows[i].abs > abs + CHAPTER_TOLERANCE {
            return Some(rows[i].abs);
        }
        assert(all.skip(i as int).drop_first() =~= all.skip(i + 1));
    }
    None
}

/// Where a step back goes from `abs`: the last chapter more than
/// [`CHAPTER_TOLERANCE`] before it.
pub fn previous_chapter(abs: i128, rows: &Vec<MatchRowText>) -> (at: Option<i128>)
    requires
        abs >= i128::MIN + CHAPTER_TOLERANCE,
    ensures
        match at {
            Some(t) => last_before(row_views(rows@), abs as int) == Some(t as int),
            None => last_before(row_views(rows@), abs as int) is None,
        },
{
    let ghost all = row_views(rows@);
    assert(all.take(all.len() as int) =~= all);
    let mut i: usize = rows.len();
    while i > 0
        invariant
            i <= rows@.len(),
            all == row_views(rows@),
            abs >= i128::MIN + CHAPTER_TOLERANCE,
            last_before(all, abs as int) == last_before(all.take(i as int), abs as int),
        decreases i,
    {
        assert(all[i - 1] == rows@[i - 1]@);
        assert(all.take(i as int).drop_last() =~= all.take(i - 1));
        if rows[i - 1].abs < abs - CHAPTER_TOLERANCE {
            return Some(rows[i - 1].abs);
        }
        i = i - 1;
    }
    None
}

/// **A chapter step always moves on**: it never lands on the chapter under the
/// playhead, and of rows in match order it takes the nearest one past it.
pub proof fn law_chapter_steps_move_on(rows: Seq<MatchRowView>, abs: int, i: int)
    requires
        forall|a: int, b: int| 0 <= a <= b < rows.len() ==> rows[a].abs <= rows[b].abs,
        0 <= i < rows.len(),
    ensures
        match next_after(rows, abs) {
            Some(at) => at > abs + 1_500_000_000 && (rows[i].abs > abs + 1_500_000_000 ==> at
                <= rows[i].abs) && exists|k: int|
                0 <= k < rows.len() && (#[trigger] rows[k]).abs == at,
            None => rows[i].abs <= abs + 1_500_000_000,
        },
        match last_before(rows, abs) {
            Some(at) => at < abs - 1_500_000_000 && (rows[i].abs < abs - 1_500_000_000 ==> at
                >= rows[i].abs) && exists|k: int|
                0 <= k < rows.len() && (#[trigger] rows[k]).abs == at,
            None => rows[i].abs >= abs - 1_500_000_000,
        },
    decreases rows.len(),
{
    assert(rows[0] == rows.first());
    assert(rows[rows.len() - 1] == rows.last());
    let rest = rows.drop_first();
    let before = rows.drop_last();
    if rows.len() > 1 {
        if i > 0 {
            assert(rest[i - 1] == rows[i]);
            law_chapter_steps_move_on(rest, abs, i - 1);
        } else {
            law_chapter_steps_move_on(rest, abs, 0);
        }
        if i < before.len() {
            assert(before[i] == rows[i]);
            law_chapter_steps_move_on(before, abs, i);
        } else {
            law_chapter_steps_move_on(before, abs, 0);
        }
        if let Some(at) = next_after(rest, abs) {
            let k = choose|k: int| 0 <= k < rest.len() && (#[trigger] rest[k]).abs == at;
            assert(rows[k + 1] == rest[k]);
        }
        if let Some(at) = last_before(before, abs) {
            let k = choose|k: int| 0 <= k < before.len() && (#[trigger] before[k]).abs == at;
            assert(rows[k] == before[k]);
        }
    } else {
        assert(next_after(rest, abs) is None);
        assert(last_before(before, abs) is None);
    }
}

// ---------------------------------------------------------------------------
// The live line.

/// What the scoreboard shows at one moment.
#[derive(Debug, PartialEq, Eq)]
pub struct ScoreboardState {
    pub home_score: u32,
    pub away_score: u32,
    /// What the clock cell reads.
    pub clock_main: String,
    /// The stoppage tail beside it; empty for none.
    pub clock_trailing: String,
}

/// The panel's live line.
pub open spec fn score_text(config: ScoreboardConfig, state: Option<&ScoreboardState>) -> Seq<
    char,
> {
    match state {
        Some(s) => config.home.name@ + " "@ + text::decimal(s.home_score as nat) + " – "@
            + text::decimal(s.away_score as nat) + " "@ + config.away.name@,
        None => config.home.name@ + " – "@ + config.away.name@,
    }
}

/// The panel's live line: the score once the match has started, and the two
/// names before it.
pub fn score_line(config: &ScoreboardConfig, state: Option<&ScoreboardState>) -> (line: String)
    ensures
        line@ == score_text(*config, state),
{
    let mut line = String::new();
    line.append(config.home.name.as_str());
    match state {
        Some(s) => {
            line.append(" ");
            text::push_decimal(&mut line, s.home_score as u64);
            line.append(" – ");
            text::push_decimal(&mut line, s.away_score as u64);
            line.append(" ");
        },
        None => {
            line.append(" – ");
        },
    }
    line.append(config.away.name.as_str());
    assert(line@ =~= score_text(*config, state));
    line
}

/// The panel's clock: what the scoreboard's clock cell reads, with the
/// stoppage tail beside it, and a dash before the match has started.
pub fn clock_text(state: Option<&ScoreboardState>) -> (shown: String)
    ensures
        shown@ == (match state {
            None => "–"@,
            Some(s) => if s.clock_trailing@.len() == 0 {
                s.clock_main@
            } else {
                s.clock_main@ + " "@ + s.clock_trailing@
            },
        }),
{
    match state {
        None => "–".to_owned(),
        Some(s) => {
            let mut shown = s.clock_main.clone();
            if !s.clock_trailing.as_str().is_empty() {
                shown.append(" ");
                shown.append(s.clock_trailing.as_str());
            }
            shown
        },
    }
}

// ---------------------------------------------------------------------------
// The cap.

/// How many starts and stops are tagged.
pub open spec fn start_stops(events: Seq<MatchEventRecord>) -> nat
    decreases events.len(),
{
    if events.len() == 0 {
        0
    } else {
        start_stops(events.drop_last()) + if events.last().kind is StartStop {
            1nat
        } else {
            0
        }
    }
}

/// How many starts and stops are tagged.
pub fn start_stop_count(project: &Project) -> (count: usize)
    ensures
        count == start_stops(project.match_events@),
{
    let mut count: usize = 0;
    for i in 0..project.match_events.len()
        invariant
            count == start_stops(project.match_events@.take(i as int)),
            count <= i,
    {
        assert(project.match_events@.take(i + 1).drop_last()
            =~= project.match_events@.take(i as int));
        if project.match_events[i].kind == MatchEventKind::StartStop {
            count = count + 1;
        }
    }
    assert(project.match_events@.take(project.match_events@.len() as int)
        =~= project.match_events@);
    count
}

/// How many starts and stops a format has a place for: two in each period, of
/// which the back-computed start takes one.
pub open spec fn places(total_periods: nat, back_anchor: bool) -> nat {
    if back_anchor && total_periods > 0 {
        (2 * total_periods - 1) as nat
    } else {
        2 * total_periods
    }
}

/// How many tagged starts and stops a format has no period for.
pub open spec fn past_the_cap(tagged: nat, total_periods: nat, back_anchor: bool) -> nat {
    let places = places(total_periods, back_anchor);
    if tagged <= places {
        0
    } else {
        (tagged - places) as nat
    }
}

/// How many tagged starts and stops a format of `total_periods` has no period
/// for. `back_anchor` is the sheet's flag as it currently stands: the derived
/// start takes a period's place.
pub fn over_cap(project: &Project, total_periods: u32, back_anchor: bool) -> (over: usize)
    ensures
        over == past_the_cap(
            start_stops(project.match_events@),
            total_periods as nat,
            back_anchor,
        ),
{
    let tagged: usize = start_stop_count(project);
    let mut places: u64 = 2 * total_periods as u64;
    if back_anchor && places > 0 {
        places = places - 1;
    }
    if tagged as u64 <= places {
        0
    } else {
        tagged - places as usize
    }
}

/// What the setup sheet says of starts and stops that have no period.
pub open spec fn cap_text(over: nat) -> Seq<char> {
    if over == 0 {
        ""@
    } else if over == 1 {
        "1 tagged start/stop has no period in this format. It is kept, but the scoreboard ignores it until there is a period for it."@
    } else {
        text::decimal(over)
            + " tagged start/stops have no period in this format. They are kept, but the scoreboard ignores them until there are periods for them."@
    }
}

/// The setup sheet's warning for starts and stops the format being typed has
/// no period for; empty when there are none. The records are never dropped, so
/// this is a warning, not a refusal.
pub fn over_cap_warning(project: &Project, total_periods: u32, back_anchor: bool) -> (warning:
    String)
    ensures
        ({
            let over = past_the_cap(
                start_stops(project.match_events@),
                total_periods as nat,
                back_anchor,
            );
            warning@ == cap_text(over)
        }),
{
    let over = over_cap(project, total_periods, back_anchor);
    let mut warning = String::new();
    proof {
        reveal_strlit("");
    }
    if over == 1 {
        warning.append(
            "1 tagged start/stop has no period in this format. It is kept, but the scoreboard ignores it until there is a period for it.",
        );
    } else if over > 1 {
        text::push_decimal(&mut warning, over as u64);
        warning.append(
            " tagged start/stops have no period in this format. They are kept, but the scoreboard ignores them until there are periods for them.",
        );
    }
    assert(warning@ =~= cap_text(over as nat));
    warning
}

/// **What has no period is what two a period leave over**: a format of `n`
/// periods has a place for `2 * n` starts and stops, one fewer where the first
/// start is computed back, and each one tagged past that has none.
pub proof fn law_what_has_no_period_is_left_over(
    events: Seq<MatchEventRecord>,
    total_periods: nat,
    back_anchor: bool,
)
    ensures
        ({
            let tagged = events.filter(|e: MatchEventRecord| e.kind == MatchEventKind::StartStop).len();
            let over = past_the_cap(start_stops(events), total_periods, back_anchor);
            &&& !back_anchor && tagged >= 2 * total_periods ==> over == tagged - 2 * total_periods
            &&& !back_anchor && tagged < 2 * total_periods ==> over == 0
            &&& back_anchor && total_periods > 0 && tagged >= 2 * total_periods - 1 ==> over
                == tagged - 2 * total_periods + 1
            &&& back_anchor && total_periods > 0 && tagged < 2 * total_periods - 1 ==> over == 0
            &&& total_periods == 0 ==> over == tagged
        }),
{
    lemma_start_stops_are_counted(events);
}

/// The count of the starts and stops is that of the events that are one.
pub proof fn lemma_start_stops_are_counted(events: Seq<MatchEventRecord>)
    ensures
        start_stops(events) == events.filter(|e: MatchEventRecord| e.kind == MatchEventKind::StartStop).len(),
    decreases events.len(),
{
    reveal(Seq::filter);
    if events.len() > 0 {
        lemma_start_stops_are_counted(events.drop_last());
    }
}

// ---------------------------------------------------------------------------
// The setup sheet.

/// Opaque white.
pub fn white() -> (color: Rgba)
    ensures
        color == (Rgba { r: CHANNEL_ONE, g: CHANNEL_ONE, b: CHANNEL_ONE, a: CHANNEL_ONE }),
{
    Rgba { r: CHANNEL_ONE, g: CHANNEL_ONE, b: CHANNEL_ONE, a: CHANNEL_ONE }
}

/// What the setup sheet starts from when the project has no scoreboard yet: no
/// names, a colour each and white lettering, and the default format.
pub fn blank_config() -> (config: ScoreboardConfig)
    ensures
        config.home.name@.len() == 0,
        config.home.primary_color == (Rgba { r: 3_060, g: 7_905, b: 21_675, a: CHANNEL_ONE }),
        config.home.secondary_color == (Rgba { r: CHANNEL_ONE, g: CHANNEL_ONE, b: CHANNEL_ONE, a: CHANNEL_ONE }),
        config.home.font_color == (Rgba { r: CHANNEL_ONE, g: CHANNEL_ONE, b: CHANNEL_ONE, a: CHANNEL_ONE }),
        config.away.name@.len() == 0,
        config.away.primary_color == (Rgba { r: 19_890, g: 4_335, b: 2_805, a: CHANNEL_ONE }),
        config.away.secondary_color == (Rgba { r: CHANNEL_ONE, g: CHANNEL_ONE, b: CHANNEL_ONE, a: CHANNEL_ONE }),
        config.away.font_color == (Rgba { r: CHANNEL_ONE, g: CHANNEL_ONE, b: CHANNEL_ONE, a: CHANNEL_ONE }),
        config.format == (MatchFormat {
            regulation_periods: 2,
            regulation_period_seconds: 2700,
            overtime_periods: 0,
            overtime_period_seconds: 900,
        }),
        !config.auto_back_anchor_p1,
{
    ScoreboardConfig {
        home: TeamConfig::new(
            String::new(),
            Rgba { r: 3_060, g: 7_905, b: 21_675, a: CHANNEL_ONE },
            white(),
        ),
        away: TeamConfig::new(
            String::new(),
            Rgba { r: 19_890, g: 4_335, b: 2_805, a: CHANNEL_ONE },
            white(),
        ),
        format: MatchFormat::default(),
        auto_back_anchor_p1: false,
    }
}

/// A channel rounded to a byte.
pub open spec fn channel_byte(channel: i32) -> int {
    if channel <= 0 {
        0
    } else if channel >= CHANNEL_ONE {
        255
    } else {
        (channel + 50) / 100
    }
}

/// A byte as two hexadecimal digits.
pub open spec fn hex_byte(byte: int) -> Seq<char> {
    seq![id::hex_digit(byte / 16), id::hex_digit(byte % 16)]
}

/// A colour as `#rrggbb`.
pub open spec fn hex_text(color: Rgba) -> Seq<char> {
    seq!['#'] + hex_byte(channel_byte(color.r)) + hex_byte(channel_byte(color.g)) + hex_byte(
        channel_byte(color.b),
    )
}

fn hex_digit_char(d: i32) -> (c: char)
    requires
        0 <= d < 16,
    ensures
        c == id::hex_digit(d as int),
{
    match d {
        0 => '0',
        1 => '1',
        2 => '2',
        3 => '3',
        4 => '4',
        5 => '5',
        6 => '6',
        7 => '7',
        8 => '8',
        9 => '9',
        10 => 'a',
        11 => 'b',
        12 => 'c',
        13 => 'd',
        14 => 'e',
        _ => 'f',
    }
}

fn push_hex_byte(out: &mut String, channel: i32)
    ensures
        final(out)@ == old(out)@ + hex_byte(channel_byte(channel)),
{
    let byte: i32 = if channel <= 0 {
        0
    } else if channel >= 25_500 {
        255
    } else {
        (channel + 50) / 100
    };
    out.push(hex_digit_char(byte / 16));
    out.push(hex_digit_char(byte % 16));
    assert(out@ =~= old(out)@ + hex_byte(channel_byte(channel)));
}

/// A team colour as the setup sheet's field shows it. Opaque: alpha is not
/// editable. A colour that goes out to a field and back is rounded to 8 bits a
/// channel.
pub fn hex(color: Rgba) -> (shown: String)
    ensures
        shown@ == hex_text(color),
{
    let mut shown = String::new();
    shown.push('#');
    push_hex_byte(&mut shown, color.r);
    push_hex_byte(&mut shown, color.g);
    push_hex_byte(&mut shown, color.b);
    assert(shown@ =~= hex_text(color));
    shown
}

/// The value of a hexadecimal digit, of either case.
pub open spec fn hex_value(c: char) -> Option<int> {
    if '0' <= c <= '9' {
        Some(c as int - '0' as int)
    } else if 'a' <= c <= 'f' {
        Some(c as int - 'a' as int + 10)
    } else if 'A' <= c <= 'F' {
        Some(c as int - 'A' as int + 10)
    } else {
        None
    }
}

/// The six digits of a colour field: its text trimmed, without its hash.
pub open spec fn color_digits(s: Seq<char>) -> Seq<char> {
    let t = text::trimmed(s);
    if t.len() > 0 && t[0] == '#' {
        t.skip(1)
    } else {
        t.skip(0)
    }
}

/// Whether a text is six hexadecimal digits.
pub open spec fn six_digits(d: Seq<char>) -> bool {
    d.len() == 6 && forall|i: int| 0 <= i < 6 ==> hex_value(#[trigger] d[i]) is Some
}

/// The channel that two hexadecimal digits write.
pub open spec fn channel_at(d: Seq<char>, i: int) -> int {
    (hex_value(d[i])->0 * 16 + hex_value(d[i + 1])->0) * 100
}

/// The colour a field holds, if it holds one.
pub open spec fn color_in(s: Seq<char>) -> Option<Rgba> {
    let d = color_digits(s);
    if six_digits(d) {
        Some(
            Rgba {
                r: channel_at(d, 0) as i32,
                g: channel_at(d, 2) as i32,
                b: channel_at(d, 4) as i32,
                a: CHANNEL_ONE,
            },
        )
    } else {
        None
    }
}

fn digit_value(c: char) -> (v: Option<i32>)
    ensures
        match v {
            Some(n) => hex_value(c) == Some(n as int) && 0 <= n < 16,
            None => hex_value(c) is None,
        },
{
    if '0' <= c && c <= '9' {
        Some((c as u32 - '0' as u32) as i32)
    } else if 'a' <= c && c <= 'f' {
        Some((c as u32 - 'a' as u32) as i32 + 10)
    } else if 'A' <= c && c <= 'F' {
        Some((c as u32 - 'A' as u32) as i32 + 10)
    } else {
        None
    }
}

/// `#RRGGBB` (or bare `RRGGBB`) back to a colour; `None` for anything else.
pub fn parse_hex(s: &str) -> (color: Option<Rgba>)
    ensures
        color == color_in(s@),
{
    let trimmed = text::trim(s);
    let chars = text::chars_of(trimmed.as_str());
    let from: usize = if chars.len() > 0 && chars[0] == '#' {
        1
    } else {
        0
    };
    let ghost d = color_digits(s@);
    if chars.len() - from != 6 {
        return None;
    }
    let mut values: Vec<i32> = Vec::new();
    for i in 0..6
        invariant
            from <= 1,
            chars@.len() == from + 6,
            chars@ == text::trimmed(s@),
            d == color_digits(s@),
            d == chars@.skip(from as int),
            values@.len() == i,
            forall|k: int|
                0 <= k < i ==> hex_value(#[trigger] d[k]) == Some(values@[k] as int) && 0
                    <= values@[k] < 16,
    {
        assert(d[i as int] == chars@[from + i]);
        match digit_value(chars[from + i]) {
            Some(v) => {
                values.push(v);
            },
            None => {
                assert(hex_value(d[i as int]) is None);
                return None;
            },
        }
    }
    assert(hex_value(d[0]) == Some(values@[0] as int));
    assert(hex_value(d[1]) == Some(values@[1] as int));
    assert(hex_value(d[2]) == Some(values@[2] as int));
    assert(hex_value(d[3]) == Some(values@[3] as int));
    assert(hex_value(d[4]) == Some(values@[4] as int));
    assert(hex_value(d[5]) == Some(values@[5] as int));
    Some(
        Rgba {
            r: (values[0] * 16 + values[1]) * 100,
            g: (values[2] * 16 + values[3]) * 100,
            b: (values[4] * 16 + values[5]) * 100,
            a: CHANNEL_ONE,
        },
    )
}

/// A colour rounded to 8 bits a channel, opaque.
pub open spec fn rounded(color: Rgba) -> Rgba {
    Rgba {
        r: (channel_byte(color.r) * 100) as i32,
        g: (channel_byte(color.g) * 100) as i32,
        b: (channel_byte(color.b) * 100) as i32,
        a: CHANNEL_ONE,
    }
}

proof fn lemma_hex_digit_reads_back(d: int)
    requires
        0 <= d < 16,
    ensures
        hex_value(id::hex_digit(d)) == Some(d),
        !text::white_space(id::hex_digit(d)),
{
}

/// **A colour survives its field**: what a field shows is read back as that
/// colour rounded to 8 bits a channel, and a colour of 8 bits a channel as
/// itself.
pub proof fn law_colours_round_trip_through_their_field(color: Rgba)
    ensures
        color_in(hex_text(color)) == Some(rounded(color)),
        hex_text(rounded(color)) == hex_text(color),
{
    let t = hex_text(color);
    let r = channel_byte(color.r);
    let g = channel_byte(color.g);
    let b = channel_byte(color.b);
    lemma_hex_digit_reads_back(r / 16);
    lemma_hex_digit_reads_back(r % 16);
    lemma_hex_digit_reads_back(g / 16);
    lemma_hex_digit_reads_back(g % 16);
    lemma_hex_digit_reads_back(b / 16);
    lemma_hex_digit_reads_back(b % 16);
    assert(t.len() == 7);
    assert(t[0] == '#');
    assert(t.last() == id::hex_digit(b % 16));
    assert(text::trimmed(t) == t);
    let d = color_digits(t);
    assert(d =~= t.skip(1));
    assert(d[0] == id::hex_digit(r / 16));
    assert(d[1] == id::hex_digit(r % 16));
    assert(d[2] == id::hex_digit(g / 16));
    assert(d[3] == id::hex_digit(g % 16));
    assert(d[4] == id::hex_digit(b / 16));
    assert(d[5] == id::hex_digit(b % 16));
    assert(six_digits(d));
}

// The setup sheet's numeric fields, one function each, so a range is written
// once: the sheet's "this field is good" mark and the parse that builds the
// config call the same one and can't drift apart.

/// The count a field holds, if it is a plain number in range.
pub open spec fn count_in(s: Seq<char>, min: u32, max: u32) -> Option<u32> {
    match text::number_in(text::trimmed(s)) {
        Some(n) => if min <= n <= max {
            Some(n as u32)
        } else {
            None
        },
        None => None,
    }
}

/// Regulation periods: a match has at least one.
pub fn parse_periods(s: &str) -> (n: Option<u32>)
    ensures
        n == count_in(s@, 1, 10),
{
    parse_count(s, 1, 10)
}

/// Overtime periods, which unlike regulation ones may be none at all.
pub fn parse_overtime_periods(s: &str) -> (n: Option<u32>)
    ensures
        n == count_in(s@, 0, 10),
{
    parse_count(s, 0, 10)
}

/// A period's length in whole minutes, regulation or overtime.
pub fn parse_minutes(s: &str) -> (n: Option<u32>)
    ensures
        n == count_in(s@, 1, 180),
{
    parse_count(s, 1, 180)
}

/// A plain number in a range.
pub fn parse_count(s: &str, min: u32, max: u32) -> (n: Option<u32>)
    ensures
        n == count_in(s@, min, max),
{
    let trimmed = text::trim(s);
    match text::parse_u32(trimmed.as_str()) {
        Some(n) => if min <= n && n <= max {
            Some(n)
        } else {
            None
        },
        None => None,
    }
}

/// **A count is taken in its range alone**: a number written plainly is read if
/// it lies in the range, blanks around it or not, and nothing else is.
pub proof fn law_a_count_is_taken_in_its_range(s: Seq<char>, n: u32, min: u32, max: u32)
    ensures
        text::trimmed(s) == text::decimal(n as nat) ==> count_in(s, min, max) == if min <= n
            && n <= max {
            Some(n)
        } else {
            None
        },
        count_in(s, min, max) matches Some(read) ==> min <= read <= max && text::number_in(
            text::trimmed(s),
        ) == Some(read as nat),
{
    if text::trimmed(s) == text::decimal(n as nat) {
        let t = text::decimal(n as nat);
        text::lemma_decimal_reads_back(n as nat);
        assert(text::is_digit(t[0]));
        assert(text::unsigned(t) =~= t);
    }
}

/// **A colour is six digits**: two for each channel, a hash before them or
/// not, and of either case; nothing else is one.
pub proof fn law_a_colour_is_six_digits(s: Seq<char>, d: Seq<char>)
    requires
        text::trimmed(s) == d || text::trimmed(s) == seq!['#'] + d,
        d.len() > 0 ==> d[0] != '#',
    ensures
        color_in(s) is Some <==> d.len() == 6 && forall|i: int|
            0 <= i < 6 ==> ('0' <= #[trigger] d[i] <= '9' || 'a' <= d[i] <= 'f' || 'A' <= d[i]
                <= 'F'),
        color_in(s) matches Some(color) ==> {
            &&& color.a == 25_500
            &&& color.r == 100 * (16 * hex_value(d[0])->0 + hex_value(d[1])->0)
            &&& color.g == 100 * (16 * hex_value(d[2])->0 + hex_value(d[3])->0)
            &&& color.b == 100 * (16 * hex_value(d[4])->0 + hex_value(d[5])->0)
        },
{
    let t = text::trimmed(s);
    assert(color_digits(s) =~= d);
    if d.len() == 6 && forall|i: int|
        0 <= i < 6 ==> ('0' <= #[trigger] d[i] <= '9' || 'a' <= d[i] <= 'f' || 'A' <= d[i] <= 'F') {
        assert(six_digits(d));
    }
    if six_digits(d) {
        assert forall|i: int| 0 <= i < 6 implies ('0' <= #[trigger] d[i] <= '9' || 'a' <= d[i]
            <= 'f' || 'A' <= d[i] <= 'F') by {
            assert(hex_value(d[i]) is Some);
        }
        assert(hex_value(d[0]) is Some && hex_value(d[1]) is Some && hex_value(d[2]) is Some);
        assert(hex_value(d[3]) is Some && hex_value(d[4]) is Some && hex_value(d[5]) is Some);
    }
}

/// **A length is shown to the nearest tenth**, and without one where that is
/// whole.
pub proof fn law_a_length_is_shown_to_the_tenth(seconds: nat, tenth: nat, rest: int)
    requires
        tenth < 10,
        -150_000_000 <= rest < 150_000_000,
        (10 * seconds + tenth) * 300_000_000 + rest >= 0,
    ensures
        ({
            let shown = tenths_text((10 * seconds + tenth) * 300_000_000 + rest);
            &&& tenth == 0 ==> shown == text::decimal(seconds)
            &&& tenth > 0 ==> shown == text::decimal(seconds) + "."@ + seq![
                text::digit(tenth as int),
            ]
        }),
{
    reveal_strlit("");
    let ticks = (10 * seconds + tenth) * 300_000_000 + rest;
    assert((ticks + 150_000_000) / 300_000_000 == 10 * seconds + tenth);
    assert((10 * seconds + tenth) / 10 == seconds);
    assert((10 * seconds + tenth) % 10 == tenth as int);
    let shown = tenths_text(ticks);
    if tenth == 0 {
        assert(shown =~= text::decimal(seconds));
    } else {
        assert(shown =~= text::decimal(seconds) + "."@ + seq![text::digit(tenth as int)]);
    }
}

/// **A goal's span is shown as it is trimmed**, 30 s before it and 6 s after
/// where it is not.
pub proof fn law_a_goal_s_span_is_shown_as_trimmed(record: MatchEventRecord)
    ensures
        ({
            let before = match record.reel_lead_in {
                Some(t) => t as int,
                None => 90_000_000_000,
            };
            let after = match record.reel_tail {
                Some(t) => t as int,
                None => 18_000_000_000,
            };
            span_text(record) == "−"@ + tenths_text(before) + " s / +"@ + tenths_text(after)
                + " s"@
        }),
{
}

/// **The setup sheet warns only of what has no period**: nothing where every
/// start and stop has one, and their number where not.
pub proof fn law_the_sheet_warns_of_what_has_no_period(
    project: &Project,
    total_periods: u32,
    back_anchor: bool,
    over: usize,
    warning: String,
)
    requires
        call_ensures(over_cap, (project, total_periods, back_anchor), over),
        call_ensures(over_cap_warning, (project, total_periods, back_anchor), warning),
        total_periods > 0,
    ensures
        ({
            let tagged = project.match_events@.filter(
                |e: MatchEventRecord| e.kind == MatchEventKind::StartStop,
            ).len();
            let places = 2 * total_periods - if back_anchor {
                1int
            } else {
                0
            };
            &&& tagged <= places ==> over == 0 && warning@.len() == 0
            &&& tagged > places ==> over == tagged - places && warning@.len() > 0
            &&& over > 1 ==> warning@ == text::decimal(over as nat)
                + " tagged start/stops have no period in this format. They are kept, but the scoreboard ignores them until there are periods for them."@
        }),
{
    lemma_start_stops_are_counted(project.match_events@);
    reveal_strlit("");
    reveal_strlit(
        "1 tagged start/stop has no period in this format. It is kept, but the scoreboard ignores it until there is a period for it.",
    );
    reveal_strlit(
        " tagged start/stops have no period in this format. They are kept, but the scoreboard ignores them until there are periods for them.",
    );
}

/// **A chapter step goes to the nearest chapter past the one under the
/// playhead**, and nowhere if there is none.
pub proof fn law_a_chapter_step_goes_to_the_nearest(
    abs: i128,
    rows: &Vec<MatchRowText>,
    next: Option<i128>,
    previous: Option<i128>,
    i: int,
)
    requires
        call_ensures(next_chapter, (abs, rows), next),
        call_ensures(previous_chapter, (abs, rows), previous),
        forall|a: int, b: int| 0 <= a <= b < rows@.len() ==> rows@[a].abs <= rows@[b].abs,
        0 <= i < rows@.len(),
    ensures
        next matches Some(at) ==> at > abs + 1_500_000_000 && exists|k: int|
            0 <= k < rows@.len() && (#[trigger] rows@[k]).abs == at,
        rows@[i].abs > abs + 1_500_000_000 ==> next is Some && next->0 <= rows@[i].abs,
        previous matches Some(at) ==> at < abs - 1_500_000_000 && exists|k: int|
            0 <= k < rows@.len() && (#[trigger] rows@[k]).abs == at,
        rows@[i].abs < abs - 1_500_000_000 ==> previous is Some && previous->0 >= rows@[i].abs,
{
    let all = row_views(rows@);
    assert forall|k: int| 0 <= k < all.len() implies #[trigger] all[k] == rows@[k]@ by {}
    law_chapter_steps_move_on(all, abs as int, i);
    if let Some(at) = next {
        let k = choose|k: int| 0 <= k < all.len() && (#[trigger] all[k]).abs == at;
        assert(rows@[k].abs == at);
    }
    if let Some(at) = previous {
        let k = choose|k: int| 0 <= k < all.len() && (#[trigger] all[k]).abs == at;
        assert(rows@[k].abs == at);
    }
}

} // verus!
