//! What an export sheet offers, and what a run of it needs before it starts.

use vstd::prelude::*;

use crate::export;
use crate::export::{compilation_schedule, Compilation};
use crate::export_run;
use crate::export_run::{
    clip_label, de_duplicate, find_clip, label, ActiveRun, ExportTargetRun, TargetState,
};
use crate::id::Id;
use crate::plan;
use crate::plan::{compilation_plan, ExportTarget, PlanEntry, PlanEntryView, Score};
use crate::project::{Preferences, Project, Quality, Resolution};
use crate::reel;
use crate::reel::{reel_goals, ReelSide};
use crate::text;
use crate::user_error;
use crate::user_error::UserError;

verus! {

// ---------------------------------------------------------------------------
// The sheet.

/// One row of the export sheet's target list.
#[derive(Debug, PartialEq, Eq)]
pub struct ExportTargetRow {
    pub target: ExportTarget,
    /// What the sheet calls it, and what names its file.
    pub label: String,
    /// What its row counts: the clips it covers, or the reel's goals, which
    /// are not its entries, since two goals close together share one.
    pub count: usize,
    /// What `count` counts, singular: `"clip"` or `"goal"`.
    pub unit: &'static str,
    /// How long its output runs, in frames.
    pub frames: u64,
}

/// What an [`ExportTargetRow`] holds, as mathematical values.
#[verifier::ext_equal]
pub struct RowView {
    pub target: ExportTarget,
    pub label: Seq<char>,
    pub count: nat,
    pub unit: Seq<char>,
    pub frames: nat,
}

impl View for ExportTargetRow {
    type V = RowView;

    open spec fn view(&self) -> RowView {
        RowView {
            target: self.target,
            label: self.label@,
            count: self.count as nat,
            unit: self.unit@,
            frames: self.frames as nat,
        }
    }
}

/// What each row of a sheet holds.
pub open spec fn row_views(rows: Seq<ExportTargetRow>) -> Seq<RowView> {
    rows.map_values(|r: ExportTargetRow| r@)
}

/// A target's row: none where there is nothing to export in it.
pub open spec fn row_of(
    project: &Project,
    target: ExportTarget,
    label: Seq<char>,
    scores: Seq<Option<Score>>,
) -> Seq<RowView> {
    let entries = plan::planned(project, target, scores);
    if entries.len() == 0 {
        seq![]
    } else {
        seq![
            RowView {
                target,
                label,
                count: match target {
                    ExportTarget::Reel(side) => reel::goals_of(project, side).len(),
                    _ => entries.len(),
                },
                unit: if target is Reel {
                    "goal"@
                } else {
                    "clip"@
                },
                frames: plan::end_frame(entries),
            },
        ]
    }
}

/// The rows of a run of tags.
pub open spec fn tag_rows(project: &Project, tags: Seq<String>, scores: Seq<Option<Score>>) -> Seq<
    RowView,
>
    decreases tags.len(),
{
    if tags.len() == 0 {
        seq![]
    } else {
        tag_rows(project, tags.drop_last(), scores) + row_of(
            project,
            ExportTarget::Tag(tags.last()),
            tags.last()@,
            scores,
        )
    }
}

/// The row of the selected clip, where one is.
pub open spec fn selected_row(
    project: &Project,
    selected: Option<Id>,
    scores: Seq<Option<Score>>,
) -> Seq<RowView> {
    match selected {
        Some(id) => match export_run::clip_index(project.clips@, id) {
            Some(i) => row_of(
                project,
                ExportTarget::Clip(project.clips@[i].id),
                export_run::called(project.clips@[i]),
                scores,
            ),
            None => seq![],
        },
        None => seq![],
    }
}

/// The whole sheet: all clips, one row per tag, all goals, then the selected
/// clip. A project's game videos are no target of their own.
pub open spec fn sheet_of(
    project: &Project,
    tags: Seq<String>,
    selected: Option<Id>,
    scores: Seq<Option<Score>>,
) -> Seq<RowView> {
    row_of(project, ExportTarget::AllClips, "All clips"@, scores) + tag_rows(project, tags, scores)
        + row_of(project, ExportTarget::Reel(ReelSide::All), "All goals"@, scores) + selected_row(
        project,
        selected,
        scores,
    )
}

/// **A sheet offers only what there is**: without a clip, the goals' row is its
/// only one, and without a goal either it is empty, whatever videos the project
/// has.
pub proof fn law_a_sheet_offers_only_what_there_is(
    project: &Project,
    tags: Seq<String>,
    selected: Option<Id>,
    scores: Seq<Option<Score>>,
)
    requires
        project.clips@.len() == 0,
    ensures
        sheet_of(project, tags, selected, scores) == row_of(
            project,
            ExportTarget::Reel(ReelSide::All),
            "All goals"@,
            scores,
        ),
        reel::goals_of(project, ReelSide::All).len() == 0 ==> sheet_of(
            project,
            tags,
            selected,
            scores,
        ).len() == 0,
{
    lemma_no_clips_no_row(project, ExportTarget::AllClips, "All clips"@, scores);
    lemma_no_clips_no_tag_rows(project, tags, scores);
    let goals = row_of(project, ExportTarget::Reel(ReelSide::All), "All goals"@, scores);
    assert(sheet_of(project, tags, selected, scores) =~= goals);
}

proof fn lemma_no_clips_no_row(
    project: &Project,
    target: ExportTarget,
    label: Seq<char>,
    scores: Seq<Option<Score>>,
)
    requires
        project.clips@.len() == 0,
        target !is Reel,
    ensures
        row_of(project, target, label, scores).len() == 0,
{
    reveal(Seq::filter);
    assert(plan::selected(project, target).len() == 0);
}

proof fn lemma_no_clips_no_tag_rows(
    project: &Project,
    tags: Seq<String>,
    scores: Seq<Option<Score>>,
)
    requires
        project.clips@.len() == 0,
    ensures
        tag_rows(project, tags, scores).len() == 0,
    decreases tags.len(),
{
    if tags.len() > 0 {
        lemma_no_clips_no_tag_rows(project, tags.drop_last(), scores);
        lemma_no_clips_no_row(
            project,
            ExportTarget::Tag(tags.last()),
            tags.last()@,
            scores,
        );
    }
}

/// Appends a target's row, unless there is nothing to export in it.
fn push_row(
    rows: &mut Vec<ExportTargetRow>,
    project: &Project,
    target: ExportTarget,
    label: String,
    scores: &Vec<Option<Score>>,
)
    requires
        plan::plannable(project),
    ensures
        row_views(final(rows)@) == row_views(old(rows)@) + row_of(
            project,
            target,
            label@,
            scores@,
        ),
{
    let plan = compilation_plan(project, &target, scores);
    let ghost before = rows@;
    let ghost entries = plan::planned(project, target, scores@);
    proof {
        plan::lemma_planned(project, target, scores@);
        assert(plan::views(plan.entries@).len() == plan.entries@.len());
    }
    if plan.entries.len() == 0 {
        assert(row_views(rows@) =~= row_views(before) + row_of(
            project,
            target,
            label@,
            scores@,
        ));
        return;
    }
    let frames = plan.total_frames();
    let entry_count: usize = plan.entries.len();
    let (count, unit): (usize, &'static str) = match &target {
        ExportTarget::Reel(side) => (reel_goals(project, *side).len(), "goal"),
        _ => (entry_count, "clip"),
    };
    let row = ExportTargetRow { target, label, count, unit, frames };
    let ghost view = row@;
    rows.push(row);
    assert(row_views(rows@) =~= row_views(before).push(view));
    assert(row_of(project, target, label@, scores@) =~= seq![view]);
}

/// The sheet's targets. `tags` are the project's tags, in the order the sheet
/// lists them.
///
/// A target with nothing to export is left out, which is also what keeps an
/// empty project's sheet empty, and the reel's row away until there is a goal.
pub fn export_targets(
    project: &Project,
    tags: &Vec<String>,
    selected: Option<Id>,
    scores: &Vec<Option<Score>>,
) -> (rows: Vec<ExportTargetRow>)
    requires
        plan::plannable(project),
    ensures
        row_views(rows@) == sheet_of(project, tags@, selected, scores@),
{
    let mut rows: Vec<ExportTargetRow> = Vec::new();
    push_row(&mut rows, project, ExportTarget::AllClips, "All clips".to_owned(), scores);
    let ghost all_clips = row_of(project, ExportTarget::AllClips, "All clips"@, scores@);
    assert(row_views(rows@) =~= all_clips + tag_rows(project, tags@.take(0), scores@));
    for i in 0..tags.len()
        invariant
            plan::plannable(project),
            row_views(rows@) == all_clips + tag_rows(project, tags@.take(i as int), scores@),
    {
        let ghost before = row_views(rows@);
        assert(tags@.take(i + 1).drop_last() =~= tags@.take(i as int));
        push_row(&mut rows, project, ExportTarget::Tag(tags[i].clone()), tags[i].clone(), scores);
        assert(row_views(rows@) =~= all_clips + tag_rows(project, tags@.take(i + 1), scores@));
    }
    assert(tags@.take(tags@.len() as int) =~= tags@);
    push_row(
        &mut rows,
        project,
        ExportTarget::Reel(ReelSide::All),
        "All goals".to_owned(),
        scores,
    );
    if let Some(id) = selected {
        if let Some(i) = find_clip(&project.clips, id) {
            let clip = &project.clips[i];
            push_row(&mut rows, project, ExportTarget::Clip(clip.id), clip_label(clip), scores);
        }
    }
    assert(row_views(rows@) =~= sheet_of(project, tags@, selected, scores@));
    rows
}

// ---------------------------------------------------------------------------
// Refusals.

/// Why a run can't start at all, if it can't.
pub open spec fn not_now(exporting: bool, previewing: bool, open: bool, ticked: nat) -> Option<
    Seq<char>,
> {
    if exporting {
        Some("an export is running"@)
    } else if previewing {
        Some("a preview is open; close it first"@)
    } else if !open {
        Some("no project is open"@)
    } else if ticked == 0 {
        Some("nothing is ticked"@)
    } else {
        None
    }
}

/// Whether a run of `ticked` targets may start.
pub fn may_export(exporting: bool, previewing: bool, open: bool, ticked: usize) -> (verdict: Result<
    (),
    UserError,
>)
    ensures
        match verdict {
            Ok(()) => not_now(exporting, previewing, open, ticked as nat) is None,
            Err(e) => not_now(exporting, previewing, open, ticked as nat) is Some
                && user_error::refuses_export(
                e,
                not_now(exporting, previewing, open, ticked as nat)->0,
            ),
        },
{
    if exporting {
        return Err(UserError::cant_export("an export is running"));
    }
    // Both composite on one context, and an export would take the frames the
    // preview is pacing itself on.
    if previewing {
        return Err(UserError::cant_export("a preview is open; close it first"));
    }
    if !open {
        return Err(UserError::cant_export("no project is open"));
    }
    if ticked == 0 {
        return Err(UserError::cant_export("nothing is ticked"));
    }
    Ok(())
}

/// Whether a source's file is missing: one that was never looked for is.
pub open spec fn is_missing(missing: Seq<bool>, source_index: usize) -> bool {
    source_index >= missing.len() || missing[source_index as int]
}

/// Why one entry can't be rendered, if it can't. `recorded` tells, for each
/// clip of the project, whether its recording is there.
pub open spec fn entry_refusal(
    project: &Project,
    missing: Seq<bool>,
    recorded: Seq<bool>,
    entry: PlanEntryView,
) -> Option<Seq<char>> {
    let clip = match entry.clip_id {
        Some(id) => export_run::clip_index(project.clips@, id),
        None => None,
    };
    if is_missing(missing, entry.source_index) {
        let what = match clip {
            Some(i) => export_run::called(project.clips@[i]) + "'s game video"@,
            // No clip to name: the file names itself.
            None => (if entry.source_index < project.source_videos@.len() {
                project.source_videos@[entry.source_index as int].display_name@
            } else {
                "a video"@
            }) + " (a goal's game video)"@,
        };
        Some(what + " is missing; relink it first"@)
    } else {
        match clip {
            Some(i) => if i < recorded.len() && recorded[i] {
                None
            } else {
                Some(
                    export_run::called(project.clips@[i]) + "'s commentary recording is missing"@,
                )
            },
            None => None,
        }
    }
}

/// Why the first of `entries` that can't be rendered can't be.
pub open spec fn first_refusal(
    project: &Project,
    missing: Seq<bool>,
    recorded: Seq<bool>,
    entries: Seq<PlanEntryView>,
) -> Option<Seq<char>>
    decreases entries.len(),
{
    if entries.len() == 0 {
        None
    } else {
        match first_refusal(project, missing, recorded, entries.drop_last()) {
            Some(why) => Some(why),
            None => entry_refusal(project, missing, recorded, entries.last()),
        }
    }
}

/// Why `target` can't be rendered as `label`, if it can't.
pub open spec fn target_refusal(
    project: &Project,
    missing: Seq<bool>,
    recorded: Seq<bool>,
    target: ExportTarget,
    label: Seq<char>,
    scores: Seq<Option<Score>>,
) -> Option<Seq<char>> {
    let entries = plan::planned(project, target, scores);
    if export::schedule_of(entries).len() == 0 {
        Some(label + " has nothing to export"@)
    } else {
        first_refusal(project, missing, recorded, entries)
    }
}

fn refusal_of(
    project: &Project,
    missing: &Vec<bool>,
    recorded: &Vec<bool>,
    entry: &PlanEntry,
) -> (why: Option<String>)
    ensures
        match why {
            Some(said) => entry_refusal(project, missing@, recorded@, entry@) == Some(said@),
            None => entry_refusal(project, missing@, recorded@, entry@) is None,
        },
{
    let clip: Option<usize> = match entry.clip_id {
        Some(id) => find_clip(&project.clips, id),
        None => None,
    };
    let source = entry.source_index;
    let gone = source >= missing.len() || missing[source];
    if gone {
        let mut why = String::new();
        match clip {
            Some(i) => {
                why.append(clip_label(&project.clips[i]).as_str());
                why.append("'s game video");
            },
            None => {
                if source < project.source_videos.len() {
                    why.append(project.source_videos[source].display_name.as_str());
                } else {
                    why.append("a video");
                }
                why.append(" (a goal's game video)");
            },
        }
        why.append(" is missing; relink it first");
        assert(why@ =~= entry_refusal(project, missing@, recorded@, entry@)->0);
        return Some(why);
    }
    if let Some(i) = clip {
        if !(i < recorded.len() && recorded[i]) {
            let mut why = clip_label(&project.clips[i]);
            why.append("'s commentary recording is missing");
            assert(why@ =~= entry_refusal(project, missing@, recorded@, entry@)->0);
            return Some(why);
        }
    }
    None
}

/// The frames that render `target`, or why it can't run.
///
/// A snapshot: later edits to the project don't reach a running export.
pub fn job(
    project: &Project,
    missing: &Vec<bool>,
    recorded: &Vec<bool>,
    target: &ExportTarget,
    label: &str,
    scores: &Vec<Option<Score>>,
) -> (job: Result<Compilation, UserError>)
    requires
        plan::plannable(project),
    ensures
        ({
            let refusal = target_refusal(
                project,
                missing@,
                recorded@,
                *target,
                label@,
                scores@,
            );
            match job {
                Ok(compilation) => {
                    &&& refusal is None
                    &&& plan::views(compilation.plan.entries@) == plan::planned(
                        project,
                        *target,
                        scores@,
                    )
                    &&& compilation.frames@ == export::schedule_of(
                        plan::planned(project, *target, scores@),
                    )
                },
                Err(e) => refusal is Some && user_error::refuses_export(e, refusal->0),
            }
        }),
{
    let compilation = compilation_schedule(project, target, scores);
    let ghost entries = plan::planned(project, *target, scores@);
    if compilation.frames.len() == 0 {
        let mut why = String::new();
        why.append(label);
        why.append(" has nothing to export");
        assert(why@ =~= label@ + " has nothing to export"@);
        return Err(UserError::CantExport(why));
    }
    for i in 0..compilation.plan.entries.len()
        invariant
            entries == plan::views(compilation.plan.entries@),
            entries == plan::planned(project, *target, scores@),
            export::schedule_of(entries).len() > 0,
            first_refusal(project, missing@, recorded@, entries.take(i as int)) is None,
    {
        proof {
            assert(entries.take(i + 1).drop_last() =~= entries.take(i as int));
            assert(entries[i as int] == compilation.plan.entries@[i as int]@);
        }
        if let Some(why) = refusal_of(project, missing, recorded, &compilation.plan.entries[i]) {
            proof {
                lemma_first_refusal_stays(project, missing@, recorded@, entries, i + 1);
            }
            return Err(UserError::CantExport(why));
        }
    }
    assert(entries.take(entries.len() as int) =~= entries);
    Ok(compilation)
}

proof fn lemma_first_refusal_stays(
    project: &Project,
    missing: Seq<bool>,
    recorded: Seq<bool>,
    entries: Seq<PlanEntryView>,
    n: int,
)
    requires
        0 <= n <= entries.len(),
        first_refusal(project, missing, recorded, entries.take(n)) is Some,
    ensures
        first_refusal(project, missing, recorded, entries) == first_refusal(
            project,
            missing,
            recorded,
            entries.take(n),
        ),
    decreases entries.len() - n,
{
    if n == entries.len() {
        assert(entries.take(n) =~= entries);
    } else {
        assert(entries.take(n + 1).drop_last() =~= entries.take(n));
        lemma_first_refusal_stays(project, missing, recorded, entries, n + 1);
    }
}

// ---------------------------------------------------------------------------
// A run, checked whole.

/// A target ready to be rendered.
#[derive(Debug, PartialEq, Eq)]
pub struct PreparedTarget {
    pub label: String,
    pub compilation: Compilation,
}

/// Whether every target has a name: none of them is a clip that is gone.
pub open spec fn all_named(project: &Project, targets: Seq<ExportTarget>) -> bool {
    forall|i: int|
        0 <= i < targets.len() ==> export_run::label_of(project, #[trigger] targets[i]) is Some
}

/// What the targets of a run are called, each by a name of its own.
pub open spec fn run_labels(project: &Project, targets: Seq<ExportTarget>) -> Seq<Seq<char>> {
    export_run::made_unique(
        targets.map_values(|t: ExportTarget| export_run::label_of(project, t)->0),
    )
}

/// Why the first of the run's first `count` targets that can't be rendered
/// can't be.
pub open spec fn run_refusal(
    project: &Project,
    missing: Seq<bool>,
    recorded: Seq<bool>,
    targets: Seq<ExportTarget>,
    scores: Seq<Option<Score>>,
    count: nat,
) -> Option<Seq<char>>
    decreases count,
{
    if count == 0 {
        None
    } else {
        match run_refusal(project, missing, recorded, targets, scores, (count - 1) as nat) {
            Some(why) => Some(why),
            None => target_refusal(
                project,
                missing,
                recorded,
                targets[count - 1],
                run_labels(project, targets)[count - 1],
                scores,
            ),
        }
    }
}

proof fn lemma_run_refusal_stays(
    project: &Project,
    missing: Seq<bool>,
    recorded: Seq<bool>,
    targets: Seq<ExportTarget>,
    scores: Seq<Option<Score>>,
    n: nat,
)
    requires
        n <= targets.len(),
        run_refusal(project, missing, recorded, targets, scores, n) is Some,
    ensures
        run_refusal(project, missing, recorded, targets, scores, targets.len()) == run_refusal(
            project,
            missing,
            recorded,
            targets,
            scores,
            n,
        ),
    decreases targets.len() - n,
{
    if n < targets.len() {
        lemma_run_refusal_stays(project, missing, recorded, targets, scores, n + 1);
    }
}

/// Prepares every target of a run, or says why the run can't start.
///
/// Every target is checked before any of them runs, so a missing file can't
/// stop a run half-way through.
pub fn prepare_run(
    project: &Project,
    missing: &Vec<bool>,
    recorded: &Vec<bool>,
    targets: &Vec<ExportTarget>,
    scores: &Vec<Option<Score>>,
) -> (prepared: Result<Vec<PreparedTarget>, UserError>)
    requires
        plan::plannable(project),
    ensures
        ({
            let refusal = run_refusal(
                project,
                missing@,
                recorded@,
                targets@,
                scores@,
                targets@.len(),
            );
            match prepared {
                Ok(ready) => {
                    &&& all_named(project, targets@)
                    &&& refusal is None
                    &&& ready@.len() == targets@.len()
                    &&& forall|i: int|
                        0 <= i < ready@.len() ==> {
                            &&& (#[trigger] ready@[i]).label@ == run_labels(project, targets@)[i]
                            &&& plan::views(ready@[i].compilation.plan.entries@) == plan::planned(
                                project,
                                targets@[i],
                                scores@,
                            )
                            &&& ready@[i].compilation.frames@ == export::schedule_of(
                                plan::planned(project, targets@[i], scores@),
                            )
                        }
                },
                Err(e) => if all_named(project, targets@) {
                    refusal is Some && user_error::refuses_export(e, refusal->0)
                } else {
                    user_error::refuses_export(e, "the clip is gone"@)
                },
            }
        }),
{
    let ghost names = targets@.map_values(
        |t: ExportTarget| export_run::label_of(project, t)->0,
    );
    let mut labels: Vec<String> = Vec::new();
    for i in 0..targets.len()
        invariant
            names == targets@.map_values(|t: ExportTarget| export_run::label_of(project, t)->0),
            labels@.len() == i,
            text::texts(labels@) == names.take(i as int),
            forall|k: int|
                0 <= k < i ==> export_run::label_of(project, #[trigger] targets@[k]) is Some,
    {
        match label(project, &targets[i]) {
            Err(e) => {
                assert(export_run::label_of(project, targets@[i as int]) is None);
                return Err(e);
            },
            Ok(name) => {
                let ghost before = labels@;
                labels.push(name);
                assert(text::texts(labels@) =~= text::texts(before).push(name@));
                assert(names.take(i as int).push(name@) =~= names.take(i + 1));
            },
        }
    }
    assert(names.take(names.len() as int) =~= names);
    let unique = de_duplicate(labels);
    let mut ready: Vec<PreparedTarget> = Vec::new();
    for i in 0..targets.len()
        invariant
            plan::plannable(project),
            all_named(project, targets@),
            unique@.len() == targets@.len(),
            text::texts(unique@) == run_labels(project, targets@),
            run_refusal(project, missing@, recorded@, targets@, scores@, i as nat) is None,
            ready@.len() == i,
            forall|k: int|
                0 <= k < i ==> {
                    &&& (#[trigger] ready@[k]).label@ == run_labels(project, targets@)[k]
                    &&& plan::views(ready@[k].compilation.plan.entries@) == plan::planned(
                        project,
                        targets@[k],
                        scores@,
                    )
                    &&& ready@[k].compilation.frames@ == export::schedule_of(
                        plan::planned(project, targets@[k], scores@),
                    )
                },
    {
        assert(unique@[i as int]@ == run_labels(project, targets@)[i as int]);
        match job(project, missing, recorded, &targets[i], unique[i].as_str(), scores) {
            Ok(compilation) => {
                ready.push(PreparedTarget { label: unique[i].clone(), compilation });
            },
            Err(e) => {
                proof {
                    lemma_run_refusal_stays(
                        project,
                        missing@,
                        recorded@,
                        targets@,
                        scores@,
                        (i + 1) as nat,
                    );
                }
                return Err(e);
            },
        }
    }
    Ok(ready)
}

/// The output frames of a run of prepared targets.
pub open spec fn frames_prepared(prepared: Seq<PreparedTarget>) -> int
    decreases prepared.len(),
{
    if prepared.len() == 0 {
        0
    } else {
        frames_prepared(prepared.drop_last()) + prepared.last().compilation.frames@.len()
    }
}

proof fn lemma_more_frames_are_no_fewer(prepared: Seq<PreparedTarget>, k: int)
    requires
        0 <= k <= prepared.len(),
    ensures
        0 <= frames_prepared(prepared.take(k)) <= frames_prepared(prepared),
    decreases prepared.len(),
{
    if k == prepared.len() {
        assert(prepared.take(k) =~= prepared);
        if k > 0 {
            lemma_more_frames_are_no_fewer(prepared.drop_last(), k - 1);
        }
    } else {
        assert(prepared.drop_last().take(k) =~= prepared.take(k));
        lemma_more_frames_are_no_fewer(prepared.drop_last(), k);
    }
}

/// Starts the run over its prepared targets: one row each, of which the first
/// is rendering. There is none without a target, nor where the run's frames
/// outgrow their counter.
pub fn begin_run(prepared: &Vec<PreparedTarget>) -> (active: Option<ActiveRun>)
    ensures
        active is None <==> prepared@.len() == 0 || frames_prepared(prepared@) > u64::MAX,
        active matches Some(active) ==> {
            &&& active@.rendering()
            &&& active@.index == 0
            &&& active@.done_frames == 0
            &&& active@.rate is None
            &&& active@.samples.len() == 0
            &&& !active@.cancelled
            &&& active@.targets.len() == prepared@.len()
            &&& forall|i: int|
                0 <= i < prepared@.len() ==> {
                    &&& (#[trigger] active@.targets[i]).label@ == prepared@[i].label@
                    &&& active@.targets[i].frames == prepared@[i].compilation.frames@.len()
                    &&& active@.targets[i].state == if i == 0 {
                        TargetState::Running(0)
                    } else {
                        TargetState::Pending
                    }
                }
        },
{
    if prepared.len() == 0 {
        return None;
    }
    let mut rows: Vec<ExportTargetRun> = Vec::new();
    let mut total: u64 = 0;
    for i in 0..prepared.len()
        invariant
            rows@.len() == i,
            total == frames_prepared(prepared@.take(i as int)),
            total == export_run::frames_of(rows@),
            forall|k: int|
                0 <= k < i ==> {
                    &&& (#[trigger] rows@[k]).label@ == prepared@[k].label@
                    &&& rows@[k].frames == prepared@[k].compilation.frames@.len()
                    &&& rows@[k].state is Pending
                },
    {
        let frames: u64 = prepared[i].compilation.frames.len() as u64;
        proof {
            assert(prepared@.take(i + 1).drop_last() =~= prepared@.take(i as int));
            lemma_more_frames_are_no_fewer(prepared@, i + 1);
        }
        if frames > u64::MAX - total {
            return None;
        }
        total = total + frames;
        let ghost before = rows@;
        rows.push(
            ExportTargetRun {
                label: prepared[i].label.clone(),
                frames,
                state: TargetState::Pending,
            },
        );
        assert(rows@.drop_last() =~= before);
    }
    assert(prepared@.take(prepared@.len() as int) =~= prepared@);
    Some(ActiveRun::start(rows))
}

/// The sheet's pickers become the project's. Returns whether they changed, and
/// so whether the project has to be saved.
pub fn remember_pickers(
    preferences: &mut Preferences,
    resolution: Resolution,
    quality: Quality,
) -> (changed: bool)
    ensures
        *final(preferences) == (Preferences {
            last_export_resolution: resolution,
            last_export_quality: quality,
            ..*old(preferences)
        }),
        changed == (*final(preferences) != *old(preferences)),
{
    let changed = preferences.last_export_resolution != resolution
        || preferences.last_export_quality != quality;
    preferences.last_export_resolution = resolution;
    preferences.last_export_quality = quality;
    changed
}

/// **A run starts when nothing stands in its way**: no export, no preview, a
/// project open and something ticked; the first thing that does is said.
pub proof fn law_a_run_starts_when_nothing_is_in_its_way(
    exporting: bool,
    previewing: bool,
    open: bool,
    ticked: nat,
)
    ensures
        not_now(exporting, previewing, open, ticked) is None <==> !exporting && !previewing
            && open && ticked > 0,
        exporting ==> not_now(exporting, previewing, open, ticked) == Some(
            "an export is running"@,
        ),
        !exporting && previewing ==> not_now(exporting, previewing, open, ticked) == Some(
            "a preview is open; close it first"@,
        ),
        !exporting && !previewing && !open ==> not_now(exporting, previewing, open, ticked)
            == Some("no project is open"@),
        !exporting && !previewing && open && ticked == 0 ==> not_now(
            exporting,
            previewing,
            open,
            ticked,
        ) == Some("nothing is ticked"@),
{
}

/// Whether an entry's files are there: its game video, and the recording of
/// the clip it plays, which is the first with its id.
pub open spec fn has_its_files(
    project: &Project,
    missing: Seq<bool>,
    recorded: Seq<bool>,
    entry: PlanEntryView,
) -> bool {
    &&& entry.source_index < missing.len() && !missing[entry.source_index as int]
    &&& entry.clip_id matches Some(id) ==> forall|i: int|
        0 <= i < project.clips@.len() && (#[trigger] project.clips@[i]).id == id && (forall|k: int|
            0 <= k < i ==> (#[trigger] project.clips@[k]).id != id) ==> i < recorded.len()
            && recorded[i]
}

/// **An entry is rendered only from files that are there**, and the first that
/// can't be is the one that is spoken of.
pub proof fn law_an_entry_needs_its_files(
    project: &Project,
    missing: Seq<bool>,
    recorded: Seq<bool>,
    entries: Seq<PlanEntryView>,
)
    ensures
        first_refusal(project, missing, recorded, entries) is None <==> forall|k: int|
            0 <= k < entries.len() ==> has_its_files(
                project,
                missing,
                recorded,
                #[trigger] entries[k],
            ),
        forall|k: int|
            #![trigger entries[k]]
            0 <= k < entries.len() && !has_its_files(project, missing, recorded, entries[k]) && (
            forall|j: int|
                0 <= j < k ==> has_its_files(project, missing, recorded, #[trigger] entries[j]))
                ==> first_refusal(project, missing, recorded, entries) == entry_refusal(
                project,
                missing,
                recorded,
                entries[k],
            ),
    decreases entries.len(),
{
    if entries.len() > 0 {
        let before = entries.drop_last();
        let last = entries.len() - 1;
        law_an_entry_needs_its_files(project, missing, recorded, before);
        lemma_entry_refusal(project, missing, recorded, entries[last]);
        assert forall|k: int| 0 <= k < before.len() implies before[k] == #[trigger] entries[k] by {}
        if forall|k: int|
            0 <= k < entries.len() ==> has_its_files(
                project,
                missing,
                recorded,
                #[trigger] entries[k],
            ) {
            assert forall|k: int| 0 <= k < before.len() implies has_its_files(
                project,
                missing,
                recorded,
                #[trigger] before[k],
            ) by {
                assert(before[k] == entries[k]);
            }
            assert(has_its_files(project, missing, recorded, entries[last]));
        }
        if first_refusal(project, missing, recorded, entries) is None {
            assert forall|k: int| 0 <= k < entries.len() implies has_its_files(
                project,
                missing,
                recorded,
                #[trigger] entries[k],
            ) by {
                if k < last {
                    assert(before[k] == entries[k]);
                }
            }
        }
        assert forall|k: int|
            #![trigger entries[k]]
            0 <= k < entries.len() && !has_its_files(project, missing, recorded, entries[k]) && (
            forall|j: int|
                0 <= j < k ==> has_its_files(
                    project,
                    missing,
                    recorded,
                    #[trigger] entries[j],
                )) implies first_refusal(project, missing, recorded, entries) == entry_refusal(
            project,
            missing,
            recorded,
            entries[k],
        ) by {
            if k < last {
                assert(before[k] == entries[k]);
                assert forall|j: int| 0 <= j < k implies has_its_files(
                    project,
                    missing,
                    recorded,
                    #[trigger] before[j],
                ) by {
                    assert(before[j] == entries[j]);
                }
                lemma_entry_refusal(project, missing, recorded, entries[k]);
            } else {
                assert forall|j: int| 0 <= j < before.len() implies has_its_files(
                    project,
                    missing,
                    recorded,
                    #[trigger] before[j],
                ) by {
                    assert(before[j] == entries[j]);
                }
            }
        }
    }
}

proof fn lemma_entry_refusal(
    project: &Project,
    missing: Seq<bool>,
    recorded: Seq<bool>,
    entry: PlanEntryView,
)
    ensures
        entry_refusal(project, missing, recorded, entry) is None <==> has_its_files(
            project,
            missing,
            recorded,
            entry,
        ),
{
    let clips = project.clips@;
    if let Some(id) = entry.clip_id {
        assert forall|i: int|
            0 <= i < clips.len() && (#[trigger] clips[i]).id == id && (forall|k: int|
                0 <= k < i ==> (#[trigger] clips[k]).id != id) implies export_run::clip_index(
            clips,
            id,
        ) == Some(i) by {
            export_run::lemma_first_clip(clips, id, i);
        }
        if let Some(i) = export_run::clip_index(clips, id) {
            export_run::lemma_clip_index_is_inside(clips, id);
            lemma_found_is_first(clips, id);
            assert(clips[i].id == id);
        }
    }
}

proof fn lemma_found_is_first(clips: Seq<crate::project::Clip>, id: Id)
    requires
        export_run::clip_index(clips, id) is Some,
    ensures
        forall|k: int|
            0 <= k < export_run::clip_index(clips, id)->0 ==> (#[trigger] clips[k]).id != id,
    decreases clips.len(),
{
    let before = clips.drop_last();
    if export_run::clip_index(before, id) is Some {
        lemma_found_is_first(before, id);
        export_run::lemma_clip_index_is_inside(before, id);
        assert forall|k: int|
            0 <= k < export_run::clip_index(clips, id)->0 implies (#[trigger] clips[k]).id
            != id by {
            assert(before[k] == clips[k]);
        }
    } else {
        assert forall|k: int| 0 <= k < clips.len() - 1 implies (#[trigger] clips[k]).id != id by {
            assert(before[k] == clips[k]);
            lemma_none_found(before, id, k);
        }
    }
}

proof fn lemma_none_found(clips: Seq<crate::project::Clip>, id: Id, k: int)
    requires
        export_run::clip_index(clips, id) is None,
        0 <= k < clips.len(),
    ensures
        clips[k].id != id,
    decreases clips.len(),
{
    if k < clips.len() - 1 {
        lemma_none_found(clips.drop_last(), id, k);
    }
}

/// **What is missing is said**: whose game video or recording, or which video
/// of a goal.
pub proof fn law_what_is_missing_is_said(
    project: &Project,
    missing: Seq<bool>,
    recorded: Seq<bool>,
    entry: PlanEntryView,
    i: int,
)
    ensures
        ({
            let there = entry.source_index < missing.len() && !missing[entry.source_index as int];
            let why = entry_refusal(project, missing, recorded, entry);
            &&& entry.clip_id is None && there ==> why is None
            &&& entry.clip_id is None && !there && entry.source_index
                < project.source_videos@.len() ==> why == Some(
                project.source_videos@[entry.source_index as int].display_name@
                    + " (a goal's game video)"@ + " is missing; relink it first"@,
            )
            &&& 0 <= i < project.clips@.len() && entry.clip_id == Some(project.clips@[i].id) && (
            forall|k: int|
                0 <= k < i ==> (#[trigger] project.clips@[k]).id != project.clips@[i].id) ==> {
                let name = export_run::called(project.clips@[i]);
                &&& !there ==> why == Some(
                    name + "'s game video"@ + " is missing; relink it first"@,
                )
                &&& there && !(i < recorded.len() && recorded[i]) ==> why == Some(
                    name + "'s commentary recording is missing"@,
                )
                &&& there && i < recorded.len() && recorded[i] ==> why is None
            }
        }),
{
    if 0 <= i < project.clips@.len() && entry.clip_id == Some(project.clips@[i].id) && (forall|
        k: int,
    |
        0 <= k < i ==> (#[trigger] project.clips@[k]).id != project.clips@[i].id) {
        export_run::lemma_first_clip(project.clips@, project.clips@[i].id, i);
    }
}

/// **A run starts only with every target ready**: each has something to export,
/// and every entry of it its files.
pub proof fn law_a_run_needs_every_target_ready(
    project: &Project,
    missing: Seq<bool>,
    recorded: Seq<bool>,
    targets: Seq<ExportTarget>,
    scores: Seq<Option<Score>>,
    count: nat,
)
    requires
        count <= targets.len(),
    ensures
        run_refusal(project, missing, recorded, targets, scores, count) is None <==> forall|k: int|
            0 <= k < count ==> {
                &&& export::schedule_of(
                    plan::planned(project, #[trigger] targets[k], scores),
                ).len() > 0
                &&& forall|e: int|
                    0 <= e < plan::planned(project, targets[k], scores).len() ==> has_its_files(
                        project,
                        missing,
                        recorded,
                        #[trigger] plan::planned(project, targets[k], scores)[e],
                    )
            },
    decreases count,
{
    if count > 0 {
        law_a_run_needs_every_target_ready(
            project,
            missing,
            recorded,
            targets,
            scores,
            (count - 1) as nat,
        );
        law_an_entry_needs_its_files(
            project,
            missing,
            recorded,
            plan::planned(project, targets[count - 1], scores),
        );
    }
}

proof fn lemma_a_row(
    project: &Project,
    target: ExportTarget,
    label: Seq<char>,
    scores: Seq<Option<Score>>,
    i: int,
)
    requires
        !(target is Reel),
        0 <= i < project.clips@.len(),
        plan::covers(target, project.clips@[i]),
    ensures
        row_of(project, target, label, scores).len() == 1,
        row_of(project, target, label, scores)[0].target == target,
        row_of(project, target, label, scores)[0].label == label,
        row_of(project, target, label, scores)[0].count == plan::selected(project, target).len(),
        row_of(project, target, label, scores)[0].unit == "clip"@,
{
    project.clips@.lemma_filter_contains(|c: crate::project::Clip| plan::covers(target, c), i);
    let clips = plan::selected(project, target);
    plan::lemma_clip_entries(project, clips, clips.len());
}

proof fn lemma_tag_rows(
    project: &Project,
    tags: Seq<String>,
    scores: Seq<Option<Score>>,
)
    requires
        forall|k: int|
            0 <= k < tags.len() ==> exists|i: int|
                0 <= i < project.clips@.len() && plan::covers(
                    ExportTarget::Tag(#[trigger] tags[k]),
                    #[trigger] project.clips@[i],
                ),
    ensures
        tag_rows(project, tags, scores).len() == tags.len(),
        forall|k: int|
            0 <= k < tags.len() ==> (#[trigger] tag_rows(project, tags, scores)[k]).target
                == ExportTarget::Tag(tags[k]) && tag_rows(project, tags, scores)[k].label
                == tags[k]@ && tag_rows(project, tags, scores)[k].unit == "clip"@ && tag_rows(
                project,
                tags,
                scores,
            )[k].count == plan::selected(project, ExportTarget::Tag(tags[k])).len(),
    decreases tags.len(),
{
    if tags.len() > 0 {
        let before = tags.drop_last();
        let last = tags.len() - 1;
        assert forall|k: int| 0 <= k < before.len() implies exists|i: int|
            0 <= i < project.clips@.len() && plan::covers(
                ExportTarget::Tag(#[trigger] before[k]),
                #[trigger] project.clips@[i],
            ) by {
            assert(before[k] == tags[k]);
            let i = choose|i: int|
                0 <= i < project.clips@.len() && plan::covers(
                    ExportTarget::Tag(tags[k]),
                    #[trigger] project.clips@[i],
                );
            assert(plan::covers(ExportTarget::Tag(before[k]), project.clips@[i]));
        }
        lemma_tag_rows(project, before, scores);
        let i = choose|i: int|
            0 <= i < project.clips@.len() && plan::covers(
                ExportTarget::Tag(tags[last]),
                #[trigger] project.clips@[i],
            );
        lemma_a_row(project, ExportTarget::Tag(tags[last]), tags[last]@, scores, i);
        let rows = tag_rows(project, before, scores);
        let all = tag_rows(project, tags, scores);
        assert forall|k: int| 0 <= k < tags.len() implies (#[trigger] all[k]).target
            == ExportTarget::Tag(tags[k]) && all[k].label == tags[k]@ && all[k].unit == "clip"@
            && all[k].count == plan::selected(project, ExportTarget::Tag(tags[k])).len() by {
            if k < last {
                assert(all[k] == rows[k]);
                assert(before[k] == tags[k]);
            }
        }
    }
}

/// **A sheet offers what there is, in order**: all the clips first, then each
/// tag that a clip carries, then the goals where there are any, and the
/// selected clip last.
pub proof fn law_a_sheet_offers_what_there_is(
    project: &Project,
    tags: Seq<String>,
    selected: Option<Id>,
    scores: Seq<Option<Score>>,
    i: int,
    k: int,
)
    requires
        project.clips@.len() > 0,
        forall|k: int|
            0 <= k < tags.len() ==> exists|i: int|
                0 <= i < project.clips@.len() && plan::covers(
                    ExportTarget::Tag(#[trigger] tags[k]),
                    #[trigger] project.clips@[i],
                ),
    ensures
        ({
            let sheet = sheet_of(project, tags, selected, scores);
            let reel = plan::planned(project, ExportTarget::Reel(ReelSide::All), scores);
            let n = tags.len() as int;
            let goals = if reel.len() > 0 {
                1int
            } else {
                0
            };
            &&& sheet.len() >= 1 + n + goals
            &&& sheet[0].target == ExportTarget::AllClips
            &&& sheet[0].label == "All clips"@
            &&& sheet[0].count == project.clips@.len()
            &&& sheet[0].unit == "clip"@
            &&& 0 <= k < n ==> sheet[1 + k].target == ExportTarget::Tag(tags[k])
                && sheet[1 + k].label == tags[k]@ && sheet[1 + k].unit == "clip"@
            &&& reel.len() > 0 ==> sheet[1 + n].target == ExportTarget::Reel(ReelSide::All)
                && sheet[1 + n].label == "All goals"@ && sheet[1 + n].unit == "goal"@
                && sheet[1 + n].count == reel::goals_of(project, ReelSide::All).len()
                && sheet[1 + n].frames == reel.last().start_frame + reel.last().frames
            &&& selected is None ==> sheet.len() == 1 + n + goals
            &&& 0 <= i < project.clips@.len() && selected == Some(project.clips@[i].id) && (
            forall|j: int|
                0 <= j < i ==> (#[trigger] project.clips@[j]).id != project.clips@[i].id)
                ==> sheet.len() == 2 + n + goals && sheet.last().target == ExportTarget::Clip(
                project.clips@[i].id,
            ) && sheet.last().label == export_run::called(project.clips@[i])
        }),
{
    let all = row_of(project, ExportTarget::AllClips, "All clips"@, scores);
    lemma_a_row(project, ExportTarget::AllClips, "All clips"@, scores, 0);
    lemma_every_clip_is_covered(project.clips@);
    lemma_tag_rows(project, tags, scores);
    if 0 <= k < tags.len() {
        let row = tag_rows(project, tags, scores)[k];
        assert(row.target == ExportTarget::Tag(tags[k]));
        assert(sheet_of(project, tags, selected, scores)[1 + k] == row);
    }
    if 0 <= i < project.clips@.len() && selected == Some(project.clips@[i].id) && (forall|j: int|
        0 <= j < i ==> (#[trigger] project.clips@[j]).id != project.clips@[i].id) {
        let id = project.clips@[i].id;
        export_run::lemma_first_clip(project.clips@, id, i);
        lemma_a_row(
            project,
            ExportTarget::Clip(id),
            export_run::called(project.clips@[i]),
            scores,
            i,
        );
    }
}

proof fn lemma_every_clip_is_covered(clips: Seq<crate::project::Clip>)
    ensures
        clips.filter(|c: crate::project::Clip| plan::covers(ExportTarget::AllClips, c)) == clips,
    decreases clips.len(),
{
    reveal(Seq::filter);
    if clips.len() > 0 {
        lemma_every_clip_is_covered(clips.drop_last());
        assert(clips.drop_last().push(clips.last()) =~= clips);
    }
}

/// **A run begins with its first target**: one row for each target that was
/// prepared, by its label and frames, of which the first renders and the others
/// wait.
pub proof fn law_a_run_begins_with_its_first_target(
    prepared: &Vec<PreparedTarget>,
    active: Option<ActiveRun>,
    i: int,
)
    requires
        call_ensures(begin_run, (prepared,), active),
        0 <= i < prepared@.len(),
    ensures
        active matches Some(run) ==> {
            &&& run@.targets.len() == prepared@.len()
            &&& run@.targets[i].label@ == prepared@[i].label@
            &&& run@.targets[i].frames == prepared@[i].compilation.frames@.len()
            &&& i == 0 ==> run@.targets[i].state == TargetState::Running(0)
            &&& i > 0 ==> run@.targets[i].state == TargetState::Pending
            &&& run@.index == 0 && run@.done_frames == 0 && !run@.cancelled
        },
        active is None ==> frames_prepared(prepared@) > u64::MAX,
{
}

/// **A run is prepared where every target is ready**, each with the frames of
/// its own plan, and otherwise not at all.
pub proof fn law_a_run_is_prepared_where_every_target_is_ready(
    project: &Project,
    missing: &Vec<bool>,
    recorded: &Vec<bool>,
    targets: &Vec<ExportTarget>,
    scores: &Vec<Option<Score>>,
    prepared: Result<Vec<PreparedTarget>, UserError>,
    i: int,
)
    requires
        call_ensures(prepare_run, (project, missing, recorded, targets, scores), prepared),
        0 <= i < targets@.len(),
    ensures
        prepared is Ok <==> (forall|k: int|
            0 <= k < targets@.len() ==> export_run::label_of(
                project,
                #[trigger] targets@[k],
            ) is Some) && (forall|k: int|
            0 <= k < targets@.len() ==> {
                &&& export::schedule_of(
                    plan::planned(project, #[trigger] targets@[k], scores@),
                ).len() > 0
                &&& forall|e: int|
                    0 <= e < plan::planned(project, targets@[k], scores@).len() ==> has_its_files(
                        project,
                        missing@,
                        recorded@,
                        #[trigger] plan::planned(project, targets@[k], scores@)[e],
                    )
            }),
        prepared matches Ok(ready) ==> ready@.len() == targets@.len()
            && ready@[i].compilation.frames@ == export::schedule_of(
            plan::planned(project, targets@[i], scores@),
        ),
{
    law_a_run_needs_every_target_ready(
        project,
        missing@,
        recorded@,
        targets@,
        scores@,
        targets@.len(),
    );
    if prepared is Ok {
        let ready = prepared->Ok_0;
        assert(ready@[i].label@ == run_labels(project, targets@)[i]);
    }
}

} // verus!
