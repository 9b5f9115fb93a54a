//! Turning a set of clips, or a reel, into a description of one output video.

use vstd::prelude::*;

use crate::export;
use crate::export::frame_count;
use crate::id::Id;
use crate::project::{Clip, Project};
use crate::reel;
use crate::reel::{reel_spans, ReelSide, Span};
use crate::scoreboard_config::{MatchEventKind, ScoreboardConfig};
use crate::text;
use crate::time;
use crate::time::TICKS_PER_FRAME;
use crate::timeline;
use crate::timeline::{playback_segments, PlaybackSegment, SegmentKind};

verus! {

/// What an export covers.
///
/// `Tag` compares the tag verbatim. Tags are normalized on the way in, so a
/// caller passing `"Transition"` selects nothing: normalize first.
#[derive(Debug, PartialEq, Eq)]
pub enum ExportTarget {
    /// Every clip in the project, in stored order.
    AllClips,
    /// Only clips carrying this tag.
    Tag(String),
    /// One clip: a one-entry compilation rather than a path of its own.
    Clip(Id),
    /// The goals reel.
    Reel(ReelSide),
}

impl Clone for ExportTarget {
    fn clone(&self) -> (copy: ExportTarget)
        ensures
            copy == *self,
    {
        match self {
            ExportTarget::AllClips => ExportTarget::AllClips,
            ExportTarget::Tag(tag) => ExportTarget::Tag(tag.clone()),
            ExportTarget::Clip(id) => ExportTarget::Clip(*id),
            ExportTarget::Reel(side) => ExportTarget::Reel(*side),
        }
    }
}

/// The score a scoreboard shows.
#[derive(Debug, Clone, Copy, PartialEq, Eq, Structural)]
pub struct Score {
    pub home: u32,
    pub away: u32,
}

/// One entry's contribution to the output: a clip's, or a stretch of game
/// video with no clip behind it.
#[derive(Debug, PartialEq, Eq)]
pub struct PlanEntry {
    /// The clip this entry plays, or `None` for game video alone.
    pub clip_id: Option<Id>,
    /// Index into the project's source videos.
    pub source_index: usize,
    pub segments: Vec<PlaybackSegment>,
    /// This entry's first output frame. Entries are quantized to whole output
    /// frames, so that record time is output time *inside* every entry.
    pub start_frame: u64,
    /// How many output frames this entry gets.
    pub frames: u64,
    /// The text bar's line: `"<n> / <total> | <name> | tag1, tag2"`. An empty
    /// part is dropped along with its separator.
    pub text: String,
}

/// What a [`PlanEntry`] holds, as mathematical values.
#[verifier::ext_equal]
pub struct PlanEntryView {
    pub clip_id: Option<Id>,
    pub source_index: usize,
    pub segments: Seq<PlaybackSegment>,
    pub start_frame: nat,
    pub frames: nat,
    pub text: Seq<char>,
}

impl View for PlanEntry {
    type V = PlanEntryView;

    open spec fn view(&self) -> PlanEntryView {
        PlanEntryView {
            clip_id: self.clip_id,
            source_index: self.source_index,
            segments: self.segments@,
            start_frame: self.start_frame as nat,
            frames: self.frames as nat,
            text: self.text@,
        }
    }
}

/// What each entry of a list holds.
pub open spec fn views(entries: Seq<PlanEntry>) -> Seq<PlanEntryView> {
    entries.map_values(|e: PlanEntry| e@)
}

impl PlanEntry {
    /// The record time that output frame `frame` shows: the clock for stroke
    /// replay. **Not the scoreboard's clock**, which runs on the source video.
    pub fn record_time(&self, frame: u64) -> (at: i128)
        ensures
            at == (frame - self.start_frame) * TICKS_PER_FRAME,
    {
        (frame as i128 - self.start_frame as i128) * 100_000_000
    }
}

/// A description of one output video.
#[derive(Debug, PartialEq, Eq)]
pub struct CompilationPlan {
    pub entries: Vec<PlanEntry>,
}

/// The first frame past a run of entries.
pub open spec fn end_frame(entries: Seq<PlanEntryView>) -> nat {
    if entries.len() == 0 {
        0
    } else {
        entries.last().start_frame + entries.last().frames
    }
}

impl CompilationPlan {
    /// Output frames in total: **the** denominator, and the only measure of
    /// the output's length.
    pub fn total_frames(&self) -> (total: u64)
        requires
            end_frame(views(self.entries@)) <= u64::MAX,
        ensures
            total == end_frame(views(self.entries@)),
    {
        if self.entries.len() == 0 {
            return 0;
        }
        let last: usize = self.entries.len() - 1;
        assert(views(self.entries@).last() == self.entries@[last as int]@);
        self.entries[last].start_frame + self.entries[last].frames
    }
}

// ---------------------------------------------------------------------------
// What is planned.

/// The most clips, and the most match events, a project is planned with: a
/// hundred million. Past it the frames of an output could outgrow their
/// counter.
pub const MAX_ENTRIES: usize = 100_000_000;

/// A project whose plans fit the frame counter.
pub open spec fn plannable(project: &Project) -> bool {
    project.clips@.len() <= MAX_ENTRIES && project.match_events@.len() <= MAX_ENTRIES
}

/// Whether `target` covers a clip.
pub open spec fn covers(target: ExportTarget, clip: Clip) -> bool {
    match target {
        ExportTarget::AllClips => true,
        ExportTarget::Tag(tag) => clip@.tags.contains(tag@),
        ExportTarget::Clip(id) => clip.id == id,
        ExportTarget::Reel(_) => false,
    }
}

/// The clips `target` covers, in stored order.
pub open spec fn selected(project: &Project, target: ExportTarget) -> Seq<Clip> {
    project.clips@.filter(|c: Clip| covers(target, c))
}

/// How long a clip's source runs. Where the source is missing it counts as
/// just long enough for the clip to play through at full rate.
pub open spec fn clip_source_duration(project: &Project, clip: Clip) -> int {
    if clip.source_index < project.source_videos@.len() {
        project.source_videos@[clip.source_index as int].duration as int
    } else {
        time::clamped(
            clip.start_source + clip.recording_duration,
            i64::MIN as int,
            i64::MAX as int,
        )
    }
}

/// The segments of a clip of a project.
pub open spec fn clip_segments(project: &Project, clip: Clip) -> Seq<PlaybackSegment> {
    timeline::segments_of(
        clip.start_source as int,
        clip.events@,
        clip.recording_duration as int,
        clip_source_duration(project, clip),
    )
}

/// `"<n> / <total>"`.
pub open spec fn place_text(n: nat, total: nat) -> Seq<char> {
    text::decimal(n) + " / "@ + text::decimal(total)
}

/// The bar's line for the `n`th of `total` clips, empty parts dropped along
/// with their separators.
pub open spec fn clip_text(clip: Clip, n: nat, total: nat) -> Seq<char> {
    let name = text::trimmed(clip.name@);
    let tags = text::joined(clip@.tags, ", "@);
    place_text(n, total) + (if name.len() > 0 {
        " | "@ + name
    } else {
        seq![]
    }) + (if tags.len() > 0 {
        " | "@ + tags
    } else {
        seq![]
    })
}

/// The entries of the first `count` of `clips`.
pub open spec fn clip_entries(project: &Project, clips: Seq<Clip>, count: nat) -> Seq<
    PlanEntryView,
>
    decreases count,
{
    if count == 0 {
        seq![]
    } else {
        let before = clip_entries(project, clips, (count - 1) as nat);
        let clip = clips[count - 1];
        let segments = clip_segments(project, clip);
        before.push(
            PlanEntryView {
                clip_id: Some(clip.id),
                source_index: clip.source_index,
                segments,
                start_frame: end_frame(before),
                frames: export::frames_in(timeline::covered(segments)),
                text: clip_text(clip, count, clips.len()),
            },
        )
    }
}

/// A side's team: as the scoreboard names it, or "Home" or "Away" without one.
pub open spec fn team_name(scoreboard: Option<ScoreboardConfig>, home: bool) -> Seq<char> {
    match scoreboard {
        Some(config) => if home {
            config.home.name@
        } else {
            config.away.name@
        },
        None => if home {
            "Home"@
        } else {
            "Away"@
        },
    }
}

/// `"<n> / <total> | <team> goal | <home>-<away>"`, the score being the one
/// after the goal and dropped where the scoreboard has none.
pub open spec fn goal_text(
    project: &Project,
    scores: Seq<Option<Score>>,
    goal: usize,
    n: nat,
    total: nat,
) -> Seq<char> {
    let home = project.match_events@[goal as int].kind is HomeGoal;
    let line = place_text(n, total) + " | "@ + team_name(project.scoreboard, home) + " goal"@;
    if goal < scores.len() && scores[goal as int] is Some {
        let score = scores[goal as int]->0;
        line + " | "@ + text::decimal(score.home as nat) + "-"@ + text::decimal(
            score.away as nat,
        )
    } else {
        line
    }
}

/// The one segment of a reel entry.
pub open spec fn span_segment(span: Span) -> PlaybackSegment {
    PlaybackSegment {
        kind: SegmentKind::Play,
        source_start: span.start,
        out_duration: (span.end - span.start) as i64,
    }
}

/// The entries of the first `count` of a reel's spans.
pub open spec fn goal_entries(
    project: &Project,
    scores: Seq<Option<Score>>,
    spans: Seq<Span>,
    count: nat,
) -> Seq<PlanEntryView>
    decreases count,
{
    if count == 0 {
        seq![]
    } else {
        let before = goal_entries(project, scores, spans, (count - 1) as nat);
        let span = spans[count - 1];
        before.push(
            PlanEntryView {
                clip_id: None,
                source_index: span.source_index,
                segments: seq![span_segment(span)],
                start_frame: end_frame(before),
                frames: export::frames_in(span.end - span.start),
                text: goal_text(project, scores, span.goal, count, spans.len()),
            },
        )
    }
}

/// The entries of a target's output. `scores` holds what the scoreboard shows
/// after each match event, `None` where it has no state.
pub open spec fn planned(
    project: &Project,
    target: ExportTarget,
    scores: Seq<Option<Score>>,
) -> Seq<PlanEntryView> {
    match target {
        ExportTarget::Reel(side) => {
            let spans = reel::spans_of(project, reel::goals_of(project, side));
            goal_entries(project, scores, spans, spans.len())
        },
        _ => {
            let clips = selected(project, target);
            clip_entries(project, clips, clips.len())
        },
    }
}

// ---------------------------------------------------------------------------
// What holds of every plan.

/// An entry that starts where the ones before it end and gets the frames its
/// segments hold.
pub open spec fn in_place(entries: Seq<PlanEntryView>, k: int) -> bool {
    &&& export::schedulable(entries[k].segments)
    &&& entries[k].frames == export::frames_in(timeline::covered(entries[k].segments))
    &&& entries[k].start_frame == end_frame(entries.take(k))
}

/// What [`lemma_planned`] shows of every plan.
pub open spec fn well_planned(entries: Seq<PlanEntryView>) -> bool {
    &&& end_frame(entries) <= entries.len() * 92_233_720_369
    &&& forall|k: int| 0 <= k < entries.len() ==> #[trigger] in_place(entries, k)
}

proof fn lemma_well_planned_push(entries: Seq<PlanEntryView>, entry: PlanEntryView)
    requires
        well_planned(entries),
        export::schedulable(entry.segments),
        entry.frames == export::frames_in(timeline::covered(entry.segments)),
        entry.start_frame == end_frame(entries),
    ensures
        well_planned(entries.push(entry)),
{
    let all = entries.push(entry);
    assert forall|k: int| 0 <= k < all.len() implies #[trigger] in_place(all, k) by {
        if k < entries.len() {
            assert(in_place(entries, k));
            assert(all[k] == entries[k]);
            assert(all.take(k) =~= entries.take(k));
        } else {
            assert(all.take(k) =~= entries);
        }
    }
}

proof fn lemma_clip_segments(project: &Project, clip: Clip)
    ensures
        export::schedulable(clip_segments(project, clip)),
{
    timeline::law_segments_cover_the_recording(
        clip.start_source,
        clip.events@,
        clip.recording_duration,
        clip_source_duration(project, clip) as i64,
    );
    lemma_last_split_is_in_range(clip.events@);
    let segments = clip_segments(project, clip);
    assert forall|i: int| 0 <= i < segments.len() implies (#[trigger] segments[i]).out_duration > 0
        && (segments[i].kind is Play ==> segments[i].source_start + segments[i].out_duration
        <= i64::MAX) by {
        assert(timeline::servable(segments[i], clip_source_duration(project, clip)));
    }
}

proof fn lemma_last_split_is_in_range(events: Seq<crate::event::CommentaryEvent>)
    ensures
        0 <= timeline::last_split(events) <= i64::MAX,
    decreases events.len(),
{
    if events.len() > 0 {
        lemma_last_split_is_in_range(events.drop_last());
    }
}

/// There is an entry for each clip.
pub proof fn lemma_clip_entries(project: &Project, clips: Seq<Clip>, count: nat)
    requires
        count <= clips.len(),
    ensures
        clip_entries(project, clips, count).len() == count,
        well_planned(clip_entries(project, clips, count)),
    decreases count,
{
    if count > 0 {
        let before = clip_entries(project, clips, (count - 1) as nat);
        lemma_clip_entries(project, clips, (count - 1) as nat);
        lemma_clip_segments(project, clips[count - 1]);
        lemma_well_planned_push(before, clip_entries(project, clips, count).last());
    }
}

proof fn lemma_span_segment(span: Span)
    requires
        0 <= span.start < span.end,
    ensures
        timeline::covered(seq![span_segment(span)]) == span.end - span.start,
        export::schedulable(seq![span_segment(span)]),
{
    let one = seq![span_segment(span)];
    assert(one.drop_last() =~= seq![]);
    reveal_with_fuel(timeline::covered, 2);
}

proof fn lemma_goal_entries(
    project: &Project,
    scores: Seq<Option<Score>>,
    spans: Seq<Span>,
    count: nat,
)
    requires
        count <= spans.len(),
        forall|i: int| 0 <= i < spans.len() ==> reel::playable(project, #[trigger] spans[i]),
    ensures
        goal_entries(project, scores, spans, count).len() == count,
        well_planned(goal_entries(project, scores, spans, count)),
    decreases count,
{
    if count > 0 {
        let before = goal_entries(project, scores, spans, (count - 1) as nat);
        lemma_goal_entries(project, scores, spans, (count - 1) as nat);
        assert(reel::playable(project, spans[count - 1]));
        lemma_span_segment(spans[count - 1]);
        lemma_well_planned_push(before, goal_entries(project, scores, spans, count).last());
    }
}

/// Every plan is well planned, and its frames fit their counter.
pub proof fn lemma_planned(project: &Project, target: ExportTarget, scores: Seq<Option<Score>>)
    requires
        plannable(project),
    ensures
        well_planned(planned(project, target, scores)),
        planned(project, target, scores).len() <= MAX_ENTRIES,
        end_frame(planned(project, target, scores)) <= u64::MAX,
{
    match target {
        ExportTarget::Reel(side) => {
            let goals = reel::goals_of(project, side);
            reel::law_goals_are_in_match_order(project, side);
            reel::lemma_goal_count(project, side);
            assert forall|i: int| 0 <= i < goals.len() implies goals[i]
                < project.match_events@.len() by {
                assert(goals.contains(goals[i]));
            }
            reel::lemma_spans(project, goals);
            let spans = reel::spans_of(project, goals);
            lemma_goal_entries(project, scores, spans, spans.len());
        },
        _ => {
            let clips = selected(project, target);
            project.clips@.lemma_filter_len(|c: Clip| covers(target, c));
            lemma_clip_entries(project, clips, clips.len());
        },
    }
}

/// The frames of a run of entries, added up.
pub open spec fn frame_sum(entries: Seq<PlanEntryView>) -> nat
    decreases entries.len(),
{
    if entries.len() == 0 {
        0
    } else {
        frame_sum(entries.drop_last()) + entries.last().frames
    }
}

/// **Entries follow one another without a gap**: each starts where the ones
/// before it end, gets exactly the frames its segments hold, and the plan's
/// length is their sum.
pub proof fn law_entries_are_contiguous(
    project: &Project,
    target: ExportTarget,
    scores: Seq<Option<Score>>,
    k: int,
)
    requires
        plannable(project),
        0 <= k < planned(project, target, scores).len(),
    ensures
        ({
            let entries = planned(project, target, scores);
            &&& entries[k].start_frame == frame_sum(entries.take(k))
            &&& entries[k].frames == export::frames_in(timeline::covered(entries[k].segments))
            &&& end_frame(entries) == frame_sum(entries)
        }),
{
    lemma_planned(project, target, scores);
    let entries = planned(project, target, scores);
    assert(in_place(entries, k));
    lemma_end_is_sum(entries, k);
    lemma_end_is_sum(entries, entries.len() as int);
    assert(entries.take(entries.len() as int) =~= entries);
}

proof fn lemma_end_is_sum(entries: Seq<PlanEntryView>, count: int)
    requires
        well_planned(entries),
        0 <= count <= entries.len(),
    ensures
        end_frame(entries.take(count)) == frame_sum(entries.take(count)),
    decreases count,
{
    if count > 0 {
        assert(entries.take(count).drop_last() =~= entries.take(count - 1));
        lemma_end_is_sum(entries, count - 1);
        assert(in_place(entries, count - 1));
    }
}

/// Whether a clip is asked for: every one, those that carry the tag, or the
/// one with the id.
pub open spec fn is_asked_for(target: ExportTarget, clip: Clip) -> bool {
    match target {
        ExportTarget::AllClips => true,
        ExportTarget::Tag(tag) => exists|t: int|
            0 <= t < clip.tags@.len() && (#[trigger] clip.tags@[t])@ == tag@,
        ExportTarget::Clip(id) => clip.id == id,
        ExportTarget::Reel(_) => false,
    }
}

/// Whether `asked` are the clips that are asked for, all of them, in stored
/// order.
pub open spec fn all_asked_for(
    clips: Seq<Clip>,
    target: ExportTarget,
    asked: Seq<int>,
) -> bool {
    &&& forall|k: int|
        0 <= k < asked.len() ==> 0 <= #[trigger] asked[k] < clips.len() && is_asked_for(
            target,
            clips[asked[k]],
        )
    &&& forall|j: int, k: int| 0 <= j < k < asked.len() ==> asked[j] < asked[k]
    &&& forall|i: int|
        0 <= i < clips.len() && is_asked_for(target, #[trigger] clips[i]) ==> asked.contains(i)
}

proof fn lemma_asked_for_are_selected(clips: Seq<Clip>, target: ExportTarget, asked: Seq<int>)
    requires
        all_asked_for(clips, target, asked),
    ensures
        clips.filter(|c: Clip| covers(target, c)) == asked.map_values(|i: int| clips[i]),
    decreases clips.len(),
{
    let p = |c: Clip| covers(target, c);
    reveal(Seq::filter);
    if clips.len() == 0 {
        if asked.len() > 0 {
            assert(0 <= asked[0] < clips.len());
        }
        assert(asked.map_values(|i: int| clips[i]) =~= clips.filter(p));
    } else {
        let before = clips.drop_last();
        let last = clips.len() - 1;
        assert(covers(target, clips[last]) == is_asked_for(target, clips[last])) by {
            if let ExportTarget::Tag(tag) = target {
                let tags = clips[last].tags@;
                if clips[last]@.tags.contains(tag@) {
                    let t = choose|t: int| 0 <= t < tags.len() && clips[last]@.tags[t] == tag@;
                    assert(tags[t]@ == tag@);
                }
                if exists|t: int| 0 <= t < tags.len() && (#[trigger] tags[t])@ == tag@ {
                    let t = choose|t: int| 0 <= t < tags.len() && (#[trigger] tags[t])@ == tag@;
                    assert(clips[last]@.tags[t] == tag@);
                }
            }
        }
        if is_asked_for(target, clips[last]) {
            assert(asked.contains(last));
            let k = asked.index_of(last);
            if k < asked.len() - 1 {
                assert(asked[k] < asked[k + 1] < clips.len());
            }
            let fewer = asked.drop_last();
            assert forall|i: int| 0 <= i < before.len() && is_asked_for(
                target,
                #[trigger] before[i],
            ) implies fewer.contains(i) by {
                assert(clips[i] == before[i]);
                assert(asked.contains(i));
                let j = asked.index_of(i);
                assert(fewer[j] == i);
            }
            assert forall|j: int| 0 <= j < fewer.len() implies 0 <= #[trigger] fewer[j]
                < before.len() && is_asked_for(target, before[fewer[j]]) by {
                assert(fewer[j] == asked[j]);
                assert(asked[j] < asked[k]);
                assert(is_asked_for(target, clips[asked[j]]));
            }
            lemma_asked_for_are_selected(before, target, fewer);
            assert(asked.map_values(|i: int| clips[i]) =~= fewer.map_values(
                |i: int| before[i],
            ).push(clips[last]));
        } else {
            assert forall|i: int| 0 <= i < before.len() && is_asked_for(
                target,
                #[trigger] before[i],
            ) implies asked.contains(i) by {
                assert(clips[i] == before[i]);
            }
            assert forall|j: int| 0 <= j < asked.len() implies 0 <= #[trigger] asked[j]
                < before.len() && is_asked_for(target, before[asked[j]]) by {
                assert(is_asked_for(target, clips[asked[j]]));
            }
            lemma_asked_for_are_selected(before, target, asked);
            assert(asked.map_values(|i: int| clips[i]) =~= asked.map_values(|i: int| before[i]));
        }
    }
}

proof fn lemma_a_clip_entry(project: &Project, clips: Seq<Clip>, count: nat, k: int)
    requires
        0 <= k < count <= clips.len(),
    ensures
        ({
            let entries = clip_entries(project, clips, count);
            let segments = clip_segments(project, clips[k]);
            &&& entries.len() == count
            &&& entries[k].clip_id == Some(clips[k].id)
            &&& entries[k].source_index == clips[k].source_index
            &&& entries[k].segments == segments
            &&& entries[k].frames == export::frames_in(timeline::covered(segments))
            &&& entries[k].start_frame == if k == 0 {
                0
            } else {
                entries[k - 1].start_frame + entries[k - 1].frames
            }
            &&& entries[k].text == clip_text(clips[k], (k + 1) as nat, clips.len())
        }),
    decreases count,
{
    lemma_clip_entries(project, clips, count);
    lemma_clip_entries(project, clips, (count - 1) as nat);
    if k < count - 1 {
        lemma_a_clip_entry(project, clips, (count - 1) as nat, k);
    }
}

/// **An export of clips plays each of them**: one entry for each clip that is
/// asked for, in stored order, from its own source, with the segments of its
/// recording, as many frames as they have frame times, and its line of text.
/// Each entry starts where the one before it ends.
pub proof fn law_an_export_plays_each_clip(
    project: &Project,
    target: ExportTarget,
    scores: Seq<Option<Score>>,
    asked: Seq<int>,
    k: int,
)
    requires
        !(target is Reel),
        all_asked_for(project.clips@, target, asked),
        0 <= k < asked.len(),
        project.clips@[asked[k]].source_index < project.source_videos@.len(),
    ensures
        ({
            let entries = planned(project, target, scores);
            let clip = project.clips@[asked[k]];
            let segments = timeline::segments_of(
                clip.start_source as int,
                clip.events@,
                clip.recording_duration as int,
                project.source_videos@[clip.source_index as int].duration as int,
            );
            let name = text::trimmed(clip.name@);
            let tags = text::joined(text::texts(clip.tags@), ", "@);
            let place = text::decimal((k + 1) as nat) + " / "@ + text::decimal(asked.len());
            let frames = entries[k].frames;
            &&& entries.len() == asked.len()
            &&& entries[k].clip_id == Some(clip.id)
            &&& entries[k].source_index == clip.source_index
            &&& entries[k].segments == segments
            &&& frames > 0 ==> (frames - 1) * 100_000_000 < timeline::covered(segments) - 100
            &&& frames * 100_000_000 >= timeline::covered(segments) - 100
            &&& entries[0].start_frame == 0
            &&& k > 0 ==> entries[k].start_frame == entries[k - 1].start_frame
                + entries[k - 1].frames
            &&& name.len() == 0 && tags.len() == 0 ==> entries[k].text == place
            &&& name.len() > 0 && tags.len() == 0 ==> entries[k].text == place + " | "@ + name
            &&& name.len() == 0 && tags.len() > 0 ==> entries[k].text == place + " | "@ + tags
            &&& name.len() > 0 && tags.len() > 0 ==> entries[k].text == place + " | "@ + name
                + " | "@ + tags
        }),
{
    lemma_asked_for_are_selected(project.clips@, target, asked);
    let clips = selected(project, target);
    assert(clips.len() == asked.len());
    assert(clips[k] == project.clips@[asked[k]]);
    lemma_a_clip_entry(project, clips, clips.len(), k);
    lemma_a_clip_entry(project, clips, clips.len(), 0);
    let entries = planned(project, target, scores);
    let segments = clip_segments(project, clips[k]);
    let ticks = timeline::covered(segments);
    export::law_a_frame_exists_iff_its_time_is_inside(ticks, entries[k].frames as int);
    if entries[k].frames > 0 {
        export::law_a_frame_exists_iff_its_time_is_inside(ticks, entries[k].frames - 1);
    }
    let name = text::trimmed(clips[k].name@);
    let tags = text::joined(text::texts(clips[k].tags@), ", "@);
    let place = text::decimal((k + 1) as nat) + " / "@ + text::decimal(asked.len());
    let line = clip_text(clips[k], (k + 1) as nat, clips.len());
    if name.len() == 0 && tags.len() == 0 {
        assert(line =~= place);
    } else if tags.len() == 0 {
        assert(line =~= place + " | "@ + name);
    } else if name.len() == 0 {
        assert(line =~= place + " | "@ + tags);
    } else {
        assert(line =~= place + " | "@ + name + " | "@ + tags);
    }
}

proof fn lemma_a_goal_entry(
    project: &Project,
    scores: Seq<Option<Score>>,
    spans: Seq<Span>,
    count: nat,
    k: int,
)
    requires
        0 <= k < count <= spans.len(),
        forall|i: int| 0 <= i < spans.len() ==> reel::playable(project, #[trigger] spans[i]),
    ensures
        ({
            let entries = goal_entries(project, scores, spans, count);
            &&& entries.len() == count
            &&& entries[k].clip_id is None
            &&& entries[k].source_index == spans[k].source_index
            &&& entries[k].segments == seq![span_segment(spans[k])]
            &&& entries[k].frames == export::frames_in(spans[k].end - spans[k].start)
            &&& entries[k].start_frame == if k == 0 {
                0
            } else {
                entries[k - 1].start_frame + entries[k - 1].frames
            }
            &&& entries[k].text == goal_text(
                project,
                scores,
                spans[k].goal,
                (k + 1) as nat,
                spans.len(),
            )
        }),
    decreases count,
{
    lemma_goal_entries(project, scores, spans, count);
    lemma_goal_entries(project, scores, spans, (count - 1) as nat);
    if k < count - 1 {
        lemma_a_goal_entry(project, scores, spans, (count - 1) as nat, k);
    }
}

/// **A reel plays each of its spans**: one entry for each, game video alone,
/// from where the span starts to where it ends, with the goal's team and the
/// score after it in its line of text. Each entry starts where the one before
/// it ends.
pub proof fn law_a_reel_plays_each_span(
    project: &Project,
    side: ReelSide,
    scores: Seq<Option<Score>>,
    k: int,
)
    requires
        plannable(project),
        0 <= k < reel::spans_of(project, reel::goals_of(project, side)).len(),
    ensures
        ({
            let spans = reel::spans_of(project, reel::goals_of(project, side));
            let span = spans[k];
            let entries = planned(project, ExportTarget::Reel(side), scores);
            let home = project.match_events@[span.goal as int].kind == MatchEventKind::HomeGoal;
            let team = match project.scoreboard {
                Some(config) if home => config.home.name@,
                Some(config) => config.away.name@,
                None if home => "Home"@,
                None => "Away"@,
            };
            let line = text::decimal((k + 1) as nat) + " / "@ + text::decimal(spans.len())
                + " | "@ + team + " goal"@;
            let frames = entries[k].frames;
            &&& entries.len() == spans.len()
            &&& entries[k].clip_id is None
            &&& entries[k].source_index == span.source_index
            &&& entries[k].segments.len() == 1
            &&& entries[k].segments[0].kind is Play
            &&& entries[k].segments[0].source_start == span.start
            &&& entries[k].segments[0].out_duration == span.end - span.start
            &&& frames > 0 ==> (frames - 1) * 100_000_000 < span.end - span.start - 100
            &&& frames * 100_000_000 >= span.end - span.start - 100
            &&& entries[0].start_frame == 0
            &&& k > 0 ==> entries[k].start_frame == entries[k - 1].start_frame
                + entries[k - 1].frames
            &&& span.goal >= scores.len() || scores[span.goal as int] is None ==> entries[k].text
                == line
            &&& span.goal < scores.len() && scores[span.goal as int] is Some
                ==> entries[k].text == line + " | "@ + text::decimal(
                (scores[span.goal as int]->0).home as nat,
            ) + "-"@ + text::decimal((scores[span.goal as int]->0).away as nat)
        }),
{
    let goals = reel::goals_of(project, side);
    let spans = reel::spans_of(project, goals);
    reel::law_goals_are_in_match_order(project, side);
    reel::lemma_goal_count(project, side);
    assert forall|i: int| 0 <= i < goals.len() implies goals[i] < project.match_events@.len() by {
        assert(goals.contains(goals[i]));
    }
    reel::lemma_spans(project, goals);
    lemma_a_goal_entry(project, scores, spans, spans.len(), k);
    lemma_a_goal_entry(project, scores, spans, spans.len(), 0);
    assert(reel::playable(project, spans[k]));
    let ticks = spans[k].end - spans[k].start;
    let frames = planned(project, ExportTarget::Reel(side), scores)[k].frames;
    export::law_a_frame_exists_iff_its_time_is_inside(ticks, frames as int);
    if frames > 0 {
        export::law_a_frame_exists_iff_its_time_is_inside(ticks, frames - 1);
    }
}

// ---------------------------------------------------------------------------
// Planning.

/// Whether `target` covers a clip.
fn is_covered(target: &ExportTarget, clip: &Clip) -> (covered: bool)
    ensures
        covered == covers(*target, *clip),
{
    match target {
        ExportTarget::AllClips => true,
        ExportTarget::Tag(tag) => text::contains_text(&clip.tags, tag),
        ExportTarget::Clip(id) => clip.id == *id,
        ExportTarget::Reel(_) => false,
    }
}

/// The clips `target` covers, in stored order, as indices.
pub(crate) fn selected_clips(project: &Project, target: &ExportTarget) -> (indices: Vec<usize>)
    ensures
        indices@.len() == selected(project, *target).len(),
        forall|i: int|
            0 <= i < indices@.len() ==> #[trigger] indices@[i] < project.clips@.len()
                && project.clips@[indices@[i] as int] == selected(project, *target)[i],
{
    let ghost p = |c: Clip| covers(*target, c);
    let mut indices: Vec<usize> = Vec::new();
    proof {
        reveal(Seq::filter);
        assert(project.clips@.take(0).filter(p) =~= seq![]);
    }
    for i in 0..project.clips.len()
        invariant
            p == (|c: Clip| covers(*target, c)),
            indices@.len() == project.clips@.take(i as int).filter(p).len(),
            forall|j: int|
                0 <= j < indices@.len() ==> #[trigger] indices@[j] < project.clips@.len()
                    && project.clips@[indices@[j] as int] == project.clips@.take(i as int).filter(
                    p,
                )[j],
    {
        proof {
            reveal(Seq::filter);
            assert(project.clips@.take(i + 1).drop_last() =~= project.clips@.take(i as int));
        }
        if is_covered(target, &project.clips[i]) {
            indices.push(i);
        }
    }
    assert(project.clips@.take(project.clips@.len() as int) =~= project.clips@);
    indices
}

fn push_place(out: &mut String, n: usize, total: usize)
    ensures
        final(out)@ == old(out)@ + place_text(n as nat, total as nat),
{
    text::push_decimal(out, n as u64);
    out.append(" / ");
    text::push_decimal(out, total as u64);
    assert(out@ =~= old(out)@ + place_text(n as nat, total as nat));
}

/// The bar's line for the `n`th of `total` clips.
fn entry_text(clip: &Clip, n: usize, total: usize) -> (line: String)
    ensures
        line@ == clip_text(*clip, n as nat, total as nat),
{
    let mut line = String::new();
    push_place(&mut line, n, total);
    let name = text::trim(clip.name.as_str());
    let tags = text::join(&clip.tags, ", ");
    let ghost place = line@;
    assert(place =~= place_text(n as nat, total as nat));
    if !name.as_str().is_empty() {
        line.append(" | ");
        line.append(name.as_str());
    }
    if !tags.as_str().is_empty() {
        line.append(" | ");
        line.append(tags.as_str());
    }
    assert(line@ =~= clip_text(*clip, n as nat, total as nat));
    line
}

/// A goal's caption.
fn goal_caption(
    project: &Project,
    scores: &Vec<Option<Score>>,
    goal: usize,
    n: usize,
    total: usize,
) -> (line: String)
    requires
        goal < project.match_events@.len(),
    ensures
        line@ == goal_text(project, scores@, goal, n as nat, total as nat),
{
    let mut line = String::new();
    push_place(&mut line, n, total);
    line.append(" | ");
    let home = project.match_events[goal].kind == MatchEventKind::HomeGoal;
    match &project.scoreboard {
        Some(config) => {
            if home {
                line.append(config.home.name.as_str());
            } else {
                line.append(config.away.name.as_str());
            }
        },
        None => {
            if home {
                line.append("Home");
            } else {
                line.append("Away");
            }
        },
    }
    line.append(" goal");
    let ghost named = place_text(n as nat, total as nat) + " | "@ + team_name(
        project.scoreboard,
        home,
    ) + " goal"@;
    assert(line@ =~= named);
    if goal < scores.len() {
        if let Some(score) = scores[goal] {
            line.append(" | ");
            text::push_decimal(&mut line, score.home as u64);
            line.append("-");
            text::push_decimal(&mut line, score.away as u64);
        }
    }
    assert(line@ =~= goal_text(project, scores@, goal, n as nat, total as nat));
    line
}

/// How much of the recording the segments cover.
fn covered_by(segments: &Vec<PlaybackSegment>) -> (ticks: i64)
    requires
        export::schedulable(segments@),
    ensures
        ticks == timeline::covered(segments@),
{
    let mut ticks: i64 = 0;
    assert(segments@.take(0) =~= seq![]);
    for i in 0..segments.len()
        invariant
            export::schedulable(segments@),
            0 <= ticks == export::segment_start(segments@, i as int),
    {
        proof {
            assert(segments@.take(i + 1).drop_last() =~= segments@.take(i as int));
            export::lemma_starts_ascend(segments@, i as int, i + 1);
        }
        ticks = ticks + segments[i].out_duration;
    }
    assert(segments@.take(segments@.len() as int) =~= segments@);
    ticks
}

fn source_duration_of(project: &Project, clip: &Clip) -> (duration: i64)
    ensures
        duration == clip_source_duration(project, *clip),
{
    if clip.source_index < project.source_videos.len() {
        return project.source_videos[clip.source_index].duration;
    }
    let covering: i128 = clip.start_source as i128 + clip.recording_duration as i128;
    if covering > i64::MAX as i128 {
        i64::MAX
    } else if covering < i64::MIN as i128 {
        i64::MIN
    } else {
        covering as i64
    }
}

/// The output frames of one clip on its own.
pub(crate) fn clip_frames(project: &Project, clip: &Clip) -> (frames: u64)
    ensures
        frames == export::frames_in(timeline::covered(clip_segments(project, *clip))),
{
    let segments = playback_segments(clip, source_duration_of(project, clip));
    proof {
        lemma_clip_segments(project, *clip);
    }
    frame_count(covered_by(&segments))
}

/// Build a plan for `target`.
///
/// The sources' own durations are the single duration authority. `scores`
/// holds what the scoreboard shows after each match event, `None` where it has
/// no state; only a reel's captions read it.
pub fn compilation_plan(
    project: &Project,
    target: &ExportTarget,
    scores: &Vec<Option<Score>>,
) -> (plan: CompilationPlan)
    requires
        plannable(project),
    ensures
        views(plan.entries@) == planned(project, *target, scores@),
{
    match target {
        ExportTarget::Reel(side) => CompilationPlan {
            entries: reel_entries(project, *side, scores),
        },
        _ => CompilationPlan { entries: clip_plan(project, target) },
    }
}

fn clip_plan(project: &Project, target: &ExportTarget) -> (entries: Vec<PlanEntry>)
    requires
        plannable(project),
        !(target is Reel),
    ensures
        views(entries@) == clip_entries(
            project,
            selected(project, *target),
            selected(project, *target).len(),
        ),
{
    let clips = selected_clips(project, target);
    let ghost chosen = selected(project, *target);
    proof {
        project.clips@.lemma_filter_len(|c: Clip| covers(*target, c));
    }
    let mut entries: Vec<PlanEntry> = Vec::new();
    let mut start_frame: u64 = 0;
    assert(views(entries@) =~= clip_entries(project, chosen, 0));
    for i in 0..clips.len()
        invariant
            plannable(project),
            chosen.len() <= MAX_ENTRIES,
            clips@.len() == chosen.len(),
            forall|j: int|
                0 <= j < clips@.len() ==> #[trigger] clips@[j] < project.clips@.len()
                    && project.clips@[clips@[j] as int] == chosen[j],
            views(entries@) == clip_entries(project, chosen, i as nat),
            start_frame == end_frame(views(entries@)),
    {
        let ghost before = views(entries@);
        let clip = &project.clips[clips[i]];
        let segments = playback_segments(clip, source_duration_of(project, clip));
        proof {
            lemma_clip_entries(project, chosen, i as nat);
            lemma_clip_segments(project, *clip);
            assert(start_frame <= i * 92_233_720_369);
        }
        // Quantized per entry, so the next one starts on a frame boundary.
        let frames = frame_count(covered_by(&segments));
        let entry = PlanEntry {
            clip_id: Some(clip.id),
            source_index: clip.source_index,
            segments,
            start_frame,
            frames,
            text: entry_text(clip, i + 1, clips.len()),
        };
        let ghost view = entry@;
        entries.push(entry);
        proof {
            assert(views(entries@) =~= before.push(view));
            assert(view =~= clip_entries(project, chosen, (i + 1) as nat).last());
        }
        start_frame = start_frame + frames;
    }
    entries
}

/// A reel's entries: one per span.
pub(crate) fn reel_entries(
    project: &Project,
    side: ReelSide,
    scores: &Vec<Option<Score>>,
) -> (entries: Vec<PlanEntry>)
    requires
        plannable(project),
    ensures
        views(entries@) == planned(project, ExportTarget::Reel(side), scores@),
{
    let spans = reel_spans(project, side);
    let mut entries: Vec<PlanEntry> = Vec::new();
    let mut start_frame: u64 = 0;
    assert(views(entries@) =~= goal_entries(project, scores@, spans@, 0));
    for i in 0..spans.len()
        invariant
            plannable(project),
            spans@.len() <= project.match_events@.len(),
            forall|k: int| 0 <= k < spans@.len() ==> reel::playable(project, #[trigger] spans@[k]),
            views(entries@) == goal_entries(project, scores@, spans@, i as nat),
            start_frame == end_frame(views(entries@)),
    {
        let ghost before = views(entries@);
        let span = spans[i];
        proof {
            lemma_goal_entries(project, scores@, spans@, i as nat);
            assert(reel::playable(project, spans@[i as int]));
            assert(start_frame <= i * 92_233_720_369);
        }
        let length: i64 = span.end - span.start;
        let frames = frame_count(length);
        let mut segments: Vec<PlaybackSegment> = Vec::new();
        segments.push(
            PlaybackSegment {
                kind: SegmentKind::Play,
                source_start: span.start,
                out_duration: length,
            },
        );
        let entry = PlanEntry {
            clip_id: None,
            source_index: span.source_index,
            segments,
            start_frame,
            frames,
            text: goal_caption(project, scores, span.goal, i + 1, spans.len()),
        };
        let ghost view = entry@;
        entries.push(entry);
        proof {
            assert(views(entries@) =~= before.push(view));
            assert(view =~= goal_entries(project, scores@, spans@, (i + 1) as nat).last());
        }
        start_frame = start_frame + frames;
    }
    entries
}

/// **A plan of clips has each clip that is asked for**, in stored order, and
/// nothing else.
pub proof fn law_a_plan_has_each_clip_asked_for(
    project: &Project,
    target: &ExportTarget,
    scores: &Vec<Option<Score>>,
    made: CompilationPlan,
    asked: Seq<int>,
    k: int,
)
    requires
        call_ensures(compilation_plan, (project, target, scores), made),
        plannable(project),
        !(target is Reel),
        all_asked_for(project.clips@, *target, asked),
        0 <= k < asked.len(),
        project.clips@[asked[k]].source_index < project.source_videos@.len(),
    ensures
        made.entries@.len() == asked.len(),
        made.entries@[k].clip_id == Some(project.clips@[asked[k]].id),
        made.entries@[k].source_index == project.clips@[asked[k]].source_index,
        made.entries@[k].segments@ == timeline::segments_of(
            project.clips@[asked[k]].start_source as int,
            project.clips@[asked[k]].events@,
            project.clips@[asked[k]].recording_duration as int,
            project.source_videos@[project.clips@[asked[k]].source_index as int].duration as int,
        ),
        made.entries@[0].start_frame == 0,
        k > 0 ==> made.entries@[k].start_frame == made.entries@[k - 1].start_frame
            + made.entries@[k - 1].frames,
{
    law_an_export_plays_each_clip(project, *target, scores@, asked, k);
    let entries = planned(project, *target, scores@);
    assert(entries.len() == made.entries@.len());
    assert(entries[k] == made.entries@[k]@);
    assert(entries[0] == made.entries@[0]@);
    if k > 0 {
        assert(entries[k - 1] == made.entries@[k - 1]@);
    }
}

/// **A frame's record time is its place in its entry**, a thirtieth of a second
/// each; and a plan is as long as its last entry's end.
pub proof fn law_a_frame_s_record_time_is_its_place(
    entry: &PlanEntry,
    n: u64,
    at: i128,
    plan: &CompilationPlan,
    total: u64,
)
    requires
        entry.start_frame + n <= u64::MAX,
        call_ensures(PlanEntry::record_time, (entry, (entry.start_frame + n) as u64), at),
        call_ensures(CompilationPlan::total_frames, (plan,), total),
    ensures
        at == 100_000_000 * n,
        plan.entries@.len() == 0 ==> total == 0,
        plan.entries@.len() > 0 ==> total == plan.entries@.last().start_frame
            + plan.entries@.last().frames,
{
    if plan.entries@.len() > 0 {
        assert(views(plan.entries@).last() == plan.entries@.last()@);
    }
}

} // verus!
