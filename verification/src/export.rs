//! The edit an export renders: which source frame lands at each output frame.
//!
//! The schedule carries **no play or freeze flag**: the pump answers "the last
//! decoded frame at or before `source_time`", so a repeated `source_time`
//! pushes the same picture again. That one rule covers freezes, 25 to 30 fps
//! duplication and 60 to 30 fps drops.
//!
//! [`RateWindow`] lives here too: it measures the same frames the schedule
//! hands out, so a run's progress and its estimate count the same thing.

use std::collections::VecDeque;

use vstd::prelude::*;

use crate::plan;
use crate::plan::{compilation_plan, CompilationPlan, ExportTarget, PlanEntryView, Score};
use crate::project::Project;
use crate::time;
use crate::time::TICKS_PER_FRAME;
use crate::timeline;
use crate::timeline::{PlaybackSegment, SegmentKind};

verus! {

/// Output frame rate. Frame `n` sits at `n / OUTPUT_FPS` seconds, which is `n`
/// times [`TICKS_PER_FRAME`].
pub const OUTPUT_FPS: u32 = 30;

/// Slack when comparing a frame's time against a segment boundary: a millionth
/// of a frame.
///
/// Boundaries come from a clock that rounds, so noise must not add a frame to
/// the count or push a frame into the segment before the boundary it sits on.
/// The count and the segment lookup use the same slack so they can't disagree.
pub const FRAME_SLACK: i64 = 100;

/// When output frame `n` of an entry sits, in ticks.
pub open spec fn frame_time(n: int) -> int {
    n * TICKS_PER_FRAME
}

/// How many output frames a span gets: one for every frame time inside it.
pub open spec fn frames_in(ticks: int) -> nat {
    if ticks <= FRAME_SLACK {
        0
    } else {
        ((ticks - FRAME_SLACK + TICKS_PER_FRAME - 1) / (TICKS_PER_FRAME as int)) as nat
    }
}

/// **A span has frame `n` if and only if that frame's time lies inside it**,
/// up to the slack: so a span shorter than a frame can still get one.
pub proof fn law_a_frame_exists_iff_its_time_is_inside(ticks: int, n: int)
    requires
        n >= 0,
    ensures
        n < frames_in(ticks) <==> frame_time(n) < ticks - FRAME_SLACK,
        n < frames_in(ticks) <==> n * 100_000_000 < ticks - 100,
{
}

/// How many output frames a span of `ticks` gets.
pub fn frame_count(ticks: i64) -> (frames: u64)
    ensures
        frames == frames_in(ticks as int),
        frames <= 92_233_720_369,
{
    if ticks <= FRAME_SLACK {
        0
    } else {
        ((ticks - FRAME_SLACK) as u64 + 99_999_999) / 100_000_000
    }
}

// ---------------------------------------------------------------------------
// The rate of a run.

/// How far back the rate window looks: 30 s.
pub const RATE_WINDOW: i64 = 90_000_000_000;

/// Samples a rate needs before it is reported at all. The first seconds of an
/// export are the pipeline filling, and an estimate that leaps is worse than
/// none.
pub const RATE_MIN_SAMPLES: usize = 5;

/// How long the samples must span before a rate is reported: 2 s.
pub const RATE_MIN_SPAN: i64 = 6_000_000_000;

/// A rate: so many output frames in so many ticks. `frames` is negative where
/// a frame count went backwards.
#[derive(Debug, Clone, Copy, PartialEq, Eq, Structural)]
pub struct Rate {
    pub frames: i128,
    pub ticks: i128,
}

/// The samples without the leading ones older than `cutoff`.
pub open spec fn fresh(samples: Seq<(i64, u64)>, cutoff: int) -> Seq<(i64, u64)>
    decreases samples.len(),
{
    if samples.len() > 0 && samples[0].0 < cutoff {
        fresh(samples.drop_first(), cutoff)
    } else {
        samples
    }
}

/// The samples after one more, those out of the window dropped.
pub open spec fn sampled(samples: Seq<(i64, u64)>, frames_done: u64, elapsed: i64) -> Seq<
    (i64, u64),
> {
    fresh(samples.push((elapsed, frames_done)), elapsed - RATE_WINDOW)
}

/// The rate a window of samples shows, once it is wide enough to trust.
pub open spec fn rate_over(samples: Seq<(i64, u64)>) -> Option<Rate> {
    if samples.len() < RATE_MIN_SAMPLES || samples.last().0 - samples[0].0 < RATE_MIN_SPAN {
        None
    } else {
        Some(
            Rate {
                frames: (samples.last().1 - samples[0].1) as i128,
                ticks: (samples.last().0 - samples[0].0) as i128,
            },
        )
    }
}

/// The export's rate over a trailing window, in output frames per tick of wall
/// time.
#[derive(Debug)]
pub struct RateWindow {
    /// `(elapsed, frames_done)`, oldest first.
    samples: VecDeque<(i64, u64)>,
}

impl View for RateWindow {
    type V = Seq<(i64, u64)>;

    closed spec fn view(&self) -> Seq<(i64, u64)> {
        self.samples@
    }
}

impl RateWindow {
    pub fn new() -> (window: RateWindow)
        ensures
            window@ == Seq::<(i64, u64)>::empty(),
    {
        RateWindow { samples: VecDeque::new() }
    }

    /// Record `frames_done` at `elapsed` ticks into the run and return the
    /// rate, or `None` until the window is wide enough to trust.
    pub fn sample(&mut self, frames_done: u64, elapsed: i64) -> (rate: Option<Rate>)
        ensures
            final(self)@ == sampled(old(self)@, frames_done, elapsed),
            rate == rate_over(final(self)@),
            final(self)@.len() > 0,
            final(self)@.last() == (elapsed, frames_done),
    {
        let ghost pushed = self@.push((elapsed, frames_done));
        let ghost cutoff_time: int = elapsed - RATE_WINDOW;
        self.samples.push_back((elapsed, frames_done));
        let cutoff: i128 = elapsed as i128 - RATE_WINDOW as i128;
        while self.samples.len() > 0 && (self.samples[0].0 as i128) < cutoff
            invariant
                cutoff == cutoff_time == elapsed - RATE_WINDOW,
                fresh(self.samples@, cutoff_time) == fresh(pushed, cutoff_time),
                self.samples@.len() > 0,
                self.samples@.last() == (elapsed, frames_done),
            decreases self.samples@.len(),
        {
            let ghost before = self.samples@;
            let _dropped = self.samples.pop_front();
            assert(self.samples@ =~= before.drop_first());
        }
        if self.samples.len() < RATE_MIN_SAMPLES {
            return None;
        }
        let (t0, f0) = self.samples[0];
        let (t1, f1) = self.samples[self.samples.len() - 1];
        let span: i128 = t1 as i128 - t0 as i128;
        if span < RATE_MIN_SPAN as i128 {
            return None;
        }
        Some(Rate { frames: f1 as i128 - f0 as i128, ticks: span })
    }
}

/// **The window only looks back so far**: every sample left is at most 30 s
/// older than the newest, given that time went forwards.
pub proof fn law_the_window_is_bounded(samples: Seq<(i64, u64)>, cutoff: int, i: int)
    requires
        forall|a: int, b: int| 0 <= a <= b < samples.len() ==> samples[a].0 <= samples[b].0,
        0 <= i < fresh(samples, cutoff).len(),
    ensures
        fresh(samples, cutoff)[i].0 >= cutoff,
    decreases samples.len(),
{
    if samples.len() > 0 && samples[0].0 < cutoff {
        law_the_window_is_bounded(samples.drop_first(), cutoff, i);
    }
}

proof fn lemma_fresh_is_a_tail(samples: Seq<(i64, u64)>, cutoff: int) -> (from: int)
    ensures
        0 <= from <= samples.len(),
        fresh(samples, cutoff) == samples.skip(from),
        forall|i: int| 0 <= i < from ==> (#[trigger] samples[i]).0 < cutoff,
        from < samples.len() ==> samples[from].0 >= cutoff,
    decreases samples.len(),
{
    if samples.len() > 0 && samples[0].0 < cutoff {
        let rest = samples.drop_first();
        let from = lemma_fresh_is_a_tail(rest, cutoff);
        assert(rest.skip(from) =~= samples.skip(from + 1));
        assert forall|i: int| 0 <= i < from + 1 implies (#[trigger] samples[i]).0 < cutoff by {
            if i > 0 {
                assert(rest[i - 1] == samples[i]);
            }
        }
        if from < rest.len() {
            assert(rest[from] == samples[from + 1]);
        }
        from + 1
    } else {
        assert(samples.skip(0) =~= samples);
        0
    }
}

/// **A sample joins the window, and only what is too old leaves it**: the
/// leading samples over 30 s older than it, up to the first that is not. The
/// rate is the frames and the time from the oldest sample left to the newest,
/// once there are five and they span 2 s.
pub proof fn law_the_rate_is_the_window_s(
    samples: Seq<(i64, u64)>,
    frames_done: u64,
    elapsed: i64,
) -> (from: int)
    ensures
        0 <= from <= samples.len(),
        sampled(samples, frames_done, elapsed) == samples.push((elapsed, frames_done)).skip(from),
        forall|i: int| 0 <= i < from ==> (#[trigger] samples[i]).0 < elapsed - 90_000_000_000,
        from < samples.len() ==> samples[from].0 >= elapsed - 90_000_000_000,
        ({
            let oldest = samples.push((elapsed, frames_done))[from];
            let rate = rate_over(sampled(samples, frames_done, elapsed));
            &&& rate is Some <==> samples.len() + 1 - from >= 5 && elapsed - oldest.0
                >= 6_000_000_000
            &&& rate matches Some(r) ==> r.frames == frames_done - oldest.1 && r.ticks == elapsed
                - oldest.0
        }),
{
    let all = samples.push((elapsed, frames_done));
    let from = lemma_fresh_is_a_tail(all, elapsed - RATE_WINDOW);
    if from > samples.len() {
        assert(all[samples.len() as int].0 == elapsed);
    }
    assert forall|i: int| 0 <= i < from implies (#[trigger] samples[i]).0 < elapsed
        - 90_000_000_000 by {
        assert(all[i] == samples[i]);
    }
    let left = all.skip(from);
    assert(left[0] == all[from]);
    assert(left.last() == all.last());
    from
}

// ---------------------------------------------------------------------------
// The schedule.

/// One output frame.
#[derive(Debug, Clone, Copy, PartialEq, Eq, Structural)]
pub struct FrameSpec {
    /// Index into `CompilationPlan::entries` of the entry this frame belongs
    /// to. The source video and the record time are derived from that entry.
    pub entry: usize,
    /// Source-video time to show, in ticks: the pump pushes the last decoded
    /// frame at or before it.
    pub source_time: i64,
}

/// Every output frame of one export target, with the plan they came from.
/// Frame `n` of the output is `frames[n]`.
#[derive(Debug, PartialEq, Eq)]
pub struct Compilation {
    pub frames: Vec<FrameSpec>,
    pub plan: CompilationPlan,
}

/// Where segment `k` begins on the entry's timeline.
pub open spec fn segment_start(segments: Seq<PlaybackSegment>, k: int) -> int {
    timeline::covered(segments.take(k))
}

/// The segment a moment falls in, looking from segment `k` on: the first that
/// ends after it by more than the slack, or else the last.
pub open spec fn segment_showing(segments: Seq<PlaybackSegment>, at: int, k: int) -> int
    decreases segments.len() - k,
{
    if k + 1 < segments.len() && at >= segment_start(segments, k + 1) - FRAME_SLACK {
        segment_showing(segments, at, k + 1)
    } else {
        k
    }
}

/// The source position at a moment of segment `k`. The slack can put the
/// moment just before the segment's start, which then shows its start.
pub open spec fn shown_in(segments: Seq<PlaybackSegment>, k: int, at: int) -> int {
    let offset = at - segment_start(segments, k);
    timeline::shown(segments[k], time::larger(offset, 0))
}

/// The source position output frame `n` of an entry shows.
pub open spec fn frame_source(segments: Seq<PlaybackSegment>, n: int) -> int {
    shown_in(segments, segment_showing(segments, frame_time(n), 0), frame_time(n))
}

/// The frames of one entry: none where it has no segment to show.
pub open spec fn entry_frames(entry: PlanEntryView, index: int) -> Seq<FrameSpec> {
    if entry.segments.len() == 0 {
        seq![]
    } else {
        Seq::new(
            entry.frames,
            |n: int| FrameSpec {
                entry: index as usize,
                source_time: frame_source(entry.segments, n) as i64,
            },
        )
    }
}

/// The frames of a run of entries.
pub open spec fn schedule_of(entries: Seq<PlanEntryView>) -> Seq<FrameSpec>
    decreases entries.len(),
{
    if entries.len() == 0 {
        seq![]
    } else {
        schedule_of(entries.drop_last()) + entry_frames(entries.last(), entries.len() - 1)
    }
}

/// Segments as the planner makes them: each can be served, and together they
/// end within the machine's range.
pub open spec fn schedulable(segments: Seq<PlaybackSegment>) -> bool {
    &&& timeline::covered(segments) <= i64::MAX
    &&& forall|i: int|
        0 <= i < segments.len() ==> (#[trigger] segments[i]).out_duration > 0 && (
        segments[i].kind is Play ==> segments[i].source_start + segments[i].out_duration
            <= i64::MAX)
}

pub proof fn lemma_starts_ascend(segments: Seq<PlaybackSegment>, a: int, b: int)
    requires
        schedulable(segments),
        0 <= a <= b <= segments.len(),
    ensures
        0 <= segment_start(segments, a) <= segment_start(segments, b) <= timeline::covered(segments),
        a < b ==> segment_start(segments, a) < segment_start(segments, b),
    decreases b,
{
    lemma_start_is_within(segments, b);
    if b > 0 {
        lemma_starts_ascend(
            segments,
            if a < b {
                a
            } else {
                b - 1
            },
            b - 1,
        );
        assert(segments.take(b).drop_last() =~= segments.take(b - 1));
        assert(segments[b - 1].out_duration > 0);
    } else {
        assert(segments.take(0) =~= seq![]);
    }
}

proof fn lemma_start_is_within(segments: Seq<PlaybackSegment>, k: int)
    requires
        schedulable(segments),
        0 <= k <= segments.len(),
    ensures
        segment_start(segments, k) <= timeline::covered(segments),
    decreases segments.len() - k,
{
    if k == segments.len() {
        assert(segments.take(k) =~= segments);
    } else {
        lemma_start_is_within(segments, k + 1);
        assert(segments.take(k + 1).drop_last() =~= segments.take(k));
        assert(segments[k].out_duration > 0);
    }
}

/// What the lookup finds.
proof fn lemma_showing(segments: Seq<PlaybackSegment>, at: int, k: int)
    requires
        0 <= k < segments.len(),
        k > 0 ==> at >= segment_start(segments, k) - FRAME_SLACK,
    ensures
        k <= segment_showing(segments, at, k) < segments.len(),
        segment_showing(segments, at, k) > 0 ==> at >= segment_start(
            segments,
            segment_showing(segments, at, k),
        ) - FRAME_SLACK,
        segment_showing(segments, at, k) + 1 < segments.len() ==> at < segment_start(
            segments,
            segment_showing(segments, at, k) + 1,
        ) - FRAME_SLACK,
    decreases segments.len() - k,
{
    if k + 1 < segments.len() && at >= segment_start(segments, k + 1) - FRAME_SLACK {
        lemma_showing(segments, at, k + 1);
    }
}

/// A later moment's lookup can start where an earlier one ended.
proof fn lemma_showing_resumes(segments: Seq<PlaybackSegment>, at: int, k: int)
    requires
        schedulable(segments),
        0 <= k < segments.len(),
        k > 0 ==> at >= segment_start(segments, k) - FRAME_SLACK,
    ensures
        segment_showing(segments, at, 0) == segment_showing(segments, at, k),
    decreases k,
{
    if k > 0 {
        lemma_starts_ascend(segments, k - 1, k);
        lemma_showing_resumes(segments, at, k - 1);
    }
}

/// The frame's time is inside its segment, up to the slack, so its source
/// position is in range.
proof fn lemma_frame_source_is_in_range(segments: Seq<PlaybackSegment>, k: int, at: int)
    requires
        schedulable(segments),
        0 <= k < segments.len(),
        0 <= at < timeline::covered(segments),
        k + 1 < segments.len() ==> at < segment_start(segments, k + 1),
    ensures
        i64::MIN <= shown_in(segments, k, at) <= i64::MAX,
        0 <= segment_start(segments, k) <= i64::MAX,
{
    lemma_starts_ascend(segments, k, k + 1);
    lemma_starts_ascend(segments, 0, k);
    assert(segments.take(k + 1).drop_last() =~= segments.take(k));
    if k + 1 == segments.len() {
        assert(segments.take(k + 1) =~= segments);
    }
}

/// Append `count` frames covering `segments`, tagged with `entry`.
///
/// Play maps a frame's time 1:1 onto the source from the segment's start; a
/// freeze holds its anchor.
fn walk(segments: &Vec<PlaybackSegment>, count: u64, entry: usize, out: &mut Vec<FrameSpec>)
    requires
        schedulable(segments@),
        count == frames_in(timeline::covered(segments@)),
    ensures
        segments@.len() == 0 ==> final(out)@ == old(out)@,
        segments@.len() > 0 ==> final(out)@ == old(out)@ + Seq::new(
            count as nat,
            |n: int| FrameSpec {
                entry,
                source_time: frame_source(segments@, n) as i64,
            },
        ),
{
    if segments.len() == 0 {
        return;
    }
    let ghost before = out@;
    let ghost frame = |n: int| FrameSpec {
        entry,
        source_time: frame_source(segments@, n) as i64,
    };
    let mut idx: usize = 0;
    let mut out_start: i64 = 0;
    assert(segments@.take(0) =~= seq![]);
    assert(out@ =~= before + Seq::new(0, frame));
    // Forward walk: output times only increase, so the segment index does too.
    for n in 0..count
        invariant
            schedulable(segments@),
            count == frames_in(timeline::covered(segments@)),
            idx < segments.len(),
            out_start == segment_start(segments@, idx as int),
            idx > 0 ==> frame_time(n as int) >= out_start - FRAME_SLACK,
            frame == (|n: int| FrameSpec {
                entry,
                source_time: frame_source(segments@, n) as i64,
            }),
            out@ == before + Seq::new(n as nat, frame),
    {
        let ghost total = timeline::covered(segments@);
        proof {
            law_a_frame_exists_iff_its_time_is_inside(total, n as int);
        }
        let t: i64 = n as i64 * 100_000_000;
        proof {
            assert(segments@.take(idx + 1).drop_last() =~= segments@.take(idx as int));
            lemma_starts_ascend(segments@, idx as int, idx + 1);
        }
        while idx + 1 < segments.len() && t >= out_start + segments[idx].out_duration - FRAME_SLACK
            invariant
                schedulable(segments@),
                idx < segments.len(),
                0 <= out_start,
                0 <= t == frame_time(n as int) < timeline::covered(segments@),
                out_start == segment_start(segments@, idx as int),
                idx > 0 ==> t >= out_start - FRAME_SLACK,
                0 <= out_start + segments@[idx as int].out_duration <= i64::MAX,
                segment_start(segments@, idx + 1) == out_start
                    + segments@[idx as int].out_duration,
            decreases segments@.len() - idx,
        {
            out_start = out_start + segments[idx].out_duration;
            idx = idx + 1;
            proof {
                assert(segments@.take(idx + 1).drop_last() =~= segments@.take(idx as int));
                lemma_starts_ascend(segments@, idx as int, idx + 1);
            }
        }
        proof {
            lemma_showing_resumes(segments@, t as int, idx as int);
            lemma_frame_source_is_in_range(segments@, idx as int, t as int);
        }
        let seg = segments[idx];
        let source_time: i64 = match seg.kind {
            SegmentKind::Play => seg.source_start + if t > out_start {
                t - out_start
            } else {
                0
            },
            SegmentKind::Freeze => seg.source_start,
        };
        out.push(FrameSpec { entry, source_time });
        assert(out@ =~= before + Seq::new((n + 1) as nat, frame));
    }
}

/// Schedule every output frame of `target`.
///
/// Built on [`compilation_plan`] rather than walking the clips again, so the
/// plan's frame counts and the frames actually produced cannot disagree.
pub fn compilation_schedule(
    project: &Project,
    target: &ExportTarget,
    scores: &Vec<Option<Score>>,
) -> (compilation: Compilation)
    requires
        plan::plannable(project),
    ensures
        plan::views(compilation.plan.entries@) == plan::planned(project, *target, scores@),
        compilation.frames@ == schedule_of(plan::planned(project, *target, scores@)),
{
    let plan = compilation_plan(project, target, scores);
    let ghost entries = plan::planned(project, *target, scores@);
    proof {
        plan::lemma_planned(project, *target, scores@);
    }
    let mut frames: Vec<FrameSpec> = Vec::new();
    assert(frames@ =~= schedule_of(entries.take(0)));
    for i in 0..plan.entries.len()
        invariant
            entries == plan::views(plan.entries@),
            entries == plan::planned(project, *target, scores@),
            frames@ == schedule_of(entries.take(i as int)),
            plan::well_planned(entries),
    {
        let ghost before = frames@;
        let entry = &plan.entries[i];
        proof {
            assert(entries[i as int] == entry@);
            assert(plan::in_place(entries, i as int));
            assert(entries.take(i + 1).drop_last() =~= entries.take(i as int));
        }
        walk(&entry.segments, entry.frames, i, &mut frames);
        assert(frames@ =~= before + entry_frames(entries[i as int], i as int));
    }
    assert(entries.take(entries.len() as int) =~= entries);
    Compilation { frames, plan }
}

/// **A frame shows the picture of its moment**, or of a segment that begins
/// within the slack after it.
pub proof fn law_a_frame_shows_the_picture(segments: Seq<PlaybackSegment>, n: int)
    requires
        schedulable(segments),
        0 <= n < frames_in(timeline::covered(segments)),
    ensures
        exists|at: int|
            frame_time(n) <= at <= frame_time(n) + FRAME_SLACK && #[trigger] timeline::picture(
                segments,
                at,
            ) == frame_source(segments, n),
{
    let total = timeline::covered(segments);
    let t = frame_time(n);
    law_a_frame_exists_iff_its_time_is_inside(total, n);
    assert(segments.len() > 0);
    lemma_showing(segments, t, 0);
    let k = segment_showing(segments, t, 0);
    lemma_starts_ascend(segments, k, k + 1);
    assert(segments.take(k + 1).drop_last() =~= segments.take(k));
    if k + 1 == segments.len() {
        assert(segments.take(k + 1) =~= segments);
    }
    assert(segments.take(0) =~= seq![]);
    let at = time::larger(t, segment_start(segments, k));
    lemma_picture_inside(segments, k, at, segments.len() as int);
    assert(segments.take(segments.len() as int) =~= segments);
    assert(timeline::picture(segments, at) == frame_source(segments, n));
}

proof fn lemma_picture_inside(segments: Seq<PlaybackSegment>, k: int, at: int, upto: int)
    requires
        schedulable(segments),
        0 <= k < upto <= segments.len(),
        segment_start(segments, k) <= at < segment_start(segments, k + 1),
    ensures
        timeline::picture(segments.take(upto), at) == timeline::shown(
            segments[k],
            at - segment_start(segments, k),
        ),
    decreases upto,
{
    assert(segments.take(upto).drop_last() =~= segments.take(upto - 1));
    if k + 1 < upto {
        lemma_starts_ascend(segments, k + 1, upto - 1);
        lemma_picture_inside(segments, k, at, upto - 1);
    }
}

/// **A frame shows where its moment falls**: frame `n` sits at `n` thirtieths
/// of a second, in the segment that has begun by then, or begins within the
/// slack. A segment that plays shows as far past its start as the frame is into
/// it; a freeze shows its start.
pub proof fn law_a_frame_shows_where_it_falls(
    segments: Seq<PlaybackSegment>,
    starts: Seq<int>,
    n: int,
    k: int,
)
    requires
        schedulable(segments),
        starts.len() == segments.len() + 1,
        starts[0] == 0,
        forall|i: int|
            #![trigger segments[i]]
            0 <= i < segments.len() ==> starts[i + 1] == starts[i] + segments[i].out_duration,
        0 <= n,
        0 <= k < segments.len(),
        k > 0 ==> n * 100_000_000 >= starts[k] - 100,
        k + 1 < segments.len() ==> n * 100_000_000 < starts[k + 1] - 100,
    ensures
        segments[k].kind is Freeze ==> frame_source(segments, n) == segments[k].source_start,
        segments[k].kind is Play && n * 100_000_000 >= starts[k] ==> frame_source(segments, n)
            == segments[k].source_start + n * 100_000_000 - starts[k],
        segments[k].kind is Play && n * 100_000_000 <= starts[k] ==> frame_source(segments, n)
            == segments[k].source_start,
{
    let at = n * 100_000_000;
    assert(at == frame_time(n));
    lemma_segment_starts(segments, starts, k);
    lemma_segment_starts(segments, starts, k + 1);
    lemma_showing_resumes(segments, at, k);
    assert(segment_showing(segments, at, 0) == k);
}

proof fn lemma_segment_starts(segments: Seq<PlaybackSegment>, starts: Seq<int>, k: int)
    requires
        starts.len() == segments.len() + 1,
        starts[0] == 0,
        forall|i: int|
            #![trigger segments[i]]
            0 <= i < segments.len() ==> starts[i + 1] == starts[i] + segments[i].out_duration,
        0 <= k <= segments.len(),
    ensures
        segment_start(segments, k) == starts[k],
    decreases k,
{
    if k > 0 {
        lemma_segment_starts(segments, starts, k - 1);
        assert(segments.take(k).drop_last() =~= segments.take(k - 1));
        assert(segments.take(k).last() == segments[k - 1]);
    }
}

/// **The schedule is the plan, frame by frame**: it has exactly the plan's
/// frames, and each entry's frames fill its place in order.
pub proof fn law_the_schedule_fills_the_plan(
    project: &Project,
    target: ExportTarget,
    scores: Seq<Option<Score>>,
    e: int,
    n: int,
)
    requires
        plan::plannable(project),
        0 <= e < plan::planned(project, target, scores).len(),
        0 <= n < plan::planned(project, target, scores)[e].frames,
    ensures
        ({
            let entries = plan::planned(project, target, scores);
            let frames = schedule_of(entries);
            &&& frames.len() == plan::end_frame(entries)
            &&& entries[e].start_frame + n < frames.len()
            &&& frames[entries[e].start_frame + n] == (FrameSpec {
                entry: e as usize,
                source_time: frame_source(entries[e].segments, n) as i64,
            })
        }),
{
    plan::lemma_planned(project, target, scores);
    let entries = plan::planned(project, target, scores);
    lemma_schedule_fills(entries, entries.len() as int, e, n);
    lemma_schedule_length(entries, entries.len() as int);
    assert(entries.take(entries.len() as int) =~= entries);
}

proof fn lemma_schedule_length(entries: Seq<PlanEntryView>, count: int)
    requires
        0 <= count <= entries.len(),
        plan::well_planned(entries),
    ensures
        schedule_of(entries.take(count)).len() == plan::end_frame(entries.take(count)),
    decreases count,
{
    if count > 0 {
        assert(entries.take(count).drop_last() =~= entries.take(count - 1));
        lemma_schedule_length(entries, count - 1);
        let last = entries[count - 1];
        assert(plan::in_place(entries, count - 1));
        if last.segments.len() == 0 {
            assert(last.frames == 0);
        }
    }
}

proof fn lemma_schedule_fills(entries: Seq<PlanEntryView>, count: int, e: int, n: int)
    requires
        0 <= e < count <= entries.len(),
        0 <= n < entries[e].frames,
        plan::well_planned(entries),
    ensures
        entries[e].start_frame + n < schedule_of(entries.take(count)).len(),
        schedule_of(entries.take(count))[entries[e].start_frame + n] == (FrameSpec {
            entry: e as usize,
            source_time: frame_source(entries[e].segments, n) as i64,
        }),
    decreases count,
{
    let upto = entries.take(count);
    let before = schedule_of(entries.take(count - 1));
    let mine = entry_frames(entries[count - 1], count - 1);
    assert(schedule_of(upto) == before + mine) by {
        assert(upto.drop_last() =~= entries.take(count - 1));
    }
    lemma_schedule_length(entries, count - 1);
    assert(plan::in_place(entries, e));
    let at = entries[e].start_frame + n;
    if e < count - 1 {
        lemma_schedule_fills(entries, count - 1, e, n);
        assert((before + mine)[at] == before[at]);
    } else {
        assert(at == before.len() + n);
        lemma_entry_frame(entries[e], e, n);
        assert((before + mine)[at] == mine[n]);
    }
}

proof fn lemma_entry_frame(entry: PlanEntryView, index: int, n: int)
    requires
        0 <= n < entry.frames,
        entry.frames == frames_in(timeline::covered(entry.segments)),
    ensures
        n < entry_frames(entry, index).len(),
        entry_frames(entry, index)[n] == (FrameSpec {
            entry: index as usize,
            source_time: frame_source(entry.segments, n) as i64,
        }),
{
    if entry.segments.len() == 0 {
        assert(timeline::covered(entry.segments) == 0);
    }
}

/// **A schedule shows each entry's own moments**: frame `n` of an entry is
/// where its segment is at `n` thirtieths of a second, and the frames of the
/// entries follow one another.
pub proof fn law_a_schedule_shows_each_entry(
    project: &Project,
    target: &ExportTarget,
    scores: &Vec<Option<Score>>,
    made: Compilation,
    e: int,
    n: int,
    starts: Seq<int>,
    k: int,
)
    requires
        call_ensures(compilation_schedule, (project, target, scores), made),
        plan::plannable(project),
        0 <= e < made.plan.entries@.len(),
        0 <= n < made.plan.entries@[e].frames,
        ({
            let segments = made.plan.entries@[e].segments@;
            &&& starts.len() == segments.len() + 1
            &&& starts[0] == 0
            &&& forall|i: int|
                #![trigger segments[i]]
                0 <= i < segments.len() ==> starts[i + 1] == starts[i] + segments[i].out_duration
            &&& 0 <= k < segments.len()
            &&& k > 0 ==> n * 100_000_000 >= starts[k] - 100
            &&& k + 1 < segments.len() ==> n * 100_000_000 < starts[k + 1] - 100
        }),
    ensures
        ({
            let entry = made.plan.entries@[e];
            let at = entry.start_frame + n;
            let segment = entry.segments@[k];
            let into = n * 100_000_000 - starts[k];
            &&& at < made.frames@.len()
            &&& made.frames@[at].entry == e
            &&& segment.kind is Freeze ==> made.frames@[at].source_time == segment.source_start
            &&& segment.kind is Play && into >= 0 ==> made.frames@[at].source_time
                == (segment.source_start + into) as i64
            &&& segment.kind is Play && into < 0 ==> made.frames@[at].source_time
                == segment.source_start
            &&& e > 0 ==> entry.start_frame == made.plan.entries@[e - 1].start_frame
                + made.plan.entries@[e - 1].frames
            &&& e == 0 ==> entry.start_frame == 0
        }),
{
    let entries = plan::planned(project, *target, scores@);
    assert(entries[e] == made.plan.entries@[e]@);
    plan::lemma_planned(project, *target, scores@);
    assert(plan::in_place(entries, e));
    law_the_schedule_fills_the_plan(project, *target, scores@, e, n);
    law_a_frame_shows_where_it_falls(entries[e].segments, starts, n, k);
    if e > 0 {
        assert(entries.take(e).last() == entries[e - 1]);
        assert(entries[e - 1] == made.plan.entries@[e - 1]@);
    }
}

} // verus!
