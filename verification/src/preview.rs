//! Clip preview: one clip's composite on screen in place of the game video.
//!
//! The game video is **paused, not unloaded**, so closing a preview restores
//! it by doing nothing. A preview's messages carry the generation that sent
//! them: one that a closed preview had already queued must not be taken for
//! the next preview's.

use vstd::prelude::*;

use crate::export;
use crate::export::{compilation_schedule, FrameSpec};
use crate::export_run;
use crate::export_run::find_clip;
use crate::id::Id;
use crate::plan;
use crate::plan::{clip_frames, ExportTarget, Score};
use crate::project::{Clip, Project};
use crate::timeline;
use crate::user_error;
use crate::user_error::UserError;

verus! {

/// Why a clip can't be previewed, if it can't. The first reason counts.
pub open spec fn refusal(
    export_running: bool,
    open: Option<&Project>,
    missing: Seq<bool>,
    recorded: bool,
    id: Id,
) -> Option<Seq<char>> {
    if export_running {
        Some("an export is running"@)
    } else if open is None {
        Some("no project is open"@)
    } else {
        let project = open->0;
        match export_run::clip_index(project.clips@, id) {
            None => Some("the clip is gone"@),
            Some(i) => {
                let clip = project.clips@[i];
                let source = clip.source_index;
                if source >= project.source_videos@.len() {
                    Some("the clip's game video is gone"@)
                } else if source >= missing.len() || missing[source as int] {
                    Some("the clip's game video is missing; relink it first"@)
                } else if !recorded {
                    Some("the clip's commentary recording is missing"@)
                } else if export::frames_in(timeline::covered(plan::clip_segments(project, clip)))
                    == 0 {
                    Some("the clip has nothing to preview"@)
                } else {
                    None
                }
            },
        }
    }
}

/// Whether clip `id` can be previewed: where it stands in the project, or why
/// not. `recorded` says whether its recording is there.
pub fn start_preview(
    export_running: bool,
    open: Option<&Project>,
    missing: &Vec<bool>,
    recorded: bool,
    id: Id,
) -> (clip: Result<usize, UserError>)
    ensures
        match clip {
            Ok(i) => {
                &&& refusal(export_running, open, missing@, recorded, id) is None
                &&& open is Some
                &&& export_run::clip_index(open->0.clips@, id) == Some(i as int)
                &&& i < open->0.clips@.len()
                &&& open->0.clips@[i as int].source_index < open->0.source_videos@.len()
            },
            Err(e) => {
                &&& refusal(export_running, open, missing@, recorded, id) is Some
                &&& user_error::refuses_preview(
                    e,
                    refusal(export_running, open, missing@, recorded, id)->0,
                )
            },
        },
{
    if export_running {
        return Err(UserError::cant_preview("an export is running"));
    }
    let project = match open {
        Some(project) => project,
        None => {
            return Err(UserError::cant_preview("no project is open"));
        },
    };
    let i: usize = match find_clip(&project.clips, id) {
        Some(i) => i,
        None => {
            return Err(UserError::cant_preview("the clip is gone"));
        },
    };
    let source: usize = project.clips[i].source_index;
    if source >= project.source_videos.len() {
        return Err(UserError::cant_preview("the clip's game video is gone"));
    }
    if source >= missing.len() || missing[source] {
        return Err(UserError::cant_preview("the clip's game video is missing; relink it first"));
    }
    if !recorded {
        return Err(UserError::cant_preview("the clip's commentary recording is missing"));
    }
    if clip_frames(project, &project.clips[i]) == 0 {
        return Err(UserError::cant_preview("the clip has nothing to preview"));
    }
    Ok(i)
}

/// The frames a preview of clip `id` shows: those an export of that clip alone
/// would write.
pub fn preview_frames(project: &Project, id: Id, scores: &Vec<Option<Score>>) -> (frames: Vec<
    FrameSpec,
>)
    requires
        plan::plannable(project),
    ensures
        frames@ == export::schedule_of(
            plan::planned(project, ExportTarget::Clip(id), scores@),
        ),
{
    compilation_schedule(project, &ExportTarget::Clip(id), scores).frames
}

proof fn lemma_no_clip_is_covered(clips: Seq<Clip>, id: Id)
    requires
        forall|k: int| 0 <= k < clips.len() ==> (#[trigger] clips[k]).id != id,
    ensures
        clips.filter(|c: Clip| plan::covers(ExportTarget::Clip(id), c)) == Seq::<Clip>::empty(),
    decreases clips.len(),
{
    reveal(Seq::filter);
    if clips.len() > 0 {
        lemma_no_clip_is_covered(clips.drop_last(), id);
    }
}

proof fn lemma_one_clip_is_covered(clips: Seq<Clip>, id: Id, i: int)
    requires
        0 <= i < clips.len(),
        forall|k: int| 0 <= k < clips.len() ==> ((#[trigger] clips[k]).id == id <==> k == i),
    ensures
        clips.filter(|c: Clip| plan::covers(ExportTarget::Clip(id), c)) == seq![clips[i]],
    decreases clips.len(),
{
    reveal(Seq::filter);
    let before = clips.drop_last();
    if i == clips.len() - 1 {
        lemma_no_clip_is_covered(before, id);
    } else {
        assert(before[i] == clips[i]);
        lemma_one_clip_is_covered(before, id, i);
    }
}

/// **A preview shows its clip**: a preview that is not refused has frames, and
/// frame `n` is the picture of the clip's own timeline at that frame's time.
/// No other clip has its id.
pub proof fn law_a_preview_shows_its_clip(
    project: &Project,
    missing: Seq<bool>,
    id: Id,
    scores: Seq<Option<Score>>,
    n: int,
)
    requires
        plan::plannable(project),
        refusal(false, Some(project), missing, true, id) is None,
        forall|k: int|
            0 <= k < project.clips@.len() ==> ((#[trigger] project.clips@[k]).id == id <==> Some(k)
                == export_run::clip_index(project.clips@, id)),
    ensures
        ({
            let clip = project.clips@[export_run::clip_index(project.clips@, id)->0];
            let segments = plan::clip_segments(project, clip);
            let frames = export::schedule_of(
                plan::planned(project, ExportTarget::Clip(id), scores),
            );
            &&& frames.len() == export::frames_in(timeline::covered(segments))
            &&& frames.len() > 0
            &&& 0 <= n < frames.len() ==> frames[n].source_time == export::frame_source(
                segments,
                n,
            ) as i64
        }),
{
    let target = ExportTarget::Clip(id);
    export_run::lemma_clip_index_is_inside(project.clips@, id);
    let i = export_run::clip_index(project.clips@, id)->0;
    lemma_one_clip_is_covered(project.clips@, id, i);
    let clips = plan::selected(project, target);
    assert(clips =~= seq![project.clips@[i]]);
    reveal_with_fuel(plan::clip_entries, 2);
    let entries = plan::planned(project, target, scores);
    assert(entries.len() == 1);
    assert(entries[0].start_frame == 0);
    export::law_the_schedule_fills_the_plan(project, target, scores, 0, 0);
    if 0 < n < entries[0].frames {
        export::law_the_schedule_fills_the_plan(project, target, scores, 0, n);
    }
}

/// What a preview reported.
#[derive(Debug, Clone, Copy, PartialEq, Eq, Structural)]
pub enum PreviewMessage {
    /// It stays open on its last frame.
    Ended,
    Failed,
}

/// The preview on screen, if any.
#[derive(Debug, Clone, Copy, PartialEq, Eq, Structural)]
pub struct Previews {
    /// The clip shown.
    pub showing: Option<Id>,
    /// The latest preview's generation. Messages from any other are stale.
    pub generation: u64,
}

impl Default for Previews {
    fn default() -> (previews: Previews)
        ensures
            previews == (Previews { showing: None, generation: 0 }),
    {
        Previews { showing: None, generation: 0 }
    }
}

impl Previews {
    /// After closing the preview.
    pub open spec fn shut(self) -> Previews {
        Previews { showing: None, ..self }
    }

    /// After opening another.
    pub open spec fn shown(self, id: Id) -> Previews {
        Previews { showing: Some(id), generation: (self.generation + 1) as u64 }
    }

    /// After a message: the preview closes, and its failure is reported, only
    /// if the message is the open preview's own and says that it failed.
    pub open spec fn heard(self, generation: u64, message: PreviewMessage) -> (Previews, bool) {
        if self.showing is Some && generation == self.generation && message is Failed {
            (self.shut(), true)
        } else {
            (self, false)
        }
    }

    /// Opens a preview of clip `id`: whatever was on screen stops first.
    /// Returns whether something was, and the generation to tag the new
    /// preview's messages with.
    pub fn open(&mut self, id: Id) -> (opened: (bool, u64))
        requires
            old(self).generation < u64::MAX,
        ensures
            *final(self) == old(self).shown(id),
            opened == (old(self).showing is Some, final(self).generation),
    {
        let stopped = self.close();
        self.generation = self.generation + 1;
        self.showing = Some(id);
        (stopped, self.generation)
    }

    /// Closes the preview. Returns whether one was open, whose picture has to
    /// be cleared.
    pub fn close(&mut self) -> (closed: bool)
        ensures
            *final(self) == old(self).shut(),
            closed == (old(self).showing is Some),
    {
        let closed = self.showing.is_some();
        self.showing = None;
        closed
    }

    /// Hears a message. Returns whether the preview failed, so that it was
    /// closed and the failure is to be reported.
    pub fn message(&mut self, generation: u64, message: PreviewMessage) -> (failed: bool)
        ensures
            (*final(self), failed) == old(self).heard(generation, message),
    {
        if self.showing.is_none() || generation != self.generation {
            return false;
        }
        match message {
            PreviewMessage::Ended => false,
            PreviewMessage::Failed => {
                self.close();
                true
            },
        }
    }
}

/// **A closed preview's last message is stale**: once a preview was closed, or
/// replaced by another, none of its messages does anything.
pub proof fn law_a_closed_preview_is_not_heard(
    previews: Previews,
    id: Id,
    message: PreviewMessage,
)
    requires
        previews.generation < u64::MAX,
    ensures
        previews.shut().heard(previews.generation, message) == (previews.shut(), false),
        previews.shown(id).heard(previews.generation, message) == (previews.shown(id), false),
{
}

/// **Closing twice is closing once.**
pub proof fn law_closing_a_preview_is_idempotent(previews: Previews)
    ensures
        previews.shut().shut() == previews.shut(),
{
}

/// **A preview is refused for the first reason there is**, and for no other: an
/// export running, no project, the clip or its game video gone, the video or
/// the recording missing, or nothing to show.
pub proof fn law_a_preview_is_refused_for_a_reason(
    export_running: bool,
    project: &Project,
    missing: Seq<bool>,
    recorded: bool,
    id: Id,
    i: int,
)
    ensures
        export_running ==> refusal(export_running, Some(project), missing, recorded, id) == Some(
            "an export is running"@,
        ),
        refusal(false, None, missing, recorded, id) == Some("no project is open"@),
        refusal(true, None, missing, recorded, id) == Some("an export is running"@),
        !export_running && (forall|k: int|
            0 <= k < project.clips@.len() ==> (#[trigger] project.clips@[k]).id != id) ==> refusal(
            export_running,
            Some(project),
            missing,
            recorded,
            id,
        ) == Some("the clip is gone"@),
        !export_running && 0 <= i < project.clips@.len() && project.clips@[i].id == id && (forall|
            k: int,
        |
            0 <= k < i ==> (#[trigger] project.clips@[k]).id != id) ==> ({
            let clip = project.clips@[i];
            let source = clip.source_index;
            let here = source < project.source_videos@.len();
            let there = here && source < missing.len() && !missing[source as int];
            let shown = timeline::covered(
                timeline::segments_of(
                    clip.start_source as int,
                    clip.events@,
                    clip.recording_duration as int,
                    project.source_videos@[source as int].duration as int,
                ),
            );
            let why = refusal(export_running, Some(project), missing, recorded, id);
            &&& !here ==> why == Some("the clip's game video is gone"@)
            &&& here && !there ==> why == Some("the clip's game video is missing; relink it first"@)
            &&& there && !recorded ==> why == Some("the clip's commentary recording is missing"@)
            &&& there && recorded && shown <= 100 ==> why == Some(
                "the clip has nothing to preview"@,
            )
            &&& there && recorded && shown > 100 ==> why is None
        }),
{
    let clips = project.clips@;
    if 0 <= i < clips.len() && clips[i].id == id && (forall|k: int|
        0 <= k < i ==> (#[trigger] clips[k]).id != id) {
        export_run::lemma_first_clip(clips, id, i);
        let shown = timeline::covered(plan::clip_segments(project, clips[i]));
        export::law_a_frame_exists_iff_its_time_is_inside(shown, 0);
    }
    if forall|k: int| 0 <= k < clips.len() ==> (#[trigger] clips[k]).id != id {
        export_run::lemma_no_clip(clips, id);
    }
}

/// **One preview at a time**: opening one shows it under a generation of its
/// own; it is closed by its own failure, which is reported, and stays open
/// through everything else that is heard.
pub proof fn law_one_preview_at_a_time(
    previews: Previews,
    id: Id,
    generation: u64,
    message: PreviewMessage,
)
    requires
        previews.generation < u64::MAX,
    ensures
        previews.shown(id).showing == Some(id),
        previews.shown(id).generation == previews.generation + 1,
        previews.shut().showing is None,
        previews.shut().generation == previews.generation,
        previews.shown(id).heard((previews.generation + 1) as u64, PreviewMessage::Failed).1,
        previews.shown(id).heard(
            (previews.generation + 1) as u64,
            PreviewMessage::Failed,
        ).0.showing is None,
        previews.heard(generation, PreviewMessage::Ended) == (previews, false),
        previews.showing is None || generation != previews.generation ==> previews.heard(
            generation,
            message,
        ) == (previews, false),
        previews.heard(generation, message).0.generation == previews.generation,
{
}

/// **A preview opens where it has everything it needs**: its clip, the game
/// video, the recording and something to show, and no export running.
pub proof fn law_a_preview_opens_with_all_it_needs(
    export_running: bool,
    project: &Project,
    missing: &Vec<bool>,
    recorded: bool,
    i: int,
    started: Result<usize, UserError>,
)
    requires
        0 <= i < project.clips@.len(),
        forall|k: int|
            0 <= k < i ==> (#[trigger] project.clips@[k]).id != project.clips@[i].id,
        call_ensures(
            start_preview,
            (export_running, Some(project), missing, recorded, project.clips@[i].id),
            started,
        ),
    ensures
        ({
            let clip = project.clips@[i];
            let source = clip.source_index;
            started is Ok <==> !export_running && source < project.source_videos@.len() && source
                < missing@.len() && !missing@[source as int] && recorded && timeline::covered(
                timeline::segments_of(
                    clip.start_source as int,
                    clip.events@,
                    clip.recording_duration as int,
                    project.source_videos@[source as int].duration as int,
                ),
            ) > 100
        }),
        started matches Ok(at) ==> at == i,
{
    law_a_preview_is_refused_for_a_reason(
        export_running,
        project,
        missing@,
        recorded,
        project.clips@[i].id,
        i,
    );
    export_run::lemma_first_clip(project.clips@, project.clips@[i].id, i);
}

} // verus!
