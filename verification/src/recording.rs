//! The clip that a finished recording becomes.

use vstd::prelude::*;

use crate::event::CommentaryEvent;
use crate::id;
use crate::id::Id;
use crate::project::{Clip, ClipView, Project};
use crate::text;
use crate::time::TICKS_PER_SECOND;

verus! {

/// A clip that is being recorded.
#[derive(Debug, Clone, Copy, PartialEq, Eq, Structural)]
pub struct PendingClip {
    pub id: Id,
    pub source_index: usize,
    /// Where on the source the recording began, in ticks.
    pub start_source: i64,
}

/// The name a new clip gets: its source's number, counted from one, and where
/// on it the clip starts, floored to the second.
pub open spec fn first_name(source_index: nat, start: int) -> Seq<char> {
    let seconds = if start <= 0 {
        0
    } else {
        (start / (TICKS_PER_SECOND as int)) as nat
    };
    text::decimal(source_index + 1) + "-"@ + text::two_digits(seconds / 3600) + ":"@
        + text::two_digits(seconds % 3600 / 60) + ":"@ + text::two_digits(seconds % 60)
}

/// The largest sort index of some clips, or one below zero.
pub open spec fn largest(clips: Seq<Clip>) -> int
    decreases clips.len(),
{
    if clips.len() == 0 {
        -1
    } else {
        let before = largest(clips.drop_last());
        if clips.len() == 1 || clips.last().sort_index > before {
            clips.last().sort_index as int
        } else {
            before
        }
    }
}

/// The clip that a finished recording becomes.
pub open spec fn recorded(
    project: &Project,
    pending: PendingClip,
    duration: i64,
    events: Seq<CommentaryEvent>,
    created_at: Seq<char>,
) -> ClipView {
    ClipView {
        id: pending.id,
        name: first_name(pending.source_index as nat, pending.start_source as int),
        notes: seq![],
        tags: seq![],
        source_index: pending.source_index,
        start_source: pending.start_source,
        recording_duration: duration,
        recording_filename: id::hyphenated(pending.id.bits) + ".mkv"@,
        events,
        show_pip: project.preferences.pip_for_new_recordings,
        sort_index: (largest(project.clips@) + 1) as i64,
        created_at,
        transcript: seq![],
    }
}

fn clip_name(source_index: usize, start: i64) -> (name: String)
    requires
        source_index < usize::MAX,
    ensures
        name@ == first_name(source_index as nat, start as int),
{
    let seconds: u64 = if start <= 0 {
        0
    } else {
        start as u64 / 3_000_000_000
    };
    let mut name = String::new();
    text::push_decimal(&mut name, source_index as u64 + 1);
    name.append("-");
    text::push_two_digits(&mut name, seconds / 3600);
    name.append(":");
    text::push_two_digits(&mut name, seconds % 3600 / 60);
    name.append(":");
    text::push_two_digits(&mut name, seconds % 60);
    assert(name@ =~= first_name(source_index as nat, start as int));
    name
}

impl Project {
    /// Adds the clip that a finished recording becomes, sorted after every
    /// other. `created_at` is RFC 3339.
    pub fn add_recorded_clip(
        &mut self,
        pending: PendingClip,
        duration: i64,
        events: Vec<CommentaryEvent>,
        created_at: String,
    )
        requires
            pending.source_index < usize::MAX,
            largest(old(self).clips@) < i64::MAX,
        ensures
            final(self).clips@.len() == old(self).clips@.len() + 1,
            final(self).clips@.drop_last() == old(self).clips@,
            final(self).clips@.last()@ == recorded(
                old(self),
                pending,
                duration,
                events@,
                created_at@,
            ),
            final(self).format_version == old(self).format_version,
            final(self).name == old(self).name,
            final(self).source_videos == old(self).source_videos,
            final(self).preferences == old(self).preferences,
            final(self).scoreboard == old(self).scoreboard,
            final(self).match_events == old(self).match_events,
    {
        let mut top: i64 = -1;
        for i in 0..self.clips.len()
            invariant
                top == largest(self.clips@.take(i as int)),
        {
            assert(self.clips@.take(i + 1).drop_last() =~= self.clips@.take(i as int));
            let index: i64 = self.clips[i].sort_index;
            if i == 0 || index > top {
                top = index;
            }
        }
        assert(self.clips@.take(self.clips@.len() as int) =~= self.clips@);
        let mut recording_filename = pending.id.text();
        recording_filename.append(".mkv");
        let clip = Clip {
            id: pending.id,
            name: clip_name(pending.source_index, pending.start_source),
            notes: String::new(),
            tags: Vec::new(),
            source_index: pending.source_index,
            start_source: pending.start_source,
            recording_duration: duration,
            recording_filename,
            events,
            show_pip: self.preferences.pip_for_new_recordings,
            sort_index: top + 1,
            created_at,
            transcript: String::new(),
        };
        proof {
            assert(clip@ =~= recorded(self, pending, duration, events@, created_at@));
        }
        self.clips.push(clip);
        assert(self.clips@.drop_last() =~= old(self).clips@);
    }
}

/// **A new clip sorts after every other.**
pub proof fn law_a_new_clip_sorts_last(clips: Seq<Clip>, i: int)
    requires
        0 <= i < clips.len(),
    ensures
        clips[i].sort_index <= largest(clips),
    decreases clips.len(),
{
    if i < clips.len() - 1 {
        law_a_new_clip_sorts_last(clips.drop_last(), i);
    }
}

/// **A recording becomes its clip**: on the source and from the moment that it
/// started on, with what was recorded and nothing written yet, named by the
/// source's number and that moment, and numbered right after the last clip.
pub proof fn law_a_recording_becomes_its_clip(
    project: &Project,
    pending: PendingClip,
    duration: i64,
    events: Seq<CommentaryEvent>,
    created_at: Seq<char>,
    h: nat,
    m: nat,
    s: nat,
    rest: nat,
)
    requires
        largest(project.clips@) < i64::MAX,
        m < 60 && s < 60 && rest < 3_000_000_000,
        pending.start_source == (h * 3600 + m * 60 + s) * 3_000_000_000 + rest,
    ensures
        ({
            let clip = recorded(project, pending, duration, events, created_at);
            let n = project.clips@.len() as int;
            &&& clip.id == pending.id
            &&& clip.source_index == pending.source_index
            &&& clip.start_source == pending.start_source
            &&& clip.recording_duration == duration
            &&& clip.events == events
            &&& clip.created_at == created_at
            &&& clip.notes.len() == 0 && clip.tags.len() == 0 && clip.transcript.len() == 0
            &&& clip.show_pip == project.preferences.pip_for_new_recordings
            &&& clip.recording_filename == id::hyphenated(pending.id.bits) + ".mkv"@
            &&& clip.name == text::decimal((pending.source_index + 1) as nat) + "-"@
                + text::two_digits(h) + ":"@ + text::two_digits(m) + ":"@ + text::two_digits(s)
            &&& n == 0 ==> clip.sort_index == 0
            &&& n > 0 ==> exists|i: int|
                0 <= i < n && clip.sort_index == (#[trigger] project.clips@[i]).sort_index + 1
            &&& forall|i: int|
                0 <= i < n ==> clip.sort_index > (#[trigger] project.clips@[i]).sort_index
        }),
{
    let total = h * 3600 + m * 60 + s;
    let ticks = total * 3_000_000_000 + rest;
    assert(ticks / 3_000_000_000 == total);
    assert(total / 3600 == h);
    assert(total % 3600 == m * 60 + s);
    assert((m * 60 + s) / 60 == m);
    assert(total % 60 == s);
    if ticks == 0 {
        assert(total == 0);
    }
    let clips = project.clips@;
    lemma_largest_is_one_of_them(clips);
    assert forall|i: int| 0 <= i < clips.len() implies largest(clips) + 1 > (
    #[trigger] clips[i]).sort_index by {
        law_a_new_clip_sorts_last(clips, i);
    }
}

proof fn lemma_largest_is_one_of_them(clips: Seq<Clip>)
    ensures
        clips.len() > 0 ==> exists|i: int|
            0 <= i < clips.len() && (#[trigger] clips[i]).sort_index == largest(clips),
        largest(clips) >= i64::MIN,
    decreases clips.len(),
{
    if clips.len() > 0 {
        let before = clips.drop_last();
        lemma_largest_is_one_of_them(before);
        if clips.len() == 1 || clips.last().sort_index > largest(before) {
            assert(clips[clips.len() - 1].sort_index == largest(clips));
        } else {
            let i = choose|i: int|
                0 <= i < before.len() && (#[trigger] before[i]).sort_index == largest(before);
            assert(clips[i] == before[i]);
        }
    }
}

/// **A recording is added last, and nothing else changes.**
pub proof fn law_a_recording_is_added_last(
    project: &mut Project,
    pending: PendingClip,
    duration: i64,
    events: Vec<CommentaryEvent>,
    created_at: String,
    i: int,
)
    requires
        call_ensures(
            Project::add_recorded_clip,
            (project, pending, duration, events, created_at),
            (),
        ),
        largest(old(project).clips@) < i64::MAX,
    ensures
        ({
            let n = old(project).clips@.len() as int;
            let clip = final(project).clips@[n];
            &&& final(project).clips@.len() == n + 1
            &&& 0 <= i < n ==> final(project).clips@[i] == old(project).clips@[i]
            &&& clip.id == pending.id
            &&& clip.source_index == pending.source_index
            &&& clip.start_source == pending.start_source
            &&& clip.recording_duration == duration
            &&& clip.events@ == events@
            &&& clip.created_at@ == created_at@
            &&& 0 <= i < n ==> clip.sort_index > old(project).clips@[i].sort_index
            &&& final(project).match_events == old(project).match_events
            &&& final(project).source_videos == old(project).source_videos
        }),
{
    let clips = old(project).clips@;
    let n = clips.len() as int;
    assert(final(project).clips@[n] == final(project).clips@.last());
    assert(final(project).clips@[n]@.id == pending.id);
    if 0 <= i < n {
        assert(final(project).clips@.drop_last()[i] == final(project).clips@[i]);
        law_a_new_clip_sorts_last(clips, i);
    }
    lemma_largest_is_one_of_them(clips);
}

} // verus!
