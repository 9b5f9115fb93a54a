//! The project document: what a project folder's `project.json` holds.

use vstd::prelude::*;

use crate::event::CommentaryEvent;
use crate::id::Id;
use crate::scoreboard_config::{MatchEventRecord, ScoreboardConfig};
use crate::text;

verus! {

/// The `formatVersion` this library reads and writes.
pub const CURRENT_FORMAT_VERSION: u32 = 7;

/// A volume of one, in millionths.
pub const FULL_VOLUME: i32 = 1_000_000;

/// Export frame size.
#[derive(Debug, Clone, Copy, PartialEq, Eq, Structural)]
pub enum Resolution {
    R720,
    R1080,
    R2160,
}

impl Default for Resolution {
    fn default() -> (resolution: Resolution)
        ensures
            resolution == Resolution::R1080,
    {
        Resolution::R1080
    }
}

/// Export quality.
#[derive(Debug, Clone, Copy, PartialEq, Eq, Structural)]
pub enum Quality {
    Low,
    Medium,
    High,
}

impl Default for Quality {
    fn default() -> (quality: Quality)
        ensures
            quality == Quality::Medium,
    {
        Quality::Medium
    }
}

/// User preferences, persisted with the project.
#[derive(Debug, PartialEq, Eq)]
pub struct Preferences {
    /// Volumes are in millionths ([`FULL_VOLUME`]).
    pub scan_volume: i32,
    pub preview_source_volume: i32,
    pub preview_commentary_volume: i32,
    pub last_export_resolution: Resolution,
    pub last_export_quality: Quality,
    /// The preferred camera. A hint: an absent device leaves it set, so the
    /// preference is restored when the device reappears.
    pub preferred_camera_id: Option<String>,
    /// Same semantics as `preferred_camera_id`.
    pub preferred_mic_id: Option<String>,
    pub pip_for_new_recordings: bool,
}

impl Default for Preferences {
    fn default() -> (preferences: Preferences)
        ensures
            preferences == (Preferences {
                scan_volume: FULL_VOLUME,
                preview_source_volume: FULL_VOLUME,
                preview_commentary_volume: FULL_VOLUME,
                last_export_resolution: Resolution::R1080,
                last_export_quality: Quality::Medium,
                preferred_camera_id: None,
                preferred_mic_id: None,
                pip_for_new_recordings: true,
            }),
    {
        Preferences {
            scan_volume: FULL_VOLUME,
            preview_source_volume: FULL_VOLUME,
            preview_commentary_volume: FULL_VOLUME,
            last_export_resolution: Resolution::R1080,
            last_export_quality: Quality::Medium,
            preferred_camera_id: None,
            preferred_mic_id: None,
            pip_for_new_recordings: true,
        }
    }
}

/// A referenced source video. `duration` is **the** duration authority.
#[derive(Debug, PartialEq, Eq)]
pub struct SourceRef {
    /// Relative to the project folder, `/` separators; may climb with `..`.
    pub relative_path: String,
    pub display_name: String,
    /// Ticks.
    pub duration: i64,
    /// Width over height as the video is shown, in billionths.
    pub display_aspect: u64,
}

/// One tagged moment with its commentary recording.
#[derive(Debug, PartialEq, Eq)]
pub struct Clip {
    pub id: Id,
    pub name: String,
    pub notes: String,
    pub tags: Vec<String>,
    pub source_index: usize,
    /// Where on the source the recording began, in ticks.
    pub start_source: i64,
    /// How long the recording runs, in ticks.
    pub recording_duration: i64,
    /// The recording's file name in the project's `recordings/` directory.
    pub recording_filename: String,
    pub events: Vec<CommentaryEvent>,
    pub show_pip: bool,
    pub sort_index: i64,
    /// RFC 3339, opaque: ordering is by `sort_index`.
    pub created_at: String,
    pub transcript: String,
}

/// What a [`Clip`] holds, as mathematical values.
#[verifier::ext_equal]
pub struct ClipView {
    pub id: Id,
    pub name: Seq<char>,
    pub notes: Seq<char>,
    pub tags: Seq<Seq<char>>,
    pub source_index: usize,
    pub start_source: i64,
    pub recording_duration: i64,
    pub recording_filename: Seq<char>,
    pub events: Seq<CommentaryEvent>,
    pub show_pip: bool,
    pub sort_index: i64,
    pub created_at: Seq<char>,
    pub transcript: Seq<char>,
}

impl View for Clip {
    type V = ClipView;

    open spec fn view(&self) -> ClipView {
        ClipView {
            id: self.id,
            name: self.name@,
            notes: self.notes@,
            tags: text::texts(self.tags@),
            source_index: self.source_index,
            start_source: self.start_source,
            recording_duration: self.recording_duration,
            recording_filename: self.recording_filename@,
            events: self.events@,
            show_pip: self.show_pip,
            sort_index: self.sort_index,
            created_at: self.created_at@,
            transcript: self.transcript@,
        }
    }
}

impl Clone for Clip {
    fn clone(&self) -> (copy: Clip)
        ensures
            copy@ == self@,
    {
        let mut events: Vec<CommentaryEvent> = Vec::new();
        for i in 0..self.events.len()
            invariant
                events@ == self.events@.take(i as int),
        {
            events.push(self.events[i]);
            assert(self.events@.take(i as int).push(self.events@[i as int])
                =~= self.events@.take(i + 1));
        }
        assert(self.events@.take(self.events@.len() as int) =~= self.events@);
        Clip {
            id: self.id,
            name: self.name.clone(),
            notes: self.notes.clone(),
            tags: text::clone_texts(&self.tags),
            source_index: self.source_index,
            start_source: self.start_source,
            recording_duration: self.recording_duration,
            recording_filename: self.recording_filename.clone(),
            events,
            show_pip: self.show_pip,
            sort_index: self.sort_index,
            created_at: self.created_at.clone(),
            transcript: self.transcript.clone(),
        }
    }
}

/// The project document.
#[derive(Debug, PartialEq, Eq)]
pub struct Project {
    pub format_version: u32,
    pub name: String,
    pub source_videos: Vec<SourceRef>,
    pub clips: Vec<Clip>,
    pub preferences: Preferences,
    pub scoreboard: Option<ScoreboardConfig>,
    pub match_events: Vec<MatchEventRecord>,
}

/// The length of a run of sources laid end to end.
pub open spec fn laid_end_to_end(sources: Seq<SourceRef>) -> int
    decreases sources.len(),
{
    if sources.len() == 0 {
        0
    } else {
        laid_end_to_end(sources.drop_last()) + sources.last().duration
    }
}

/// A run of sources is no longer, and no shorter, than its count allows.
proof fn lemma_length_is_bounded(sources: Seq<SourceRef>)
    ensures
        i64::MIN * sources.len() <= laid_end_to_end(sources) <= i64::MAX * sources.len(),
    decreases sources.len(),
{
    if sources.len() > 0 {
        lemma_length_is_bounded(sources.drop_last());
    }
}

impl Project {
    /// An empty project.
    pub fn new(name: String) -> (project: Project)
        ensures
            project.format_version == CURRENT_FORMAT_VERSION,
            project.name == name,
            project.source_videos@.len() == 0,
            project.clips@.len() == 0,
            project.preferences == (Preferences {
                scan_volume: FULL_VOLUME,
                preview_source_volume: FULL_VOLUME,
                preview_commentary_volume: FULL_VOLUME,
                last_export_resolution: Resolution::R1080,
                last_export_quality: Quality::Medium,
                preferred_camera_id: None,
                preferred_mic_id: None,
                pip_for_new_recordings: true,
            }),
            project.scoreboard is None,
            project.match_events@.len() == 0,
    {
        Project {
            format_version: CURRENT_FORMAT_VERSION,
            name,
            source_videos: Vec::new(),
            clips: Vec::new(),
            preferences: Preferences::default(),
            scoreboard: None,
            match_events: Vec::new(),
        }
    }

    /// Where source `source_index` starts when the sources are laid end to
    /// end; an index past the last one gives the end of them all.
    pub open spec fn offset(&self, source_index: int) -> int {
        if source_index <= self.source_videos@.len() {
            laid_end_to_end(self.source_videos@.take(source_index))
        } else {
            laid_end_to_end(self.source_videos@)
        }
    }

    /// The length of every source laid end to end, in ticks.
    pub fn total_source_duration(&self) -> (total: i128)
        ensures
            total == laid_end_to_end(self.source_videos@),
            -0x7fff_ffff_ffff_ffff_8000_0000_0000_0000 <= total <= 0x7fff_ffff_ffff_ffff_0000_0000_0000_0000,
    {
        proof {
            assert(self.source_videos@.take(self.source_videos@.len() as int)
                =~= self.source_videos@);
        }
        self.cumulative_offset(self.source_videos.len())
    }

    /// Where source `source_index` starts on the timeline of the sources laid
    /// end to end, in ticks. An index past the last source gives their total.
    pub fn cumulative_offset(&self, source_index: usize) -> (offset: i128)
        ensures
            offset == self.offset(source_index as int),
            -0x7fff_ffff_ffff_ffff_8000_0000_0000_0000 <= offset <= 0x7fff_ffff_ffff_ffff_0000_0000_0000_0000,
    {
        let end: usize = if source_index < self.source_videos.len() {
            source_index
        } else {
            self.source_videos.len()
        };
        let mut offset: i128 = 0;
        for i in 0..end
            invariant
                end <= self.source_videos@.len(),
                offset == laid_end_to_end(self.source_videos@.take(i as int)),
        {
            proof {
                let through = self.source_videos@.take(i + 1);
                assert(through.drop_last() =~= self.source_videos@.take(i as int));
                lemma_length_is_bounded(through);
            }
            offset = offset + self.source_videos[i].duration as i128;
        }
        proof {
            lemma_length_is_bounded(self.source_videos@.take(end as int));
            if source_index > self.source_videos@.len() {
                assert(self.source_videos@.take(end as int) =~= self.source_videos@);
            }
        }
        offset
    }

    /// A position on one source, on the timeline of the sources laid end to
    /// end. The match clock runs on that timeline.
    pub fn abs_seconds(&self, source_index: usize, source_time: i64) -> (at: i128)
        ensures
            at == self.offset(source_index as int) + source_time,
    {
        self.cumulative_offset(source_index) + source_time as i128
    }
}

/// **The sources lie end to end**: the first starts at nothing, each starts
/// where the one before it ends, and a place on a source is as far past its
/// start. Past the last there is only their total.
pub proof fn law_the_sources_lie_end_to_end(
    project: &Project,
    index: usize,
    time: i64,
    first: i128,
    start: i128,
    next: i128,
    total: i128,
    past: i128,
    at: i128,
)
    requires
        call_ensures(Project::cumulative_offset, (project, 0), first),
        call_ensures(Project::cumulative_offset, (project, index), start),
        call_ensures(Project::cumulative_offset, (project, (index + 1) as usize), next),
        call_ensures(Project::total_source_duration, (project,), total),
        call_ensures(
            Project::cumulative_offset,
            (project, project.source_videos@.len() as usize),
            past,
        ),
        call_ensures(Project::abs_seconds, (project, index, time), at),
        index < project.source_videos@.len() < usize::MAX,
    ensures
        first == 0,
        next == start + project.source_videos@[index as int].duration,
        past == total,
        at == start + time,
{
    let all = project.source_videos@;
    assert(all.take(index + 1).drop_last() =~= all.take(index as int));
    assert(all.take(index + 1).last() == all[index as int]);
    assert(all.take(all.len() as int) =~= all);
    assert(all.take(0).len() == 0);
}

} // verus!
