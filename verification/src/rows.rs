//! The rows the window lists: devices, export runs, sources, clips, and what
//! the inspector says of a clip's transcription.

use vstd::prelude::*;

use crate::export::Rate;
use crate::export_run;
use crate::export_run::{find_clip, ExportRun, ExportTargetRun, TargetState};
use crate::format::{format_hms, sentence};
use crate::id::Id;
use crate::project::{Clip, Project};
use crate::sources;
use crate::sources::file_name;
use crate::state::WhisperModel;
use crate::text;

verus! {

// ---------------------------------------------------------------------------
// Devices.

/// A camera or microphone that was found.
#[derive(Debug, PartialEq, Eq)]
pub struct Device {
    pub node_name: String,
    pub label: String,
}

/// A row of a device list. It carries its device's name, empty for the system
/// default.
#[derive(Debug, PartialEq, Eq)]
pub struct DeviceRow {
    pub node_name: String,
    pub label: String,
    pub chosen: bool,
}

/// What a [`DeviceRow`] shows, as mathematical values.
#[verifier::ext_equal]
pub struct DeviceRowView {
    pub node_name: Seq<char>,
    pub label: Seq<char>,
    pub chosen: bool,
}

impl View for DeviceRow {
    type V = DeviceRowView;

    open spec fn view(&self) -> DeviceRowView {
        DeviceRowView { node_name: self.node_name@, label: self.label@, chosen: self.chosen }
    }
}

/// What each row of a device list shows.
pub open spec fn device_views(rows: Seq<DeviceRow>) -> Seq<DeviceRowView> {
    rows.map_values(|r: DeviceRow| r@)
}

/// What a choice of device holds.
pub open spec fn choice_of(chosen: Option<&String>) -> Option<Seq<char>> {
    match chosen {
        Some(name) => Some(name@),
        None => None,
    }
}

/// Whether a device was found.
pub open spec fn listed(found: Seq<Device>, name: Seq<char>) -> bool {
    exists|i: int| 0 <= i < found.len() && (#[trigger] found[i]).node_name@ == name
}

/// The rows of the devices that were found.
pub open spec fn found_rows(found: Seq<Device>, chosen: Option<Seq<char>>) -> Seq<DeviceRowView> {
    found.map_values(
        |d: Device|
            DeviceRowView {
                node_name: d.node_name@,
                label: d.label@,
                chosen: chosen == Some(d.node_name@),
            },
    )
}

/// A device list: the system default first, then what was found, with the
/// choice checked. A chosen device that isn't connected keeps a row of its
/// own, since the choice is kept.
pub open spec fn devices_shown(
    found: Seq<Device>,
    chosen: Option<Seq<char>>,
    what: Seq<char>,
) -> Seq<DeviceRowView> {
    let known = seq![
        DeviceRowView {
            node_name: seq![],
            label: "System default"@,
            chosen: chosen is None,
        },
    ] + found_rows(found, chosen);
    if chosen is Some && !listed(found, chosen->0) {
        known.push(
            DeviceRowView {
                node_name: chosen->0,
                label: "The chosen "@ + what + " (not connected)"@,
                chosen: true,
            },
        )
    } else {
        known
    }
}

/// One device list's rows. `what` is what the devices are.
pub fn device_rows(found: &Vec<Device>, chosen: Option<&String>, what: &str) -> (rows: Vec<
    DeviceRow,
>)
    ensures
        device_views(rows@) == devices_shown(found@, choice_of(chosen), what@),
{
    let ghost choice = choice_of(chosen);
    let ghost all = found_rows(found@, choice);
    let mut rows: Vec<DeviceRow> = Vec::new();
    rows.push(
        DeviceRow {
            node_name: String::new(),
            label: "System default".to_owned(),
            chosen: chosen.is_none(),
        },
    );
    let ghost first = seq![
        DeviceRowView {
            node_name: seq![],
            label: "System default"@,
            chosen: choice is None,
        },
    ];
    assert(rows@[0]@ =~= first[0]);
    assert(device_views(rows@) =~= first + all.take(0));
    let mut seen = false;
    for i in 0..found.len()
        invariant
            choice == choice_of(chosen),
            all == found_rows(found@, choice),
            device_views(rows@) == first + all.take(i as int),
            seen == (choice is Some && listed(found@.take(i as int), choice->0)),
    {
        let ghost before = device_views(rows@);
        let is_chosen = match chosen {
            Some(name) => *name == found[i].node_name,
            None => false,
        };
        let row = DeviceRow {
            node_name: found[i].node_name.clone(),
            label: found[i].label.clone(),
            chosen: is_chosen,
        };
        let ghost view = row@;
        rows.push(row);
        proof {
            assert(view =~= all[i as int]);
            assert(device_views(rows@) =~= before.push(view));
            assert(first + all.take(i + 1) =~= (first + all.take(i as int)).push(all[i as int]));
            let now = found@.take(i + 1);
            let then = found@.take(i as int);
            if choice is Some {
                if listed(then, choice->0) {
                    let k = choose|k: int|
                        0 <= k < then.len() && (#[trigger] then[k]).node_name@ == choice->0;
                    assert(now[k].node_name@ == choice->0);
                }
                if is_chosen {
                    assert(now[i as int].node_name@ == choice->0);
                }
                if listed(now, choice->0) && !is_chosen {
                    let k = choose|k: int|
                        0 <= k < now.len() && (#[trigger] now[k]).node_name@ == choice->0;
                    assert(then[k].node_name@ == choice->0);
                }
            }
        }
        seen = seen || is_chosen;
    }
    assert(all.take(all.len() as int) =~= all);
    assert(found@.take(found@.len() as int) =~= found@);
    if let Some(name) = chosen {
        if !seen {
            let ghost before = device_views(rows@);
            let mut label = "The chosen ".to_owned();
            label.append(what);
            label.append(" (not connected)");
            let row = DeviceRow { node_name: name.clone(), label, chosen: true };
            let ghost view = row@;
            rows.push(row);
            proof {
                assert(view =~= DeviceRowView {
                    node_name: choice->0,
                    label: "The chosen "@ + what@ + " (not connected)"@,
                    chosen: true,
                });
                assert(device_views(rows@) =~= before.push(view));
            }
        }
    }
    rows
}

/// **A choice always shows**: whatever was found, a row is checked, and it is
/// the chosen device's, or the system default's without a choice.
pub proof fn law_the_choice_always_shows(
    found: Seq<Device>,
    chosen: Option<Seq<char>>,
    what: Seq<char>,
)
    requires
        chosen is Some ==> chosen->0.len() > 0,
    ensures
        exists|i: int|
            0 <= i < devices_shown(found, chosen, what).len() && (#[trigger] devices_shown(
                found,
                chosen,
                what,
            )[i]).chosen,
        forall|i: int|
            0 <= i < devices_shown(found, chosen, what).len() && (#[trigger] devices_shown(
                found,
                chosen,
                what,
            )[i]).chosen ==> devices_shown(found, chosen, what)[i].node_name == match chosen {
                Some(name) => name,
                None => seq![],
            },
{
    let rows = devices_shown(found, chosen, what);
    assert forall|i: int| 0 <= i < rows.len() && (#[trigger] rows[i]).chosen implies rows[i].node_name
        == match chosen {
        Some(name) => name,
        None => seq![],
    } by {
        if 0 < i <= found.len() {
            assert(rows[i] == found_rows(found, chosen)[i - 1]);
        }
    }
    match chosen {
        None => {
            assert(rows[0].chosen);
        },
        Some(name) => {
            if listed(found, name) {
                let k = choose|k: int|
                    0 <= k < found.len() && (#[trigger] found[k]).node_name@ == name;
                assert(rows[k + 1] == found_rows(found, chosen)[k]);
                assert(rows[k + 1].chosen);
            } else {
                assert(rows[rows.len() - 1].chosen);
            }
        },
    }
}

// ---------------------------------------------------------------------------
// The export run.

/// One target as the sheet's run list shows it: a bar while it renders, and a
/// word in its place otherwise.
#[derive(Debug, PartialEq, Eq)]
pub struct RunRow {
    pub label: String,
    pub rendering: bool,
    /// The bar's fraction: `done` of `frames`.
    pub done: u64,
    pub frames: u64,
    pub status: String,
}

/// The frames a bar is out of.
pub open spec fn bar(frames: u64) -> u64 {
    if frames < 1 {
        1
    } else {
        frames
    }
}

/// What a target's row says.
pub open spec fn status_of(target: ExportTargetRun) -> Seq<char> {
    match target.state {
        TargetState::Pending => "Pending"@,
        TargetState::Running(done) => text::decimal(
            (done * 100 / (bar(target.frames) as int)) as nat,
        ) + "%"@,
        TargetState::Done(_) => "Done"@,
        TargetState::Failed(_) => "Failed"@,
        TargetState::Cancelled => "Cancelled"@,
    }
}

/// One target's row. A failure says only that here: the dialog carries the
/// reason.
pub fn run_row(target: &ExportTargetRun) -> (row: RunRow)
    requires
        target.state matches TargetState::Running(done) ==> done <= u64::MAX / 100,
    ensures
        row.label@ == target.label@,
        row.rendering == (target.state is Running),
        row.done == match target.state {
            TargetState::Running(done) => done,
            _ => 0,
        },
        row.frames == bar(target.frames),
        row.status@ == status_of(*target),
{
    let frames: u64 = if target.frames < 1 {
        1
    } else {
        target.frames
    };
    let (rendering, done, status) = match &target.state {
        TargetState::Pending => (false, 0u64, "Pending".to_owned()),
        TargetState::Running(done) => {
            let mut status = String::new();
            let percent: u64 = percent_of(*done, frames);
            text::push_decimal(&mut status, percent);
            status.append("%");
            assert(status@ =~= text::decimal(percent as nat) + "%"@);
            (true, *done, status)
        },
        TargetState::Done(_) => (false, 0u64, "Done".to_owned()),
        TargetState::Failed(_) => (false, 0u64, "Failed".to_owned()),
        TargetState::Cancelled => (false, 0u64, "Cancelled".to_owned()),
    };
    RunRow { label: target.label.clone(), rendering, done, frames, status }
}

fn percent_of(done: u64, frames: u64) -> (percent: u64)
    requires
        done <= u64::MAX / 100,
        frames > 0,
    ensures
        percent == done * 100 / (frames as int),
{
    done * 100 / frames
}

/// The rate the run's end is reckoned from: only while something is still
/// rendering, and only once the rate is steady and positive.
pub fn finish_rate(run: &ExportRun) -> (rate: Option<Rate>)
    ensures
        rate == if run.going() && run.rate is Some && run.rate->0.frames > 0 {
            run.rate
        } else {
            None
        },
{
    if !run.is_running() {
        return None;
    }
    match run.rate {
        Some(rate) => if rate.frames > 0 {
            Some(rate)
        } else {
            None
        },
        None => None,
    }
}

/// How a run is reported in the window.
#[derive(Debug, PartialEq, Eq)]
pub enum RunReport {
    /// Nothing to say: it goes on, or nothing came of it.
    Nothing,
    /// In the error dialog.
    Failed(String),
    /// On the notice line.
    Exported(String),
}

/// The first failure of a run.
pub open spec fn first_failure(targets: Seq<ExportTargetRun>) -> Option<Seq<char>>
    decreases targets.len(),
{
    if targets.len() == 0 {
        None
    } else {
        match targets[0].state {
            TargetState::Failed(why) => Some(why@),
            _ => first_failure(targets.drop_first()),
        }
    }
}

/// How many targets of a run were written.
pub open spec fn written(targets: Seq<ExportTargetRun>) -> nat
    decreases targets.len(),
{
    if targets.len() == 0 {
        0
    } else {
        written(targets.drop_last()) + if targets.last().state is Done {
            1nat
        } else {
            0
        }
    }
}

/// What a run that wrote some videos is reported as.
pub open spec fn exported_text(count: nat) -> Seq<char> {
    "Exported "@ + text::decimal(count) + (if count == 1 {
        " video to the project's exports folder"@
    } else {
        " videos to the project's exports folder"@
    })
}

fn failure_of(run: &ExportRun) -> (why: Option<&String>)
    ensures
        match why {
            Some(w) => first_failure(run.targets@) == Some(w@),
            None => first_failure(run.targets@) is None,
        },
{
    assert(run.targets@.skip(0) =~= run.targets@);
    for i in 0..run.targets.len()
        invariant
            first_failure(run.targets@) == first_failure(run.targets@.skip(i as int)),
    {
        assert(run.targets@.skip(i as int).drop_first() =~= run.targets@.skip(i + 1));
        if let TargetState::Failed(why) = &run.targets[i].state {
            return Some(why);
        }
    }
    None
}

/// What the window says of a run: nothing while it goes on; of one that is
/// over, its first failure, or else how many videos it wrote.
pub fn report(run: &ExportRun) -> (report: RunReport)
    ensures
        if run.going() {
            report is Nothing
        } else if first_failure(run.targets@) is Some {
            report is Failed && report->Failed_0@ == "export failed: "@ + first_failure(
                run.targets@,
            )->0
        } else if written(run.targets@) > 0 {
            report is Exported && report->Exported_0@ == exported_text(written(run.targets@))
        } else {
            report is Nothing
        },
{
    if run.is_running() {
        return RunReport::Nothing;
    }
    if let Some(why) = failure_of(run) {
        let mut said = "export failed: ".to_owned();
        said.append(why.as_str());
        return RunReport::Failed(said);
    }
    let mut count: usize = 0;
    for i in 0..run.targets.len()
        invariant
            count == written(run.targets@.take(i as int)),
            count <= i,
    {
        assert(run.targets@.take(i + 1).drop_last() =~= run.targets@.take(i as int));
        if let TargetState::Done(_) = &run.targets[i].state {
            count = count + 1;
        }
    }
    assert(run.targets@.take(run.targets@.len() as int) =~= run.targets@);
    if count == 0 {
        return RunReport::Nothing;
    }
    let mut said = "Exported ".to_owned();
    text::push_decimal(&mut said, count as u64);
    if count == 1 {
        said.append(" video to the project's exports folder");
    } else {
        said.append(" videos to the project's exports folder");
    }
    assert(said@ =~= exported_text(count as nat));
    RunReport::Exported(said)
}

// ---------------------------------------------------------------------------
// Sources and clips.

/// A row of the source list.
#[derive(Debug, PartialEq, Eq)]
pub struct SourceRow {
    pub name: String,
    pub duration: String,
    pub missing: bool,
    /// A clip or match event is on it, so it can't be removed.
    pub referenced: bool,
}

/// Whether a source's file is missing.
pub open spec fn is_missing(missing: Seq<bool>, index: int) -> bool {
    0 <= index < missing.len() && missing[index]
}

/// Whether a row of the source list is right.
pub open spec fn source_row_is(row: SourceRow, project: &Project, missing: Seq<bool>, i: int) -> bool {
    &&& row.name@ == project.source_videos@[i].display_name@
    &&& row.duration@ == crate::format::hms(project.source_videos@[i].duration as int)
    &&& row.missing == is_missing(missing, i)
    &&& row.referenced == sources::referenced(project, i as usize)
}

/// The source list.
pub fn source_rows(project: &Project, missing: &Vec<bool>) -> (rows: Vec<SourceRow>)
    ensures
        rows@.len() == project.source_videos@.len(),
        forall|i: int|
            0 <= i < rows@.len() ==> source_row_is(#[trigger] rows@[i], project, missing@, i),
{
    let mut rows: Vec<SourceRow> = Vec::new();
    for i in 0..project.source_videos.len()
        invariant
            rows@.len() == i,
            forall|k: int|
                0 <= k < i ==> source_row_is(#[trigger] rows@[k], project, missing@, k),
    {
        let source = &project.source_videos[i];
        rows.push(
            SourceRow {
                name: source.display_name.clone(),
                duration: format_hms(source.duration as i128),
                missing: i < missing.len() && missing[i],
                referenced: project.references_source(i),
            },
        );
    }
    rows
}

/// The first source whose file is missing.
pub fn first_missing(project: &Project, missing: &Vec<bool>) -> (index: Option<usize>)
    ensures
        match index {
            Some(i) => i < project.source_videos@.len() && is_missing(missing@, i as int)
                && forall|k: int| 0 <= k < i ==> !#[trigger] is_missing(missing@, k),
            None => forall|k: int|
                0 <= k < project.source_videos@.len() ==> !#[trigger] is_missing(missing@, k),
        },
{
    for i in 0..project.source_videos.len()
        invariant
            forall|k: int| 0 <= k < i ==> !#[trigger] is_missing(missing@, k),
    {
        if i < missing.len() && missing[i] {
            return Some(i);
        }
    }
    None
}

/// Whether the game video can play: some sources, none missing.
pub fn can_play(project: &Project, missing: &Vec<bool>) -> (can: bool)
    ensures
        can == (project.source_videos@.len() > 0 && forall|k: int|
            0 <= k < project.source_videos@.len() ==> !#[trigger] is_missing(missing@, k)),
{
    project.source_videos.len() > 0 && first_missing(project, missing).is_none()
}

/// A clip's name as the lists and the preview indicator show it.
pub open spec fn shown_name(name: Seq<char>) -> Seq<char> {
    if name.len() == 0 {
        "Untitled"@
    } else {
        name
    }
}

/// A clip's name as the lists and the preview indicator show it.
pub fn clip_name(clip: &Clip) -> (name: String)
    ensures
        name@ == shown_name(clip.name@),
{
    if clip.name.as_str().is_empty() {
        "Untitled".to_owned()
    } else {
        clip.name.clone()
    }
}

/// A row of the clip list.
#[derive(Debug, PartialEq, Eq)]
pub struct ClipRow {
    pub id: Id,
    pub name: String,
    pub duration: String,
}

/// What a [`ClipRow`] shows, as mathematical values.
#[verifier::ext_equal]
pub struct ClipRowView {
    pub id: Id,
    pub name: Seq<char>,
    pub duration: Seq<char>,
}

impl View for ClipRow {
    type V = ClipRowView;

    open spec fn view(&self) -> ClipRowView {
        ClipRowView { id: self.id, name: self.name@, duration: self.duration@ }
    }
}

/// Whether a clip passes a tag filter; an empty one lets every clip through.
pub open spec fn passes(clip: Clip, filter: Seq<char>) -> bool {
    filter.len() == 0 || text::texts(clip.tags@).contains(filter)
}

/// The rows of the clips that pass a filter, in stored order.
pub open spec fn clips_shown(clips: Seq<Clip>, filter: Seq<char>) -> Seq<ClipRowView>
    decreases clips.len(),
{
    if clips.len() == 0 {
        seq![]
    } else {
        let before = clips_shown(clips.drop_last(), filter);
        let clip = clips.last();
        if passes(clip, filter) {
            before.push(
                ClipRowView {
                    id: clip.id,
                    name: shown_name(clip.name@),
                    duration: crate::format::hms(clip.recording_duration as int),
                },
            )
        } else {
            before
        }
    }
}

/// What each row of the clip list shows.
pub open spec fn clip_row_views(rows: Seq<ClipRow>) -> Seq<ClipRowView> {
    rows.map_values(|r: ClipRow| r@)
}

/// Whether a clip passes a tag filter.
pub fn passes_filter(clip: &Clip, filter: &String) -> (yes: bool)
    ensures
        yes == passes(*clip, filter@),
{
    filter.as_str().is_empty() || text::contains_text(&clip.tags, filter)
}

/// The clip list: all the clips in stored order, or those with the filter's
/// tag.
pub fn clip_rows(project: &Project, filter: &String) -> (rows: Vec<ClipRow>)
    ensures
        clip_row_views(rows@) == clips_shown(project.clips@, filter@),
{
    let mut rows: Vec<ClipRow> = Vec::new();
    assert(clip_row_views(rows@) =~= clips_shown(project.clips@.take(0), filter@));
    for i in 0..project.clips.len()
        invariant
            clip_row_views(rows@) == clips_shown(project.clips@.take(i as int), filter@),
    {
        let ghost before = clip_row_views(rows@);
        assert(project.clips@.take(i + 1).drop_last() =~= project.clips@.take(i as int));
        let clip = &project.clips[i];
        if passes_filter(clip, filter) {
            let row = ClipRow {
                id: clip.id,
                name: clip_name(clip),
                duration: format_hms(clip.recording_duration as i128),
            };
            let ghost view = row@;
            rows.push(row);
            assert(clip_row_views(rows@) =~= before.push(view));
        }
    }
    assert(project.clips@.take(project.clips@.len() as int) =~= project.clips@);
    rows
}

/// What the tag list says of a tag: how many clips carry it, and how long they
/// run together.
pub open spec fn tag_line(clips: nat, total: int) -> Seq<char> {
    text::decimal(clips) + (if clips == 1 {
        " clip · "@
    } else {
        " clips · "@
    }) + crate::format::hms(total)
}

/// What the tag list says of a tag. `total` is in ticks.
pub fn tag_detail(clips: usize, total: i128) -> (detail: String)
    ensures
        detail@ == tag_line(clips as nat, total as int),
{
    let mut detail = String::new();
    text::push_decimal(&mut detail, clips as u64);
    if clips == 1 {
        detail.append(" clip · ");
    } else {
        detail.append(" clips · ");
    }
    let length = format_hms(total);
    detail.append(length.as_str());
    assert(detail@ =~= tag_line(clips as nat, total as int));
    detail
}

/// The inspector's fields.
#[derive(Debug, PartialEq, Eq)]
pub struct ClipFields {
    pub name: String,
    /// Joined by commas.
    pub tags: String,
    pub notes: String,
    pub transcript: String,
    pub show_pip: bool,
}

/// The inspector's fields, from the selected clip; empty with none.
pub fn clip_fields(open: Option<&Project>, selected: Option<Id>) -> (fields: ClipFields)
    ensures
        ({
            let at = if open is Some && selected is Some {
                export_run::clip_index(open->0.clips@, selected->0)
            } else {
                None
            };
            match at {
                Some(i) => {
                    let clip = open->0.clips@[i];
                    &&& fields.name@ == clip.name@
                    &&& fields.tags@ == text::joined(text::texts(clip.tags@), ", "@)
                    &&& fields.notes@ == clip.notes@
                    &&& fields.transcript@ == clip.transcript@
                    &&& fields.show_pip == clip.show_pip
                },
                None => {
                    &&& fields.name@.len() == 0
                    &&& fields.tags@.len() == 0
                    &&& fields.notes@.len() == 0
                    &&& fields.transcript@.len() == 0
                    &&& !fields.show_pip
                },
            }
        }),
{
    if let (Some(project), Some(id)) = (open, selected) {
        if let Some(i) = find_clip(&project.clips, id) {
            let clip = &project.clips[i];
            return ClipFields {
                name: clip.name.clone(),
                tags: text::join(&clip.tags, ", "),
                notes: clip.notes.clone(),
                transcript: clip.transcript.clone(),
                show_pip: clip.show_pip,
            };
        }
    }
    ClipFields {
        name: String::new(),
        tags: String::new(),
        notes: String::new(),
        transcript: String::new(),
        show_pip: false,
    }
}

// ---------------------------------------------------------------------------
// Transcription.

/// What a running transcription is doing, and the percent it last reported.
#[derive(Debug, Clone, Copy, PartialEq, Eq, Structural)]
pub enum Stage {
    Downloading(u8),
    Transcribing(u8),
}

/// How a transcription ended, when that is something to say.
#[derive(Debug, PartialEq, Eq)]
pub enum Ending {
    Failed(String),
    /// It found nothing to say.
    Silent,
}

/// The transcription, as the window was last told.
#[derive(Debug, PartialEq, Eq)]
pub struct Queue {
    pub queued: Vec<Id>,
    pub running: Option<(Id, Stage)>,
    pub finished: Option<(Id, Ending)>,
}

/// What the inspector's transcript row is in.
#[derive(Debug, Clone, Copy, PartialEq, Eq, Structural)]
pub enum TranscriptState {
    Idle,
    Queued,
    Running,
    Failed,
}

/// The line of a running transcription. It is a clock, not a bare percentage:
/// a clip shorter than the recognizer's chunk reports zero once and nothing
/// after, so the percent joins the clock only once it has moved off zero. A
/// download's percent is honest, and has no clock.
pub open spec fn running_line(stage: Stage, elapsed: int) -> Seq<char> {
    match stage {
        Stage::Downloading(done) => "Downloading the speech model… "@ + text::decimal(
            done as nat,
        ) + "%"@,
        Stage::Transcribing(percent) => if percent == 0 {
            "Transcribing… "@ + crate::format::hms(elapsed)
        } else {
            "Transcribing… "@ + crate::format::hms(elapsed) + " · "@ + text::decimal(
                percent as nat,
            ) + "%"@
        },
    }
}

/// What the inspector says of a clip's transcription.
pub open spec fn transcript_shown(queue: Queue, clip: Clip, elapsed: int) -> (
    TranscriptState,
    Seq<char>,
) {
    if queue.running is Some && (queue.running->0).0 == clip.id {
        (TranscriptState::Running, running_line((queue.running->0).1, elapsed))
    } else if queue.queued@.contains(clip.id) {
        (TranscriptState::Queued, "Queued"@)
    } else if queue.finished is Some && (queue.finished->0).0 == clip.id {
        match (queue.finished->0).1 {
            Ending::Failed(why) => (
                TranscriptState::Failed,
                crate::format::capitalized("couldn't transcribe: "@ + why@),
            ),
            Ending::Silent => if clip.transcript@.len() == 0 {
                (TranscriptState::Idle, "No speech found"@)
            } else {
                (TranscriptState::Idle, ""@)
            },
        }
    } else {
        (TranscriptState::Idle, ""@)
    }
}

fn is_queued(queued: &Vec<Id>, id: Id) -> (yes: bool)
    ensures
        yes == queued@.contains(id),
{
    for i in 0..queued.len()
        invariant
            forall|k: int| 0 <= k < i ==> queued@[k] != id,
    {
        if queued[i] == id {
            return true;
        }
    }
    false
}

fn running_text(stage: Stage, elapsed: i128) -> (line: String)
    ensures
        line@ == running_line(stage, elapsed as int),
{
    match stage {
        Stage::Downloading(done) => {
            let mut line = "Downloading the speech model… ".to_owned();
            text::push_decimal(&mut line, done as u64);
            line.append("%");
            line
        },
        Stage::Transcribing(percent) => {
            let mut line = "Transcribing… ".to_owned();
            let clock = format_hms(elapsed);
            line.append(clock.as_str());
            if percent != 0 {
                line.append(" · ");
                text::push_decimal(&mut line, percent as u64);
                line.append("%");
            }
            assert(line@ =~= running_line(stage, elapsed as int));
            line
        },
    }
}

/// What the inspector says of a clip's transcription. `elapsed` is how long
/// the running stage has taken, in ticks.
pub fn transcript_row(queue: &Queue, clip: &Clip, elapsed: i128) -> (row: (
    TranscriptState,
    String,
))
    ensures
        (row.0, row.1@) == transcript_shown(*queue, *clip, elapsed as int),
{
    proof {
        reveal_strlit("");
    }
    if let Some((id, stage)) = queue.running {
        if id == clip.id {
            return (TranscriptState::Running, running_text(stage, elapsed));
        }
    }
    if is_queued(&queue.queued, clip.id) {
        return (TranscriptState::Queued, "Queued".to_owned());
    }
    if let Some((id, ending)) = &queue.finished {
        if *id == clip.id {
            return match ending {
                Ending::Failed(why) => {
                    let mut said = "couldn't transcribe: ".to_owned();
                    said.append(why.as_str());
                    (TranscriptState::Failed, sentence(said.as_str()))
                },
                Ending::Silent => if clip.transcript.as_str().is_empty() {
                    (TranscriptState::Idle, "No speech found".to_owned())
                } else {
                    (TranscriptState::Idle, "".to_owned())
                },
            };
        }
    }
    (TranscriptState::Idle, "".to_owned())
}

/// The speech model picker.
#[derive(Debug, PartialEq, Eq)]
pub struct ModelPicker {
    pub rows: Vec<String>,
    pub chosen: usize,
    pub enabled: bool,
}

/// What the picker calls a file that the environment names: the model it is, or
/// else the file's own name.
pub open spec fn override_named(path: Seq<char>) -> Seq<char> {
    let file = match sources::last_name(path) {
        Some(name) => name,
        None => ""@,
    };
    if file == WhisperModel::Small.file() {
        WhisperModel::Small.named()
    } else if file == WhisperModel::Base.file() {
        WhisperModel::Base.named()
    } else {
        file
    }
}

/// What the picker calls a file that the environment names.
pub fn override_name(path: &str) -> (name: String)
    ensures
        name@ == override_named(path@),
{
    let file = match file_name(path) {
        Some(name) => name,
        None => "".to_owned(),
    };
    match WhisperModel::from_file_name(file.as_str()) {
        Some(model) => model.label(),
        None => file,
    }
}

/// The picker of speech models. A file the environment names stands there
/// alone, and can't be changed here.
pub fn model_picker(model: WhisperModel, named: Option<&str>) -> (picker: ModelPicker)
    ensures
        picker.enabled == (named is None),
        match named {
            Some(path) => {
                &&& picker.rows@.len() == 1
                &&& picker.rows@[0]@ == override_named(path@)
                &&& picker.chosen == 0
            },
            None => {
                &&& picker.rows@.len() == 2
                &&& picker.rows@[0]@ == WhisperModel::Small.named()
                &&& picker.rows@[1]@ == WhisperModel::Base.named()
                &&& picker.chosen < 2
                &&& picker.rows@[picker.chosen as int]@ == model.named()
            },
        },
{
    let mut rows: Vec<String> = Vec::new();
    match named {
        Some(path) => {
            rows.push(override_name(path));
            ModelPicker { rows, chosen: 0, enabled: false }
        },
        None => {
            rows.push(WhisperModel::Small.label());
            rows.push(WhisperModel::Base.label());
            let chosen: usize = match model {
                WhisperModel::Small => 0,
                WhisperModel::Base => 1,
            };
            ModelPicker { rows, chosen, enabled: true }
        },
    }
}

/// What the Transcribe button says instead when the chosen model has to be
/// downloaded first, with the size of the download in megabytes; empty when
/// nothing has to be. The button is the prompt, and pressing it is the consent.
pub fn download_prompt(bytes: Option<u64>) -> (prompt: String)
    ensures
        prompt@ == match bytes {
            Some(n) => "Download "@ + text::decimal(crate::format::nearest_whole(n as int) as nat)
                + " MB and transcribe"@,
            None => ""@,
        },
{
    match bytes {
        Some(n) => {
            let mut prompt = "Download ".to_owned();
            text::push_decimal(&mut prompt, crate::format::rounded(n));
            prompt.append(" MB and transcribe");
            prompt
        },
        None => "".to_owned(),
    }
}

/// The failure reported is the first there is.
pub proof fn lemma_first_failure(targets: Seq<ExportTargetRun>)
    ensures
        forall|i: int|
            #![trigger targets[i]]
            0 <= i < targets.len() && targets[i].state is Failed && (forall|k: int|
                0 <= k < i ==> !((#[trigger] targets[k]).state is Failed)) ==> first_failure(
                targets,
            ) == Some(targets[i].state->Failed_0@),
        first_failure(targets) is Some <==> exists|k: int|
            0 <= k < targets.len() && (#[trigger] targets[k]).state is Failed,
    decreases targets.len(),
{
    if targets.len() > 0 {
        let rest = targets.drop_first();
        lemma_first_failure(rest);
        assert forall|i: int|
            #![trigger targets[i]]
            0 <= i < targets.len() && targets[i].state is Failed && (forall|k: int|
                0 <= k < i ==> !((#[trigger] targets[k]).state is Failed)) implies first_failure(
            targets,
        ) == Some(targets[i].state->Failed_0@) by {
            if i > 0 {
                assert(!(targets[0].state is Failed));
                assert(rest[i - 1] == targets[i]);
                assert forall|k: int| 0 <= k < i - 1 implies !(
                (#[trigger] rest[k]).state is Failed) by {
                    assert(rest[k] == targets[k + 1]);
                }
            }
        }
        if first_failure(targets) is Some {
            if targets[0].state is Failed {
            } else {
                let k = choose|k: int|
                    0 <= k < rest.len() && (#[trigger] rest[k]).state is Failed;
                assert(targets[k + 1].state is Failed);
            }
        }
        if exists|k: int| 0 <= k < targets.len() && (#[trigger] targets[k]).state is Failed {
            let k = choose|k: int|
                0 <= k < targets.len() && (#[trigger] targets[k]).state is Failed;
            if k > 0 {
                assert(rest[k - 1].state is Failed);
            }
        }
    }
}

/// The videos written are those of the targets that are done.
pub proof fn lemma_written(targets: Seq<ExportTargetRun>)
    ensures
        written(targets) == targets.filter(|t: ExportTargetRun| t.state is Done).len(),
    decreases targets.len(),
{
    reveal(Seq::filter);
    if targets.len() > 0 {
        lemma_written(targets.drop_last());
    }
}

/// **The clip list shows the clips that carry the filter's tag**, or all of
/// them without one, in stored order, each by its name and length.
pub proof fn law_the_clip_list_shows_what_passes(clips: Seq<Clip>, filter: Seq<char>)
    ensures
        clips_shown(clips, filter) == clips.filter(
            |c: Clip|
                filter.len() == 0 || exists|t: int|
                    0 <= t < c.tags@.len() && (#[trigger] c.tags@[t])@ == filter,
        ).map_values(
            |c: Clip|
                ClipRowView {
                    id: c.id,
                    name: if c.name@.len() > 0 {
                        c.name@
                    } else {
                        "Untitled"@
                    },
                    duration: crate::format::hms(c.recording_duration as int),
                },
        ),
    decreases clips.len(),
{
    let listed = |c: Clip|
        filter.len() == 0 || exists|t: int|
            0 <= t < c.tags@.len() && (#[trigger] c.tags@[t])@ == filter;
    let row = |c: Clip|
        ClipRowView {
            id: c.id,
            name: if c.name@.len() > 0 {
                c.name@
            } else {
                "Untitled"@
            },
            duration: crate::format::hms(c.recording_duration as int),
        };
    reveal(Seq::filter);
    if clips.len() == 0 {
        assert(clips_shown(clips, filter) =~= clips.filter(listed).map_values(row));
    } else {
        let clip = clips.last();
        law_the_clip_list_shows_what_passes(clips.drop_last(), filter);
        assert(passes(clip, filter) == listed(clip)) by {
            let tags = text::texts(clip.tags@);
            if tags.contains(filter) {
                let t = choose|t: int| 0 <= t < tags.len() && tags[t] == filter;
                assert(clip.tags@[t]@ == filter);
            }
            if exists|t: int| 0 <= t < clip.tags@.len() && (#[trigger] clip.tags@[t])@ == filter {
                let t = choose|t: int|
                    0 <= t < clip.tags@.len() && (#[trigger] clip.tags@[t])@ == filter;
                assert(tags[t] == filter);
            }
        }
        let before = clips.drop_last().filter(listed);
        if listed(clip) {
            assert(clips.filter(listed) == before.push(clip));
            assert(before.push(clip).map_values(row) =~= before.map_values(row).push(row(clip)));
        }
    }
}

/// **A device list shows the default, then every device found**, each by its
/// own name, and after them the chosen one if it was not found.
pub proof fn law_a_device_list_shows_what_was_found(
    found: Seq<Device>,
    chosen: Option<Seq<char>>,
    what: Seq<char>,
    k: int,
)
    ensures
        ({
            let rows = devices_shown(found, chosen, what);
            let gone = chosen is Some && forall|i: int|
                0 <= i < found.len() ==> (#[trigger] found[i]).node_name@ != chosen->0;
            &&& rows.len() == 1 + found.len() + if gone {
                1int
            } else {
                0
            }
            &&& rows[0].node_name.len() == 0 && rows[0].label == "System default"@
            &&& rows[0].chosen <==> chosen is None
            &&& 0 <= k < found.len() ==> {
                &&& rows[1 + k].node_name == found[k].node_name@
                &&& rows[1 + k].label == found[k].label@
                &&& rows[1 + k].chosen <==> chosen == Some(found[k].node_name@)
            }
            &&& gone ==> rows.last().node_name == chosen->0 && rows.last().chosen
                && rows.last().label == "The chosen "@ + what + " (not connected)"@
        }),
{
    let known = found_rows(found, chosen);
    let rows = devices_shown(found, chosen, what);
    if 0 <= k < found.len() {
        assert(rows[1 + k] == known[k]);
    }
}

/// **A clip's transcription is shown where it stands**: running before waiting
/// before ended, and only its own.
pub proof fn law_a_transcription_is_shown_where_it_stands(queue: Queue, clip: Clip, elapsed: int)
    ensures
        ({
            let (state, line) = transcript_shown(queue, clip, elapsed);
            let runs = queue.running is Some && (queue.running->0).0 == clip.id;
            let waits = !runs && exists|i: int|
                0 <= i < queue.queued@.len() && #[trigger] queue.queued@[i] == clip.id;
            let ended = !runs && !waits && queue.finished is Some && (queue.finished->0).0
                == clip.id;
            &&& state is Running <==> runs
            &&& state is Queued <==> waits
            &&& state is Failed <==> ended && (queue.finished->0).1 is Failed
            &&& waits ==> line == "Queued"@
            &&& ended && (queue.finished->0).1 is Silent && clip.transcript@.len() == 0 ==> line
                == "No speech found"@
            &&& ended && (queue.finished->0).1 is Silent && clip.transcript@.len() > 0 ==> line
                == ""@
            &&& ended && (queue.finished->0).1 is Failed ==> line == crate::format::capitalized(
                "couldn't transcribe: "@ + (queue.finished->0).1->Failed_0@,
            )
            &&& !runs && !waits && !ended ==> line == ""@
            &&& runs ==> match (queue.running->0).1 {
                Stage::Downloading(done) => line == "Downloading the speech model… "@
                    + text::decimal(done as nat) + "%"@,
                Stage::Transcribing(percent) => (percent == 0 ==> line == "Transcribing… "@
                    + crate::format::hms(elapsed)) && (percent > 0 ==> line == "Transcribing… "@
                    + crate::format::hms(elapsed) + " · "@ + text::decimal(percent as nat) + "%"@),
            }
        }),
{
    if queue.queued@.contains(clip.id) {
        let i = choose|i: int| 0 <= i < queue.queued@.len() && queue.queued@[i] == clip.id;
        assert(queue.queued@[i] == clip.id);
    }
}

/// **A run's end is reckoned while it renders**: from its rate, once that is
/// known and positive.
pub proof fn law_a_run_s_end_is_reckoned_while_it_renders(run: &ExportRun, rate: Option<Rate>, k: int)
    requires
        call_ensures(finish_rate, (run,), rate),
    ensures
        0 <= k < run.targets@.len() && (run.targets@[k].state is Pending
            || run.targets@[k].state is Running) && run.rate is Some && run.rate->0.frames > 0
            ==> rate == run.rate,
        run.rate is None ==> rate is None,
        run.rate matches Some(r) && r.frames <= 0 ==> rate is None,
        (forall|i: int|
            0 <= i < run.targets@.len() ==> (#[trigger] run.targets@[i]).state.ended())
            ==> rate is None,
{
    if 0 <= k < run.targets@.len() && (run.targets@[k].state is Pending
        || run.targets@[k].state is Running) {
        assert(!run.targets@[k].state.ended());
    }
}

/// **The inspector shows the selected clip**, and nothing without one.
pub proof fn law_the_inspector_shows_the_selected_clip(
    open: &Project,
    id: Id,
    fields: ClipFields,
    none: ClipFields,
    i: int,
)
    requires
        call_ensures(clip_fields, (Some(open), Some(id)), fields),
        call_ensures(clip_fields, (Some(open), None), none),
        0 <= i < open.clips@.len(),
        open.clips@[i].id == id,
        forall|k: int| 0 <= k < i ==> (#[trigger] open.clips@[k]).id != id,
    ensures
        fields.name@ == open.clips@[i].name@,
        fields.notes@ == open.clips@[i].notes@,
        fields.transcript@ == open.clips@[i].transcript@,
        fields.show_pip == open.clips@[i].show_pip,
        fields.tags@ == text::joined(text::texts(open.clips@[i].tags@), ", "@),
        none.name@.len() == 0 && none.notes@.len() == 0 && none.transcript@.len() == 0
            && none.tags@.len() == 0 && !none.show_pip,
{
    export_run::lemma_first_clip(open.clips@, id, i);
}

/// **The source list shows each source as it is**: its name and length, whether
/// its file is missing, and whether anything is on it; and the game video plays
/// only with every file there.
pub proof fn law_the_source_list_shows_each_source(
    project: &Project,
    missing: &Vec<bool>,
    rows: Vec<SourceRow>,
    can: bool,
    i: int,
)
    requires
        call_ensures(source_rows, (project, missing), rows),
        call_ensures(can_play, (project, missing), can),
        missing@.len() == project.source_videos@.len(),
        0 <= i < project.source_videos@.len() <= usize::MAX,
    ensures
        rows@.len() == project.source_videos@.len(),
        rows@[i].name@ == project.source_videos@[i].display_name@,
        rows@[i].duration@ == crate::format::hms(project.source_videos@[i].duration as int),
        rows@[i].missing == missing@[i],
        (exists|k: int|
            0 <= k < project.clips@.len() && (#[trigger] project.clips@[k]).source_index == i)
            ==> rows@[i].referenced,
        (exists|k: int|
            0 <= k < project.match_events@.len() && (
            #[trigger] project.match_events@[k]).source_index == i) ==> rows@[i].referenced,
        missing@[i] ==> !can,
        (forall|k: int| 0 <= k < missing@.len() ==> !#[trigger] missing@[k]) ==> can,
{
    assert(source_row_is(rows@[i], project, missing@, i));
    assert(is_missing(missing@, i) == missing@[i]);
    sources::law_a_source_is_in_use_while_anything_is_on_it(project, i as usize);
}

} // verus!
