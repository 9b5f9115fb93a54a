//! An export **run**: targets rendered one at a time while everything else
//! goes on.
//!
//! **Everything is refused up front, naming the clip** (or, for the reel, the
//! game video's file): a missing file fails the whole run before a frame is
//! rendered, rather than an hour into one.
//!
//! **Progress is frames, and the whole run travels in every update**, so a view
//! can't be left holding a state the run has moved past.

use vstd::prelude::*;

use crate::export;
use crate::export::{Rate, RateWindow};
use crate::id::Id;
use crate::plan;
use crate::plan::ExportTarget;
use crate::project::{Clip, Project};
use crate::reel::ReelSide;
use crate::text;
use crate::user_error;
use crate::user_error::UserError;

verus! {

/// Where one target of a run has got to.
#[derive(Debug, PartialEq, Eq)]
pub enum TargetState {
    /// Waiting its turn. Nothing of it has been rendered.
    Pending,
    /// Rendering, with the output frames pushed so far.
    Running(u64),
    /// Written, at this path.
    Done(String),
    /// Gave up, with no file and any file already at its path untouched. The
    /// run goes on to the next target.
    Failed(String),
    /// Cancelled part-way, or never started.
    Cancelled,
}

impl TargetState {
    /// Whether there is nothing left to do for it.
    pub open spec fn ended(self) -> bool {
        self is Done || self is Failed || self is Cancelled
    }

    /// The frames pushed so far by a target that is rendering.
    pub open spec fn pushed(self) -> u64 {
        match self {
            TargetState::Running(frames) => frames,
            _ => 0,
        }
    }
}

/// One target of a run.
#[derive(Debug, PartialEq, Eq)]
pub struct ExportTargetRun {
    /// What it is called, and what names its file. Unique within the run.
    pub label: String,
    /// Its output frames: the denominator, and the only measure of its length.
    pub frames: u64,
    pub state: TargetState,
}

impl ExportTargetRun {
    /// The frames it still owes.
    pub open spec fn owes(self) -> int {
        match self.state {
            TargetState::Pending => self.frames as int,
            TargetState::Running(done) => if done <= self.frames {
                self.frames - done
            } else {
                0
            },
            _ => 0,
        }
    }
}

/// An export run, as it is shown: every target in order, plus the rate the
/// estimate is built on.
#[derive(Debug, PartialEq, Eq)]
pub struct ExportRun {
    pub targets: Vec<ExportTargetRun>,
    /// Output frames over wall time, once it is steady; measured over the
    /// **run**, so it carries across the gap between two targets.
    pub rate: Option<Rate>,
}

/// The frames a run of targets still owes.
pub open spec fn owed(targets: Seq<ExportTargetRun>) -> int
    decreases targets.len(),
{
    if targets.len() == 0 {
        0
    } else {
        owed(targets.drop_last()) + targets.last().owes()
    }
}

proof fn lemma_owed_is_bounded(targets: Seq<ExportTargetRun>)
    ensures
        0 <= owed(targets) <= u64::MAX * targets.len(),
    decreases targets.len(),
{
    if targets.len() > 0 {
        lemma_owed_is_bounded(targets.drop_last());
    }
}

impl ExportRun {
    /// Whether anything is still to render.
    pub open spec fn going(&self) -> bool {
        exists|i: int| 0 <= i < self.targets@.len() && !(#[trigger] self.targets@[i]).state.ended()
    }

    /// Whether anything is still to render. The last update of a run has this
    /// `false`, which is how a view knows the run is over.
    pub fn is_running(&self) -> (running: bool)
        ensures
            running == self.going(),
    {
        for i in 0..self.targets.len()
            invariant
                forall|j: int| 0 <= j < i ==> (#[trigger] self.targets@[j]).state.ended(),
        {
            match &self.targets[i].state {
                TargetState::Pending | TargetState::Running(_) => {
                    assert(!self.targets@[i as int].state.ended());
                    return true;
                },
                _ => {},
            }
        }
        false
    }

    /// Output frames still to render, across every target that hasn't
    /// finished.
    pub fn remaining_frames(&self) -> (frames: u128)
        ensures
            frames == owed(self.targets@),
    {
        let mut frames: u128 = 0;
        for i in 0..self.targets.len()
            invariant
                frames == owed(self.targets@.take(i as int)),
        {
            proof {
                assert(self.targets@.take(i + 1).drop_last() =~= self.targets@.take(i as int));
                lemma_owed_is_bounded(self.targets@.take(i as int));
                lemma_owed_is_bounded(self.targets@.take(i + 1));
            }
            let target = &self.targets[i];
            let owes: u64 = match &target.state {
                TargetState::Pending => target.frames,
                TargetState::Running(done) => if *done <= target.frames {
                    target.frames - *done
                } else {
                    0
                },
                _ => 0,
            };
            frames = frames + owes as u128;
        }
        assert(self.targets@.take(self.targets@.len() as int) =~= self.targets@);
        frames
    }
}

/// **A run that is over owes nothing.**
pub proof fn law_a_finished_run_owes_nothing(run: &ExportRun)
    requires
        !run.going(),
    ensures
        owed(run.targets@) == 0,
{
    lemma_ended_owe_nothing(run.targets@);
}

proof fn lemma_ended_owe_nothing(targets: Seq<ExportTargetRun>)
    requires
        forall|i: int| 0 <= i < targets.len() ==> (#[trigger] targets[i]).state.ended(),
    ensures
        owed(targets) == 0,
    decreases targets.len(),
{
    if targets.len() > 0 {
        let before = targets.drop_last();
        assert forall|i: int| 0 <= i < before.len() implies (#[trigger] before[i]).state.ended() by {
            assert(before[i] == targets[i]);
        }
        assert(targets[targets.len() - 1].state.ended());
        lemma_ended_owe_nothing(before);
    }
}

// ---------------------------------------------------------------------------
// Names.

/// What a clip is called in a file name and in a refusal: its own name, or
/// "Untitled" when it hasn't been given one.
pub open spec fn called(clip: Clip) -> Seq<char> {
    let name = text::trimmed(clip.name@);
    if name.len() == 0 {
        "Untitled"@
    } else {
        name
    }
}

/// What a clip is called in a file name and in a refusal.
pub fn clip_label(clip: &Clip) -> (label: String)
    ensures
        label@ == called(*clip),
{
    let name = text::trim(clip.name.as_str());
    if name.as_str().is_empty() {
        "Untitled".to_owned()
    } else {
        name
    }
}

/// A part of a file name without the characters one can't safely hold.
pub open spec fn cleaned(part: Seq<char>) -> Seq<char> {
    part.map_values(
        |c: char|
            if c == '/' || c == ':' {
                '-'
            } else {
                c
            },
    )
}

fn push_cleaned(out: &mut String, part: &str)
    ensures
        final(out)@ == old(out)@ + cleaned(part@),
{
    let chars = text::chars_of(part);
    let ghost before = out@;
    assert(out@ =~= before + cleaned(part@.take(0)));
    for i in 0..chars.len()
        invariant
            chars@ == part@,
            out@ == before + cleaned(part@.take(i as int)),
    {
        let c = chars[i];
        if c == '/' || c == ':' {
            out.push('-');
        } else {
            out.push(c);
        }
        assert(out@ =~= before + cleaned(part@.take(i + 1)));
    }
    assert(part@.take(part@.len() as int) =~= part@);
}

/// `<label> - <project>.mp4`, with the two characters a file name can't safely
/// hold replaced: `/`, the path separator, and `:`.
pub fn file_name(label: &str, project_name: &str) -> (name: String)
    ensures
        name@ == cleaned(label@) + " - "@ + cleaned(project_name@) + ".mp4"@,
{
    let mut name = String::new();
    push_cleaned(&mut name, label);
    name.append(" - ");
    push_cleaned(&mut name, project_name);
    name.append(".mp4");
    assert(name@ =~= cleaned(label@) + " - "@ + cleaned(project_name@) + ".mp4"@);
    name
}

/// **A file name has no path in it**: neither separator survives, whatever the
/// label and the project are called.
pub proof fn law_a_file_name_holds_no_separator(label: Seq<char>, project_name: Seq<char>, i: int)
    requires
        0 <= i < (cleaned(label) + " - "@ + cleaned(project_name) + ".mp4"@).len(),
    ensures
        (cleaned(label) + " - "@ + cleaned(project_name) + ".mp4"@)[i] != '/',
        (cleaned(label) + " - "@ + cleaned(project_name) + ".mp4"@)[i] != ':',
{
    reveal_strlit(" - ");
    reveal_strlit(".mp4");
}

/// Where the first clip with this id stands.
pub open spec fn clip_index(clips: Seq<Clip>, id: Id) -> Option<int>
    decreases clips.len(),
{
    if clips.len() == 0 {
        None
    } else {
        match clip_index(clips.drop_last(), id) {
            Some(i) => Some(i),
            None => if clips.last().id == id {
                Some(clips.len() - 1)
            } else {
                None
            },
        }
    }
}

pub proof fn lemma_clip_index_is_inside(clips: Seq<Clip>, id: Id)
    requires
        clip_index(clips, id) is Some,
    ensures
        0 <= clip_index(clips, id)->0 < clips.len(),
        clips[clip_index(clips, id)->0].id == id,
    decreases clips.len(),
{
    if clip_index(clips.drop_last(), id) is Some {
        lemma_clip_index_is_inside(clips.drop_last(), id);
    }
}

/// Where the first clip with this id stands.
pub fn find_clip(clips: &Vec<Clip>, id: Id) -> (found: Option<usize>)
    ensures
        match found {
            Some(i) => i < clips@.len() && clip_index(clips@, id) == Some(i as int) && clips@[
                i as int
            ].id == id,
            None => clip_index(clips@, id) is None,
        },
{
    for i in 0..clips.len()
        invariant
            clip_index(clips@.take(i as int), id) is None,
    {
        assert(clips@.take(i + 1).drop_last() =~= clips@.take(i as int));
        if clips[i].id == id {
            proof {
                lemma_found_stays_found(clips@, id, i + 1);
            }
            return Some(i);
        }
    }
    assert(clips@.take(clips@.len() as int) =~= clips@);
    None
}

proof fn lemma_found_stays_found(clips: Seq<Clip>, id: Id, n: int)
    requires
        0 <= n <= clips.len(),
        clip_index(clips.take(n), id) is Some,
    ensures
        clip_index(clips, id) == clip_index(clips.take(n), id),
    decreases clips.len() - n,
{
    if n == clips.len() {
        assert(clips.take(n) =~= clips);
    } else {
        assert(clips.take(n + 1).drop_last() =~= clips.take(n));
        lemma_found_stays_found(clips, id, n + 1);
    }
}

/// What a target is called, or `None` where its clip is gone.
pub open spec fn label_of(project: &Project, target: ExportTarget) -> Option<Seq<char>> {
    match target {
        ExportTarget::AllClips => Some("All clips"@),
        ExportTarget::Tag(tag) => Some(tag@),
        ExportTarget::Clip(id) => match clip_index(project.clips@, id) {
            Some(i) => Some(called(project.clips@[i])),
            None => None,
        },
        ExportTarget::Reel(side) => Some(reel_label(project, side)),
    }
}

/// What a goals reel is called: one side's is named after its team.
pub open spec fn reel_label(project: &Project, side: ReelSide) -> Seq<char> {
    match side {
        ReelSide::All => "All goals"@,
        ReelSide::Home => plan::team_name(project.scoreboard, true) + " goals"@,
        ReelSide::Away => plan::team_name(project.scoreboard, false) + " goals"@,
    }
}

fn side_label(project: &Project, home: bool) -> (label: String)
    ensures
        label@ == plan::team_name(project.scoreboard, home) + " goals"@,
{
    let mut label = String::new();
    match &project.scoreboard {
        Some(config) => {
            if home {
                label.append(config.home.name.as_str());
            } else {
                label.append(config.away.name.as_str());
            }
        },
        None => {
            if home {
                label.append("Home");
            } else {
                label.append("Away");
            }
        },
    }
    label.append(" goals");
    assert(label@ =~= plan::team_name(project.scoreboard, home) + " goals"@);
    label
}

/// What `target` is called, or why it can't run.
pub fn label(project: &Project, target: &ExportTarget) -> (label: Result<String, UserError>)
    ensures
        match label {
            Ok(l) => label_of(project, *target) == Some(l@),
            Err(e) => label_of(project, *target) is None && user_error::refuses_export(
                e,
                "the clip is gone"@,
            ),
        },
{
    match target {
        ExportTarget::AllClips => Ok("All clips".to_owned()),
        ExportTarget::Tag(tag) => Ok(tag.clone()),
        ExportTarget::Clip(id) => match find_clip(&project.clips, *id) {
            Some(i) => Ok(clip_label(&project.clips[i])),
            None => Err(UserError::cant_export("the clip is gone")),
        },
        ExportTarget::Reel(ReelSide::All) => Ok("All goals".to_owned()),
        ExportTarget::Reel(ReelSide::Home) => Ok(side_label(project, true)),
        ExportTarget::Reel(ReelSide::Away) => Ok(side_label(project, false)),
    }
}

// ---------------------------------------------------------------------------
// Labels of a run.

/// `<label> (<n>)`.
pub open spec fn suffixed(label: Seq<char>, n: nat) -> Seq<char> {
    label + " ("@ + text::decimal(n) + ")"@
}

/// The first suffix from `n` on that is not taken yet.
pub open spec fn free_suffix(taken: Seq<Seq<char>>, label: Seq<char>, n: nat) -> nat
    decreases taken.len() + 2 - n,
{
    if n <= taken.len() + 1 && taken.contains(suffixed(label, n)) {
        free_suffix(taken, label, n + 1)
    } else {
        n
    }
}

/// A label that is not taken: itself, or with the first free suffix.
pub open spec fn freed(taken: Seq<Seq<char>>, label: Seq<char>) -> Seq<char> {
    if taken.contains(label) {
        suffixed(label, free_suffix(taken, label, 2))
    } else {
        label
    }
}

/// Every label of a run made unique, the later of a pair suffixed.
pub open spec fn made_unique(labels: Seq<Seq<char>>) -> Seq<Seq<char>>
    decreases labels.len(),
{
    if labels.len() == 0 {
        seq![]
    } else {
        let before = made_unique(labels.drop_last());
        before.push(freed(before, labels.last()))
    }
}

proof fn lemma_suffixes_differ(label: Seq<char>, a: nat, b: nat)
    requires
        suffixed(label, a) == suffixed(label, b),
    ensures
        a == b,
{
    let tail_a = text::decimal(a);
    let tail_b = text::decimal(b);
    let head = (label + " ("@).len() as int;
    reveal_strlit(")");
    assert(suffixed(label, a).len() == head + tail_a.len() + 1);
    assert(suffixed(label, b).len() == head + tail_b.len() + 1);
    assert(tail_a =~= suffixed(label, a).subrange(head, head + tail_a.len()));
    assert(tail_b =~= suffixed(label, b).subrange(head, head + tail_b.len()));
    text::lemma_decimal_reads_back(a);
    text::lemma_decimal_reads_back(b);
}

/// There is always a free suffix among the first few: the label and as many
/// suffixes of it as there are labels taken cannot all be taken.
proof fn lemma_a_suffix_is_free(taken: Seq<Seq<char>>, label: Seq<char>, n: nat)
    requires
        taken.contains(label),
        forall|k: int|
            2 <= k < n ==> taken.contains(#[trigger] suffixed(label, k as nat)),
        n >= 2,
    ensures
        n - 1 <= taken.len(),
{
    let tried = Seq::new(
        (n - 1) as nat,
        |i: int|
            if i == 0 {
                label
            } else {
                suffixed(label, (i + 1) as nat)
            },
    );
    reveal_strlit(")");
    assert(tried.no_duplicates()) by {
        assert forall|i: int, j: int| 0 <= i < tried.len() && 0 <= j < tried.len() && i
            != j implies tried[i] != tried[j] by {
            if i == 0 {
                assert(tried[j].len() > label.len());
            } else if j == 0 {
                assert(tried[i].len() > label.len());
            } else if tried[i] == tried[j] {
                lemma_suffixes_differ(label, (i + 1) as nat, (j + 1) as nat);
            }
        }
    }
    tried.unique_seq_to_set();
    assert(tried.to_set().subset_of(taken.to_set())) by {
        assert forall|s: Seq<char>| tried.to_set().contains(s) implies taken.to_set().contains(
            s,
        ) by {
            let i = choose|i: int| 0 <= i < tried.len() && tried[i] == s;
            if i > 0 {
                assert(taken.contains(suffixed(label, (i + 1) as nat)));
            }
        }
    }
    vstd::seq_lib::seq_to_set_is_finite(taken);
    vstd::set_lib::lemma_len_subset(tried.to_set(), taken.to_set());
    taken.lemma_cardinality_of_set();
}

proof fn lemma_free_suffix(taken: Seq<Seq<char>>, label: Seq<char>, n: nat)
    requires
        taken.contains(label),
        2 <= n <= taken.len() + 1,
        forall|k: int|
            2 <= k < n ==> taken.contains(#[trigger] suffixed(label, k as nat)),
    ensures
        n <= free_suffix(taken, label, n) <= taken.len() + 1,
        !taken.contains(suffixed(label, free_suffix(taken, label, n))),
    decreases taken.len() + 2 - n,
{
    if taken.contains(suffixed(label, n)) {
        lemma_a_suffix_is_free(taken, label, n + 1);
        lemma_free_suffix(taken, label, n + 1);
    }
}

/// **Labels end up unique**, one for each that came in, and a label that is
/// the first of its kind keeps its name.
pub proof fn law_labels_are_unique(labels: Seq<Seq<char>>)
    ensures
        made_unique(labels).len() == labels.len(),
        made_unique(labels).no_duplicates(),
        labels.len() > 0 ==> made_unique(labels)[0] == labels[0],
        forall|i: int|
            0 <= i < labels.len() ==> {
                ||| #[trigger] made_unique(labels)[i] == labels[i]
                ||| exists|n: nat| made_unique(labels)[i] == #[trigger] suffixed(labels[i], n)
            },
    decreases labels.len(),
{
    if labels.len() > 0 {
        let earlier = labels.drop_last();
        law_labels_are_unique(earlier);
        let before = made_unique(earlier);
        let all = made_unique(labels);
        let last = freed(before, labels.last());
        if before.contains(labels.last()) {
            lemma_free_suffix(before, labels.last(), 2);
        }
        assert(!before.contains(last));
        assert forall|i: int, j: int| 0 <= i < all.len() && 0 <= j < all.len() && i != j implies
            all[i] != all[j] by {
            if i == before.len() && j < before.len() {
                assert(before.contains(before[j]));
            } else if j == before.len() && i < before.len() {
                assert(before.contains(before[i]));
            }
        }
        assert forall|i: int| 0 <= i < labels.len() implies {
            ||| #[trigger] all[i] == labels[i]
            ||| exists|n: nat| all[i] == #[trigger] suffixed(labels[i], n)
        } by {
            if i < before.len() {
                assert(earlier[i] == labels[i]);
                assert(before[i] == all[i]);
            } else if before.contains(labels.last()) {
                assert(all[i] == suffixed(labels[i], free_suffix(before, labels.last(), 2)));
            }
        }
    }
}

fn push_suffixed(label: &String, n: u64) -> (out: String)
    ensures
        out@ == suffixed(label@, n as nat),
{
    let mut out = label.clone();
    out.append(" (");
    text::push_decimal(&mut out, n);
    out.append(")");
    assert(out@ =~= suffixed(label@, n as nat));
    out
}

/// Makes every label of a run unique, suffixing the later of a pair.
///
/// The label names the file, and nothing stops a clip being called what a tag
/// is called: the second would otherwise overwrite the first's file.
pub fn de_duplicate(labels: Vec<String>) -> (unique: Vec<String>)
    ensures
        text::texts(unique@) == made_unique(text::texts(labels@)),
        unique@.len() == labels@.len(),
{
    let ghost all = text::texts(labels@);
    let mut unique: Vec<String> = Vec::new();
    assert(text::texts(unique@) =~= made_unique(all.take(0)));
    for i in 0..labels.len()
        invariant
            all == text::texts(labels@),
            text::texts(unique@) == made_unique(all.take(i as int)),
            unique@.len() == i,
    {
        let ghost before = unique@;
        let ghost taken = text::texts(unique@);
        proof {
            assert(all.take(i + 1).drop_last() =~= all.take(i as int));
            assert(all[i as int] == labels@[i as int]@);
        }
        let label = &labels[i];
        if !text::contains_text(&unique, label) {
            unique.push(label.clone());
            assert(text::texts(unique@) =~= taken.push(label@));
        } else {
            let mut n: u64 = 2;
            let mut candidate = push_suffixed(label, n);
            while text::contains_text(&unique, &candidate)
                invariant
                    2 <= n <= taken.len() + 1,
                    taken == text::texts(unique@),
                    taken.contains(label@),
                    taken.len() == unique@.len() < u64::MAX,
                    candidate@ == suffixed(label@, n as nat),
                    forall|k: int|
                        2 <= k < n ==> taken.contains(#[trigger] suffixed(label@, k as nat)),
                    free_suffix(taken, label@, 2) == free_suffix(taken, label@, n as nat),
                decreases taken.len() + 2 - n,
            {
                proof {
                    assert forall|k: int| 2 <= k < n + 1 implies taken.contains(
                        #[trigger] suffixed(label@, k as nat),
                    ) by {}
                    lemma_a_suffix_is_free(taken, label@, (n + 1) as nat);
                }
                n = n + 1;
                candidate = push_suffixed(label, n);
            }
            let ghost chosen = candidate@;
            unique.push(candidate);
            assert(text::texts(unique@) =~= taken.push(chosen));
        }
    }
    assert(all.take(all.len() as int) =~= all);
    unique
}

// ---------------------------------------------------------------------------
// A run going on.

/// How a target stopped rendering.
#[derive(Debug, PartialEq, Eq)]
pub enum TargetEnd {
    /// Written, at this path.
    Done(String),
    Cancelled,
    Failed(String),
}

impl TargetEnd {
    /// The state a target that ended so is left in.
    pub open spec fn state(self) -> TargetState {
        match self {
            TargetEnd::Done(path) => TargetState::Done(path),
            TargetEnd::Cancelled => TargetState::Cancelled,
            TargetEnd::Failed(why) => TargetState::Failed(why),
        }
    }
}

/// The frames of a run of targets.
pub open spec fn frames_of(targets: Seq<ExportTargetRun>) -> int
    decreases targets.len(),
{
    if targets.len() == 0 {
        0
    } else {
        frames_of(targets.drop_last()) + targets.last().frames
    }
}

/// Whether nothing is left to do for any of these targets.
pub open spec fn all_ended(targets: Seq<ExportTargetRun>) -> bool {
    forall|i: int| 0 <= i < targets.len() ==> (#[trigger] targets[i]).state.ended()
}

/// What an [`ActiveRun`] knows.
#[verifier::ext_equal]
pub struct RunState {
    pub targets: Seq<ExportTargetRun>,
    pub rate: Option<Rate>,
    /// Which target is rendering.
    pub index: int,
    /// The frames the targets before it rendered: the rate is the run's, not
    /// the target's.
    pub done_frames: int,
    pub samples: Seq<(i64, u64)>,
    /// A cancel has been asked for.
    pub cancelled: bool,
}

impl RunState {
    /// The target rendering is the only one, the ones before it have ended and
    /// the ones after it wait; and no count outgrows its counter.
    pub open spec fn rendering(self) -> bool {
        &&& 0 <= self.index < self.targets.len()
        &&& self.targets[self.index].state is Running
        &&& forall|i: int|
            0 <= i < self.index ==> (#[trigger] self.targets[i]).state.ended()
        &&& forall|i: int|
            self.index < i < self.targets.len() ==> (#[trigger] self.targets[i]).state is Pending
        &&& 0 <= self.done_frames
        &&& self.done_frames + self.targets[self.index].frames + self.rest_frames() <= u64::MAX
        &&& self.done_frames + self.targets[self.index].state.pushed() + self.rest_frames()
            <= u64::MAX
    }

    /// The frames of the targets that wait.
    pub open spec fn rest_frames(self) -> int {
        frames_of(self.targets.skip(self.index + 1))
    }

    /// With target `i` in another state.
    pub open spec fn with_state(self, i: int, state: TargetState) -> RunState {
        RunState {
            targets: self.targets.update(i, ExportTargetRun { state, ..self.targets[i] }),
            ..self
        }
    }

    /// With `frames` of the current target pushed, `elapsed` ticks into the
    /// run.
    pub open spec fn progressed(self, frames: u64, elapsed: i64) -> RunState {
        let samples = export::fresh(
            self.samples.push((elapsed, (self.done_frames + frames) as u64)),
            elapsed - export::RATE_WINDOW,
        );
        RunState {
            samples,
            rate: export::rate_over(samples),
            ..self.with_state(self.index, TargetState::Running(frames))
        }
    }

    /// With the current target ended, counting the frames it really rendered:
    /// a failure half-way must not spike the rate with the frames it never got
    /// to.
    pub open spec fn target_ended(self, end: TargetEnd) -> RunState {
        let target = self.targets[self.index];
        let ended = self.with_state(self.index, end.state());
        RunState {
            done_frames: self.done_frames + if end is Done {
                target.frames
            } else {
                target.state.pushed()
            },
            ..ended
        }
    }

    /// Whether the run goes on to another target.
    pub open spec fn goes_on(self) -> bool {
        !self.cancelled && self.index + 1 < self.targets.len()
    }

    /// With the next target rendering, or, once the run is over, the ones
    /// never started cancelled.
    pub open spec fn moved_on(self) -> RunState {
        let next = RunState { index: self.index + 1, ..self };
        if self.goes_on() {
            next.with_state(next.index, TargetState::Running(0))
        } else {
            RunState {
                targets: Seq::new(
                    self.targets.len(),
                    |i: int|
                        if i <= self.index {
                            self.targets[i]
                        } else {
                            ExportTargetRun { state: TargetState::Cancelled, ..self.targets[i] }
                        },
                ),
                ..next
            }
        }
    }
}

/// A run in progress.
#[derive(Debug)]
pub struct ActiveRun {
    run: ExportRun,
    index: usize,
    done_frames: u64,
    rate: RateWindow,
    cancelled: bool,
}

impl View for ActiveRun {
    type V = RunState;

    closed spec fn view(&self) -> RunState {
        RunState {
            targets: self.run.targets@,
            rate: self.run.rate,
            index: self.index as int,
            done_frames: self.done_frames as int,
            samples: self.rate@,
            cancelled: self.cancelled,
        }
    }
}

proof fn lemma_frames_from(targets: Seq<ExportTargetRun>, k: int)
    requires
        0 <= k < targets.len(),
    ensures
        frames_of(targets.skip(k)) == targets[k].frames + frames_of(targets.skip(k + 1)),
    decreases targets.len(),
{
    if k == targets.len() - 1 {
        assert(targets.skip(k).drop_last() =~= seq![]);
        assert(targets.skip(k + 1) =~= seq![]);
    } else {
        lemma_frames_from(targets.drop_last(), k);
        assert(targets.skip(k).drop_last() =~= targets.drop_last().skip(k));
        assert(targets.skip(k + 1).drop_last() =~= targets.drop_last().skip(k + 1));
    }
}

proof fn lemma_frames_are_positive(targets: Seq<ExportTargetRun>)
    ensures
        frames_of(targets) >= 0,
    decreases targets.len(),
{
    if targets.len() > 0 {
        lemma_frames_are_positive(targets.drop_last());
    }
}

impl ActiveRun {
    /// Starts a run over `targets`, all of them pending: the first is
    /// rendering.
    pub fn start(targets: Vec<ExportTargetRun>) -> (active: ActiveRun)
        requires
            targets@.len() > 0,
            forall|i: int| 0 <= i < targets@.len() ==> (#[trigger] targets@[i]).state is Pending,
            frames_of(targets@) <= u64::MAX,
        ensures
            active@.rendering(),
            active@ == (RunState {
                targets: targets@,
                rate: None,
                index: 0,
                done_frames: 0,
                samples: seq![],
                cancelled: false,
            }).with_state(0, TargetState::Running(0)),
    {
        let ghost before = targets@;
        let mut targets = targets;
        targets[0].state = TargetState::Running(0);
        proof {
            lemma_frames_from(before, 0);
            assert(before.skip(0) =~= before);
            assert(targets@.skip(1) =~= before.skip(1));
            assert(targets@ =~= before.update(
                0,
                ExportTargetRun { state: TargetState::Running(0), ..before[0] },
            ));
        }
        ActiveRun {
            run: ExportRun { targets, rate: None },
            index: 0,
            done_frames: 0,
            rate: RateWindow::new(),
            cancelled: false,
        }
    }

    /// The run, to be shown.
    pub fn run(&self) -> (run: &ExportRun)
        ensures
            run.targets@ == self@.targets,
            run.rate == self@.rate,
    {
        &self.run
    }

    /// Which target is rendering.
    pub fn index(&self) -> (index: usize)
        ensures
            index == self@.index,
    {
        self.index
    }

    /// The target rendering has pushed `frames`, `elapsed` ticks into the run.
    /// They may outnumber the frames it was to have; the run's counter has to
    /// hold them beside those of the other targets.
    pub fn progress(&mut self, frames: u64, elapsed: i64)
        requires
            old(self)@.rendering(),
            old(self)@.done_frames + frames + old(self)@.rest_frames() <= u64::MAX,
        ensures
            final(self)@ == old(self)@.progressed(frames, elapsed),
            final(self)@.rendering(),
    {
        proof {
            lemma_frames_are_positive(self@.targets.skip(self@.index + 1));
        }
        let ghost before = self@;
        let index = self.index;
        self.run.targets[index].state = TargetState::Running(frames);
        self.run.rate = self.rate.sample(self.done_frames + frames, elapsed);
        proof {
            assert(self@.targets =~= before.progressed(frames, elapsed).targets);
            assert(self@.targets.skip(before.index + 1) =~= before.targets.skip(before.index + 1));
        }
    }

    /// Asks the run to stop: the target rendering still reports its own
    /// outcome, and the targets after it are never started.
    pub fn cancel(&mut self)
        ensures
            final(self)@ == (RunState { cancelled: true, ..old(self)@ }),
    {
        self.cancelled = true;
    }

    /// The target rendering stopped. Returns the next one to render, or `None`
    /// once the run is over: the targets already written stay written, and
    /// after a cancel the ones never started are marked cancelled rather than
    /// run.
    pub fn finished(&mut self, end: TargetEnd) -> (next: Option<usize>)
        requires
            old(self)@.rendering(),
        ensures
            final(self)@ == old(self)@.target_ended(end).moved_on(),
            match next {
                Some(i) => old(self)@.goes_on() && i == old(self)@.index + 1
                    && final(self)@.rendering(),
                None => !old(self)@.goes_on() && all_ended(final(self)@.targets),
            },
    {
        let ghost before = self@;
        proof {
            lemma_frames_are_positive(before.targets.skip(before.index + 1));
        }
        let index = self.index;
        let rendered: u64 = match &self.run.targets[index].state {
            TargetState::Running(done) => *done,
            _ => 0,
        };
        let counted: u64 = match &end {
            TargetEnd::Done(_) => self.run.targets[index].frames,
            _ => rendered,
        };
        self.run.targets[index].state = match end {
            TargetEnd::Done(path) => TargetState::Done(path),
            TargetEnd::Cancelled => TargetState::Cancelled,
            TargetEnd::Failed(why) => TargetState::Failed(why),
        };
        self.done_frames = self.done_frames + counted;
        let ghost ended = self@;
        assert(ended =~= before.target_ended(end));
        let count: usize = self.run.targets.len();
        self.index = index + 1;
        if !self.cancelled && self.index < count {
            let next = self.index;
            self.run.targets[next].state = TargetState::Running(0);
            proof {
                assert(self@ =~= ended.moved_on());
                lemma_frames_from(before.targets, before.index + 1);
                assert(self@.targets.skip(self@.index + 1) =~= before.targets.skip(
                    before.index + 2,
                ));
            }
            return Some(next);
        }
        let mut i: usize = self.index;
        while i < count
            invariant
                count == self.run.targets@.len(),
                index + 1 <= i,
                self.index == index + 1,
                self@.targets.len() == ended.targets.len(),
                self@ == (RunState { index: index + 1, targets: self@.targets, ..ended }),
                forall|k: int|
                    0 <= k < ended.targets.len() ==> #[trigger] self@.targets[k] == (if index < k
                        < i {
                        ExportTargetRun { state: TargetState::Cancelled, ..ended.targets[k] }
                    } else {
                        ended.targets[k]
                    }),
            decreases self@.targets.len() - i,
        {
            self.run.targets[i].state = TargetState::Cancelled;
            i = i + 1;
        }
        assert(self@ =~= ended.moved_on());
        None
    }
}

/// **A cancel starts nothing**: whatever the target rendering reports, no
/// other one is rendered after it, and none is left pending.
pub proof fn law_a_cancelled_run_starts_nothing(state: RunState, end: TargetEnd, i: int)
    requires
        state.rendering(),
        state.cancelled,
        0 <= i < state.targets.len(),
    ensures
        ({
            let over = state.target_ended(end).moved_on();
            &&& over.targets[i].state.ended()
            &&& i < state.index ==> over.targets[i] == state.targets[i]
            &&& i == state.index ==> over.targets[i].state == end.state()
            &&& i > state.index ==> over.targets[i].state is Cancelled
        }),
{
}

/// **A failure does not stop the run**: however a target ends, the next one
/// starts from nothing while there is one, and what has ended stays as it was.
pub proof fn law_a_failure_does_not_stop_the_run(state: RunState, end: TargetEnd, i: int)
    requires
        state.rendering(),
        state.goes_on(),
        0 <= i < state.index,
    ensures
        ({
            let next = state.target_ended(end).moved_on();
            &&& next.index == state.index + 1
            &&& next.targets[next.index].state == TargetState::Running(0)
            &&& next.targets[i] == state.targets[i]
            &&& next.targets[state.index].state == end.state()
        }),
{
}

/// **A target's end is its own**: it is left written, failed or cancelled as
/// it ended, and counts the frames it really rendered; nothing else of it, and
/// no target that ended before, changes. The next one starts unless a cancel
/// was asked for or there is none, and then those that never started are
/// cancelled.
pub proof fn law_a_target_s_end_is_its_own(state: RunState, end: TargetEnd, i: int)
    requires
        state.rendering(),
        0 <= i < state.targets.len(),
    ensures
        ({
            let next = state.target_ended(end).moved_on();
            let on = !state.cancelled && state.index < state.targets.len() - 1;
            &&& state.goes_on() == on
            &&& next.targets.len() == state.targets.len()
            &&& next.index == state.index + 1
            &&& next.cancelled == state.cancelled
            &&& next.rate == state.rate && next.samples == state.samples
            &&& next.targets[i].label == state.targets[i].label
            &&& next.targets[i].frames == state.targets[i].frames
            &&& i < state.index ==> next.targets[i].state == state.targets[i].state
            &&& i == state.index ==> match end {
                TargetEnd::Done(path) => next.targets[i].state == TargetState::Done(path),
                TargetEnd::Cancelled => next.targets[i].state == TargetState::Cancelled,
                TargetEnd::Failed(why) => next.targets[i].state == TargetState::Failed(why),
            }
            &&& on && i == state.index + 1 ==> next.targets[i].state == TargetState::Running(0)
            &&& on && i > state.index + 1 ==> next.targets[i].state == TargetState::Pending
            &&& !on && i > state.index ==> next.targets[i].state == TargetState::Cancelled
            &&& end is Done ==> next.done_frames == state.done_frames
                + state.targets[state.index].frames
            &&& !(end is Done) ==> next.done_frames == state.done_frames
                + state.targets[state.index].state->Running_0
        }),
{
}

/// **Progress is the target's, and its rate the run's**: the target rendering
/// has as many frames as it said, every other is as it was, and the sample
/// counts the frames of those before it too.
pub proof fn law_progress_counts_for_the_run(
    state: RunState,
    frames: u64,
    elapsed: i64,
    i: int,
)
    requires
        state.rendering(),
        state.done_frames + frames <= u64::MAX,
        0 <= i < state.targets.len(),
    ensures
        ({
            let next = state.progressed(frames, elapsed);
            &&& next.targets.len() == state.targets.len()
            &&& next.targets[i].label == state.targets[i].label
            &&& next.targets[i].frames == state.targets[i].frames
            &&& i == state.index ==> next.targets[i].state == TargetState::Running(frames)
            &&& i != state.index ==> next.targets[i].state == state.targets[i].state
            &&& next.index == state.index && next.done_frames == state.done_frames
            &&& next.cancelled == state.cancelled
            &&& next.samples.len() > 0
            &&& next.samples.last().0 == elapsed
            &&& next.samples.last().1 == state.done_frames + frames
            &&& next.samples == export::sampled(
                state.samples,
                (state.done_frames + frames) as u64,
                elapsed,
            )
            &&& next.rate == export::rate_over(next.samples)
        }),
{
    let counted = (state.done_frames + frames) as u64;
    let from = export::law_the_rate_is_the_window_s(state.samples, counted, elapsed);
    let all = state.samples.push((elapsed, counted));
    assert(all.skip(from).last() == all.last());
}

/// **What is left to render is what each target still owes**: all of it while
/// it waits, the frames not pushed while it renders, and nothing once it ended.
pub proof fn law_each_target_owes_its_own(
    targets: Seq<ExportTargetRun>,
    target: ExportTargetRun,
)
    ensures
        owed(Seq::<ExportTargetRun>::empty()) == 0,
        owed(targets.push(target)) == owed(targets) + match target.state {
            TargetState::Pending => target.frames as int,
            TargetState::Running(done) => if done >= target.frames {
                0
            } else {
                target.frames - done
            },
            TargetState::Done(_) => 0,
            TargetState::Failed(_) => 0,
            TargetState::Cancelled => 0,
        },
{
    assert(targets.push(target).drop_last() =~= targets);
}

/// **A cleaned name keeps every character but the two separators**, each of
/// which becomes a dash.
pub proof fn law_a_cleaned_name_keeps_its_characters(part: Seq<char>, i: int)
    requires
        0 <= i < part.len(),
    ensures
        cleaned(part).len() == part.len(),
        part[i] == '/' || part[i] == ':' ==> cleaned(part)[i] == '-',
        part[i] != '/' && part[i] != ':' ==> cleaned(part)[i] == part[i],
{
}

/// **A label keeps its name unless it is taken**: then it gets the lowest
/// number from 2 on that is free.
pub proof fn law_a_label_gets_the_lowest_free_number(labels: Seq<Seq<char>>, i: int)
    requires
        0 <= i < labels.len(),
    ensures
        made_unique(labels).len() == labels.len(),
        ({
            let unique = made_unique(labels);
            let before = unique.take(i);
            &&& !before.contains(labels[i]) ==> unique[i] == labels[i]
            &&& before.contains(labels[i]) ==> exists|n: nat|
                #![trigger text::decimal(n)]
                n >= 2 && unique[i] == labels[i] + " ("@ + text::decimal(n) + ")"@
                    && !before.contains(unique[i]) && forall|m: nat|
                    #![trigger text::decimal(m)]
                    2 <= m < n ==> before.contains(
                        labels[i] + " ("@ + text::decimal(m) + ")"@,
                    )
        }),
    decreases labels.len(),
{
    law_labels_are_unique(labels);
    let earlier = labels.drop_last();
    law_labels_are_unique(earlier);
    let before = made_unique(earlier);
    let unique = made_unique(labels);
    let last = labels.len() - 1;
    if i < last {
        law_a_label_gets_the_lowest_free_number(earlier, i);
        assert(unique.take(i) =~= before.take(i));
        assert(unique[i] == before[i]);
        assert(earlier[i] == labels[i]);
    } else {
        assert(unique.take(i) =~= before);
        if before.contains(labels[i]) {
            lemma_free_suffix(before, labels[i], 2);
            let n = free_suffix(before, labels[i], 2);
            lemma_lower_suffixes_are_taken(before, labels[i], 2);
            assert(unique[i] == labels[i] + " ("@ + text::decimal(n) + ")"@);
            assert forall|m: nat| #![trigger text::decimal(m)] 2 <= m < n implies before.contains(
                labels[i] + " ("@ + text::decimal(m) + ")"@,
            ) by {
                assert(before.contains(suffixed(labels[i], m)));
            }
        }
    }
}

proof fn lemma_lower_suffixes_are_taken(taken: Seq<Seq<char>>, label: Seq<char>, n: nat)
    ensures
        forall|m: nat|
            n <= m < free_suffix(taken, label, n) ==> taken.contains(#[trigger] suffixed(label, m)),
    decreases taken.len() + 2 - n,
{
    if n <= taken.len() + 1 && taken.contains(suffixed(label, n)) {
        lemma_lower_suffixes_are_taken(taken, label, n + 1);
    }
}

/// **A target is called by what it covers**: the tag, the clip's own name or
/// "Untitled", the side's team; and a clip that is gone has no name.
pub proof fn law_a_target_is_called_by_what_it_covers(
    project: &Project,
    tag: String,
    id: Id,
    i: int,
)
    ensures
        label_of(project, ExportTarget::AllClips) == Some("All clips"@),
        label_of(project, ExportTarget::Tag(tag)) == Some(tag@),
        label_of(project, ExportTarget::Reel(ReelSide::All)) == Some("All goals"@),
        project.scoreboard matches Some(config) ==> label_of(
            project,
            ExportTarget::Reel(ReelSide::Home),
        ) == Some(config.home.name@ + " goals"@) && label_of(
            project,
            ExportTarget::Reel(ReelSide::Away),
        ) == Some(config.away.name@ + " goals"@),
        project.scoreboard is None ==> label_of(project, ExportTarget::Reel(ReelSide::Home))
            == Some("Home"@ + " goals"@) && label_of(project, ExportTarget::Reel(ReelSide::Away))
            == Some("Away"@ + " goals"@),
        0 <= i < project.clips@.len() && project.clips@[i].id == id && (forall|k: int|
            0 <= k < i ==> (#[trigger] project.clips@[k]).id != id) ==> label_of(
            project,
            ExportTarget::Clip(id),
        ) == Some(
            if text::trimmed(project.clips@[i].name@).len() > 0 {
                text::trimmed(project.clips@[i].name@)
            } else {
                "Untitled"@
            },
        ),
        (forall|k: int| 0 <= k < project.clips@.len() ==> (#[trigger] project.clips@[k]).id != id)
            ==> label_of(project, ExportTarget::Clip(id)) is None,
{
    let clips = project.clips@;
    if 0 <= i < clips.len() && clips[i].id == id && (forall|k: int|
        0 <= k < i ==> (#[trigger] clips[k]).id != id) {
        lemma_first_clip(clips, id, i);
    }
    if forall|k: int| 0 <= k < clips.len() ==> (#[trigger] clips[k]).id != id {
        lemma_no_clip(clips, id);
    }
}

/// The first clip with an id is the one it is found at.
pub proof fn lemma_first_clip(clips: Seq<Clip>, id: Id, i: int)
    requires
        0 <= i < clips.len(),
        clips[i].id == id,
        forall|k: int| 0 <= k < i ==> (#[trigger] clips[k]).id != id,
    ensures
        clip_index(clips, id) == Some(i),
{
    lemma_no_clip(clips.take(i), id);
    assert(clips.take(i + 1).drop_last() =~= clips.take(i));
    lemma_found_stays_found(clips, id, i + 1);
}

/// A clip that is not there is not found.
pub proof fn lemma_no_clip(clips: Seq<Clip>, id: Id)
    requires
        forall|k: int| 0 <= k < clips.len() ==> (#[trigger] clips[k]).id != id,
    ensures
        clip_index(clips, id) is None,
    decreases clips.len(),
{
    if clips.len() > 0 {
        let before = clips.drop_last();
        assert forall|k: int| 0 <= k < before.len() implies (#[trigger] before[k]).id != id by {
            assert(before[k] == clips[k]);
        }
        lemma_no_clip(before, id);
        assert(clips.last() == clips[clips.len() - 1]);
    }
}

/// **A run goes from target to target**: when one ended the next starts, unless
/// it was the last or a cancel was asked for, and then the run is over.
pub proof fn law_a_run_goes_from_target_to_target(
    run: &mut ActiveRun,
    end: TargetEnd,
    next: Option<usize>,
)
    requires
        call_ensures(ActiveRun::finished, (run, end), next),
        old(run)@.rendering(),
    ensures
        !old(run)@.cancelled && old(run)@.index + 1 < old(run)@.targets.len() ==> next is Some
            && next->0 == old(run)@.index + 1,
        old(run)@.cancelled || old(run)@.index + 1 == old(run)@.targets.len() ==> next is None,
        final(run)@.targets.len() == old(run)@.targets.len(),
        final(run)@.targets[old(run)@.index].state == match end {
            TargetEnd::Done(path) => TargetState::Done(path),
            TargetEnd::Cancelled => TargetState::Cancelled,
            TargetEnd::Failed(why) => TargetState::Failed(why),
        },
        next matches Some(i) ==> final(run)@.targets[i as int].state == TargetState::Running(0),
{
    law_a_target_s_end_is_its_own(old(run)@, end, old(run)@.index);
    if old(run)@.index + 1 < old(run)@.targets.len() {
        law_a_target_s_end_is_its_own(old(run)@, end, old(run)@.index + 1);
    }
}

/// **A video's file is named by its target and its project**, and no two of a
/// run's targets by the same label.
pub proof fn law_a_video_is_named_by_its_target(
    label: &str,
    project_name: &str,
    name: String,
    labels: Vec<String>,
    unique: Vec<String>,
    i: int,
    j: int,
)
    requires
        call_ensures(file_name, (label, project_name), name),
        call_ensures(de_duplicate, (labels,), unique),
    ensures
        name@ == cleaned(label@) + " - "@ + cleaned(project_name@) + ".mp4"@,
        unique@.len() == labels@.len(),
        0 <= i < j < unique@.len() ==> unique@[i]@ != unique@[j]@,
        0 <= i < labels@.len() && (forall|k: int|
            0 <= k < i ==> (#[trigger] unique@[k])@ != labels@[i]@) ==> unique@[i]@ == labels@[i]@,
{
    let all = text::texts(labels@);
    let made = text::texts(unique@);
    law_labels_are_unique(all);
    if 0 <= i < j < unique@.len() {
        assert(made[i] != made[j]);
    }
    if 0 <= i < labels@.len() && (forall|k: int|
        0 <= k < i ==> (#[trigger] unique@[k])@ != labels@[i]@) {
        law_a_label_gets_the_lowest_free_number(all, i);
        let before = made.take(i);
        assert(!before.contains(all[i])) by {
            if before.contains(all[i]) {
                let k = choose|k: int| 0 <= k < before.len() && before[k] == all[i];
                assert(unique@[k]@ == labels@[i]@);
            }
        }
        assert(made[i] == all[i]);
    }
}

} // verus!
