//! Clip management: field edits, delete and restore, reorder and sort, and
//! undo and redo over the history they share.
//!
//! Every change is compared first (unchanged means no save and no undo step),
//! then applied, saved and recorded.
//!
//! Where a deleted clip's recording waits is [`trash`](crate::trash)'s.

use vstd::prelude::*;

use crate::export_run;
use crate::export_run::find_clip;
use crate::id::Id;
use crate::project::{Clip, ClipView, Project};
use crate::scoreboard_config::MatchEventRecord;
use crate::tag;
use crate::tag::normalize_tags;
use crate::text;
use crate::undo;
use crate::undo::{ActionView, ClipEdit, EditView, UndoAction, UndoController};

verus! {

// ---------------------------------------------------------------------------
// The clip list.

/// What each clip of a list holds.
pub open spec fn clip_views(clips: Seq<Clip>) -> Seq<ClipView> {
    clips.map_values(|c: Clip| c@)
}

/// The ids of a list of clips.
pub open spec fn ids(clips: Seq<ClipView>) -> Seq<Id> {
    clips.map_values(|c: ClipView| c.id)
}

/// Where the first clip with this id stands.
pub open spec fn position(clips: Seq<ClipView>, id: Id) -> Option<int>
    decreases clips.len(),
{
    if clips.len() == 0 {
        None
    } else {
        match position(clips.drop_last(), id) {
            Some(i) => Some(i),
            None => if clips.last().id == id {
                Some(clips.len() - 1)
            } else {
                None
            },
        }
    }
}

proof fn lemma_position(clips: Seq<Clip>, id: Id)
    ensures
        position(clip_views(clips), id) == export_run::clip_index(clips, id),
    decreases clips.len(),
{
    if clips.len() > 0 {
        lemma_position(clips.drop_last(), id);
        assert(clip_views(clips).drop_last() =~= clip_views(clips.drop_last()));
    }
}

pub proof fn lemma_position_is_first(clips: Seq<ClipView>, id: Id)
    ensures
        match position(clips, id) {
            Some(i) => 0 <= i < clips.len() && clips[i].id == id && forall|j: int|
                0 <= j < i ==> (#[trigger] clips[j]).id != id,
            None => forall|j: int| 0 <= j < clips.len() ==> (#[trigger] clips[j]).id != id,
        },
    decreases clips.len(),
{
    if clips.len() > 0 {
        lemma_position_is_first(clips.drop_last(), id);
        assert forall|j: int| 0 <= j < clips.len() - 1 implies clips.drop_last()[j]
            == #[trigger] clips[j] by {}
    }
}

impl ClipView {
    /// The value of the field that an edit is of.
    pub open spec fn field(self, like: EditView) -> EditView {
        match like {
            EditView::Name(_) => EditView::Name(self.name),
            EditView::Tags(_) => EditView::Tags(self.tags),
            EditView::Notes(_) => EditView::Notes(self.notes),
            EditView::ShowPip(_) => EditView::ShowPip(self.show_pip),
            EditView::Transcript(_) => EditView::Transcript(self.transcript),
        }
    }

    /// The clip with one field set.
    pub open spec fn edited(self, edit: EditView) -> ClipView {
        match edit {
            EditView::Name(name) => ClipView { name, ..self },
            EditView::Tags(tags) => ClipView { tags, ..self },
            EditView::Notes(notes) => ClipView { notes, ..self },
            EditView::ShowPip(show_pip) => ClipView { show_pip, ..self },
            EditView::Transcript(transcript) => ClipView { transcript, ..self },
        }
    }
}

/// Whether two projects differ in their clips alone.
pub open spec fn same_but_clips(a: Project, b: Project) -> bool {
    &&& same_but_lists(a, b)
    &&& a.match_events == b.match_events
}

/// Whether two projects differ in their clips and match events alone.
pub open spec fn same_but_lists(a: Project, b: Project) -> bool {
    &&& a.format_version == b.format_version
    &&& a.name == b.name
    &&& a.source_videos == b.source_videos
    &&& a.preferences == b.preferences
    &&& a.scoreboard == b.scoreboard
}

/// Where a clip with this sort index belongs: after the last one that sorts no
/// later.
pub open spec fn slot(clips: Seq<ClipView>, sort_index: i64) -> int
    decreases clips.len(),
{
    if clips.len() == 0 || clips.last().sort_index <= sort_index {
        clips.len() as int
    } else {
        slot(clips.drop_last(), sort_index)
    }
}

/// The clips by sort index, those that share one in the order they are in.
pub open spec fn by_sort_index(clips: Seq<ClipView>) -> Seq<ClipView>
    decreases clips.len(),
{
    if clips.len() == 0 {
        seq![]
    } else {
        let sorted = by_sort_index(clips.drop_last());
        sorted.insert(slot(sorted, clips.last().sort_index), clips.last())
    }
}

/// The clips in the order of `order`, and after them those it doesn't name.
pub open spec fn arranged(clips: Seq<ClipView>, order: Seq<Id>) -> Seq<ClipView>
    decreases order.len(),
{
    if order.len() == 0 {
        clips
    } else {
        match position(clips, order[0]) {
            Some(i) => seq![clips[i]] + arranged(clips.remove(i), order.drop_first()),
            None => arranged(clips, order.drop_first()),
        }
    }
}

/// The clips numbered by their place.
pub open spec fn renumbered(clips: Seq<ClipView>) -> Seq<ClipView> {
    clips.map(|i: int, c: ClipView| ClipView { sort_index: i as i64, ..c })
}

/// The clips put into an order.
pub open spec fn in_order(clips: Seq<ClipView>, order: Seq<Id>) -> Seq<ClipView> {
    renumbered(arranged(clips, order))
}

/// Whether a clip comes after another by source, then start.
pub open spec fn starts_later(a: ClipView, b: ClipView) -> bool {
    a.source_index > b.source_index || (a.source_index == b.source_index && a.start_source
        > b.start_source)
}

/// A sorted list with one more clip, after every one that starts no later.
pub open spec fn sorted_with(sorted: Seq<ClipView>, clip: ClipView) -> Seq<ClipView>
    decreases sorted.len(),
{
    if sorted.len() == 0 || !starts_later(sorted.last(), clip) {
        sorted.push(clip)
    } else {
        sorted_with(sorted.drop_last(), clip).push(sorted.last())
    }
}

/// The clips by source, then start; those that start together keep their
/// order.
pub open spec fn by_source(clips: Seq<ClipView>) -> Seq<ClipView>
    decreases clips.len(),
{
    if clips.len() == 0 {
        seq![]
    } else {
        sorted_with(by_source(clips.drop_last()), clips.last())
    }
}

impl Project {
    /// Sets one field of clip `id`, and returns what it held. `None`, with
    /// nothing changed, if there is no such clip.
    pub fn apply_edit(&mut self, id: Id, edit: ClipEdit) -> (before: Option<ClipEdit>)
        ensures
            same_but_clips(*final(self), *old(self)),
            match before {
                Some(b) => {
                    let clips = clip_views(old(self).clips@);
                    let i = position(clips, id)->0;
                    &&& position(clips, id) is Some
                    &&& 0 <= i < clips.len()
                    &&& b@ == clips[i].field(edit@)
                    &&& clip_views(final(self).clips@) == clips.update(i, clips[i].edited(edit@))
                },
                None => position(clip_views(old(self).clips@), id) is None && *final(self)
                    == *old(self),
            },
    {
        let ghost clips = clip_views(self.clips@);
        proof {
            lemma_position(self.clips@, id);
        }
        let i: usize = match find_clip(&self.clips, id) {
            Some(i) => i,
            None => {
                return None;
            },
        };
        let ghost value = edit@;
        let before = match edit {
            ClipEdit::Name(t) => {
                let mut t = t;
                std::mem::swap(&mut self.clips[i].name, &mut t);
                ClipEdit::Name(t)
            },
            ClipEdit::Tags(t) => {
                let mut t = t;
                std::mem::swap(&mut self.clips[i].tags, &mut t);
                ClipEdit::Tags(t)
            },
            ClipEdit::Notes(t) => {
                let mut t = t;
                std::mem::swap(&mut self.clips[i].notes, &mut t);
                ClipEdit::Notes(t)
            },
            ClipEdit::ShowPip(on) => {
                let was = self.clips[i].show_pip;
                self.clips[i].show_pip = on;
                ClipEdit::ShowPip(was)
            },
            ClipEdit::Transcript(t) => {
                let mut t = t;
                std::mem::swap(&mut self.clips[i].transcript, &mut t);
                ClipEdit::Transcript(t)
            },
        };
        proof {
            assert(self.clips@[i as int]@ =~= clips[i as int].edited(value));
            assert(clip_views(self.clips@) =~= clips.update(
                i as int,
                clips[i as int].edited(value),
            ));
        }
        Some(before)
    }

    /// Takes clip `id` out of the project. `None`, with nothing changed, if
    /// there is no such clip.
    pub fn remove_clip(&mut self, id: Id) -> (removed: Option<Clip>)
        ensures
            same_but_clips(*final(self), *old(self)),
            match removed {
                Some(clip) => {
                    let clips = clip_views(old(self).clips@);
                    let i = position(clips, id)->0;
                    &&& position(clips, id) is Some
                    &&& 0 <= i < clips.len()
                    &&& clip@ == clips[i]
                    &&& clip_views(final(self).clips@) == clips.remove(i)
                },
                None => position(clip_views(old(self).clips@), id) is None && *final(self)
                    == *old(self),
            },
    {
        let ghost clips = clip_views(self.clips@);
        proof {
            lemma_position(self.clips@, id);
        }
        match find_clip(&self.clips, id) {
            Some(i) => {
                let clip = self.clips.remove(i);
                assert(clip_views(self.clips@) =~= clips.remove(i as int));
                Some(clip)
            },
            None => None,
        }
    }

    /// Puts a clip back in at its place in the sort order.
    pub fn insert_clip(&mut self, clip: Clip)
        ensures
            same_but_clips(*final(self), *old(self)),
            ({
                let clips = clip_views(old(self).clips@);
                &&& 0 <= slot(clips, clip.sort_index) <= clips.len()
                &&& clip_views(final(self).clips@) == clips.insert(
                    slot(clips, clip.sort_index),
                    clip@,
                )
            }),
    {
        let ghost clips = clip_views(self.clips@);
        let ghost view = clip@;
        let mut place: usize = self.clips.len();
        assert(clips.take(clips.len() as int) =~= clips);
        while place > 0 && self.clips[place - 1].sort_index > clip.sort_index
            invariant
                clips == clip_views(self.clips@),
                place <= clips.len(),
                slot(clips, clip.sort_index) == slot(clips.take(place as int), clip.sort_index),
            decreases place,
        {
            assert(clips.take(place as int).drop_last() =~= clips.take(place - 1));
            assert(clips.take(place as int).last() == self.clips@[place - 1]@);
            place = place - 1;
        }
        proof {
            if place > 0 {
                assert(clips.take(place as int).last() == self.clips@[place - 1]@);
            }
        }
        self.clips.insert(place, clip);
        assert(clip_views(self.clips@) =~= clips.insert(place as int, view));
    }

    /// Puts the clips of a project that was just read into their stored order:
    /// by sort index. From then on the list's order is the order.
    pub fn order_clips(&mut self)
        ensures
            same_but_clips(*final(self), *old(self)),
            clip_views(final(self).clips@) == by_sort_index(clip_views(old(self).clips@)),
    {
        let ghost all = clip_views(self.clips@);
        let mut rest: Vec<Clip> = Vec::new();
        std::mem::swap(&mut rest, &mut self.clips);
        let count: usize = rest.len();
        assert(clip_views(self.clips@) =~= by_sort_index(all.take(0)));
        assert(clip_views(rest@) =~= all.skip(0));
        for k in 0..count
            invariant
                count == all.len(),
                same_but_clips(*self, *old(self)),
                clip_views(rest@) == all.skip(k as int),
                clip_views(self.clips@) == by_sort_index(all.take(k as int)),
        {
            proof {
                assert(rest@.len() == all.skip(k as int).len());
                assert(rest@[0]@ == all.skip(k as int)[0]);
                assert(all.take(k + 1).drop_last() =~= all.take(k as int));
            }
            let ghost before = rest@;
            let clip = rest.remove(0);
            assert(clip_views(rest@) =~= all.skip(k + 1)) by {
                assert(clip_views(before) == all.skip(k as int));
                assert forall|j: int| 0 <= j < rest@.len() implies #[trigger] rest@[j]@
                    == all.skip(k + 1)[j] by {
                    assert(rest@[j] == before[j + 1]);
                    assert(clip_views(before)[j + 1] == all.skip(k as int)[j + 1]);
                }
            }
            self.insert_clip(clip);
        }
        assert(all.take(all.len() as int) =~= all);
    }

    /// The clips' ids, in order.
    pub fn clip_order(&self) -> (order: Vec<Id>)
        ensures
            order@ == ids(clip_views(self.clips@)),
    {
        let ghost all = ids(clip_views(self.clips@));
        let mut order: Vec<Id> = Vec::new();
        assert(order@ =~= all.take(0));
        for i in 0..self.clips.len()
            invariant
                all == ids(clip_views(self.clips@)),
                order@ == all.take(i as int),
        {
            order.push(self.clips[i].id);
            assert(all.take(i + 1) =~= all.take(i as int).push(all[i as int]));
        }
        assert(all.take(all.len() as int) =~= all);
        order
    }

    /// The clips' ids once the clip at `from` was taken out and put back in at
    /// `to`.
    pub fn moved_order(&self, from: usize, to: usize) -> (order: Vec<Id>)
        requires
            from < self.clips@.len(),
            to < self.clips@.len(),
        ensures
            order@ == ids(clip_views(self.clips@)).remove(from as int).insert(
                to as int,
                ids(clip_views(self.clips@))[from as int],
            ),
    {
        let mut order = self.clip_order();
        let id = order.remove(from);
        order.insert(to, id);
        order
    }

    /// The clips' ids by source, then start.
    pub fn source_sorted_order(&self) -> (order: Vec<Id>)
        ensures
            order@ == ids(by_source(clip_views(self.clips@))),
    {
        let ghost all = clip_views(self.clips@);
        // The clips sorted so far, as indices into the list.
        let mut sorted: Vec<usize> = Vec::new();
        assert(at_indices(all, sorted@) =~= by_source(all.take(0)));
        for i in 0..self.clips.len()
            invariant
                all == clip_views(self.clips@),
                forall|k: int| 0 <= k < sorted@.len() ==> sorted@[k] < all.len(),
                at_indices(all, sorted@) == by_source(all.take(i as int)),
        {
            assert(all.take(i + 1).drop_last() =~= all.take(i as int));
            let ghost before = sorted@;
            let ghost views = at_indices(all, before);
            let mut place: usize = sorted.len();
            assert(views.take(views.len() as int) =~= views);
            assert(views.skip(views.len() as int) =~= seq![]);
            assert(sorted_with(views, all[i as int]) =~= sorted_with(
                views.take(place as int),
                all[i as int],
            ) + views.skip(place as int));
            while place > 0 && later(&self.clips[sorted[place - 1]], &self.clips[i])
                invariant
                    i < self.clips@.len(),
                    all == clip_views(self.clips@),
                    sorted@ == before,
                    place <= before.len(),
                    views == at_indices(all, before),
                    forall|k: int| 0 <= k < before.len() ==> before[k] < all.len(),
                    sorted_with(views, all[i as int]) == sorted_with(
                        views.take(place as int),
                        all[i as int],
                    ) + views.skip(place as int),
                decreases place,
            {
                proof {
                    let head = views.take(place as int);
                    assert(head.drop_last() =~= views.take(place - 1));
                    assert(head.last() == all[before[place - 1] as int]);
                    assert(sorted_with(head, all[i as int]) == sorted_with(
                        head.drop_last(),
                        all[i as int],
                    ).push(head.last()));
                    assert(sorted_with(head.drop_last(), all[i as int]).push(head.last())
                        + views.skip(place as int) =~= sorted_with(
                        views.take(place - 1),
                        all[i as int],
                    ) + views.skip(place - 1));
                }
                place = place - 1;
            }
            sorted.insert(place, i);
            proof {
                let head = views.take(place as int);
                if place > 0 {
                    assert(head.last() == all[before[place - 1] as int]);
                }
                assert(sorted_with(head, all[i as int]) == head.push(all[i as int]));
                assert(at_indices(all, sorted@) =~= head.push(all[i as int]) + views.skip(
                    place as int,
                ));
            }
        }
        assert(all.take(all.len() as int) =~= all);
        let ghost wanted = ids(by_source(all));
        let mut order: Vec<Id> = Vec::new();
        assert(order@ =~= wanted.take(0));
        for i in 0..sorted.len()
            invariant
                all == clip_views(self.clips@),
                forall|k: int| 0 <= k < sorted@.len() ==> sorted@[k] < all.len(),
                at_indices(all, sorted@) == by_source(all),
                wanted == ids(by_source(all)),
                order@ == wanted.take(i as int),
        {
            proof {
                assert(wanted[i as int] == at_indices(all, sorted@)[i as int].id);
                assert(wanted.take(i + 1) =~= wanted.take(i as int).push(wanted[i as int]));
            }
            order.push(self.clips[sorted[i]].id);
        }
        assert(wanted.take(wanted.len() as int) =~= wanted);
        order
    }

    /// Puts the clips into an order, and numbers them by it.
    pub fn apply_clip_order(&mut self, order: &Vec<Id>)
        ensures
            same_but_clips(*final(self), *old(self)),
            clip_views(final(self).clips@) == in_order(clip_views(old(self).clips@), order@),
    {
        let ghost all = clip_views(self.clips@);
        let mut rest: Vec<Clip> = Vec::new();
        std::mem::swap(&mut rest, &mut self.clips);
        let mut out: Vec<Clip> = Vec::new();
        assert(order@.skip(0) =~= order@);
        assert(clip_views(out@) + arranged(clip_views(rest@), order@) =~= arranged(all, order@));
        for k in 0..order.len()
            invariant
                arranged(all, order@) == clip_views(out@) + arranged(
                    clip_views(rest@),
                    order@.skip(k as int),
                ),
        {
            let ghost remaining = clip_views(rest@);
            let ghost later = order@.skip(k as int);
            let ghost placed = clip_views(out@);
            proof {
                lemma_position(rest@, order@[k as int]);
                assert(later.drop_first() =~= order@.skip(k + 1));
            }
            if let Some(i) = find_clip(&rest, order[k]) {
                let clip = rest.remove(i);
                out.push(clip);
                proof {
                    assert(clip_views(rest@) =~= remaining.remove(i as int));
                    assert(clip_views(out@) =~= placed.push(remaining[i as int]));
                    assert(placed + (seq![remaining[i as int]] + arranged(
                        remaining.remove(i as int),
                        later.drop_first(),
                    )) =~= placed.push(remaining[i as int]) + arranged(
                        remaining.remove(i as int),
                        later.drop_first(),
                    ));
                }
            }
        }
        assert(order@.skip(order@.len() as int) =~= seq![]);
        let ghost before = clip_views(out@);
        let ghost tail = clip_views(rest@);
        out.append(&mut rest);
        let ghost whole = arranged(all, order@);
        assert(clip_views(out@) =~= whole);
        let count: usize = out.len();
        for i in 0..count
            invariant
                count == out@.len(),
                count == whole.len(),
                forall|j: int|
                    0 <= j < i ==> (#[trigger] out@[j])@ == (ClipView {
                        sort_index: j as i64,
                        ..whole[j]
                    }),
                forall|j: int| i <= j < count ==> (#[trigger] out@[j])@ == whole[j],
        {
            out[i].sort_index = i as i64;
            assert(out@[i as int]@ =~= ClipView { sort_index: i as i64, ..whole[i as int] });
        }
        assert(clip_views(out@) =~= renumbered(whole));
        self.clips = out;
    }
}

/// The clips at some indices of a list.
pub open spec fn at_indices(clips: Seq<ClipView>, indices: Seq<usize>) -> Seq<ClipView> {
    indices.map_values(|i: usize| clips[i as int])
}

fn later(a: &Clip, b: &Clip) -> (yes: bool)
    ensures
        yes == starts_later(a@, b@),
{
    a.source_index > b.source_index || (a.source_index == b.source_index && a.start_source
        > b.start_source)
}

// ---------------------------------------------------------------------------
// Edits.

/// What a change asks of the caller.
#[derive(Debug, PartialEq, Eq)]
pub struct Edited {
    /// The project changed: save and publish it.
    pub changed: bool,
    /// The clips whose trashed recordings the history dropped.
    pub shred: Vec<Clip>,
}

/// The edit a command asks for, as it is applied: tags are normalized.
pub open spec fn tidied(edit: EditView) -> EditView {
    match edit {
        EditView::Tags(tags) => EditView::Tags(
            tag::tags_of(text::split_at(text::joined(tags, ","@), ',')),
        ),
        edit => edit,
    }
}

fn tidy(edit: ClipEdit) -> (tidy: ClipEdit)
    ensures
        tidy@ == tidied(edit@),
{
    match edit {
        ClipEdit::Tags(tags) => {
            let joined = text::join(&tags, ",");
            ClipEdit::Tags(normalize_tags(joined.as_str()))
        },
        edit => edit,
    }
}

/// Sets one field of a clip as one undo step, unless that changes nothing.
pub fn edit_clip(
    project: &mut Project,
    history: &mut UndoController,
    id: Id,
    edit: ClipEdit,
) -> (edited: Edited)
    ensures
        same_but_clips(*final(project), *old(project)),
        ({
            let clips = clip_views(old(project).clips@);
            let value = tidied(edit@);
            match position(clips, id) {
                Some(i) => {
                    let was = clips[i].field(value);
                    &&& clip_views(final(project).clips@) == clips.update(
                        i,
                        clips[i].edited(value),
                    )
                    &&& edited.changed == (was != value)
                    &&& was == value ==> final(history)@ == old(history)@ && edited.shred@.len()
                        == 0
                    &&& was != value ==> exists|action: UndoAction| #[trigger]
                        action@ == (ActionView::EditClip { id, before: was, after: value })
                            && final(history)@ == old(history)@.recorded(action)
                            && edited.shred@ == old(history)@.dropped(action)
                },
                None => {
                    &&& *final(project) == *old(project)
                    &&& final(history)@ == old(history)@
                    &&& !edited.changed
                    &&& edited.shred@.len() == 0
                },
            }
        }),
{
    let edit = tidy(edit);
    let copy = edit.clone();
    match project.apply_edit(id, copy) {
        None => Edited { changed: false, shred: Vec::new() },
        Some(before) => {
            if before.same(&edit) {
                return Edited { changed: false, shred: Vec::new() };
            }
            let action = UndoAction::EditClip { id, before, after: edit };
            let ghost filed = action;
            let shred = history.push(action);
            assert(filed@ == (ActionView::EditClip {
                id,
                before: filed->EditClip_before@,
                after: filed->EditClip_after@,
            }));
            Edited { changed: true, shred }
        },
    }
}

/// Puts the clips into an order as one undo step, unless they are in it
/// already.
pub fn reorder_clips(
    project: &mut Project,
    history: &mut UndoController,
    after: Vec<Id>,
) -> (edited: Edited)
    ensures
        same_but_clips(*final(project), *old(project)),
        ({
            let clips = clip_views(old(project).clips@);
            &&& edited.changed == (ids(clips) != after@)
            &&& ids(clips) == after@ ==> {
                &&& *final(project) == *old(project)
                &&& final(history)@ == old(history)@
                &&& edited.shred@.len() == 0
            }
            &&& ids(clips) != after@ ==> {
                &&& clip_views(final(project).clips@) == in_order(clips, after@)
                &&& exists|action: UndoAction| #[trigger]
                    action@ == (ActionView::ReorderClips { before: ids(clips), after: after@ })
                        && final(history)@ == old(history)@.recorded(action)
                        && edited.shred@ == old(history)@.dropped(action)
            }
        }),
{
    let before = project.clip_order();
    if same_order(&before, &after) {
        return Edited { changed: false, shred: Vec::new() };
    }
    project.apply_clip_order(&after);
    let action = UndoAction::ReorderClips { before, after };
    let ghost filed = action;
    let shred = history.push(action);
    assert(filed@ == (ActionView::ReorderClips { before: before@, after: after@ }));
    Edited { changed: true, shred }
}

fn same_order(a: &Vec<Id>, b: &Vec<Id>) -> (same: bool)
    ensures
        same == (a@ == b@),
{
    if a.len() != b.len() {
        return false;
    }
    for i in 0..a.len()
        invariant
            a@.len() == b@.len(),
            forall|k: int| 0 <= k < i ==> a@[k] == b@[k],
    {
        if a[i] != b[i] {
            return false;
        }
    }
    assert(a@ =~= b@);
    true
}

/// Moves the clip at list place `from` to `to`. Places outside the list change
/// nothing.
pub fn move_clip(
    project: &mut Project,
    history: &mut UndoController,
    from: usize,
    to: usize,
) -> (edited: Edited)
    ensures
        same_but_clips(*final(project), *old(project)),
        ({
            let clips = clip_views(old(project).clips@);
            let before = ids(clips);
            let after = before.remove(from as int).insert(to as int, before[from as int]);
            let inside = from < clips.len() && to < clips.len();
            &&& edited.changed == (inside && after != before)
            &&& !edited.changed ==> {
                &&& *final(project) == *old(project)
                &&& final(history)@ == old(history)@
                &&& edited.shred@.len() == 0
            }
            &&& edited.changed ==> {
                &&& clip_views(final(project).clips@) == in_order(clips, after)
                &&& exists|action: UndoAction| #[trigger]
                    action@ == (ActionView::ReorderClips { before, after }) && final(history)@
                        == old(history)@.recorded(action) && edited.shred@ == old(history)@.dropped(action)
            }
        }),
{
    if from >= project.clips.len() || to >= project.clips.len() {
        return Edited { changed: false, shred: Vec::new() };
    }
    let order = project.moved_order(from, to);
    reorder_clips(project, history, order)
}

/// Orders the clips by source, then start.
pub fn sort_clips_by_source(project: &mut Project, history: &mut UndoController) -> (edited:
    Edited)
    ensures
        same_but_clips(*final(project), *old(project)),
        ({
            let clips = clip_views(old(project).clips@);
            let before = ids(clips);
            let after = ids(by_source(clips));
            &&& edited.changed == (after != before)
            &&& !edited.changed ==> {
                &&& *final(project) == *old(project)
                &&& final(history)@ == old(history)@
                &&& edited.shred@.len() == 0
            }
            &&& edited.changed ==> {
                &&& clip_views(final(project).clips@) == in_order(clips, after)
                &&& exists|action: UndoAction| #[trigger]
                    action@ == (ActionView::ReorderClips { before, after }) && final(history)@
                        == old(history)@.recorded(action) && edited.shred@ == old(history)@.dropped(action)
            }
        }),
{
    let order = project.source_sorted_order();
    reorder_clips(project, history, order)
}

/// Writes a transcript that arrived for a clip. It is no undo step: the
/// coach's own edit of one is, the machine's write of one is not. Returns
/// whether the project changed; an unchanged transcript, or one for a clip
/// that isn't there, changes nothing.
pub fn write_transcript(project: &mut Project, id: Id, transcript: String) -> (changed: bool)
    ensures
        same_but_clips(*final(project), *old(project)),
        ({
            let clips = clip_views(old(project).clips@);
            match position(clips, id) {
                Some(i) => {
                    &&& changed == (clips[i].transcript != transcript@)
                    &&& clip_views(final(project).clips@) == clips.update(
                        i,
                        (ClipView { transcript: transcript@, ..clips[i] }),
                    )
                },
                None => !changed && *final(project) == *old(project),
            }
        }),
{
    let edit = ClipEdit::Transcript(transcript);
    let copy = edit.clone();
    match project.apply_edit(id, copy) {
        Some(before) => !before.same(&edit),
        None => false,
    }
}

// ---------------------------------------------------------------------------
// Undo and redo.

/// What an undo or redo asks of the caller.
#[derive(Debug, PartialEq, Eq)]
pub struct Change {
    /// The project changed: save and publish it.
    pub changed: bool,
    /// The clip to select, once the change was published.
    pub select: Option<Id>,
    /// A clip that left the project. Whether its recording moves to the trash
    /// is [`trash_after_redo`](crate::trash::trash_after_redo)'s to say.
    pub trash: Option<Clip>,
}

/// What a [`Change`] holds, as mathematical values.
#[verifier::ext_equal]
pub struct ChangeView {
    pub changed: bool,
    pub select: Option<Id>,
    pub trash: Option<ClipView>,
}

impl View for Change {
    type V = ChangeView;

    open spec fn view(&self) -> ChangeView {
        ChangeView {
            changed: self.changed,
            select: self.select,
            trash: match self.trash {
                Some(clip) => Some(clip@),
                None => None,
            },
        }
    }
}

/// Nothing to do.
pub open spec fn no_change() -> ChangeView {
    ChangeView { changed: false, select: None, trash: None }
}

/// What editing works on: the project's two lists and the two stacks.
#[verifier::ext_equal]
pub struct Session {
    pub clips: Seq<ClipView>,
    pub match_events: Seq<MatchEventRecord>,
    pub undo: Seq<ActionView>,
    pub redo: Seq<ActionView>,
}

/// What editing works on.
pub open spec fn session(project: &Project, history: &UndoController) -> Session {
    Session {
        clips: clip_views(project.clips@),
        match_events: project.match_events@,
        undo: undo::action_views(history@.undo),
        redo: undo::action_views(history@.redo),
    }
}

impl Session {
    /// The clip whose recording has to come back from the trash before the
    /// next undo, if that undoes a delete.
    pub open spec fn awaits(self) -> Option<ClipView> {
        if self.undo.len() == 0 {
            None
        } else {
            match self.undo.last() {
                ActionView::DeleteClip(clip) => if position(self.clips, clip.id) is None {
                    Some(clip)
                } else {
                    None
                },
                _ => None,
            }
        }
    }

    /// With the newest undo action undone and filed.
    pub open spec fn filed_undone(self) -> Session {
        Session {
            undo: self.undo.drop_last(),
            redo: self.redo.push(self.undo.last()),
            ..self
        }
    }

    /// With the newest redo action redone and filed.
    pub open spec fn filed_redone(self) -> Session {
        Session {
            undo: self.undo.push(self.redo.last()),
            redo: self.redo.drop_last(),
            ..self
        }
    }

    /// After an undo. `restored` says whether a deleted clip's recording came
    /// back from the trash.
    pub open spec fn undone(self, restored: bool) -> (Session, ChangeView) {
        if self.undo.len() == 0 {
            (self, no_change())
        } else {
            match self.undo.last() {
                ActionView::EditClip { id, before, .. } => match position(self.clips, id) {
                    Some(i) => (
                        Session {
                            clips: self.clips.update(i, self.clips[i].edited(before)),
                            ..self.filed_undone()
                        },
                        ChangeView { changed: true, select: Some(id), trash: None },
                    ),
                    None => (Session { undo: self.undo.drop_last(), ..self }, no_change()),
                },
                ActionView::DeleteClip(clip) => if position(self.clips, clip.id) is Some {
                    (
                        self.filed_undone(),
                        ChangeView { changed: false, select: Some(clip.id), trash: None },
                    )
                } else if restored {
                    (
                        Session {
                            clips: self.clips.insert(slot(self.clips, clip.sort_index), clip),
                            ..self.filed_undone()
                        },
                        ChangeView { changed: true, select: Some(clip.id), trash: None },
                    )
                } else {
                    // Still trashed: it stays undoable.
                    (self, no_change())
                },
                ActionView::ReorderClips { before, .. } => (
                    Session { clips: in_order(self.clips, before), ..self.filed_undone() },
                    ChangeView { changed: true, select: None, trash: None },
                ),
                ActionView::EditMatchEvents { before, .. } => (
                    Session { match_events: before, ..self.filed_undone() },
                    ChangeView { changed: true, select: None, trash: None },
                ),
            }
        }
    }

    /// After a redo.
    pub open spec fn redone(self) -> (Session, ChangeView) {
        if self.redo.len() == 0 {
            (self, no_change())
        } else {
            match self.redo.last() {
                ActionView::EditClip { id, after, .. } => match position(self.clips, id) {
                    Some(i) => (
                        Session {
                            clips: self.clips.update(i, self.clips[i].edited(after)),
                            ..self.filed_redone()
                        },
                        ChangeView { changed: true, select: Some(id), trash: None },
                    ),
                    None => (Session { redo: self.redo.drop_last(), ..self }, no_change()),
                },
                // Files the clip as it is now, not the old snapshot: its
                // source index may have been remapped since it was restored.
                ActionView::DeleteClip(clip) => match position(self.clips, clip.id) {
                    Some(i) => (
                        Session {
                            clips: self.clips.remove(i),
                            undo: self.undo.push(ActionView::DeleteClip(self.clips[i])),
                            redo: self.redo.drop_last(),
                            ..self
                        },
                        ChangeView { changed: true, select: None, trash: Some(self.clips[i]) },
                    ),
                    None => (Session { redo: self.redo.drop_last(), ..self }, no_change()),
                },
                ActionView::ReorderClips { after, .. } => (
                    Session { clips: in_order(self.clips, after), ..self.filed_redone() },
                    ChangeView { changed: true, select: None, trash: None },
                ),
                ActionView::EditMatchEvents { after, .. } => (
                    Session { match_events: after, ..self.filed_redone() },
                    ChangeView { changed: true, select: None, trash: None },
                ),
            }
        }
    }
}

fn no_op() -> (change: Change)
    ensures
        change@ == no_change(),
{
    Change { changed: false, select: None, trash: None }
}

/// The clip whose recording has to come back from the trash before the next
/// undo, if that undoes a delete.
pub fn clip_to_restore<'a>(project: &Project, history: &'a UndoController) -> (clip: Option<
    &'a Clip,
>)
    ensures
        match clip {
            Some(c) => {
                &&& session(project, history).awaits() == Some(c@)
                &&& history@.undo.last() == UndoAction::DeleteClip(*c)
            },
            None => session(project, history).awaits() is None,
        },
{
    let stack = history.undo_stack();
    if stack.len() == 0 {
        return None;
    }
    assert(session(project, history).undo.last() == history@.undo.last()@);
    match &stack[stack.len() - 1] {
        UndoAction::DeleteClip(clip) => {
            proof {
                lemma_position(project.clips@, clip.id);
            }
            match find_clip(&project.clips, clip.id) {
                Some(_) => None,
                None => Some(clip),
            }
        },
        _ => None,
    }
}

/// A copy of a list of match events.
pub fn copy_events(events: &Vec<MatchEventRecord>) -> (copy: Vec<MatchEventRecord>)
    ensures
        copy@ == events@,
{
    let mut copy: Vec<MatchEventRecord> = Vec::new();
    for i in 0..events.len()
        invariant
            copy@ == events@.take(i as int),
    {
        copy.push(events[i]);
        assert(events@.take(i + 1) =~= events@.take(i as int).push(events@[i as int]));
    }
    assert(events@.take(events@.len() as int) =~= events@);
    copy
}

/// Undoes the newest action. `restored` says whether the recording of
/// [`clip_to_restore`] came back from the trash; without such a clip it says
/// nothing.
pub fn undo(project: &mut Project, history: &mut UndoController, restored: bool) -> (change: Change)
    ensures
        same_but_lists(*final(project), *old(project)),
        (session(final(project), final(history)), change@) == session(
            old(project),
            old(history),
        ).undone(restored),
{
    let ghost start = session(project, history);
    let taken = history.take_undo();
    let ghost left = history@;
    match taken {
        None => no_op(),
        Some(action) => {
            let ghost filed = action;
            proof {
                assert(undo::action_views(left.undo) =~= start.undo.drop_last());
                assert(undo::action_views(left.redo.push(filed)) =~= start.redo.push(filed@));
                assert(start.undo.last() == filed@);
                assert(start.undo.drop_last().push(filed@) =~= start.undo);
            }
            match action {
                UndoAction::EditClip { id, before, after } => {
                    match project.apply_edit(id, before.clone()) {
                        Some(_) => {
                            history.undone(UndoAction::EditClip { id, before, after });
                            Change { changed: true, select: Some(id), trash: None }
                        },
                        None => no_op(),
                    }
                },
                UndoAction::DeleteClip(clip) => {
                    let id = clip.id;
                    proof {
                        lemma_position(project.clips@, id);
                    }
                    if find_clip(&project.clips, id).is_some() {
                        history.undone(UndoAction::DeleteClip(clip));
                        Change { changed: false, select: Some(id), trash: None }
                    } else if restored {
                        project.insert_clip(clip.clone());
                        history.undone(UndoAction::DeleteClip(clip));
                        Change { changed: true, select: Some(id), trash: None }
                    } else {
                        history.redone(UndoAction::DeleteClip(clip));
                        proof {
                            assert(undo::action_views(left.undo.push(filed)) =~= start.undo);
                        }
                        no_op()
                    }
                },
                UndoAction::ReorderClips { before, after } => {
                    project.apply_clip_order(&before);
                    history.undone(UndoAction::ReorderClips { before, after });
                    Change { changed: true, select: None, trash: None }
                },
                UndoAction::EditMatchEvents { before, after } => {
                    project.match_events = copy_events(&before);
                    history.undone(UndoAction::EditMatchEvents { before, after });
                    Change { changed: true, select: None, trash: None }
                },
            }
        },
    }
}

/// Redoes the newest undone action.
pub fn redo(project: &mut Project, history: &mut UndoController) -> (change: Change)
    ensures
        same_but_lists(*final(project), *old(project)),
        (session(final(project), final(history)), change@) == session(
            old(project),
            old(history),
        ).redone(),
{
    let ghost start = session(project, history);
    let taken = history.take_redo();
    let ghost left = history@;
    match taken {
        None => no_op(),
        Some(action) => {
            let ghost filed = action;
            proof {
                assert(undo::action_views(left.redo) =~= start.redo.drop_last());
                assert(undo::action_views(left.undo.push(filed)) =~= start.undo.push(filed@));
                assert(start.redo.last() == filed@);
            }
            match action {
                UndoAction::EditClip { id, before, after } => {
                    match project.apply_edit(id, after.clone()) {
                        Some(_) => {
                            history.redone(UndoAction::EditClip { id, before, after });
                            Change { changed: true, select: Some(id), trash: None }
                        },
                        None => no_op(),
                    }
                },
                UndoAction::DeleteClip(clip) => {
                    match project.remove_clip(clip.id) {
                        Some(now) => {
                            let trash = now.clone();
                            let ghost refiled = UndoAction::DeleteClip(now);
                            history.redone(UndoAction::DeleteClip(now));
                            proof {
                                assert(undo::action_views(left.undo.push(refiled))
                                    =~= start.undo.push(refiled@));
                            }
                            Change { changed: true, select: None, trash: Some(trash) }
                        },
                        None => no_op(),
                    }
                },
                UndoAction::ReorderClips { before, after } => {
                    project.apply_clip_order(&after);
                    history.redone(UndoAction::ReorderClips { before, after });
                    Change { changed: true, select: None, trash: None }
                },
                UndoAction::EditMatchEvents { before, after } => {
                    project.match_events = copy_events(&after);
                    history.redone(UndoAction::EditMatchEvents { before, after });
                    Change { changed: true, select: None, trash: None }
                },
            }
        },
    }
}

// ---------------------------------------------------------------------------
// Laws.

/// Whether no two of some ids are the same.
pub open spec fn distinct(ids: Seq<Id>) -> bool {
    forall|i: int, j: int| 0 <= i < j < ids.len() ==> ids[i] != ids[j]
}

/// Whether two lists of ids hold the same ones.
pub open spec fn same_ids(a: Seq<Id>, b: Seq<Id>) -> bool {
    &&& a.len() == b.len()
    &&& forall|id: Id| #![trigger a.contains(id)] #![trigger b.contains(id)] a.contains(id)
        <==> b.contains(id)
}

/// Whether the clips are numbered by their place.
pub open spec fn numbered(clips: Seq<ClipView>) -> bool {
    forall|i: int| 0 <= i < clips.len() ==> (#[trigger] clips[i]).sort_index == i as i64
}

/// Every clip of an arranged list is one of the list's.
pub proof fn lemma_arranged_are_members(clips: Seq<ClipView>, order: Seq<Id>, i: int)
    requires
        0 <= i < arranged(clips, order).len(),
    ensures
        exists|j: int| 0 <= j < clips.len() && clips[j] == arranged(clips, order)[i],
    decreases order.len(),
{
    let all = arranged(clips, order);
    if order.len() == 0 {
        assert(clips[i] == all[i]);
    } else {
        lemma_position_is_first(clips, order[0]);
        match position(clips, order[0]) {
            Some(k) => {
                let rest = clips.remove(k);
                if i == 0 {
                    assert(clips[k] == all[i]);
                } else {
                    lemma_arranged_are_members(rest, order.drop_first(), i - 1);
                    let j = choose|j: int|
                        0 <= j < rest.len() && rest[j] == arranged(rest, order.drop_first())[i - 1];
                    if j < k {
                        assert(clips[j] == all[i]);
                    } else {
                        assert(clips[j + 1] == all[i]);
                    }
                }
            },
            None => {
                lemma_arranged_are_members(clips, order.drop_first(), i);
            },
        }
    }
}

/// A list arranged by all its ids has them in that order.
proof fn lemma_arranged_has_the_order(clips: Seq<ClipView>, order: Seq<Id>)
    requires
        distinct(ids(clips)),
        distinct(order),
        same_ids(ids(clips), order),
    ensures
        ids(arranged(clips, order)) == order,
    decreases order.len(),
{
    let all = ids(clips);
    if order.len() == 0 {
        assert(ids(arranged(clips, order)) =~= order);
    } else {
        let id = order[0];
        assert(order.contains(id));
        assert(all.contains(id));
        let at = choose|j: int| 0 <= j < all.len() && all[j] == id;
        assert(clips[at].id == id);
        lemma_position_is_first(clips, id);
        let k = position(clips, id)->0;
        let rest = clips.remove(k);
        let later = order.drop_first();
        assert(ids(rest) =~= all.remove(k));
        assert(distinct(ids(rest))) by {
            assert forall|i: int, j: int| 0 <= i < j < ids(rest).len() implies ids(rest)[i]
                != ids(rest)[j] by {
                let a = if i < k {
                    i
                } else {
                    i + 1
                };
                let b = if j < k {
                    j
                } else {
                    j + 1
                };
                assert(all[a] != all[b]);
            }
        }
        assert(distinct(later)) by {
            assert forall|i: int, j: int| 0 <= i < j < later.len() implies later[i]
                != later[j] by {
                assert(order[i + 1] != order[j + 1]);
            }
        }
        assert(same_ids(ids(rest), later)) by {
            assert forall|x: Id| #[trigger] ids(rest).contains(x) <==> later.contains(x) by {
                if ids(rest).contains(x) {
                    let j = choose|j: int| 0 <= j < ids(rest).len() && ids(rest)[j] == x;
                    let a = if j < k {
                        j
                    } else {
                        j + 1
                    };
                    assert(all[a] == x);
                    assert(all.contains(x));
                    assert(order.contains(x));
                    let b = choose|b: int| 0 <= b < order.len() && order[b] == x;
                    assert(all[k] == id);
                    assert(a != k ==> all[a] != all[k]);
                    assert(b != 0);
                    assert(later[b - 1] == x);
                }
                if later.contains(x) {
                    let b = choose|b: int| 0 <= b < later.len() && later[b] == x;
                    assert(order[b + 1] == x);
                    assert(order.contains(x));
                    assert(all.contains(x));
                    let a = choose|a: int| 0 <= a < all.len() && all[a] == x;
                    assert(order[0] != order[b + 1]);
                    assert(a != k);
                    if a < k {
                        assert(ids(rest)[a] == x);
                    } else {
                        assert(ids(rest)[a - 1] == x);
                    }
                }
            }
        }
        lemma_arranged_has_the_order(rest, later);
        assert(arranged(clips, order) == seq![clips[k]] + arranged(rest, later));
        assert(ids(arranged(clips, order)) =~= seq![id] + ids(arranged(rest, later)));
        assert(seq![id] + later =~= order);
    }
}

/// **Putting the order back undoes a reorder**: clips numbered by their place,
/// put into another order of the same ids and then into the one they had, are
/// what they were.
pub proof fn law_an_order_put_back_undoes_a_reorder(clips: Seq<ClipView>, order: Seq<Id>)
    requires
        numbered(clips),
        distinct(ids(clips)),
        distinct(order),
        same_ids(ids(clips), order),
    ensures
        in_order(in_order(clips, order), ids(clips)) == clips,
{
    let home = ids(clips);
    let first = arranged(clips, order);
    let there = in_order(clips, order);
    lemma_arranged_has_the_order(clips, order);
    assert(ids(there) =~= ids(first));
    assert(same_ids(ids(there), home));
    lemma_arranged_has_the_order(there, home);
    let second = arranged(there, home);
    assert(ids(second) == home);
    assert forall|i: int| 0 <= i < clips.len() implies #[trigger] in_order(there, home)[i]
        == clips[i] by {
        assert(ids(second).len() == home.len());
        assert(ids(second)[i] == home[i]);
        lemma_arranged_are_members(there, home, i);
        let j = choose|j: int| 0 <= j < there.len() && there[j] == second[i];
        lemma_arranged_are_members(clips, order, j);
        let k = choose|k: int| 0 <= k < clips.len() && clips[k] == first[j];
        assert(there[j] == (ClipView { sort_index: j as i64, ..first[j] }));
        assert(home[k] == home[i]);
        assert(k == i);
        assert(in_order(there, home)[i] =~= ClipView { sort_index: i as i64, ..clips[i] });
    }
    assert(ids(second).len() == clips.len());
    assert(in_order(there, home) =~= clips);
}

/// **A restored clip is back where it was**: in clips in strict sort order,
/// inserting one that was removed gives the list it was removed from.
pub proof fn law_a_restored_clip_is_back_in_its_place(clips: Seq<ClipView>, i: int)
    requires
        0 <= i < clips.len(),
        forall|a: int, b: int|
            0 <= a < b < clips.len() ==> (#[trigger] clips[a]).sort_index < (
            #[trigger] clips[b]).sort_index,
    ensures
        clips.remove(i).insert(slot(clips.remove(i), clips[i].sort_index), clips[i]) == clips,
{
    lemma_slot_of_a_removed_clip(clips, i, clips.len() - 1);
    let rest = clips.remove(i);
    assert(rest.take(clips.len() - 1) =~= rest);
    assert(rest.insert(i, clips[i]) =~= clips);
}

proof fn lemma_slot_of_a_removed_clip(clips: Seq<ClipView>, i: int, end: int)
    requires
        0 <= i <= end < clips.len(),
        forall|a: int, b: int|
            0 <= a < b < clips.len() ==> (#[trigger] clips[a]).sort_index < (
            #[trigger] clips[b]).sort_index,
    ensures
        slot(clips.remove(i).take(end), clips[i].sort_index) == i,
    decreases end,
{
    let rest = clips.remove(i).take(end);
    if end == i {
        if end > 0 {
            assert(rest.last() == clips[end - 1]);
        }
    } else {
        assert(rest.last() == clips[end]);
        assert(rest.drop_last() =~= clips.remove(i).take(end - 1));
        lemma_slot_of_a_removed_clip(clips, i, end - 1);
    }
}

impl Session {
    /// After a change of the two lists was recorded as an action, with room on
    /// the stack for it.
    pub open spec fn did(
        self,
        clips: Seq<ClipView>,
        match_events: Seq<MatchEventRecord>,
        action: ActionView,
    ) -> Session {
        Session { clips, match_events, undo: self.undo.push(action), redo: seq![] }
    }

    /// Whether another session has the same lists, and as much to undo.
    pub open spec fn as_before(self, other: Session) -> bool {
        &&& self.clips == other.clips
        &&& self.match_events == other.match_events
        &&& self.undo == other.undo
    }
}

/// **Undo takes back an edit**: the clip holds what it held, and everything
/// else is as it was.
pub proof fn law_undo_takes_back_an_edit(s: Session, id: Id, value: EditView)
    requires
        position(s.clips, id) is Some,
    ensures
        ({
            let i = position(s.clips, id)->0;
            let before = s.clips[i].field(value);
            let done = s.did(
                s.clips.update(i, s.clips[i].edited(value)),
                s.match_events,
                ActionView::EditClip { id, before, after: value },
            );
            done.undone(true).0.as_before(s)
        }),
{
    let i = position(s.clips, id)->0;
    lemma_position_is_first(s.clips, id);
    let edited = s.clips.update(i, s.clips[i].edited(value));
    lemma_edit_keeps_the_place(s.clips, id, i, value);
    assert(edited.update(i, edited[i].edited(s.clips[i].field(value))) =~= s.clips);
    assert(s.undo.push(
        ActionView::EditClip { id, before: s.clips[i].field(value), after: value },
    ).drop_last() =~= s.undo);
}

/// **Undo takes back a delete**: with its recording back, the clip is where it
/// was, and everything else is as it was. The clips are in strict sort order
/// and no two share an id.
pub proof fn law_undo_takes_back_a_delete(s: Session, i: int)
    requires
        0 <= i < s.clips.len(),
        distinct(ids(s.clips)),
        forall|a: int, b: int|
            0 <= a < b < s.clips.len() ==> (#[trigger] s.clips[a]).sort_index < (
            #[trigger] s.clips[b]).sort_index,
    ensures
        s.did(
            s.clips.remove(i),
            s.match_events,
            ActionView::DeleteClip(s.clips[i]),
        ).undone(true).0.as_before(s),
{
    let rest = s.clips.remove(i);
    let clip = s.clips[i];
    law_a_restored_clip_is_back_in_its_place(s.clips, i);
    if position(rest, clip.id) is Some {
        lemma_position_is_first(rest, clip.id);
        let k = position(rest, clip.id)->0;
        let was = if k < i {
            k
        } else {
            k + 1
        };
        assert(rest[k] == s.clips[was]);
        assert(ids(s.clips)[was] == ids(s.clips)[i]);
    }
    assert(s.undo.push(ActionView::DeleteClip(clip)).drop_last() =~= s.undo);
}

/// **Undo takes back a reorder** of clips numbered by their place, to another
/// order of the same ids.
pub proof fn law_undo_takes_back_a_reorder(s: Session, order: Seq<Id>)
    requires
        numbered(s.clips),
        distinct(ids(s.clips)),
        distinct(order),
        same_ids(ids(s.clips), order),
    ensures
        s.did(
            in_order(s.clips, order),
            s.match_events,
            ActionView::ReorderClips { before: ids(s.clips), after: order },
        ).undone(true).0.as_before(s),
{
    law_an_order_put_back_undoes_a_reorder(s.clips, order);
    assert(s.undo.push(
        ActionView::ReorderClips { before: ids(s.clips), after: order },
    ).drop_last() =~= s.undo);
}

/// **Undo takes back a change of the match events**, the whole list with it.
pub proof fn law_undo_takes_back_a_match_edit(s: Session, after: Seq<MatchEventRecord>)
    ensures
        s.did(
            s.clips,
            after,
            ActionView::EditMatchEvents { before: s.match_events, after },
        ).undone(true).0.as_before(s),
{
    assert(s.undo.push(
        ActionView::EditMatchEvents { before: s.match_events, after },
    ).drop_last() =~= s.undo);
}

proof fn lemma_edit_keeps_the_place(clips: Seq<ClipView>, id: Id, i: int, value: EditView)
    requires
        position(clips, id) == Some(i),
        0 <= i < clips.len(),
    ensures
        position(clips.update(i, clips[i].edited(value)), id) == Some(i),
{
    let edited = clips.update(i, clips[i].edited(value));
    lemma_position_is_first(clips, id);
    lemma_position_is_first(edited, id);
    assert(edited[i].id == id);
}

/// Whether the newest action to undo is in effect.
pub open spec fn in_effect(s: Session) -> bool {
    match s.undo.last() {
        ActionView::EditClip { id, after, .. } => match position(s.clips, id) {
            Some(i) => s.clips[i].field(after) == after,
            None => false,
        },
        ActionView::DeleteClip(clip) => position(s.clips, clip.id) is None,
        ActionView::ReorderClips { before, after } => {
            &&& ids(s.clips) == after
            &&& numbered(s.clips)
            &&& distinct(after)
            &&& distinct(before)
            &&& same_ids(after, before)
        },
        ActionView::EditMatchEvents { after, .. } => s.match_events == after,
    }
}

/// Whether an action's two values are of the same field.
pub open spec fn well_matched(action: ActionView) -> bool {
    match action {
        ActionView::EditClip { before, after, .. } => match (before, after) {
            (EditView::Name(_), EditView::Name(_)) => true,
            (EditView::Tags(_), EditView::Tags(_)) => true,
            (EditView::Notes(_), EditView::Notes(_)) => true,
            (EditView::ShowPip(_), EditView::ShowPip(_)) => true,
            (EditView::Transcript(_), EditView::Transcript(_)) => true,
            _ => false,
        },
        _ => true,
    }
}

/// **Redo brings back what undo took away**: an undo of an action that is in
/// effect, whose recording (if it has one) came back, followed by a redo,
/// leaves the clips, the match events and both stacks as they were.
pub proof fn law_redo_brings_back_what_undo_took_away(s: Session)
    requires
        s.undo.len() > 0,
        in_effect(s),
        well_matched(s.undo.last()),
    ensures
        s.undone(true).0.redone().0 == s,
{
    let undone = s.undone(true).0;
    assert(s.undo.drop_last().push(s.undo.last()) =~= s.undo);
    assert(s.redo.push(s.undo.last()).drop_last() =~= s.redo);
    match s.undo.last() {
        ActionView::EditClip { id, before, after } => {
            lemma_position_is_first(s.clips, id);
            let i = position(s.clips, id)->0;
            let there = undone.clips;
            assert forall|j: int| 0 <= j < there.len() implies (#[trigger] there[j]).id
                == s.clips[j].id by {}
            lemma_position_is_first(there, id);
            assert(there[i].id == id);
            let k = position(there, id)->0;
            assert(k == i) by {
                if k < i {
                    assert(s.clips[k].id != id);
                } else if i < k {
                    assert(there[i].id != id);
                }
            }
            assert(s.clips[i].edited(before).edited(after) =~= s.clips[i]);
            assert(there.update(i, there[i].edited(after)) =~= s.clips);
            assert(undone.redone().0 =~= s);
        },
        ActionView::DeleteClip(clip) => {
            let place = slot(s.clips, clip.sort_index);
            lemma_slot_is_inside(s.clips, clip.sort_index);
            let there = undone.clips;
            lemma_position_is_first(s.clips, clip.id);
            lemma_position_is_first(there, clip.id);
            assert(there[place] == clip);
            let k = position(there, clip.id)->0;
            assert(k == place) by {
                if k < place {
                    assert(there[k] == s.clips[k]);
                } else if place < k {
                    assert(there[place].id != clip.id);
                }
            }
            assert(there.remove(place) =~= s.clips);
            assert(undone.redone().0 =~= s);
        },
        ActionView::ReorderClips { before, after } => {
            law_an_order_put_back_undoes_a_reorder(s.clips, before);
            assert(undone.redone().0 =~= s);
        },
        ActionView::EditMatchEvents { .. } => {
            assert(undone.redone().0 =~= s);
        },
    }
}

pub proof fn lemma_slot_is_inside(clips: Seq<ClipView>, sort_index: i64)
    ensures
        0 <= slot(clips, sort_index) <= clips.len(),
    decreases clips.len(),
{
    if !(clips.len() == 0 || clips.last().sort_index <= sort_index) {
        lemma_slot_is_inside(clips.drop_last(), sort_index);
    }
}

/// **A project's clips are read in sort order**: none is lost, and those that
/// already are in order stay as they are.
pub proof fn law_a_read_orders_the_clips(clips: Seq<ClipView>)
    ensures
        by_sort_index(clips).to_multiset() == clips.to_multiset(),
        forall|i: int, j: int|
            0 <= i < j < by_sort_index(clips).len() ==> (#[trigger] by_sort_index(
                clips,
            )[i]).sort_index <= (#[trigger] by_sort_index(clips)[j]).sort_index,
        (forall|i: int, j: int|
            0 <= i < j < clips.len() ==> (#[trigger] clips[i]).sort_index <= (
            #[trigger] clips[j]).sort_index) ==> by_sort_index(clips) == clips,
    decreases clips.len(),
{
    broadcast use vstd::seq_lib::group_to_multiset_ensures;

    if clips.len() > 0 {
        let rest = clips.drop_last();
        let clip = clips.last();
        law_a_read_orders_the_clips(rest);
        let sorted = by_sort_index(rest);
        lemma_slot(sorted, clip.sort_index);
        assert(rest.push(clip) =~= clips);
        if forall|i: int, j: int|
            0 <= i < j < clips.len() ==> (#[trigger] clips[i]).sort_index <= (
            #[trigger] clips[j]).sort_index {
            assert forall|i: int, j: int| 0 <= i < j < rest.len() implies (
            #[trigger] rest[i]).sort_index <= (#[trigger] rest[j]).sort_index by {
                assert(rest[i] == clips[i] && rest[j] == clips[j]);
            }
            if rest.len() > 0 {
                assert(rest.last() == clips[clips.len() - 2]);
            }
            assert(by_sort_index(clips) =~= clips);
        }
    } else {
        assert(by_sort_index(clips) =~= clips);
    }
}

proof fn lemma_slot(sorted: Seq<ClipView>, sort_index: i64)
    requires
        forall|i: int, j: int|
            0 <= i < j < sorted.len() ==> (#[trigger] sorted[i]).sort_index <= (
            #[trigger] sorted[j]).sort_index,
    ensures
        0 <= slot(sorted, sort_index) <= sorted.len(),
        forall|i: int|
            0 <= i < slot(sorted, sort_index) ==> (#[trigger] sorted[i]).sort_index <= sort_index,
        forall|i: int|
            slot(sorted, sort_index) <= i < sorted.len() ==> (#[trigger] sorted[i]).sort_index
                > sort_index,
    decreases sorted.len(),
{
    if sorted.len() > 0 {
        if sorted.last().sort_index <= sort_index {
            assert forall|i: int| 0 <= i < sorted.len() implies (
            #[trigger] sorted[i]).sort_index <= sort_index by {
                assert(i < sorted.len() - 1 ==> sorted[i].sort_index <= sorted[sorted.len()
                    - 1].sort_index);
            }
        } else {
            let head = sorted.drop_last();
            lemma_slot(head, sort_index);
            assert forall|i: int|
                slot(sorted, sort_index) <= i < sorted.len() implies (
            #[trigger] sorted[i]).sort_index > sort_index by {
                if i < head.len() {
                    assert(sorted[i] == head[i]);
                }
            }
            assert forall|i: int| 0 <= i < slot(sorted, sort_index) implies (
            #[trigger] sorted[i]).sort_index <= sort_index by {
                assert(sorted[i] == head[i]);
            }
        }
    }
}

/// **Sorting by source sorts**: it keeps every clip, and puts each after those
/// that start no later.
pub proof fn law_sorting_sorts(clips: Seq<ClipView>)
    ensures
        by_source(clips).to_multiset() == clips.to_multiset(),
        forall|i: int, j: int|
            0 <= i < j < by_source(clips).len() ==> !starts_later(
                #[trigger] by_source(clips)[i],
                #[trigger] by_source(clips)[j],
            ),
    decreases clips.len(),
{
    broadcast use vstd::seq_lib::group_to_multiset_ensures;

    if clips.len() > 0 {
        law_sorting_sorts(clips.drop_last());
        lemma_sorted_with(by_source(clips.drop_last()), clips.last());
        assert(clips.drop_last().push(clips.last()) =~= clips);
    } else {
        assert(by_source(clips) =~= clips);
    }
}

proof fn lemma_sorted_with(sorted: Seq<ClipView>, clip: ClipView)
    requires
        forall|i: int, j: int|
            0 <= i < j < sorted.len() ==> !starts_later(
                #[trigger] sorted[i],
                #[trigger] sorted[j],
            ),
    ensures
        sorted_with(sorted, clip).to_multiset() == sorted.to_multiset().insert(clip),
        forall|i: int, j: int|
            0 <= i < j < sorted_with(sorted, clip).len() ==> !starts_later(
                #[trigger] sorted_with(sorted, clip)[i],
                #[trigger] sorted_with(sorted, clip)[j],
            ),
        forall|i: int|
            0 <= i < sorted_with(sorted, clip).len() ==> #[trigger] sorted_with(sorted, clip)[i]
                == clip || sorted.contains(sorted_with(sorted, clip)[i]),
    decreases sorted.len(),
{
    broadcast use vstd::seq_lib::group_to_multiset_ensures;

    let all = sorted_with(sorted, clip);
    if sorted.len() == 0 || !starts_later(sorted.last(), clip) {
        assert forall|i: int, j: int| 0 <= i < j < all.len() implies !starts_later(
            #[trigger] all[i],
            #[trigger] all[j],
        ) by {
            if j == sorted.len() {
                if i < sorted.len() - 1 {
                    assert(!starts_later(sorted[i], sorted[sorted.len() - 1]));
                }
            }
        }
        assert forall|i: int| 0 <= i < all.len() implies #[trigger] all[i] == clip
            || sorted.contains(all[i]) by {
            if i < sorted.len() {
                assert(sorted[i] == all[i]);
            }
        }
    } else {
        let head = sorted.drop_last();
        let placed = sorted_with(head, clip);
        lemma_sorted_with(head, clip);
        assert(head.push(sorted.last()) =~= sorted);
        assert(all.to_multiset() =~= sorted.to_multiset().insert(clip));
        assert forall|i: int, j: int| 0 <= i < j < all.len() implies !starts_later(
            #[trigger] all[i],
            #[trigger] all[j],
        ) by {
            if j == placed.len() {
                assert(all[i] == placed[i]);
                if placed[i] != clip {
                    let k = choose|k: int| 0 <= k < head.len() && head[k] == placed[i];
                    assert(!starts_later(sorted[k], sorted[sorted.len() - 1]));
                }
            } else {
                assert(!starts_later(placed[i], placed[j]));
            }
        }
        assert forall|i: int| 0 <= i < all.len() implies #[trigger] all[i] == clip
            || sorted.contains(all[i]) by {
            if i < placed.len() {
                assert(all[i] == placed[i]);
                if placed[i] != clip {
                    let k = choose|k: int| 0 <= k < head.len() && head[k] == placed[i];
                    assert(sorted[k] == all[i]);
                }
            } else {
                assert(sorted[sorted.len() - 1] == all[i]);
            }
        }
    }
}

/// **An edit sets its field alone**, and an edit's value is applied as it is,
/// but for tags, which are split at their commas and normalized.
pub proof fn law_an_edit_sets_its_field(
    clip: ClipView,
    text: Seq<char>,
    tags: Seq<Seq<char>>,
    show: bool,
)
    ensures
        clip.edited(EditView::Name(text)) == (ClipView { name: text, ..clip }),
        clip.edited(EditView::Tags(tags)) == (ClipView { tags, ..clip }),
        clip.edited(EditView::Notes(text)) == (ClipView { notes: text, ..clip }),
        clip.edited(EditView::ShowPip(show)) == (ClipView { show_pip: show, ..clip }),
        clip.edited(EditView::Transcript(text)) == (ClipView { transcript: text, ..clip }),
        clip.field(EditView::Name(text)) == EditView::Name(clip.name),
        clip.field(EditView::Tags(tags)) == EditView::Tags(clip.tags),
        clip.field(EditView::Notes(text)) == EditView::Notes(clip.notes),
        clip.field(EditView::ShowPip(show)) == EditView::ShowPip(clip.show_pip),
        clip.field(EditView::Transcript(text)) == EditView::Transcript(clip.transcript),
        tidied(EditView::Name(text)) == EditView::Name(text),
        tidied(EditView::Notes(text)) == EditView::Notes(text),
        tidied(EditView::ShowPip(show)) == EditView::ShowPip(show),
        tidied(EditView::Transcript(text)) == EditView::Transcript(text),
        tidied(EditView::Tags(tags)) == EditView::Tags(
            tag::tags_of(text::split_at(text::joined(tags, ","@), ',')),
        ),
{
}

/// **A reorder gives the order asked for**: the clips have the ids in that
/// order, each is what it was but for its number, and that is its place.
pub proof fn law_a_reorder_gives_the_order(
    clips: Seq<ClipView>,
    order: Seq<Id>,
    i: int,
    place: int,
)
    requires
        distinct(ids(clips)),
        distinct(order),
        same_ids(ids(clips), order),
        0 <= i < clips.len(),
        0 <= place < order.len(),
        order[place] == clips[i].id,
    ensures
        in_order(clips, order).len() == clips.len(),
        in_order(clips, order)[place] == (ClipView { sort_index: place as i64, ..clips[i] }),
{
    let all = arranged(clips, order);
    lemma_arranged_has_the_order(clips, order);
    assert(ids(all).len() == order.len());
    assert(ids(all)[place] == order[place]);
    lemma_arranged_are_members(clips, order, place);
    let j = choose|j: int| 0 <= j < clips.len() && clips[j] == all[place];
    assert(ids(clips)[j] == ids(clips)[i]);
}

/// **A clip that is moved ends up at its new place**, and the others keep their
/// order.
pub proof fn law_a_moved_clip_is_at_its_place(clips: Seq<ClipView>, from: int, to: int, i: int)
    requires
        distinct(ids(clips)),
        0 <= from < clips.len(),
        0 <= to < clips.len(),
        0 <= i < clips.len() - 1,
    ensures
        ({
            let order = ids(clips).remove(from).insert(to, ids(clips)[from]);
            let moved = in_order(clips, order);
            let other = if i < from {
                i
            } else {
                i + 1
            };
            let place = if i < to {
                i
            } else {
                i + 1
            };
            &&& moved.len() == clips.len()
            &&& moved[to] == (ClipView { sort_index: to as i64, ..clips[from] })
            &&& moved[place] == (ClipView { sort_index: place as i64, ..clips[other] })
        }),
{
    let home = ids(clips);
    let order = home.remove(from).insert(to, home[from]);
    let source = |k: int| if k == to {
        from
    } else {
        let j = if k < to {
            k
        } else {
            k - 1
        };
        if j < from {
            j
        } else {
            j + 1
        }
    };
    assert forall|k: int| 0 <= k < order.len() implies #[trigger] order[k] == home[source(k)] && 0
        <= source(k) < home.len() by {}
    assert forall|a: int, b: int| 0 <= a < b < order.len() implies order[a] != order[b] by {
        assert(source(a) != source(b));
        assert(order[a] == home[source(a)] && order[b] == home[source(b)]);
    }
    assert forall|id: Id| home.contains(id) <==> #[trigger] order.contains(id) by {
        if order.contains(id) {
            let k = choose|k: int| 0 <= k < order.len() && order[k] == id;
            assert(home[source(k)] == id);
        }
        if home.contains(id) {
            let j = choose|j: int| 0 <= j < home.len() && home[j] == id;
            if j == from {
                assert(order[to] == id);
            } else {
                let r = if j < from {
                    j
                } else {
                    j - 1
                };
                let k = if r < to {
                    r
                } else {
                    r + 1
                };
                assert(source(k) == j);
                assert(order[k] == home[source(k)]);
            }
        }
    }
    let other = if i < from {
        i
    } else {
        i + 1
    };
    let place = if i < to {
        i
    } else {
        i + 1
    };
    assert(order[to] == home[source(to)]);
    assert(order[place] == home[source(place)]);
    law_a_reorder_gives_the_order(clips, order, from, to);
    law_a_reorder_gives_the_order(clips, order, other, place);
}

proof fn lemma_sorted_with_inserts(sorted: Seq<ClipView>, clip: ClipView) -> (at: int)
    ensures
        0 <= at <= sorted.len(),
        sorted_with(sorted, clip) == sorted.insert(at, clip),
        forall|k: int| at <= k < sorted.len() ==> starts_later(#[trigger] sorted[k], clip),
    decreases sorted.len(),
{
    if sorted.len() == 0 || !starts_later(sorted.last(), clip) {
        assert(sorted.push(clip) =~= sorted.insert(sorted.len() as int, clip));
        sorted.len() as int
    } else {
        let head = sorted.drop_last();
        let at = lemma_sorted_with_inserts(head, clip);
        assert(head.insert(at, clip).push(sorted.last()) =~= sorted.insert(at, clip));
        assert forall|k: int| at <= k < sorted.len() implies starts_later(
            #[trigger] sorted[k],
            clip,
        ) by {
            if k < head.len() {
                assert(head[k] == sorted[k]);
            }
        }
        at
    }
}

/// **Sorted clips are by source, then start**, and those that start together
/// stay in the order they were in: of any two, the places they had.
pub proof fn law_sorted_clips_are_by_source_then_start(
    clips: Seq<ClipView>,
    i: int,
    j: int,
) -> (had: (int, int))
    requires
        0 <= i < j < by_source(clips).len(),
    ensures
        ({
            let a = by_source(clips)[i];
            let b = by_source(clips)[j];
            &&& a.source_index < b.source_index || (a.source_index == b.source_index
                && a.start_source <= b.start_source)
            &&& by_source(clips).len() == clips.len()
            &&& 0 <= had.0 < clips.len() && clips[had.0] == a
            &&& 0 <= had.1 < clips.len() && clips[had.1] == b
            &&& had.0 != had.1
            &&& a.source_index == b.source_index && a.start_source == b.start_source ==> had.0
                < had.1
        }),
    decreases clips.len(),
{
    law_sorting_sorts(clips);
    let all = by_source(clips);
    let a = all[i];
    let b = all[j];
    assert(!starts_later(a, b));
    let rest = clips.drop_last();
    let sorted = by_source(rest);
    let last = clips.len() - 1;
    let at = lemma_sorted_with_inserts(sorted, clips.last());
    lemma_sorted_length(rest);
    if i == at {
        let had = lemma_sorted_member(rest, j - 1);
        assert(b == sorted[j - 1]);
        (last, had)
    } else if j == at {
        let had = lemma_sorted_member(rest, i);
        (had, last)
    } else {
        let p = if i < at {
            i
        } else {
            i - 1
        };
        let q = if j < at {
            j
        } else {
            j - 1
        };
        let had = law_sorted_clips_are_by_source_then_start(rest, p, q);
        assert(rest[had.0] == clips[had.0] && rest[had.1] == clips[had.1]);
        had
    }
}

proof fn lemma_sorted_length(clips: Seq<ClipView>)
    ensures
        by_source(clips).len() == clips.len(),
    decreases clips.len(),
{
    if clips.len() > 0 {
        lemma_sorted_length(clips.drop_last());
        let _ = lemma_sorted_with_inserts(by_source(clips.drop_last()), clips.last());
    }
}

proof fn lemma_sorted_member(clips: Seq<ClipView>, i: int) -> (had: int)
    requires
        0 <= i < by_source(clips).len(),
    ensures
        0 <= had < clips.len(),
        clips[had] == by_source(clips)[i],
    decreases clips.len(),
{
    let rest = clips.drop_last();
    let at = lemma_sorted_with_inserts(by_source(rest), clips.last());
    if i == at {
        clips.len() - 1
    } else if i < at {
        let had = lemma_sorted_member(rest, i);
        assert(rest[had] == clips[had]);
        had
    } else {
        let had = lemma_sorted_member(rest, i - 1);
        assert(rest[had] == clips[had]);
        had
    }
}

/// **An undo puts back what its action held**: an edit's value before it, on
/// its clip, which is selected; a deleted clip whose recording came back; the
/// order; the match events. The action moves over to be redone. Where its clip
/// is gone the action is dropped, and where a recording did not come back the
/// delete stays to be undone.
pub proof fn law_an_undo_puts_back_what_its_action_held(s: Session, restored: bool, i: int)
    requires
        s.undo.len() > 0,
    ensures
        ({
            let (next, change) = s.undone(restored);
            let moved = next.undo == s.undo.take(s.undo.len() - 1) && next.redo == s.redo.push(
                s.undo[s.undo.len() - 1],
            );
            match s.undo[s.undo.len() - 1] {
                ActionView::EditClip { id, before, after } => {
                    &&& first_with(s.clips, id, i) ==> moved && change == (ChangeView {
                        changed: true,
                        select: Some(id),
                        trash: None,
                    }) && next.clips == s.clips.update(i, s.clips[i].edited(before))
                        && next.match_events == s.match_events
                    &&& none_with(s.clips, id) ==> next == (Session {
                        undo: s.undo.take(s.undo.len() - 1),
                        ..s
                    }) && change == (ChangeView { changed: false, select: None, trash: None })
                },
                ActionView::DeleteClip(clip) => {
                    &&& first_with(s.clips, clip.id, i) ==> moved && change == (ChangeView {
                        changed: false,
                        select: Some(clip.id),
                        trash: None,
                    }) && next.clips == s.clips
                    &&& none_with(s.clips, clip.id) && restored ==> moved && change == (
                    ChangeView { changed: true, select: Some(clip.id), trash: None })
                        && next.clips.len() == s.clips.len() + 1 && next.clips.contains(clip)
                        && next.match_events == s.match_events
                    &&& none_with(s.clips, clip.id) && !restored ==> next == s && change == (
                    ChangeView { changed: false, select: None, trash: None })
                },
                ActionView::ReorderClips { before, after } => moved && next.clips == in_order(
                    s.clips,
                    before,
                ) && next.match_events == s.match_events && change == (ChangeView {
                    changed: true,
                    select: None,
                    trash: None,
                }),
                ActionView::EditMatchEvents { before, after } => moved && next.clips == s.clips
                    && next.match_events == before && change == (ChangeView {
                    changed: true,
                    select: None,
                    trash: None,
                }),
            }
        }),
{
    assert(s.undo.take(s.undo.len() - 1) =~= s.undo.drop_last());
    match s.undo.last() {
        ActionView::EditClip { id, .. } => {
            lemma_position_is_first(s.clips, id);
        },
        ActionView::DeleteClip(clip) => {
            lemma_position_is_first(s.clips, clip.id);
            lemma_slot_is_inside(s.clips, clip.sort_index);
            let slot = slot(s.clips, clip.sort_index);
            assert(s.clips.insert(slot, clip)[slot] == clip);
        },
        _ => {},
    }
}

/// Whether place `i` holds the first clip with an id.
pub open spec fn first_with(clips: Seq<ClipView>, id: Id, i: int) -> bool {
    0 <= i < clips.len() && clips[i].id == id && forall|k: int|
        0 <= k < i ==> (#[trigger] clips[k]).id != id
}

/// Whether no clip has an id.
pub open spec fn none_with(clips: Seq<ClipView>, id: Id) -> bool {
    forall|k: int| 0 <= k < clips.len() ==> (#[trigger] clips[k]).id != id
}

/// **A redo does again what its action did**: an edit's value after it, on its
/// clip, which is selected; a delete, of the clip as it is now, which goes to
/// the trash; the order; the match events. The action moves back to be undone.
/// Where its clip is gone the action is dropped.
pub proof fn law_a_redo_does_its_action_again(s: Session, i: int)
    requires
        s.redo.len() > 0,
    ensures
        ({
            let (next, change) = s.redone();
            let left = s.redo.take(s.redo.len() - 1);
            let moved = next.redo == left && next.undo == s.undo.push(s.redo[s.redo.len() - 1]);
            match s.redo[s.redo.len() - 1] {
                ActionView::EditClip { id, before, after } => {
                    &&& first_with(s.clips, id, i) ==> moved && change == (ChangeView {
                        changed: true,
                        select: Some(id),
                        trash: None,
                    }) && next.clips == s.clips.update(i, s.clips[i].edited(after))
                        && next.match_events == s.match_events
                    &&& none_with(s.clips, id) ==> next == (Session { redo: left, ..s })
                        && change == (ChangeView { changed: false, select: None, trash: None })
                },
                ActionView::DeleteClip(clip) => {
                    &&& first_with(s.clips, clip.id, i) ==> next == (Session {
                        clips: s.clips.take(i) + s.clips.skip(i + 1),
                        undo: s.undo.push(ActionView::DeleteClip(s.clips[i])),
                        redo: left,
                        ..s
                    }) && change == (ChangeView {
                        changed: true,
                        select: None,
                        trash: Some(s.clips[i]),
                    })
                    &&& none_with(s.clips, clip.id) ==> next == (Session { redo: left, ..s })
                        && change == (ChangeView { changed: false, select: None, trash: None })
                },
                ActionView::ReorderClips { before, after } => moved && next.clips == in_order(
                    s.clips,
                    after,
                ) && next.match_events == s.match_events && change == (ChangeView {
                    changed: true,
                    select: None,
                    trash: None,
                }),
                ActionView::EditMatchEvents { before, after } => moved && next.clips == s.clips
                    && next.match_events == after && change == (ChangeView {
                    changed: true,
                    select: None,
                    trash: None,
                }),
            }
        }),
{
    assert(s.redo.take(s.redo.len() - 1) =~= s.redo.drop_last());
    match s.redo.last() {
        ActionView::EditClip { id, .. } => {
            lemma_position_is_first(s.clips, id);
        },
        ActionView::DeleteClip(clip) => {
            lemma_position_is_first(s.clips, clip.id);
            if first_with(s.clips, clip.id, i) {
                assert(s.clips.remove(i) =~= s.clips.take(i) + s.clips.skip(i + 1));
            }
        },
        _ => {},
    }
}

/// **An edited clip holds the value, and no other clip changes**: the first
/// with the id, once its tags were normalized. Without such a clip nothing
/// changes.
pub proof fn law_an_edited_clip_holds_the_value(
    project: &mut Project,
    history: &mut UndoController,
    id: Id,
    edit: ClipEdit,
    edited: Edited,
    i: int,
    k: int,
)
    requires
        call_ensures(edit_clip, (project, history, id, edit), edited),
    ensures
        ({
            let was = clip_views(old(project).clips@);
            let now = clip_views(final(project).clips@);
            &&& now.len() == was.len()
            &&& final(project).match_events == old(project).match_events
            &&& first_with(was, id, i) ==> {
                &&& 0 <= k < was.len() && k != i ==> now[k] == was[k]
                &&& edit@ matches EditView::Name(name) ==> now[i] == (ClipView { name, ..was[i] })
                    && (edited.changed <==> was[i].name != name)
                &&& edit@ matches EditView::Notes(notes) ==> now[i] == (ClipView {
                    notes,
                    ..was[i]
                }) && (edited.changed <==> was[i].notes != notes)
                &&& edit@ matches EditView::Transcript(transcript) ==> now[i] == (ClipView {
                    transcript,
                    ..was[i]
                }) && (edited.changed <==> was[i].transcript != transcript)
                &&& edit@ matches EditView::ShowPip(show_pip) ==> now[i] == (ClipView {
                    show_pip,
                    ..was[i]
                }) && (edited.changed <==> was[i].show_pip != show_pip)
                &&& edit@ matches EditView::Tags(tags) ==> now[i] == (ClipView {
                    tags: now[i].tags,
                    ..was[i]
                }) && now[i].tags == tag::tags_of(text::split_at(text::joined(tags, ","@), ','))
            }
            &&& none_with(was, id) ==> now == was && !edited.changed && final(history)@ == old(history)@
            &&& !edited.changed ==> final(history)@ == old(history)@
            &&& edited.changed ==> final(history)@.redo.len() == 0
        }),
{
    let was = clip_views(old(project).clips@);
    lemma_position_is_first(was, id);
}

/// **A transcript goes to its clip, and is no step to undo.**
pub proof fn law_a_transcript_goes_to_its_clip(
    project: &mut Project,
    id: Id,
    transcript: String,
    changed: bool,
    i: int,
    k: int,
)
    requires
        call_ensures(write_transcript, (project, id, transcript), changed),
    ensures
        ({
            let was = clip_views(old(project).clips@);
            let now = clip_views(final(project).clips@);
            &&& now.len() == was.len()
            &&& first_with(was, id, i) ==> {
                &&& now[i] == (ClipView { transcript: transcript@, ..was[i] })
                &&& 0 <= k < was.len() && k != i ==> now[k] == was[k]
                &&& changed <==> was[i].transcript != transcript@
            }
            &&& none_with(was, id) ==> now == was && !changed
        }),
{
    lemma_position_is_first(clip_views(old(project).clips@), id);
}

/// **A clip moved by hand is at its place**: the list's order is the one asked
/// for, and places outside it change nothing.
pub proof fn law_a_clip_moved_by_hand_is_at_its_place(
    project: &mut Project,
    history: &mut UndoController,
    from: usize,
    to: usize,
    edited: Edited,
    i: int,
)
    requires
        call_ensures(move_clip, (project, history, from, to), edited),
        distinct(ids(clip_views(old(project).clips@))),
    ensures
        ({
            let was = clip_views(old(project).clips@);
            let now = clip_views(final(project).clips@);
            let inside = from < was.len() && to < was.len();
            &&& !inside || from == to ==> now == was && !edited.changed
            &&& inside && from != to ==> {
                let other = if i < from {
                    i
                } else {
                    i + 1
                };
                let place = if i < to {
                    i
                } else {
                    i + 1
                };
                &&& edited.changed
                &&& now.len() == was.len()
                &&& now[to as int] == (ClipView { sort_index: to as i64, ..was[from as int] })
                &&& 0 <= i < was.len() - 1 ==> now[place] == (ClipView {
                    sort_index: place as i64,
                    ..was[other]
                })
            }
        }),
{
    let was = clip_views(old(project).clips@);
    let before = ids(was);
    if from < was.len() && to < was.len() {
        let after = before.remove(from as int).insert(to as int, before[from as int]);
        if from == to {
            assert(after =~= before);
        } else {
            assert(after[to as int] == before[from as int]);
            assert(before[to as int] != before[from as int]);
            if 0 <= i < was.len() - 1 {
                law_a_moved_clip_is_at_its_place(was, from as int, to as int, i);
            } else {
                law_a_moved_clip_is_at_its_place(was, from as int, to as int, 0);
            }
        }
    }
}

} // verus!
