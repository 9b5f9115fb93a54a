//! The trash: where the recordings of deleted clips wait.
//!
//! A deleted clip's recording moves to the trash only once the project without
//! it has saved, and comes back before the project with it is saved. So the
//! project file never lists a clip whose recording is in the trash, which every
//! open empties; an interruption leaves at worst a recording that no project
//! lists. Shredding only ever touches the trash.

use vstd::prelude::*;

use crate::clips;
use crate::clips::{Change, Session};
use crate::project::{Clip, ClipView};
use crate::undo::{ActionView, UndoAction, UndoController};

verus! {

/// What a delete asks of the caller.
#[derive(Debug, PartialEq, Eq)]
pub struct Deleted {
    /// The clip's recording moves to the trash.
    pub trash: bool,
    /// The clips whose trashed recordings the history dropped.
    pub shred: Vec<Clip>,
}

/// Files a delete whose clip has left the project. `saved` says whether the
/// project without it was saved: if not, the project file still lists the clip,
/// and its recording stays where it is.
pub fn file_delete(history: &mut UndoController, clip: Clip, saved: bool) -> (deleted: Deleted)
    ensures
        deleted.trash == saved,
        final(history)@ == old(history)@.recorded(UndoAction::DeleteClip(clip)),
        deleted.shred@ == old(history)@.dropped(UndoAction::DeleteClip(clip)),
{
    let shred = history.push(UndoAction::DeleteClip(clip));
    Deleted { trash: saved, shred }
}

/// The clip whose recording moves to the trash after a redo, which left the
/// project, once that was saved.
pub fn trash_after_redo(change: &Change, saved: bool) -> (clip: Option<&Clip>)
    ensures
        match clip {
            Some(c) => saved && change.trash == Some(*c),
            None => !saved || change.trash is None,
        },
{
    if !saved {
        return None;
    }
    change.trash.as_ref()
}

// ---------------------------------------------------------------------------
// What is on disk.

/// What is on disk of a project: the clips its file lists, and the recordings
/// in the trash.
#[verifier::ext_equal]
pub struct Disk {
    pub listed: Seq<ClipView>,
    pub trash: Set<Seq<char>>,
}

/// Whether none of the clips has its recording in the trash.
pub open spec fn none_trashed(clips: Seq<ClipView>, trash: Set<Seq<char>>) -> bool {
    forall|i: int|
        0 <= i < clips.len() ==> !trash.contains((#[trigger] clips[i]).recording_filename)
}

/// Whether each clip has a recording of its own.
pub open spec fn own_recordings(clips: Seq<ClipView>) -> bool {
    forall|i: int, j: int|
        0 <= i < j < clips.len() ==> (#[trigger] clips[i]).recording_filename != (
        #[trigger] clips[j]).recording_filename
}

/// Whether every clip of a list has the recording of one of `clips`.
pub open spec fn drawn_from(list: Seq<ClipView>, clips: Seq<ClipView>) -> bool {
    forall|i: int|
        0 <= i < list.len() ==> exists|k: int|
            0 <= k < clips.len() && (#[trigger] list[i]).recording_filename == (
            #[trigger] clips[k]).recording_filename
}

impl Disk {
    /// Whether neither a clip that the project file lists, nor one of the open
    /// project's, has its recording in the trash. The latter are what the next
    /// save lists.
    pub open spec fn apart(self, clips: Seq<ClipView>) -> bool {
        none_trashed(self.listed, self.trash) && none_trashed(clips, self.trash)
    }

    /// After a save of the open project's clips, which may fail.
    pub open spec fn saving(self, clips: Seq<ClipView>, saved: bool) -> Disk {
        if saved {
            Disk { listed: clips, ..self }
        } else {
            self
        }
    }

    /// After a clip's recording was to move to the trash. `moved` says whether
    /// there was one, and it could be.
    pub open spec fn trashing(self, clip: Option<ClipView>, moved: bool) -> Disk {
        match clip {
            Some(clip) => if moved {
                Disk { trash: self.trash.insert(clip.recording_filename), ..self }
            } else {
                self
            },
            None => self,
        }
    }

    /// After a clip's recording came back from the trash.
    pub open spec fn restoring(self, clip: Option<ClipView>) -> Disk {
        match clip {
            Some(clip) => Disk { trash: self.trash.remove(clip.recording_filename), ..self },
            None => self,
        }
    }
}

/// **A save lists no trashed clip**: neither one that succeeds nor one that
/// fails leaves a listed clip's recording in the trash, so long as the change
/// that is saved brought no recording of its own.
pub proof fn law_a_save_lists_no_trashed_clip(
    disk: Disk,
    clips: Seq<ClipView>,
    after: Seq<ClipView>,
    saved: bool,
)
    requires
        disk.apart(clips),
        drawn_from(after, clips),
    ensures
        disk.saving(after, saved).apart(after),
{
    assert forall|i: int| 0 <= i < after.len() implies !disk.trash.contains(
        (#[trigger] after[i]).recording_filename,
    ) by {
        let k = choose|k: int|
            0 <= k < clips.len() && after[i].recording_filename == (
            #[trigger] clips[k]).recording_filename;
        assert(!disk.trash.contains(clips[k].recording_filename));
    }
}

/// **A delete trashes no listed clip**: whether the save without the clip
/// succeeds or fails, and whether or not its recording could be moved. The
/// recording moves exactly where the save succeeded.
pub proof fn law_a_delete_trashes_no_listed_clip(
    disk: Disk,
    clips: Seq<ClipView>,
    i: int,
    saved: bool,
    moved: bool,
)
    requires
        0 <= i < clips.len(),
        disk.apart(clips),
        own_recordings(clips),
    ensures
        ({
            let left = clips.remove(i);
            let trash = if saved {
                Some(clips[i])
            } else {
                None
            };
            disk.saving(left, saved).trashing(trash, moved).apart(left)
        }),
{
    let left = clips.remove(i);
    assert forall|k: int| 0 <= k < left.len() implies !disk.trash.contains(
        (#[trigger] left[k]).recording_filename,
    ) && left[k].recording_filename != clips[i].recording_filename by {
        let was = if k < i {
            k
        } else {
            k + 1
        };
        assert(left[k] == clips[was]);
    }
}

proof fn lemma_in_order_is_drawn_from(clips: Seq<ClipView>, order: Seq<crate::id::Id>)
    ensures
        drawn_from(clips::in_order(clips, order), clips),
{
    let after = clips::in_order(clips, order);
    assert forall|i: int| 0 <= i < after.len() implies exists|k: int|
        0 <= k < clips.len() && (#[trigger] after[i]).recording_filename == (
        #[trigger] clips[k]).recording_filename by {
        clips::lemma_arranged_are_members(clips, order, i);
        let clip = clips::arranged(clips, order)[i];
        let k = choose|k: int| 0 <= k < clips.len() && clips[k] == clip;
        assert(after[i].recording_filename == clips[k].recording_filename);
    }
}

/// **An undo lists no trashed clip**: a recording comes back before the project
/// that lists its clip is saved, and a clip whose recording could not come back
/// stays out.
pub proof fn law_an_undo_lists_no_trashed_clip(
    disk: Disk,
    s: Session,
    restored: bool,
    saved: bool,
)
    requires
        disk.apart(s.clips),
    ensures
        ({
            let (after, change) = s.undone(restored);
            let back = if restored {
                disk.restoring(s.awaits())
            } else {
                disk
            };
            back.saving(after.clips, change.changed && saved).apart(after.clips)
        }),
{
    let (after, change) = s.undone(restored);
    if s.undo.len() > 0 {
        match s.undo.last() {
            ActionView::EditClip { id, before, .. } => {
                clips::lemma_position_is_first(s.clips, id);
            },
            ActionView::DeleteClip(clip) => {
                if s.awaits() is Some && restored {
                    let at = clips::slot(s.clips, clip.sort_index);
                    clips::lemma_slot_is_inside(s.clips, clip.sort_index);
                    assert forall|i: int| 0 <= i < after.clips.len() && i != at implies exists|k: int|
                        0 <= k < s.clips.len() && #[trigger] after.clips[i] == #[trigger] s.clips[k] by {
                        let k = if i < at {
                            i
                        } else {
                            i - 1
                        };
                        assert(after.clips[i] == s.clips[k]);
                    }
                }
            },
            ActionView::ReorderClips { before, .. } => {
                lemma_in_order_is_drawn_from(s.clips, before);
                law_a_save_lists_no_trashed_clip(disk, s.clips, after.clips, saved);
            },
            ActionView::EditMatchEvents { .. } => {},
        }
    }
}

/// **A redo trashes no listed clip**: the recording of a clip that leaves the
/// project again moves only where the project without it was saved.
pub proof fn law_a_redo_trashes_no_listed_clip(disk: Disk, s: Session, saved: bool, moved: bool)
    requires
        disk.apart(s.clips),
        own_recordings(s.clips),
    ensures
        ({
            let (after, change) = s.redone();
            let kept = change.changed && saved;
            let trash = if kept {
                change.trash
            } else {
                None
            };
            disk.saving(after.clips, kept).trashing(trash, moved).apart(after.clips)
        }),
{
    let (after, change) = s.redone();
    if s.redo.len() > 0 {
        match s.redo.last() {
            ActionView::EditClip { id, .. } => {
                clips::lemma_position_is_first(s.clips, id);
            },
            ActionView::DeleteClip(clip) => {
                clips::lemma_position_is_first(s.clips, clip.id);
                if let Some(i) = clips::position(s.clips, clip.id) {
                    law_a_delete_trashes_no_listed_clip(disk, s.clips, i, saved, moved);
                }
            },
            ActionView::ReorderClips { after: order, .. } => {
                lemma_in_order_is_drawn_from(s.clips, order);
                law_a_save_lists_no_trashed_clip(disk, s.clips, after.clips, saved);
            },
            ActionView::EditMatchEvents { .. } => {},
        }
    }
}

/// **A delete is filed to be undone**, and its recording goes to the trash once
/// the project was saved without it.
pub proof fn law_a_delete_is_filed_to_be_undone(
    history: &mut UndoController,
    clip: Clip,
    saved: bool,
    deleted: Deleted,
)
    requires
        call_ensures(file_delete, (history, clip, saved), deleted),
        old(history)@.undo.len() < 100,
    ensures
        deleted.trash == saved,
        deleted.shred@.len() == 0,
        final(history)@.undo == old(history)@.undo.push(UndoAction::DeleteClip(clip)),
        final(history)@.redo.len() == 0,
{
    crate::undo::law_push_keeps_what_fits(old(history)@, UndoAction::DeleteClip(clip));
}

} // verus!
