//! The undo history.
//!
//! It holds the two stacks and their push, cap and eviction rules, and never
//! applies an action or touches a file. The caller applies each action, moves
//! recordings in and out of the trash, and shreds what eviction returns.
//!
//! - **Any number of deletes can be undone.** A delete leaves the history only
//!   when the cap drops it or [`UndoController::evict_deletes`] removes it.
//! - **Eviction purges the clip's edits.** An evicted clip can never return, so
//!   its edits could only do nothing.
//! - **Take, then file.** The caller takes an action, applies it, and files
//!   what it applied: possibly an updated action, or nothing if its target is
//!   gone.

use vstd::prelude::*;

use crate::id::Id;
use crate::project::{Clip, ClipView};
use crate::scoreboard_config::MatchEventRecord;
use crate::text;

verus! {

/// The most actions the undo stack holds; the oldest drop first.
pub const STACK_CAP: usize = 100;

/// One user-editable clip field and its value.
#[derive(Debug, PartialEq, Eq)]
pub enum ClipEdit {
    Name(String),
    Tags(Vec<String>),
    Notes(String),
    ShowPip(bool),
    Transcript(String),
}

/// What a [`ClipEdit`] holds, as mathematical values.
#[verifier::ext_equal]
pub enum EditView {
    Name(Seq<char>),
    Tags(Seq<Seq<char>>),
    Notes(Seq<char>),
    ShowPip(bool),
    Transcript(Seq<char>),
}

impl View for ClipEdit {
    type V = EditView;

    open spec fn view(&self) -> EditView {
        match self {
            ClipEdit::Name(t) => EditView::Name(t@),
            ClipEdit::Tags(tags) => EditView::Tags(text::texts(tags@)),
            ClipEdit::Notes(t) => EditView::Notes(t@),
            ClipEdit::ShowPip(on) => EditView::ShowPip(*on),
            ClipEdit::Transcript(t) => EditView::Transcript(t@),
        }
    }
}

impl Clone for ClipEdit {
    fn clone(&self) -> (copy: ClipEdit)
        ensures
            copy@ == self@,
    {
        match self {
            ClipEdit::Name(t) => ClipEdit::Name(t.clone()),
            ClipEdit::Tags(tags) => ClipEdit::Tags(text::clone_texts(tags)),
            ClipEdit::Notes(t) => ClipEdit::Notes(t.clone()),
            ClipEdit::ShowPip(on) => ClipEdit::ShowPip(*on),
            ClipEdit::Transcript(t) => ClipEdit::Transcript(t.clone()),
        }
    }
}

impl ClipEdit {
    /// Whether two edits set the same field to the same value.
    pub fn same(&self, other: &ClipEdit) -> (same: bool)
        ensures
            same == (self@ == other@),
    {
        match (self, other) {
            (ClipEdit::Name(a), ClipEdit::Name(b)) => *a == *b,
            (ClipEdit::Tags(a), ClipEdit::Tags(b)) => text::same_texts(a, b),
            (ClipEdit::Notes(a), ClipEdit::Notes(b)) => *a == *b,
            (ClipEdit::ShowPip(a), ClipEdit::ShowPip(b)) => *a == *b,
            (ClipEdit::Transcript(a), ClipEdit::Transcript(b)) => *a == *b,
            _ => false,
        }
    }
}

/// One step of the history.
#[allow(inconsistent_fields)]
#[derive(Debug, PartialEq, Eq)]
pub enum UndoAction {
    /// One field of one clip. `before` and `after` are the same variant.
    EditClip { id: Id, before: ClipEdit, after: ClipEdit },
    /// The clip as it was removed. Its recording waits in the trash while this
    /// is on the undo stack; on the redo stack the clip is live again.
    DeleteClip(Clip),
    /// Clip order around a move or a sort.
    ReorderClips { before: Vec<Id>, after: Vec<Id> },
    /// The whole list of match events around a tag, a delete or a trim.
    EditMatchEvents { before: Vec<MatchEventRecord>, after: Vec<MatchEventRecord> },
}

/// What an [`UndoAction`] holds, as mathematical values.
#[allow(inconsistent_fields)]
#[verifier::ext_equal]
pub enum ActionView {
    EditClip { id: Id, before: EditView, after: EditView },
    DeleteClip(ClipView),
    ReorderClips { before: Seq<Id>, after: Seq<Id> },
    EditMatchEvents { before: Seq<MatchEventRecord>, after: Seq<MatchEventRecord> },
}

impl View for UndoAction {
    type V = ActionView;

    open spec fn view(&self) -> ActionView {
        match self {
            UndoAction::EditClip { id, before, after } => ActionView::EditClip {
                id: *id,
                before: before@,
                after: after@,
            },
            UndoAction::DeleteClip(clip) => ActionView::DeleteClip(clip@),
            UndoAction::ReorderClips { before, after } => ActionView::ReorderClips {
                before: before@,
                after: after@,
            },
            UndoAction::EditMatchEvents { before, after } => ActionView::EditMatchEvents {
                before: before@,
                after: after@,
            },
        }
    }
}

/// What each action of a stack holds.
pub open spec fn action_views(actions: Seq<UndoAction>) -> Seq<ActionView> {
    actions.map_values(|a: UndoAction| a@)
}

/// Whether an action edits a field of one of `clips`.
pub open spec fn edits_one_of(action: UndoAction, clips: Seq<Clip>) -> bool {
    action matches UndoAction::EditClip { id, .. } && exists|i: int|
        0 <= i < clips.len() && (#[trigger] clips[i]).id == id
}

/// The clips that a run of actions deleted, in order.
pub open spec fn deleted_by(actions: Seq<UndoAction>) -> Seq<Clip>
    decreases actions.len(),
{
    if actions.len() == 0 {
        seq![]
    } else {
        let before = deleted_by(actions.drop_last());
        match actions.last() {
            UndoAction::DeleteClip(clip) => before.push(clip),
            _ => before,
        }
    }
}

/// A stack without the edits of `clips`.
pub open spec fn purged(actions: Seq<UndoAction>, clips: Seq<Clip>) -> Seq<UndoAction> {
    actions.filter(|a: UndoAction| !edits_one_of(a, clips))
}

/// The undo and redo stacks, newest entry last.
#[verifier::ext_equal]
pub struct History {
    pub undo: Seq<UndoAction>,
    pub redo: Seq<UndoAction>,
}

impl History {
    pub open spec fn empty() -> History {
        History { undo: seq![], redo: seq![] }
    }

    /// How many of the oldest actions a push of one more drops.
    pub open spec fn excess(self) -> int {
        if self.undo.len() + 1 > STACK_CAP {
            self.undo.len() + 1 - STACK_CAP
        } else {
            0
        }
    }

    /// The clips whose deletes a push of `action` drops.
    pub open spec fn dropped(self, action: UndoAction) -> Seq<Clip> {
        deleted_by(self.undo.push(action).take(self.excess()))
    }

    /// The history with `action` recorded: nothing left to redo, the oldest
    /// actions past the cap gone, and with a dropped delete its clip's edits.
    pub open spec fn recorded(self, action: UndoAction) -> History {
        History {
            undo: purged(self.undo.push(action).skip(self.excess()), self.dropped(action)),
            redo: seq![],
        }
    }

    /// The history with every delete on the undo stack evicted.
    pub open spec fn without_deletes(self) -> History {
        let clips = deleted_by(self.undo);
        History {
            undo: purged(self.undo.filter(|a: UndoAction| !(a is DeleteClip)), clips),
            redo: purged(self.redo, clips),
        }
    }

    /// The history after the source list changed: without the deletes to undo,
    /// and without the snapshots of the match events on either stack. Neither
    /// would hold the sources' new places.
    pub open spec fn resourced(self) -> History {
        let kept = self.without_deletes();
        History {
            undo: kept.undo.filter(|a: UndoAction| !(a is EditMatchEvents)),
            redo: kept.redo.filter(|a: UndoAction| !(a is EditMatchEvents)),
        }
    }

    /// The history after its newest undo action was taken, undone and filed as
    /// `filed`.
    pub open spec fn undone(self, filed: UndoAction) -> History
        recommends
            self.undo.len() > 0,
    {
        History { undo: self.undo.drop_last(), redo: self.redo.push(filed) }
    }

    /// The history after its newest redo action was taken, redone and filed as
    /// `filed`.
    pub open spec fn redone(self, filed: UndoAction) -> History
        recommends
            self.redo.len() > 0,
    {
        History { undo: self.undo.push(filed), redo: self.redo.drop_last() }
    }
}

/// The undo and redo stacks.
#[derive(Debug)]
pub struct UndoController {
    undo: Vec<UndoAction>,
    redo: Vec<UndoAction>,
}

impl View for UndoController {
    type V = History;

    closed spec fn view(&self) -> History {
        History { undo: self.undo@, redo: self.redo@ }
    }
}

/// Whether an action edits a field of one of `clips`.
#[verifier::loop_isolation(false)]
fn is_edit_of(action: &UndoAction, clips: &Vec<Clip>) -> (edit: bool)
    ensures
        edit == edits_one_of(*action, clips@),
{
    match action {
        UndoAction::EditClip { id, .. } => {
            for i in 0..clips.len()
                invariant
                    forall|j: int| 0 <= j < i ==> (#[trigger] clips@[j]).id != *id,
            {
                if clips[i].id == *id {
                    return true;
                }
            }
            false
        },
        _ => false,
    }
}

/// A stack without the edits of `clips`.
fn without_edits_of(actions: Vec<UndoAction>, clips: &Vec<Clip>) -> (kept: Vec<UndoAction>)
    ensures
        kept@ == purged(actions@, clips@),
{
    let ghost all = actions@;
    let ghost stays = |a: UndoAction| !edits_one_of(a, clips@);
    let mut kept: Vec<UndoAction> = Vec::new();
    let mut rest = actions;
    proof {
        reveal(Seq::filter);
        assert(all.skip(0) =~= all);
        assert(all.take(0).filter(stays) =~= seq![]);
    }
    let ghost mut i: int = 0;
    while rest.len() > 0
        invariant
            0 <= i,
            i + rest@.len() == all.len(),
            rest@ == all.skip(i),
            stays == (|a: UndoAction| !edits_one_of(a, clips@)),
            kept@ == all.take(i).filter(stays),
        decreases rest@.len(),
    {
        let action = rest.remove(0);
        proof {
            reveal(Seq::filter);
            assert(all.take(i + 1).drop_last() =~= all.take(i));
            assert(action == all[i]);
            assert(rest@ =~= all.skip(i + 1));
        }
        if !is_edit_of(&action, clips) {
            kept.push(action);
        }
        proof {
            i = i + 1;
        }
    }
    assert(all.take(i) =~= all);
    kept
}

/// Splits a run of actions into the clips it deleted and everything else.
fn split_deletes(actions: Vec<UndoAction>) -> (split: (Vec<Clip>, Vec<UndoAction>))
    ensures
        split.0@ == deleted_by(actions@),
        split.1@ == actions@.filter(|a: UndoAction| !(a is DeleteClip)),
{
    let ghost all = actions@;
    let ghost stays = |a: UndoAction| !(a is DeleteClip);
    let mut clips: Vec<Clip> = Vec::new();
    let mut kept: Vec<UndoAction> = Vec::new();
    let mut rest = actions;
    proof {
        reveal(Seq::filter);
        assert(all.skip(0) =~= all);
        assert(all.take(0).filter(stays) =~= seq![]);
    }
    let ghost mut i: int = 0;
    while rest.len() > 0
        invariant
            0 <= i,
            i + rest@.len() == all.len(),
            rest@ == all.skip(i),
            stays == (|a: UndoAction| !(a is DeleteClip)),
            clips@ == deleted_by(all.take(i)),
            kept@ == all.take(i).filter(stays),
        decreases rest@.len(),
    {
        let action = rest.remove(0);
        proof {
            reveal(Seq::filter);
            assert(all.take(i + 1).drop_last() =~= all.take(i));
            assert(action == all[i]);
            assert(rest@ =~= all.skip(i + 1));
        }
        match action {
            UndoAction::DeleteClip(clip) => {
                clips.push(clip);
            },
            other => {
                kept.push(other);
            },
        }
        proof {
            i = i + 1;
        }
    }
    assert(all.take(i) =~= all);
    (clips, kept)
}

/// A stack without its snapshots of the match events.
fn without_match_events(actions: Vec<UndoAction>) -> (kept: Vec<UndoAction>)
    ensures
        kept@ == actions@.filter(|a: UndoAction| !(a is EditMatchEvents)),
{
    let ghost all = actions@;
    let ghost stays = |a: UndoAction| !(a is EditMatchEvents);
    let mut kept: Vec<UndoAction> = Vec::new();
    let mut rest = actions;
    proof {
        reveal(Seq::filter);
        assert(all.skip(0) =~= all);
        assert(all.take(0).filter(stays) =~= seq![]);
    }
    let ghost mut i: int = 0;
    while rest.len() > 0
        invariant
            0 <= i,
            i + rest@.len() == all.len(),
            rest@ == all.skip(i),
            stays == (|a: UndoAction| !(a is EditMatchEvents)),
            kept@ == all.take(i).filter(stays),
        decreases rest@.len(),
    {
        let action = rest.remove(0);
        proof {
            reveal(Seq::filter);
            assert(all.take(i + 1).drop_last() =~= all.take(i));
            assert(action == all[i]);
            assert(rest@ =~= all.skip(i + 1));
        }
        match action {
            UndoAction::EditMatchEvents { .. } => {},
            other => {
                kept.push(other);
            },
        }
        proof {
            i = i + 1;
        }
    }
    assert(all.take(i) =~= all);
    kept
}

impl UndoController {
    pub fn new() -> (history: UndoController)
        ensures
            history@ == History::empty(),
    {
        UndoController { undo: Vec::new(), redo: Vec::new() }
    }

    pub fn undo_stack(&self) -> (stack: &Vec<UndoAction>)
        ensures
            stack@ == self@.undo,
    {
        &self.undo
    }

    pub fn redo_stack(&self) -> (stack: &Vec<UndoAction>)
        ensures
            stack@ == self@.redo,
    {
        &self.redo
    }

    pub fn can_undo(&self) -> (can: bool)
        ensures
            can == (self@.undo.len() > 0),
    {
        self.undo.len() > 0
    }

    pub fn can_redo(&self) -> (can: bool)
        ensures
            can == (self@.redo.len() > 0),
    {
        self.redo.len() > 0
    }

    /// Record a new action: clears redo, appends, and enforces [`STACK_CAP`].
    ///
    /// Returns the clips whose deletes the cap dropped; the caller shreds
    /// their trashed files.
    #[must_use]
    pub fn push(&mut self, action: UndoAction) -> (dropped: Vec<Clip>)
        ensures
            final(self)@ == old(self)@.recorded(action),
            dropped@ == old(self)@.dropped(action),
            final(self)@.undo.len() <= STACK_CAP,
    {
        let ghost before = self@;
        let ghost all = self.undo@.push(action);
        self.redo.clear();
        self.undo.push(action);
        let mut gone: Vec<UndoAction> = Vec::new();
        while self.undo.len() > STACK_CAP
            invariant
                gone@.len() + self.undo@.len() == all.len(),
                gone@ == all.take(gone@.len() as int),
                self.undo@ == all.skip(gone@.len() as int),
                self.redo@ == Seq::<UndoAction>::empty(),
                gone@.len() > 0 ==> self.undo@.len() >= STACK_CAP,
            decreases self.undo@.len(),
        {
            let oldest = self.undo.remove(0);
            proof {
                let n = gone@.len() as int;
                assert(oldest == all[n]);
                assert(all.take(n).push(oldest) =~= all.take(n + 1));
                assert(self.undo@ =~= all.skip(n + 1));
            }
            gone.push(oldest);
        }
        assert(gone@.len() == before.excess());
        self.evict(gone)
    }

    /// Remove the newest undo action for the caller to apply in reverse, then
    /// file with [`undone`](Self::undone).
    pub fn take_undo(&mut self) -> (action: Option<UndoAction>)
        ensures
            match action {
                Some(a) => old(self)@.undo.len() > 0 && a == old(self)@.undo.last()
                    && final(self)@ == (History { undo: old(self)@.undo.drop_last(), ..old(self)@ }),
                None => old(self)@.undo.len() == 0 && final(self)@ == old(self)@,
            },
    {
        self.undo.pop()
    }

    /// File an action the caller has just undone onto the redo stack.
    pub fn undone(&mut self, action: UndoAction)
        ensures
            final(self)@ == (History { redo: old(self)@.redo.push(action), ..old(self)@ }),
    {
        self.redo.push(action);
    }

    /// Remove the newest redo action for the caller to apply forward, then
    /// file with [`redone`](Self::redone).
    pub fn take_redo(&mut self) -> (action: Option<UndoAction>)
        ensures
            match action {
                Some(a) => old(self)@.redo.len() > 0 && a == old(self)@.redo.last()
                    && final(self)@ == (History { redo: old(self)@.redo.drop_last(), ..old(self)@ }),
                None => old(self)@.redo.len() == 0 && final(self)@ == old(self)@,
            },
    {
        self.redo.pop()
    }

    /// File an action the caller has just redone onto the undo stack. Unlike
    /// [`push`](Self::push), this keeps the rest of the redo stack.
    pub fn redone(&mut self, action: UndoAction)
        ensures
            final(self)@ == (History { undo: old(self)@.undo.push(action), ..old(self)@ }),
    {
        self.undo.push(action);
    }

    /// Evict every delete on the undo stack and return its clip, whose trashed
    /// file the caller shreds.
    ///
    /// For source changes: a trashed clip's source index isn't remapped, so
    /// restored later it would point at the wrong video. A delete on the redo
    /// stack is left alone: that clip is live, and was remapped.
    #[must_use]
    pub fn evict_deletes(&mut self) -> (evicted: Vec<Clip>)
        ensures
            final(self)@ == old(self)@.without_deletes(),
            evicted@ == deleted_by(old(self)@.undo),
    {
        let mut undo: Vec<UndoAction> = Vec::new();
        std::mem::swap(&mut undo, &mut self.undo);
        let (clips, kept) = split_deletes(undo);
        self.undo = kept;
        self.purge(clips)
    }

    /// After a source was moved or removed: evicts every delete on the undo
    /// stack, as [`evict_deletes`](Self::evict_deletes) does, and drops the
    /// snapshots of the match events from both stacks, so that neither undo
    /// nor redo can restore a stale source index.
    #[must_use]
    pub fn purge_for_source_change(&mut self) -> (evicted: Vec<Clip>)
        ensures
            final(self)@ == old(self)@.resourced(),
            evicted@ == deleted_by(old(self)@.undo),
    {
        let evicted = self.evict_deletes();
        let mut undo: Vec<UndoAction> = Vec::new();
        let mut redo: Vec<UndoAction> = Vec::new();
        std::mem::swap(&mut undo, &mut self.undo);
        std::mem::swap(&mut redo, &mut self.redo);
        self.undo = without_match_events(undo);
        self.redo = without_match_events(redo);
        evicted
    }

    /// Drop both stacks, as on project open.
    pub fn clear(&mut self)
        ensures
            final(self)@ == History::empty(),
    {
        self.undo.clear();
        self.redo.clear();
    }

    /// Of `removed` (actions already taken off the stacks), return the deleted
    /// clips, and purge every edit of those clips from both stacks.
    fn evict(&mut self, removed: Vec<UndoAction>) -> (clips: Vec<Clip>)
        ensures
            clips@ == deleted_by(removed@),
            final(self)@ == (History {
                undo: purged(old(self)@.undo, clips@),
                redo: purged(old(self)@.redo, clips@),
            }),
            final(self)@.undo.len() <= old(self)@.undo.len(),
    {
        let (clips, _rest) = split_deletes(removed);
        self.purge(clips)
    }

    fn purge(&mut self, clips: Vec<Clip>) -> (returned: Vec<Clip>)
        ensures
            returned == clips,
            final(self)@ == (History {
                undo: purged(old(self)@.undo, clips@),
                redo: purged(old(self)@.redo, clips@),
            }),
            final(self)@.undo.len() <= old(self)@.undo.len(),
    {
        let mut undo: Vec<UndoAction> = Vec::new();
        let mut redo: Vec<UndoAction> = Vec::new();
        std::mem::swap(&mut undo, &mut self.undo);
        std::mem::swap(&mut redo, &mut self.redo);
        self.undo = without_edits_of(undo, &clips);
        self.redo = without_edits_of(redo, &clips);
        proof {
            old(self)@.undo.lemma_filter_len(|a: UndoAction| !edits_one_of(a, clips@));
        }
        clips
    }
}

impl Default for UndoController {
    fn default() -> (history: UndoController)
        ensures
            history@ == History::empty(),
    {
        UndoController::new()
    }
}

/// **The history is bounded**: recording never leaves more than the cap to
/// undo and nothing to redo, and taking an action and filing it moves one
/// action between the stacks, so together they never hold more than that.
pub proof fn law_history_is_bounded(history: History, action: UndoAction)
    ensures
        history.recorded(action).undo.len() <= 100,
        history.recorded(action).redo.len() == 0,
        history.undo.len() > 0 ==> history.undone(action).undo.len()
            + history.undone(action).redo.len() == history.undo.len() + history.redo.len(),
        history.redo.len() > 0 ==> history.redone(action).undo.len()
            + history.redone(action).redo.len() == history.undo.len() + history.redo.len(),
        history.without_deletes().undo.len() + history.without_deletes().redo.len()
            <= history.undo.len() + history.redo.len(),
{
    broadcast use Seq::lemma_filter_len;

}

/// **Redo takes back an undo, and undo a redo**: taking an action, filing it
/// and taking it back from the other stack restores the history.
pub proof fn law_undo_and_redo_are_inverse(history: History)
    ensures
        history.undo.len() > 0 ==> history.undone(history.undo.last()).redone(history.undo.last())
            == history,
        history.redo.len() > 0 ==> history.redone(history.redo.last()).undone(history.redo.last())
            == history,
{
    if history.undo.len() > 0 {
        let u = history.undo.last();
        assert(history.undone(u).redone(u).undo =~= history.undo);
        assert(history.undone(u).redone(u).redo =~= history.redo);
    }
    if history.redo.len() > 0 {
        let r = history.redo.last();
        assert(history.redone(r).undone(r).undo =~= history.undo);
        assert(history.redone(r).undone(r).redo =~= history.redo);
    }
}

/// **Nothing is lost below the cap**: a new action goes on top of the whole
/// undo stack, and drops no clip.
pub proof fn law_push_keeps_what_fits(history: History, action: UndoAction)
    requires
        history.undo.len() < 100,
    ensures
        history.recorded(action).undo == history.undo.push(action),
        history.dropped(action) == Seq::<Clip>::empty(),
{
    let all = history.undo.push(action);
    assert(all.take(0) =~= seq![]);
    assert(all.skip(0) =~= all);
    assert(history.dropped(action) =~= seq![]);
    lemma_purging_nothing(all);
}

proof fn lemma_purging_nothing(actions: Seq<UndoAction>)
    ensures
        purged(actions, seq![]) == actions,
    decreases actions.len(),
{
    reveal(Seq::filter);
    if actions.len() > 0 {
        lemma_purging_nothing(actions.drop_last());
        assert(actions.drop_last().push(actions.last()) =~= actions);
    }
}

/// **An evicted clip leaves no edit behind**: once the history gives a clip up
/// no action on either stack edits it, and after a source change no delete is
/// left to undo.
pub proof fn law_evicted_clips_leave_no_edits(history: History, action: UndoAction, i: int)
    ensures
        0 <= i < history.recorded(action).undo.len() ==> !edits_one_of(
            history.recorded(action).undo[i],
            history.dropped(action),
        ),
        0 <= i < history.without_deletes().undo.len() ==> !edits_one_of(
            history.without_deletes().undo[i],
            deleted_by(history.undo),
        ) && !(history.without_deletes().undo[i] is DeleteClip),
        0 <= i < history.without_deletes().redo.len() ==> !edits_one_of(
            history.without_deletes().redo[i],
            deleted_by(history.undo),
        ),
{
    broadcast use Seq::lemma_filter_pred;

    let deleted = deleted_by(history.undo);
    let kept = history.undo.filter(|a: UndoAction| !(a is DeleteClip));
    if 0 <= i < history.without_deletes().undo.len() {
        let a = history.without_deletes().undo[i];
        kept.lemma_filter_contains_rev(|a: UndoAction| !edits_one_of(a, deleted), a);
        let j = choose|j: int| 0 <= j < kept.len() && kept[j] == a;
    }
}

/// **No stale source index is restored**: after a source change neither stack
/// holds a deleted clip to undo or a snapshot of the match events.
pub proof fn law_a_source_change_leaves_no_stale_indices(history: History, i: int)
    ensures
        0 <= i < history.resourced().undo.len() ==> !(history.resourced().undo[i] is DeleteClip)
            && !(history.resourced().undo[i] is EditMatchEvents),
        0 <= i < history.resourced().redo.len() ==> !(
        history.resourced().redo[i] is EditMatchEvents),
{
    let kept = history.without_deletes();
    let stays = |a: UndoAction| !(a is EditMatchEvents);
    let clips = deleted_by(history.undo);
    let live = |a: UndoAction| !(a is DeleteClip);
    let unedited = |a: UndoAction| !edits_one_of(a, clips);
    if 0 <= i < history.resourced().undo.len() {
        kept.undo.lemma_filter_pred(stays, i);
        let action = history.resourced().undo[i];
        kept.undo.lemma_filter_contains_rev(stays, action);
        let j = choose|j: int| 0 <= j < kept.undo.len() && kept.undo[j] == action;
        history.undo.filter(live).lemma_filter_contains_rev(unedited, action);
        let k = choose|k: int|
            0 <= k < history.undo.filter(live).len() && history.undo.filter(live)[k] == action;
        history.undo.lemma_filter_pred(live, k);
    }
    if 0 <= i < history.resourced().redo.len() {
        kept.redo.lemma_filter_pred(stays, i);
    }
}

/// **A full history gives its oldest action up**, and nothing else, unless
/// that is a delete: then its clip is given up, and every edit of that clip
/// with it.
pub proof fn law_a_full_history_gives_its_oldest_up(history: History, action: UndoAction)
    requires
        history.undo.len() == 100,
    ensures
        history.recorded(action).redo.len() == 0,
        !(history.undo[0] is DeleteClip) ==> history.recorded(action).undo == history.undo.skip(
            1,
        ).push(action) && history.dropped(action).len() == 0,
        history.undo[0] matches UndoAction::DeleteClip(clip) ==> {
            &&& history.dropped(action) == seq![clip]
            &&& forall|a: UndoAction| #[trigger]
                history.recorded(action).undo.contains(a) <==> history.undo.skip(1).push(
                    action,
                ).contains(a) && !(a is EditClip && a->EditClip_id == clip.id)
        },
{
    let all = history.undo.push(action);
    let oldest = all.take(1);
    let left = all.skip(1);
    assert(left =~= history.undo.skip(1).push(action));
    assert(oldest.drop_last() =~= seq![]);
    assert(oldest.last() == history.undo[0]);
    assert(deleted_by(oldest.drop_last()) =~= seq![]);
    match history.undo[0] {
        UndoAction::DeleteClip(clip) => {
            let gone = seq![clip];
            assert(history.dropped(action) =~= gone);
            assert forall|a: UndoAction| #[trigger]
                history.recorded(action).undo.contains(a) <==> left.contains(a) && !(a is EditClip
                    && a->EditClip_id == clip.id) by {
                lemma_purged_holds(left, gone, a);
                assert(gone[0] == clip);
            }
        },
        _ => {
            assert(history.dropped(action) =~= seq![]);
            lemma_purging_nothing(left);
        },
    }
}

proof fn lemma_purged_holds(actions: Seq<UndoAction>, clips: Seq<Clip>, a: UndoAction)
    ensures
        purged(actions, clips).contains(a) <==> actions.contains(a) && !edits_one_of(a, clips),
{
    let stays = |x: UndoAction| !edits_one_of(x, clips);
    lemma_filter_holds(actions, stays, a);
}

proof fn lemma_filter_holds(
    actions: Seq<UndoAction>,
    stays: spec_fn(UndoAction) -> bool,
    a: UndoAction,
)
    ensures
        actions.filter(stays).contains(a) <==> actions.contains(a) && stays(a),
{
    if actions.filter(stays).contains(a) {
        let i = choose|i: int|
            0 <= i < actions.filter(stays).len() && actions.filter(stays)[i] == a;
        actions.lemma_filter_pred(stays, i);
        actions.lemma_filter_contains_rev(stays, a);
    }
    if actions.contains(a) && stays(a) {
        let i = choose|i: int| 0 <= i < actions.len() && actions[i] == a;
        actions.lemma_filter_contains(stays, i);
    }
}

proof fn lemma_deleted_by(actions: Seq<UndoAction>, clip: Clip)
    ensures
        deleted_by(actions).contains(clip) <==> actions.contains(UndoAction::DeleteClip(clip)),
    decreases actions.len(),
{
    let all = deleted_by(actions);
    if actions.len() > 0 {
        let rest = actions.drop_last();
        let before = deleted_by(rest);
        let last = actions.len() - 1;
        lemma_deleted_by(rest, clip);
        if all.contains(clip) {
            let i = choose|i: int| 0 <= i < all.len() && all[i] == clip;
            if i < before.len() {
                assert(before[i] == clip);
                let k = choose|k: int|
                    0 <= k < rest.len() && rest[k] == UndoAction::DeleteClip(clip);
                assert(actions[k] == UndoAction::DeleteClip(clip));
            } else {
                assert(actions[last] == UndoAction::DeleteClip(clip));
            }
        }
        if actions.contains(UndoAction::DeleteClip(clip)) {
            let k = choose|k: int|
                0 <= k < actions.len() && actions[k] == UndoAction::DeleteClip(clip);
            if k < last {
                assert(rest[k] == UndoAction::DeleteClip(clip));
                let i = choose|i: int| 0 <= i < before.len() && before[i] == clip;
                assert(all[i] == clip);
            } else {
                assert(all[before.len() as int] == clip);
            }
        }
    }
}

/// Whether the undo stack holds a delete of the clip that an action edits.
pub open spec fn edits_a_deleted_clip(undo: Seq<UndoAction>, action: UndoAction) -> bool {
    action is EditClip && exists|k: int|
        0 <= k < undo.len() && #[trigger] undo[k] is DeleteClip && undo[k]->DeleteClip_0.id
            == action->EditClip_id
}

/// **A source change gives up what it makes stale, and nothing else**: the
/// deletes to undo, the edits of their clips, and the snapshots of the match
/// events; every clip whose delete went is handed back.
pub proof fn law_a_source_change_keeps_the_rest(
    history: History,
    action: UndoAction,
    clip: Clip,
)
    ensures
        history.resourced().undo.contains(action) <==> history.undo.contains(action) && !(
        action is DeleteClip) && !(action is EditMatchEvents) && !edits_a_deleted_clip(
            history.undo,
            action,
        ),
        history.resourced().redo.contains(action) <==> history.redo.contains(action) && !(
        action is EditMatchEvents) && !edits_a_deleted_clip(history.undo, action),
        history.without_deletes().undo.contains(action) <==> history.undo.contains(action) && !(
        action is DeleteClip) && !edits_a_deleted_clip(history.undo, action),
        history.without_deletes().redo.contains(action) <==> history.redo.contains(action)
            && !edits_a_deleted_clip(history.undo, action),
        deleted_by(history.undo).contains(clip) <==> history.undo.contains(
            UndoAction::DeleteClip(clip),
        ),
{
    let clips = deleted_by(history.undo);
    let kept = history.without_deletes();
    let live = |a: UndoAction| !(a is DeleteClip);
    let other = |a: UndoAction| !(a is EditMatchEvents);
    lemma_deleted_by(history.undo, clip);
    lemma_filter_holds(history.undo, live, action);
    lemma_purged_holds(history.undo.filter(live), clips, action);
    lemma_purged_holds(history.redo, clips, action);
    lemma_filter_holds(kept.undo, other, action);
    lemma_filter_holds(kept.redo, other, action);
    assert(edits_one_of(action, clips) == edits_a_deleted_clip(history.undo, action)) by {
        if edits_one_of(action, clips) {
            let i = choose|i: int|
                0 <= i < clips.len() && (#[trigger] clips[i]).id == action->EditClip_id;
            lemma_deleted_by(history.undo, clips[i]);
            assert(clips.contains(clips[i]));
            let k = choose|k: int|
                0 <= k < history.undo.len() && history.undo[k] == UndoAction::DeleteClip(clips[i]);
            assert(history.undo[k] is DeleteClip);
        }
        if edits_a_deleted_clip(history.undo, action) {
            let k = choose|k: int|
                0 <= k < history.undo.len() && #[trigger] history.undo[k] is DeleteClip
                    && history.undo[k]->DeleteClip_0.id == action->EditClip_id;
            let gone = history.undo[k]->DeleteClip_0;
            lemma_deleted_by(history.undo, gone);
            assert(history.undo[k] == UndoAction::DeleteClip(gone));
            let i = choose|i: int| 0 <= i < clips.len() && clips[i] == gone;
            assert(clips[i].id == gone.id);
        }
    }
}

/// **Undo and redo take the newest action**, and leave the others as they are.
pub proof fn law_the_newest_action_is_taken(
    history: &mut UndoController,
    other: &mut UndoController,
    undone: Option<UndoAction>,
    redone: Option<UndoAction>,
)
    requires
        call_ensures(UndoController::take_undo, (history,), undone),
        call_ensures(UndoController::take_redo, (other,), redone),
    ensures
        undone is None <==> old(history)@.undo.len() == 0,
        undone matches Some(action) ==> old(history)@.undo == final(history)@.undo.push(action),
        final(history)@.redo == old(history)@.redo,
        redone is None <==> old(other)@.redo.len() == 0,
        redone matches Some(action) ==> old(other)@.redo == final(other)@.redo.push(action),
        final(other)@.undo == old(other)@.undo,
{
    if let Some(action) = undone {
        assert(old(history)@.undo =~= final(history)@.undo.push(action));
    }
    if let Some(action) = redone {
        assert(old(other)@.redo =~= final(other)@.redo.push(action));
    }
}

} // verus!
