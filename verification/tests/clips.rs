//! Clip edits, their order, and the history behind them.

use video_coach::clips::{
    clip_to_restore, edit_clip, move_clip, redo, sort_clips_by_source, undo,
};
use video_coach::id::Id;
use video_coach::project::{Clip, Project};
use video_coach::trash::{file_delete, trash_after_redo};
use video_coach::undo::{ClipEdit, UndoAction, UndoController, STACK_CAP};

fn id(n: u128) -> Id {
    Id { bits: n }
}

fn clip(n: u128, source_index: usize, start: i64) -> Clip {
    Clip {
        id: id(n),
        name: format!("clip {n}"),
        notes: String::new(),
        tags: Vec::new(),
        source_index,
        start_source: start,
        recording_duration: 1,
        recording_filename: format!("{n}.mkv"),
        events: Vec::new(),
        show_pip: true,
        sort_index: n as i64,
        created_at: String::new(),
        transcript: String::new(),
    }
}

fn project(n: u128) -> Project {
    let mut p = Project::new("p".to_string());
    p.clips = (0..n).map(|i| clip(i, 0, i as i64)).collect();
    p
}

fn order(p: &Project) -> Vec<u128> {
    p.clips.iter().map(|c| c.id.bits).collect()
}

#[test]
fn an_edit_is_one_step_and_an_unchanged_one_is_none() {
    let mut p = project(1);
    let mut h = UndoController::new();
    for edit in [
        ClipEdit::Name("Corner".to_string()),
        ClipEdit::Notes("n".to_string()),
        ClipEdit::Tags(vec!["SHOT".to_string(), "shot".to_string()]),
        ClipEdit::ShowPip(false),
        ClipEdit::Transcript("t".to_string()),
    ] {
        assert!(edit_clip(&mut p, &mut h, id(0), edit.clone()).changed);
        assert!(!edit_clip(&mut p, &mut h, id(0), edit).changed);
    }
    assert_eq!(h.undo_stack().len(), 5);
    let c = &p.clips[0];
    assert_eq!((c.name.as_str(), c.notes.as_str(), c.transcript.as_str()), ("Corner", "n", "t"));
    assert_eq!(c.tags, ["shot"], "tags are normalized");
    assert!(!c.show_pip);

    while h.can_undo() {
        assert_eq!(undo(&mut p, &mut h, false).select, Some(id(0)));
    }
    assert_eq!(p, project(1));
    assert!(!edit_clip(&mut p, &mut h, id(9), ClipEdit::ShowPip(false)).changed);
}

#[test]
fn a_deleted_clip_comes_back_in_its_place() {
    let mut p = project(3);
    let mut h = UndoController::new();
    let gone = p.remove_clip(id(1)).unwrap();
    let deleted = file_delete(&mut h, gone, true);
    assert!(deleted.trash && deleted.shred.is_empty());
    assert_eq!(order(&p), [0, 2]);
    assert_eq!(clip_to_restore(&p, &h).map(|c| c.id), Some(id(1)));

    // Its recording isn't back: nothing happens, and the step stays.
    assert!(!undo(&mut p, &mut h, false).changed);
    assert!(h.can_undo());
    let back = undo(&mut p, &mut h, true);
    assert_eq!((back.changed, back.select), (true, Some(id(1))));
    assert_eq!(p, project(3));

    // And away again: its recording has to go to the trash.
    let again = redo(&mut p, &mut h);
    assert_eq!(trash_after_redo(&again, true).map(|c| c.id), Some(id(1)));
    assert_eq!(order(&p), [0, 2]);
}

#[test]
fn a_move_is_undone_and_redone() {
    let mut p = project(4);
    let mut h = UndoController::new();
    assert!(move_clip(&mut p, &mut h, 3, 1).changed);
    assert_eq!(order(&p), [0, 3, 1, 2]);
    assert!(!move_clip(&mut p, &mut h, 2, 2).changed);
    undo(&mut p, &mut h, false);
    assert_eq!(order(&p), [0, 1, 2, 3]);
    redo(&mut p, &mut h);
    assert_eq!(order(&p), [0, 3, 1, 2]);
}

#[test]
fn sorting_follows_the_match() {
    let mut p = project(0);
    p.clips = vec![clip(0, 1, 5), clip(1, 0, 9), clip(2, 0, 3), clip(3, 1, 5)];
    let mut h = UndoController::new();
    assert!(sort_clips_by_source(&mut p, &mut h).changed);
    assert_eq!(order(&p), [2, 1, 0, 3]);
    assert!(!sort_clips_by_source(&mut p, &mut h).changed);
    undo(&mut p, &mut h, false);
    assert_eq!(order(&p), [0, 1, 2, 3]);
}

#[test]
fn the_history_is_bounded_and_shreds_what_it_drops() {
    let mut h = UndoController::new();
    assert!(h.push(UndoAction::DeleteClip(clip(7, 0, 0))).is_empty());
    for _ in 1..STACK_CAP {
        assert!(h.push(UndoAction::ReorderClips { before: vec![], after: vec![] }).is_empty());
    }
    let dropped = h.push(UndoAction::ReorderClips { before: vec![], after: vec![] });
    assert_eq!(dropped.iter().map(|c| c.id.bits).collect::<Vec<_>>(), [7]);
    assert_eq!(h.undo_stack().len(), STACK_CAP);
}

#[test]
fn evicting_deletes_takes_their_clips_edits_along() {
    let mut h = UndoController::new();
    let edit = |n: u128| UndoAction::EditClip {
        id: id(n),
        before: ClipEdit::ShowPip(true),
        after: ClipEdit::ShowPip(false),
    };
    assert!(h.push(edit(1)).is_empty());
    assert!(h.push(edit(2)).is_empty());
    assert!(h.push(UndoAction::DeleteClip(clip(1, 0, 0))).is_empty());
    let evicted = h.evict_deletes();
    assert_eq!(evicted.iter().map(|c| c.id.bits).collect::<Vec<_>>(), [1]);
    assert_eq!(h.undo_stack().len(), 1);
    assert_eq!(h.undo_stack()[0], edit(2));
    h.clear();
    assert!(!h.can_undo() && !h.can_redo());
}

#[test]
fn a_new_action_clears_redo() {
    let mut p = project(2);
    let mut h = UndoController::new();
    move_clip(&mut p, &mut h, 0, 1);
    undo(&mut p, &mut h, false);
    assert!(h.can_redo());
    assert_eq!(h.redo_stack().len(), 1);
    edit_clip(&mut p, &mut h, id(0), ClipEdit::ShowPip(false));
    assert!(!h.can_redo());
}

#[test]
fn an_empty_history_changes_nothing() {
    let mut p = project(1);
    let mut h = UndoController::new();
    assert!(!undo(&mut p, &mut h, true).changed);
    assert!(!redo(&mut p, &mut h).changed);
    assert_eq!(p, project(1));
}

#[test]
fn a_read_orders_the_clips() {
    let mut p = project(0);
    let numbered = |n: u128, sort_index: i64| Clip { sort_index, ..clip(n, 0, 0) };
    p.clips = vec![numbered(0, 5), numbered(1, 2), numbered(2, 5), numbered(3, -1)];
    p.order_clips();
    assert_eq!(order(&p), [3, 1, 0, 2]);
    p.order_clips();
    assert_eq!(order(&p), [3, 1, 0, 2]);
}

/// A project file that could not be written still lists the clip, so its
/// recording stays out of the trash, which the next open empties.
#[test]
fn a_recording_is_trashed_only_once_its_project_saved() {
    let mut p = project(2);
    let mut h = UndoController::new();
    let gone = p.remove_clip(id(0)).unwrap();
    assert!(!file_delete(&mut h, gone, false).trash);
    assert!(undo(&mut p, &mut h, true).changed);
    assert_eq!(p, project(2));

    let again = redo(&mut p, &mut h);
    assert!(again.changed);
    assert!(trash_after_redo(&again, false).is_none());
    assert_eq!(trash_after_redo(&again, true).map(|c| c.id), Some(id(0)));

    // Nothing left the project.
    assert!(move_clip(&mut p, &mut h, 0, 0).shred.is_empty());
    let nothing = redo(&mut p, &mut h);
    assert!(trash_after_redo(&nothing, true).is_none());
}
