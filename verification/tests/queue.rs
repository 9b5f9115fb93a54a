//! The transcription queue.

use video_coach::clips::{edit_clip, undo, write_transcript};
use video_coach::id::Id;
use video_coach::project::{Clip, Project};
use video_coach::transcription::{Effects, Finish, Start, Transcription};
use video_coach::undo::{ClipEdit, UndoController};

/// What the recognizer says.
const WORDS: &str = "he has to shoot there";

fn id(n: u128) -> Id {
    Id { bits: n }
}

fn ids(n: u128) -> Vec<Id> {
    (0..n).map(id).collect()
}

fn running(t: &Transcription) -> Option<Id> {
    t.running().map(|(clip, _)| clip)
}

fn finish(t: &mut Transcription, n: u128, how: Finish, clips: &Vec<Id>, busy: bool) -> Effects {
    let generation = t.generation();
    t.finished(generation, id(n), how, clips, busy)
}

/// Stopping a recording queues its clip.
#[test]
fn stopping_a_recording_transcribes_its_clip() {
    let clips = ids(1);
    let mut t = Transcription::new();
    let effects = t.transcribe_after_recording(id(0), &clips, false);
    assert_eq!(running(&t), Some(id(0)));
    assert_eq!(
        effects.start,
        Some(Start { clip: id(0), generation: t.generation() })
    );
}

/// One job at a time, the rest waiting in the order they were asked for.
#[test]
fn the_queue_runs_one_clip_at_a_time_in_order() {
    let clips = ids(3);
    let mut t = Transcription::new();
    for n in 0..3 {
        t.transcribe(id(n), &clips, false);
    }
    assert_eq!(running(&t), Some(id(0)));
    assert_eq!(t.queued(), [id(1), id(2)]);
    for n in 1..3 {
        finish(&mut t, n - 1, Finish::Words, &clips, false);
        assert_eq!(running(&t), Some(id(n)));
    }
    finish(&mut t, 2, Finish::Words, &clips, false);
    assert_eq!(running(&t), None);
    assert!(t.queued().is_empty());
}

/// Enqueueing is idempotent against the queue **and** the clip running.
#[test]
fn re_enqueueing_a_running_or_queued_clip_does_nothing() {
    let clips = ids(2);
    let mut t = Transcription::new();
    t.transcribe(id(0), &clips, false);
    t.transcribe(id(1), &clips, false);
    t.transcribe(id(0), &clips, false);
    t.transcribe(id(1), &clips, false);
    assert_eq!(running(&t), Some(id(0)));
    assert_eq!(t.queued(), [id(1)]);
}

/// Recording always wins. The job in flight is cancelled and its clip goes
/// back to the **front**, so it is the first thing to resume.
#[test]
fn a_recording_preempts_the_running_job_and_it_resumes_first() {
    let clips = ids(2);
    let mut t = Transcription::new();
    t.transcribe(id(0), &clips, false);
    let effects = t.preempt_transcription();
    assert!(effects.stop);
    assert_eq!(running(&t), None);
    assert_eq!(t.queued(), [id(0)]);

    // The recording made clip 1: it waits behind the preempted one.
    t.transcribe_after_recording(id(1), &clips, false);
    assert_eq!(running(&t), Some(id(0)));
    assert_eq!(t.queued(), [id(1)]);
}

/// A recording that never got video makes no clip, and still has to let the
/// job it preempted resume.
#[test]
fn a_recording_that_aborts_still_resumes_the_queue() {
    let clips = ids(1);
    let mut t = Transcription::new();
    t.transcribe(id(0), &clips, false);
    t.preempt_transcription();
    assert_eq!(t.run_next_if_idle(&clips, true).start, None, "still recording");
    assert!(t.run_next_if_idle(&clips, false).start.is_some());
    assert_eq!(running(&t), Some(id(0)));
}

/// A cancel stops the job **and** drops the queue behind it, and the clips go
/// back to idle rather than wearing a failure.
#[test]
fn a_cancel_clears_the_queue_and_leaves_no_failure() {
    let clips = ids(2);
    let mut t = Transcription::new();
    t.transcribe(id(0), &clips, false);
    t.transcribe(id(1), &clips, false);
    let stale = t.generation();
    assert!(t.cancel_transcription().stop);
    let late = t.finished(stale, id(0), Finish::Cancelled, &clips, false);
    assert_eq!(t.failed(), None, "a cancel is not a failure");
    assert_eq!(late.start, None, "nothing started after the cancel");
    assert_eq!((running(&t), t.queued().len()), (None, 0));
}

/// A failure names the clip and stays until that clip is tried again.
#[test]
fn a_failure_is_reported_and_cleared_on_the_next_try() {
    let clips = ids(1);
    let mut t = Transcription::new();
    t.transcribe(id(0), &clips, false);
    let why = "could not read the sound".to_string();
    finish(&mut t, 0, Finish::Failed(why.clone()), &clips, false);
    assert_eq!(t.failed(), Some((id(0), why)));

    t.transcribe(id(0), &clips, false);
    assert_eq!(t.failed(), None);
    finish(&mut t, 0, Finish::Words, &clips, false);
    assert_eq!(t.failed(), None);
}

/// Opening a project cancels the job and drops the queue: it holds ids of
/// clips the open project has never heard of.
#[test]
fn opening_a_project_clears_the_queue() {
    let clips = ids(2);
    let mut t = Transcription::new();
    t.transcribe(id(0), &clips, false);
    t.transcribe(id(1), &clips, false);
    let stale = t.generation();
    assert!(t.reset_transcription().stop);
    assert_eq!((running(&t), t.queued().len()), (None, 0));
    let late = t.finished(stale, id(0), Finish::Words, &vec![], false);
    assert_eq!(late.start, None);
}

/// Deleting a clip stops its job and takes it out of the queue.
#[test]
fn deleting_a_clip_stops_and_dequeues_its_job() {
    let clips = ids(2);
    let mut t = Transcription::new();
    t.transcribe(id(0), &clips, false);
    t.transcribe(id(1), &clips, false);

    // The one queued, then the one running.
    assert!(!t.cancel_transcription_of(id(1), &clips, false).stop);
    assert!(t.queued().is_empty());
    assert_eq!(running(&t), Some(id(0)));
    assert!(t.cancel_transcription_of(id(0), &clips, false).stop);
    assert_eq!(running(&t), None);
    assert_eq!(t.failed(), None, "a deleted clip leaves no message");
}

/// The machine's write is not an undo step. An undo right after it takes back
/// the coach's own edit, not the transcript.
#[test]
fn the_transcript_write_is_not_undoable() {
    let mut p = Project::new("p".to_string());
    p.clips.push(Clip {
        id: id(0),
        name: "clip 0".to_string(),
        notes: String::new(),
        tags: Vec::new(),
        source_index: 0,
        start_source: 0,
        recording_duration: 0,
        recording_filename: String::new(),
        events: Vec::new(),
        show_pip: true,
        sort_index: 0,
        created_at: String::new(),
        transcript: String::new(),
    });
    let mut history = UndoController::new();
    assert!(edit_clip(&mut p, &mut history, id(0), ClipEdit::Name("Corner".to_string())).changed);
    assert!(write_transcript(&mut p, id(0), WORDS.to_string()));
    assert!(undo(&mut p, &mut history, false).changed);
    assert_eq!(p.clips[0].transcript, WORDS, "the transcript is not undone");
    assert_eq!(p.clips[0].name, "clip 0", "the coach's own edit is");
}

#[test]
fn a_stopped_job_is_not_heard() {
    let clips = ids(1);
    let mut t = Transcription::new();
    t.transcribe(id(0), &clips, false);
    let stale = t.generation();
    t.preempt_transcription();
    assert!(!t.progress(stale, 50));
    t.run_next_if_idle(&clips, false);
    assert!(!t.progress(stale, 50));
    assert_eq!(t.running(), Some((id(0), 0)));
    assert!(t.progress(t.generation(), 50));
    assert_eq!(t.running(), Some((id(0), 50)));
}

#[test]
fn a_clip_that_is_gone_is_not_transcribed() {
    let mut t = Transcription::new();
    t.transcribe(id(9), &ids(2), false);
    assert_eq!(running(&t), None);
}

#[test]
fn the_queue_never_stalls() {
    let clips = ids(3);
    let mut t = Transcription::new();
    for n in 0..3 {
        t.transcribe(id(n), &clips, true);
    }
    assert_eq!(running(&t), None, "something is in the way");
    assert_eq!(t.queued().len(), 3);
    // The first clip is gone by the time nothing is.
    t.run_next_if_idle(&vec![id(1), id(2)], false);
    assert_eq!(running(&t), Some(id(1)));
    assert_eq!(t.queued(), [id(2)]);
}
