//! Transcription: the coach's words, one clip at a time, on a queue.
//!
//! **One job in flight, first come first served behind it, and enqueueing is
//! idempotent**, against the queue *and* against the clip running, which is
//! not in the queue.
//!
//! **Recording always wins.** Starting one cancels the job in flight and puts
//! its clip back at the **front** of the queue, and nothing starts while a
//! recording, an export or a preview is going.
//!
//! **A cancel is never a failure.** The clip goes back to idle, and a job that
//! finished before the cancel reached it keeps its words.
//!
//! A job's messages carry its generation: a cancelled job's last message can
//! still be on its way when the next one starts, and taking it for the new
//! job's would leave two running at once.

use std::collections::VecDeque;

use vstd::prelude::*;

use crate::id::Id;

verus! {

/// Whether stopping a recording queues its clip.
pub const AUTO_TRANSCRIBE: bool = true;

/// A job for the caller to start, on a thread of its own.
#[derive(Debug, Clone, Copy, PartialEq, Eq, Structural)]
pub struct Start {
    pub clip: Id,
    /// Tags the job's messages.
    pub generation: u64,
}

/// What the caller does after an event.
#[derive(Debug, Clone, Copy, PartialEq, Eq, Structural)]
pub struct Effects {
    /// Cancel the job in flight, before starting another.
    pub stop: bool,
    pub start: Option<Start>,
    /// Show the new state.
    pub publish: bool,
}

/// How a job ended.
#[derive(Debug, PartialEq, Eq)]
pub enum Finish {
    /// With the coach's words.
    Words,
    Cancelled,
    /// With a message to show.
    Failed(String),
}

/// A queue without one clip.
pub open spec fn queue_without(queued: Seq<Id>, id: Id) -> Seq<Id> {
    queued.filter(|q: Id| q != id)
}

/// What a [`Transcription`] knows.
#[verifier::ext_equal]
pub struct TranscriptionState {
    /// The clips waiting, first to run first.
    pub queued: Seq<Id>,
    /// The clip running, and the percent it last reported.
    pub running: Option<(Id, u8)>,
    /// The generation of the newest job.
    pub generation: int,
    /// The clip whose last job failed, and why.
    pub failed: Option<(Id, Seq<char>)>,
}

/// The first clip of a queue that is still there, or the queue's end.
pub open spec fn first_there(queued: Seq<Id>, clips: Seq<Id>) -> int
    decreases queued.len(),
{
    if queued.len() == 0 || clips.contains(queued[0]) {
        0
    } else {
        1 + first_there(queued.drop_first(), clips)
    }
}

impl TranscriptionState {
    pub open spec fn idle() -> TranscriptionState {
        TranscriptionState { queued: seq![], running: None, generation: 0, failed: None }
    }

    /// Whether the generation can still count a cancel and a start.
    pub open spec fn can_count(self) -> bool {
        self.generation <= u64::MAX - 2
    }

    /// No clip waits twice, and the one running does not wait.
    pub open spec fn consistent(self) -> bool {
        &&& self.queued.no_duplicates()
        &&& self.running matches Some((clip, _)) ==> !self.queued.contains(clip)
    }

    pub open spec fn runs(self, id: Id) -> bool {
        self.running matches Some((clip, _)) && clip == id
    }

    pub open spec fn failed_on(self, id: Id) -> bool {
        self.failed matches Some((clip, _)) && clip == id
    }

    /// Without the failure message, if it is this clip's.
    pub open spec fn forgiving(self, id: Id) -> TranscriptionState {
        TranscriptionState {
            failed: if self.failed_on(id) {
                None
            } else {
                self.failed
            },
            ..self
        }
    }

    /// Without this clip in the queue.
    pub open spec fn unqueued(self, id: Id) -> TranscriptionState {
        TranscriptionState { queued: queue_without(self.queued, id), ..self }
    }

    /// With the job in flight cancelled. The generation goes up with it, so
    /// nothing it had already sent is taken for the next job's.
    pub open spec fn stopped(self) -> TranscriptionState {
        if self.running is Some {
            TranscriptionState { running: None, generation: self.generation + 1, ..self }
        } else {
            self
        }
    }

    /// Whether the queue moves now.
    pub open spec fn moves(self, busy: bool) -> bool {
        !busy && self.running is None && self.queued.len() > 0
    }

    /// With the queue's first job started, unless something is in the way.
    /// Clips that went away are dropped on the way to it.
    pub open spec fn advanced(self, clips: Seq<Id>, busy: bool) -> TranscriptionState {
        let k = first_there(self.queued, clips);
        if !self.moves(busy) {
            self
        } else if k < self.queued.len() {
            TranscriptionState {
                queued: self.queued.skip(k + 1),
                running: Some((self.queued[k], 0)),
                generation: self.generation + 1,
                ..self
            }
        } else {
            TranscriptionState { queued: seq![], ..self }
        }
    }

    /// The job that starts as the queue moves.
    pub open spec fn next_job(self, clips: Seq<Id>, busy: bool) -> Option<Start> {
        let k = first_there(self.queued, clips);
        if self.moves(busy) && k < self.queued.len() {
            Some(Start { clip: self.queued[k], generation: (self.generation + 1) as u64 })
        } else {
            None
        }
    }

    /// Whether a request to transcribe `id` is taken.
    pub open spec fn takes(self, id: Id, clips: Seq<Id>) -> bool {
        !self.runs(id) && !self.queued.contains(id) && clips.contains(id)
    }

    /// With `id` at the end of the queue.
    pub open spec fn queueing(self, id: Id) -> TranscriptionState {
        let forgiven = self.forgiving(id);
        TranscriptionState { queued: forgiven.queued.push(id), ..forgiven }
    }

    /// With everything cancelled.
    pub open spec fn cancelled(self) -> TranscriptionState {
        TranscriptionState { queued: seq![], ..self }.stopped()
    }

    /// With the job in flight put back at the front of the queue.
    pub open spec fn preempted(self) -> TranscriptionState {
        match self.running {
            Some((clip, _)) => TranscriptionState {
                queued: seq![clip] + self.queued,
                ..self.stopped()
            },
            None => self,
        }
    }

    /// Whether anything here is about `id`.
    pub open spec fn concerns(self, id: Id) -> bool {
        self.runs(id) || self.queued.contains(id) || self.failed_on(id)
    }

    /// With nothing left of `id`.
    pub open spec fn without(self, id: Id) -> TranscriptionState {
        let still = if self.runs(id) {
            self.stopped()
        } else {
            self
        };
        still.unqueued(id).forgiving(id)
    }

    /// With a finished job's outcome taken in.
    pub open spec fn settled(self, generation: u64, clip: Id, finish: Finish) -> TranscriptionState {
        let current = generation == self.generation;
        let told = match finish {
            // The words are kept whatever became of the queue meanwhile, and
            // work already done is never redone.
            Finish::Words => self.unqueued(clip).forgiving(clip),
            Finish::Cancelled => self,
            // A stale failure belongs to a job nobody is waiting for.
            Finish::Failed(why) => if current {
                TranscriptionState { failed: Some((clip, why@)), ..self }
            } else {
                self
            },
        };
        if current {
            TranscriptionState { running: None, ..told }
        } else {
            told
        }
    }
}

/// The transcription queue and its one job.
#[derive(Debug)]
pub struct Transcription {
    queued: VecDeque<Id>,
    running: Option<(Id, u8)>,
    generation: u64,
    failed: Option<(Id, String)>,
}

impl View for Transcription {
    type V = TranscriptionState;

    closed spec fn view(&self) -> TranscriptionState {
        TranscriptionState {
            queued: self.queued@,
            running: self.running,
            generation: self.generation as int,
            failed: match self.failed {
                Some((clip, why)) => Some((clip, why@)),
                None => None,
            },
        }
    }
}

fn contains_id(ids: &Vec<Id>, id: Id) -> (found: bool)
    ensures
        found == ids@.contains(id),
{
    for i in 0..ids.len()
        invariant
            forall|j: int| 0 <= j < i ==> ids@[j] != id,
    {
        if ids[i] == id {
            return true;
        }
    }
    false
}

fn queue_contains(queue: &VecDeque<Id>, id: Id) -> (found: bool)
    ensures
        found == queue@.contains(id),
{
    let mut i: usize = 0;
    while i < queue.len()
        invariant
            i <= queue@.len(),
            forall|j: int| 0 <= j < i ==> queue@[j] != id,
        decreases queue@.len() - i,
    {
        if queue[i] == id {
            assert(queue@[i as int] == id);
            return true;
        }
        i = i + 1;
    }
    false
}

fn without_id(queue: &VecDeque<Id>, id: Id) -> (kept: VecDeque<Id>)
    ensures
        kept@ == queue_without(queue@, id),
{
    let mut kept: VecDeque<Id> = VecDeque::new();
    proof {
        reveal(Seq::filter);
        assert(queue_without(queue@.take(0), id) =~= seq![]);
    }
    let mut i: usize = 0;
    while i < queue.len()
        invariant
            i <= queue@.len(),
            kept@ == queue_without(queue@.take(i as int), id),
        decreases queue@.len() - i,
    {
        proof {
            reveal(Seq::filter);
            assert(queue@.take(i + 1).drop_last() =~= queue@.take(i as int));
        }
        let q = queue[i];
        if q != id {
            kept.push_back(q);
        }
        i = i + 1;
    }
    assert(queue@.take(queue@.len() as int) =~= queue@);
    kept
}

impl Transcription {
    pub fn new() -> (transcription: Transcription)
        ensures
            transcription@ == TranscriptionState::idle(),
    {
        Transcription { queued: VecDeque::new(), running: None, generation: 0, failed: None }
    }

    /// The generation of the newest job.
    pub fn generation(&self) -> (generation: u64)
        ensures
            generation == self@.generation,
    {
        self.generation
    }

    /// The clips waiting, first to run first.
    pub fn queued(&self) -> (queued: Vec<Id>)
        ensures
            queued@ == self@.queued,
    {
        let mut queued: Vec<Id> = Vec::new();
        let mut i: usize = 0;
        while i < self.queued.len()
            invariant
                i <= self.queued@.len(),
                queued@ == self.queued@.take(i as int),
            decreases self.queued@.len() - i,
        {
            queued.push(self.queued[i]);
            assert(self.queued@.take(i as int).push(self.queued@[i as int])
                =~= self.queued@.take(i + 1));
            i = i + 1;
        }
        assert(self.queued@.take(self.queued@.len() as int) =~= self.queued@);
        queued
    }

    /// The clip running and its percent.
    pub fn running(&self) -> (running: Option<(Id, u8)>)
        ensures
            running == self@.running,
    {
        self.running
    }

    /// The clip whose last job failed, and why.
    pub fn failed(&self) -> (failed: Option<(Id, String)>)
        ensures
            match failed {
                Some((clip, why)) => self@.failed == Some((clip, why@)),
                None => self@.failed is None,
            },
    {
        match &self.failed {
            Some((clip, why)) => Some((*clip, why.clone())),
            None => None,
        }
    }

    fn is_running(&self, id: Id) -> (runs: bool)
        ensures
            runs == self@.runs(id),
    {
        match self.running {
            Some((clip, _)) => clip == id,
            None => false,
        }
    }

    fn has_failed_on(&self, id: Id) -> (failed: bool)
        ensures
            failed == self@.failed_on(id),
    {
        match &self.failed {
            Some((clip, _)) => *clip == id,
            None => false,
        }
    }

    fn forgive(&mut self, id: Id)
        ensures
            final(self)@ == old(self)@.forgiving(id),
    {
        if self.has_failed_on(id) {
            self.failed = None;
        }
    }

    fn unqueue(&mut self, id: Id)
        ensures
            final(self)@ == old(self)@.unqueued(id),
    {
        self.queued = without_id(&self.queued, id);
    }

    /// Cancels the job in flight, if any.
    fn stop(&mut self) -> (stopped: bool)
        requires
            old(self)@.generation < u64::MAX,
        ensures
            final(self)@ == old(self)@.stopped(),
            stopped == (old(self)@.running is Some),
    {
        if self.running.is_none() {
            return false;
        }
        self.running = None;
        self.generation = self.generation + 1;
        true
    }

    /// Starts the queue's first job unless something is in the way: a job in
    /// flight, or `busy`, which is a recording, an export or a preview going or
    /// the program shutting down.
    ///
    /// **Every place one of those ends calls this**, as well as every place the
    /// queue changes; miss one and the queue stalls until the next request.
    pub fn run_next_if_idle(&mut self, clips: &Vec<Id>, busy: bool) -> (effects: Effects)
        requires
            old(self)@.generation < u64::MAX,
        ensures
            final(self)@ == old(self)@.advanced(clips@, busy),
            effects == (Effects {
                stop: false,
                start: old(self)@.next_job(clips@, busy),
                publish: old(self)@.moves(busy),
            }),
    {
        let mut effects = Effects { stop: false, start: None, publish: false };
        if busy || self.running.is_some() {
            return effects;
        }
        let ghost before = self@;
        let ghost mut dropped: int = 0;
        assert(self.queued@.skip(0) =~= self.queued@);
        while self.queued.len() > 0
            invariant
                !busy,
                before == old(self)@,
                self.running is None,
                self.generation == before.generation < u64::MAX,
                self@ == (TranscriptionState { queued: self.queued@, ..before }),
                before.running is None,
                0 <= dropped <= before.queued.len(),
                self.queued@ == before.queued.skip(dropped),
                dropped + first_there(self.queued@, clips@) == first_there(before.queued, clips@),
                effects == (Effects { stop: false, start: None, publish: dropped > 0 }),
            decreases self.queued@.len(),
        {
            effects.publish = true;
            let ghost waiting = self.queued@;
            let front = self.queued.pop_front();
            assert(self.queued@ =~= waiting.drop_first());
            assert(self.queued@ =~= before.queued.skip(dropped + 1));
            if let Some(clip) = front {
                // A clip that went away while it waited is passed over.
                if contains_id(clips, clip) {
                    self.generation = self.generation + 1;
                    self.running = Some((clip, 0));
                    effects.start = Some(Start { clip, generation: self.generation });
                    return effects;
                }
            }
            proof {
                dropped = dropped + 1;
            }
        }
        proof {
            assert(before.queued.skip(dropped).len() == 0);
            assert(self@ =~= before.advanced(clips@, busy));
        }
        effects
    }

    /// Queues clip `id`, unless it waits or runs already or is not there.
    pub fn transcribe(&mut self, id: Id, clips: &Vec<Id>, busy: bool) -> (effects: Effects)
        requires
            old(self)@.can_count(),
        ensures
            old(self)@.takes(id, clips@) ==> {
                let queueing = old(self)@.queueing(id);
                &&& final(self)@ == queueing.advanced(clips@, busy)
                &&& effects == (Effects {
                    stop: false,
                    start: queueing.next_job(clips@, busy),
                    publish: true,
                })
            },
            !old(self)@.takes(id, clips@) ==> final(self)@ == old(self)@ && effects == (Effects {
                stop: false,
                start: None,
                publish: false,
            }),
    {
        if self.is_running(id) || queue_contains(&self.queued, id) || !contains_id(clips, id) {
            return Effects { stop: false, start: None, publish: false };
        }
        // A retry clears the message the last one left.
        self.forgive(id);
        self.queued.push_back(id);
        let effects = self.run_next_if_idle(clips, busy);
        Effects { publish: true, ..effects }
    }

    /// Stops the job in flight **and drops the queue behind it**.
    pub fn cancel_transcription(&mut self) -> (effects: Effects)
        requires
            old(self)@.can_count(),
        ensures
            final(self)@ == old(self)@.cancelled(),
            effects == (Effects {
                stop: old(self)@.running is Some,
                start: None,
                publish: true,
            }),
    {
        self.queued.clear();
        let stop = self.stop();
        Effects { stop, start: None, publish: true }
    }

    /// A recording has just started: the job in flight gives way to it, and
    /// its clip goes back to the **front** of the queue.
    pub fn preempt_transcription(&mut self) -> (effects: Effects)
        requires
            old(self)@.can_count(),
        ensures
            final(self)@ == old(self)@.preempted(),
            effects == (Effects {
                stop: old(self)@.running is Some,
                start: None,
                publish: old(self)@.running is Some,
            }),
    {
        let ghost before = self@;
        match self.running {
            None => Effects { stop: false, start: None, publish: false },
            Some((clip, _)) => {
                let stop = self.stop();
                self.queued.push_front(clip);
                assert(self.queued@ =~= seq![clip] + before.queued);
                Effects { stop, start: None, publish: true }
            },
        }
    }

    /// Clip `id` is going into the trash: its job stops, and its place in the
    /// queue and its failure go with it.
    pub fn cancel_transcription_of(&mut self, id: Id, clips: &Vec<Id>, busy: bool) -> (effects:
        Effects)
        requires
            old(self)@.can_count(),
        ensures
            old(self)@.concerns(id) ==> {
                let without = old(self)@.without(id);
                &&& final(self)@ == without.advanced(clips@, busy)
                &&& effects == (Effects {
                    stop: old(self)@.runs(id),
                    start: without.next_job(clips@, busy),
                    publish: true,
                })
            },
            !old(self)@.concerns(id) ==> final(self)@ == old(self)@ && effects == (Effects {
                stop: false,
                start: None,
                publish: false,
            }),
    {
        let running = self.is_running(id);
        if !(running || queue_contains(&self.queued, id) || self.has_failed_on(id)) {
            return Effects { stop: false, start: None, publish: false };
        }
        if running {
            self.stop();
        }
        self.unqueue(id);
        self.forgive(id);
        let effects = self.run_next_if_idle(clips, busy);
        Effects { stop: running, start: effects.start, publish: true }
    }

    /// A project is being opened: nothing of the last one's queue survives.
    pub fn reset_transcription(&mut self) -> (effects: Effects)
        requires
            old(self)@.can_count(),
        ensures
            final(self)@ == (TranscriptionState { failed: None, ..old(self)@.cancelled() }),
            effects == (Effects {
                stop: old(self)@.running is Some,
                start: None,
                publish: true,
            }),
    {
        let effects = self.cancel_transcription();
        self.failed = None;
        effects
    }

    /// A recording just produced clip `id`: it is queued, and a job the
    /// recording preempted goes on.
    pub fn transcribe_after_recording(&mut self, id: Id, clips: &Vec<Id>, busy: bool) -> (effects:
        Effects)
        requires
            old(self)@.can_count(),
        ensures
            ({
                let queueing = if old(self)@.takes(id, clips@) {
                    old(self)@.queueing(id)
                } else {
                    old(self)@
                };
                &&& final(self)@ == queueing.advanced(clips@, busy)
                &&& effects == (Effects {
                    stop: false,
                    start: queueing.next_job(clips@, busy),
                    publish: old(self)@.takes(id, clips@) || queueing.moves(busy),
                })
            }),
    {
        if AUTO_TRANSCRIBE && !self.is_running(id) && !queue_contains(&self.queued, id)
            && contains_id(clips, id) {
            return self.transcribe(id, clips, busy);
        }
        self.run_next_if_idle(clips, busy)
    }

    /// The job of `generation` reports how far it is.
    pub fn progress(&mut self, generation: u64, percent: u8) -> (publish: bool)
        ensures
            publish == (generation == old(self)@.generation && (old(self)@.running matches Some(
                (_, was),
            ) && was != percent)),
            final(self)@ == (TranscriptionState {
                running: match old(self)@.running {
                    Some((clip, _)) if generation == old(self)@.generation => Some(
                        (clip, percent),
                    ),
                    running => running,
                },
                ..old(self)@
            }),
    {
        if generation != self.generation {
            return false;
        }
        match self.running {
            Some((clip, was)) => {
                if was == percent {
                    return false;
                }
                self.running = Some((clip, percent));
                true
            },
            None => false,
        }
    }

    /// The job of `generation`, about `clip`, ended. Where it ended with
    /// words, the caller writes them into the clip, whether or not the job was
    /// still the current one.
    pub fn finished(
        &mut self,
        generation: u64,
        clip: Id,
        finish: Finish,
        clips: &Vec<Id>,
        busy: bool,
    ) -> (effects: Effects)
        requires
            old(self)@.can_count(),
        ensures
            ({
                let settled = old(self)@.settled(generation, clip, finish);
                let current = generation == old(self)@.generation;
                let noticed = finish is Words && (old(self)@.queued.contains(clip) || old(self)@.failed_on(
                    clip,
                ));
                &&& final(self)@ == settled.advanced(clips@, busy)
                &&& effects == (Effects {
                    stop: false,
                    start: settled.next_job(clips@, busy),
                    publish: current || noticed || settled.moves(busy),
                })
            }),
    {
        let current = generation == self.generation;
        let mut changed = current;
        match finish {
            Finish::Words => {
                changed = changed || queue_contains(&self.queued, clip) || self.has_failed_on(clip);
                self.unqueue(clip);
                self.forgive(clip);
            },
            Finish::Cancelled => {},
            Finish::Failed(why) => {
                if current {
                    self.failed = Some((clip, why));
                }
            },
        }
        if current {
            self.running = None;
        }
        let effects = self.run_next_if_idle(clips, busy);
        Effects { publish: changed || effects.publish, ..effects }
    }
}

// ---------------------------------------------------------------------------
// Laws.

proof fn lemma_first_there(queued: Seq<Id>, clips: Seq<Id>)
    ensures
        0 <= first_there(queued, clips) <= queued.len(),
        first_there(queued, clips) < queued.len() ==> clips.contains(
            queued[first_there(queued, clips)],
        ),
        forall|i: int|
            0 <= i < first_there(queued, clips) ==> !clips.contains(#[trigger] queued[i]),
    decreases queued.len(),
{
    if queued.len() > 0 && !clips.contains(queued[0]) {
        let rest = queued.drop_first();
        lemma_first_there(rest, clips);
        let k = first_there(rest, clips);
        assert forall|i: int| 0 <= i < 1 + k implies !clips.contains(#[trigger] queued[i]) by {
            if i > 0 {
                assert(!clips.contains(rest[i - 1]));
            }
        }
        if k < rest.len() {
            assert(rest[k] == queued[1 + k]);
        }
    }
}

proof fn lemma_advanced_is_consistent(state: TranscriptionState, clips: Seq<Id>, busy: bool)
    requires
        state.consistent(),
    ensures
        state.advanced(clips, busy).consistent(),
{
    lemma_first_there(state.queued, clips);
    let k = first_there(state.queued, clips);
    if state.moves(busy) && k < state.queued.len() {
        let rest = state.queued.skip(k + 1);
        assert(!rest.contains(state.queued[k])) by {
            if rest.contains(state.queued[k]) {
                let j = choose|j: int| 0 <= j < rest.len() && rest[j] == state.queued[k];
                assert(state.queued[k + 1 + j] == state.queued[k]);
            }
        }
        assert forall|i: int, j: int| 0 <= i < rest.len() && 0 <= j < rest.len() && i != j implies
            rest[i] != rest[j] by {
            assert(state.queued[k + 1 + i] != state.queued[k + 1 + j]);
        }
    }
}

proof fn lemma_filter_is_consistent(queued: Seq<Id>, id: Id)
    requires
        queued.no_duplicates(),
    ensures
        queue_without(queued, id).no_duplicates(),
        forall|q: Id| #[trigger]
            queue_without(queued, id).contains(q) <==> queued.contains(q) && q != id,
    decreases queued.len(),
{
    reveal(Seq::filter);
    if queued.len() > 0 {
        let before = queued.drop_last();
        let last = queued.last();
        lemma_filter_is_consistent(before, id);
        let kept = queue_without(before, id);
        let all = queue_without(queued, id);
        assert(!before.contains(last)) by {
            if before.contains(last) {
                let j = choose|j: int| 0 <= j < before.len() && before[j] == last;
                assert(queued[j] == queued[queued.len() - 1]);
            }
        }
        assert forall|q: Id| #[trigger] all.contains(q) <==> queued.contains(q) && q != id by {
            if all.contains(q) {
                let i = choose|i: int| 0 <= i < all.len() && all[i] == q;
                if i < kept.len() {
                    assert(kept[i] == q);
                    assert(kept.contains(q));
                    let j = choose|j: int| 0 <= j < before.len() && before[j] == q;
                    assert(queued[j] == q);
                } else {
                    assert(queued[queued.len() - 1] == q);
                }
            }
            if queued.contains(q) && q != id {
                let j = choose|j: int| 0 <= j < queued.len() && queued[j] == q;
                if j < before.len() {
                    assert(before[j] == q);
                    assert(before.contains(q));
                    assert(kept.contains(q));
                    let i = choose|i: int| 0 <= i < kept.len() && kept[i] == q;
                    assert(all[i] == q);
                } else {
                    assert(all[kept.len() as int] == q);
                }
            }
        }
        if last != id {
            assert(!kept.contains(last));
            assert forall|i: int, j: int| 0 <= i < all.len() && 0 <= j < all.len() && i
                != j implies all[i] != all[j] by {
                if i == kept.len() && j < kept.len() {
                    assert(kept.contains(kept[j]));
                } else if j == kept.len() && i < kept.len() {
                    assert(kept.contains(kept[i]));
                }
            }
        }
    }
}

/// **One run of a clip at a time**: whatever happens, no clip waits twice and
/// the one running does not also wait, so no two runs of one clip stack up.
pub proof fn law_no_clip_is_queued_twice(
    state: TranscriptionState,
    id: Id,
    generation: u64,
    finish: Finish,
    clips: Seq<Id>,
    busy: bool,
)
    requires
        state.consistent(),
    ensures
        TranscriptionState::idle().consistent(),
        state.advanced(clips, busy).consistent(),
        state.takes(id, clips) ==> state.queueing(id).advanced(clips, busy).consistent(),
        state.cancelled().consistent(),
        state.preempted().consistent(),
        state.without(id).advanced(clips, busy).consistent(),
        state.settled(generation, id, finish).advanced(clips, busy).consistent(),
{
    lemma_advanced_is_consistent(state, clips, busy);
    lemma_filter_is_consistent(state.queued, id);
    if state.takes(id, clips) {
        let queueing = state.queueing(id);
        assert(queueing.queued.no_duplicates()) by {
            assert forall|i: int, j: int| 0 <= i < queueing.queued.len() && 0 <= j
                < queueing.queued.len() && i != j implies queueing.queued[i]
                != queueing.queued[j] by {
                if i == state.queued.len() && j < state.queued.len() {
                    assert(state.queued.contains(state.queued[j]));
                } else if j == state.queued.len() && i < state.queued.len() {
                    assert(state.queued.contains(state.queued[i]));
                }
            }
        }
        if let Some((clip, _)) = state.running {
            assert(!queueing.queued.contains(clip)) by {
                if queueing.queued.contains(clip) {
                    let j = choose|j: int|
                        0 <= j < queueing.queued.len() && queueing.queued[j] == clip;
                    if j < state.queued.len() {
                        assert(state.queued[j] == clip);
                    }
                }
            }
        }
        lemma_advanced_is_consistent(queueing, clips, busy);
    }
    if let Some((clip, _)) = state.running {
        let back = seq![clip] + state.queued;
        assert forall|i: int, j: int| 0 <= i < back.len() && 0 <= j < back.len() && i
            != j implies back[i] != back[j] by {
            if i > 0 {
                assert(state.queued.contains(state.queued[i - 1]));
            }
            if j > 0 {
                assert(state.queued.contains(state.queued[j - 1]));
            }
        }
        assert(state.preempted().queued == back);
    }
    lemma_advanced_is_consistent(state.without(id), clips, busy);
    lemma_advanced_is_consistent(state.settled(generation, id, finish), clips, busy);
}

/// **Asking again changes nothing**: once a request was taken, the same
/// request is refused for as long as the clip waits or runs.
pub proof fn law_enqueueing_is_idempotent(
    state: TranscriptionState,
    id: Id,
    clips: Seq<Id>,
    busy: bool,
)
    requires
        state.takes(id, clips),
    ensures
        !state.queueing(id).advanced(clips, busy).takes(id, clips),
{
    let queueing = state.queueing(id);
    assert(queueing.queued[state.queued.len() as int] == id);
    lemma_first_there(queueing.queued, clips);
    let k = first_there(queueing.queued, clips);
    if queueing.moves(busy) {
        assert(clips.contains(queueing.queued[state.queued.len() as int]));
        assert(k <= state.queued.len());
        if k < state.queued.len() {
            let rest = queueing.queued.skip(k + 1);
            assert(rest[state.queued.len() - k - 1] == id);
        }
    } else {
        assert(queueing.queued.contains(id));
    }
}

/// **A recording only delays a transcript**: the job it preempted is the next
/// to start once nothing is in the way.
pub proof fn law_preempted_job_resumes_first(state: TranscriptionState, clips: Seq<Id>)
    requires
        state.running is Some,
        clips.contains((state.running->0).0),
        state.can_count(),
    ensures
        state.preempted().next_job(clips, false) is Some,
        state.preempted().next_job(clips, false)->0.clip == (state.running->0).0,
{
    assert(state.preempted().queued[0] == (state.running->0).0);
}

/// **Stale messages are nobody's**: a cancelled job's generation is never the
/// current one again, so its progress changes nothing, and its failure or
/// cancellation leaves the next job running.
pub proof fn law_a_stopped_job_is_stale(
    state: TranscriptionState,
    clip: Id,
    finish: Finish,
    clips: Seq<Id>,
    busy: bool,
)
    requires
        state.running is Some,
        0 <= state.generation,
        state.can_count(),
        !(finish is Words),
    ensures
        ({
            let later = state.stopped().advanced(clips, busy);
            &&& later.generation > state.generation
            &&& later.settled(state.generation as u64, clip, finish) == later
        }),
{
}

/// **The queue never stalls**: with nothing in the way, either a job runs or
/// nobody waits.
pub proof fn law_the_queue_never_stalls(state: TranscriptionState, clips: Seq<Id>)
    ensures
        state.advanced(clips, false).running is Some || state.advanced(clips, false).queued.len()
            == 0,
{
}

/// **A cancel is never a failure**: cancelling leaves nothing running and
/// nothing waiting, and no new failure.
pub proof fn law_a_cancel_is_no_failure(state: TranscriptionState)
    ensures
        state.cancelled().running is None,
        state.cancelled().queued.len() == 0,
        state.cancelled().failed == state.failed,
{
}

/// **First come, first served**: with nothing in the way, the first waiting
/// clip that is still there starts, under the next generation, and those behind
/// it wait on; those before it, which are gone, are dropped. Where something is
/// in the way nothing moves.
pub proof fn law_first_come_first_served(
    state: TranscriptionState,
    clips: Seq<Id>,
    busy: bool,
    k: int,
)
    requires
        state.can_count(),
        state.generation >= 0,
    ensures
        !busy && state.running is None && 0 <= k < state.queued.len() && clips.contains(
            state.queued[k],
        ) && (forall|i: int| 0 <= i < k ==> !clips.contains(#[trigger] state.queued[i])) ==> {
            &&& state.advanced(clips, busy) == (TranscriptionState {
                queued: state.queued.subrange(k + 1, state.queued.len() as int),
                running: Some((state.queued[k], 0)),
                generation: state.generation + 1,
                ..state
            })
            &&& state.next_job(clips, busy) is Some
            &&& state.next_job(clips, busy)->0.clip == state.queued[k]
            &&& state.next_job(clips, busy)->0.generation == state.generation + 1
        },
        !busy && state.running is None && (forall|i: int|
            0 <= i < state.queued.len() ==> !clips.contains(#[trigger] state.queued[i])) ==> {
            &&& state.advanced(clips, busy) == (TranscriptionState {
                queued: Seq::empty(),
                ..state
            })
            &&& state.next_job(clips, busy) is None
        },
        busy || state.running is Some ==> state.advanced(clips, busy) == state && state.next_job(
            clips,
            busy,
        ) is None,
        state.moves(busy) <==> !busy && state.running is None && state.queued.len() > 0,
{
    lemma_first_there(state.queued, clips);
    let first = first_there(state.queued, clips);
    if 0 <= k < state.queued.len() && clips.contains(state.queued[k]) && (forall|i: int|
        0 <= i < k ==> !clips.contains(#[trigger] state.queued[i])) {
        if first < k {
            assert(!clips.contains(state.queued[first]));
        }
        if k < first {
            assert(!clips.contains(state.queued[k]));
        }
        assert(state.queued.skip(k + 1) =~= state.queued.subrange(
            k + 1,
            state.queued.len() as int,
        ));
    }
    if forall|i: int| 0 <= i < state.queued.len() ==> !clips.contains(#[trigger] state.queued[i]) {
        if first < state.queued.len() {
            assert(!clips.contains(state.queued[first]));
        }
        assert(state.queued.len() == 0 ==> state.queued =~= Seq::empty());
    }
}

/// **A request joins the end of the queue**, and clears the message its clip's
/// last job left, if the clip is there and neither waits nor runs.
pub proof fn law_a_request_joins_the_queue(state: TranscriptionState, id: Id, clips: Seq<Id>)
    ensures
        state.takes(id, clips) <==> clips.contains(id) && !state.queued.contains(id) && !(
        state.running is Some && (state.running->0).0 == id),
        state.queueing(id).queued == state.queued.push(id),
        state.queueing(id).running == state.running,
        state.queueing(id).generation == state.generation,
        state.failed is Some && (state.failed->0).0 == id ==> state.queueing(id).failed is None,
        state.failed is Some && (state.failed->0).0 != id ==> state.queueing(id).failed
            == state.failed,
        state.failed is None ==> state.queueing(id).failed is None,
{
}

/// **A finished job makes way, and its outcome is kept**: its words end its
/// clip's wait and clear its failure, whether or not it was still the current
/// one; a failure of the current job is shown, and a stale one is not; a cancel
/// leaves no trace. Only the current job's end leaves nothing running.
pub proof fn law_a_finished_job_makes_way(
    state: TranscriptionState,
    generation: u64,
    clip: Id,
    other: Id,
    finish: Finish,
)
    requires
        state.queued.no_duplicates(),
    ensures
        ({
            let settled = state.settled(generation, clip, finish);
            let current = generation == state.generation;
            &&& settled.generation == state.generation
            &&& current ==> settled.running is None
            &&& !current ==> settled.running == state.running
            &&& finish is Words ==> {
                &&& !settled.queued.contains(clip)
                &&& other != clip ==> (settled.queued.contains(other) <==> state.queued.contains(
                    other,
                ))
                &&& state.failed is Some && (state.failed->0).0 == clip ==> settled.failed is None
                &&& !(state.failed is Some && (state.failed->0).0 == clip) ==> settled.failed
                    == state.failed
            }
            &&& !(finish is Words) ==> settled.queued == state.queued
            &&& finish is Cancelled ==> settled.failed == state.failed
            &&& finish matches Finish::Failed(why) ==> settled.failed == if current {
                Some((clip, why@))
            } else {
                state.failed
            }
        }),
{
    lemma_filter_is_consistent(state.queued, clip);
}

/// **A job that is stopped is stopped at once**: a cancel drops what waits
/// behind it, a recording puts its clip back first in line, and a trashed
/// clip's job, wait and failure go. The generation goes up with each stop.
pub proof fn law_a_stop_is_at_once(state: TranscriptionState, id: Id, other: Id)
    requires
        state.queued.no_duplicates(),
    ensures
        state.cancelled().running is None && state.cancelled().queued.len() == 0,
        state.cancelled().generation == state.generation + if state.running is Some {
            1int
        } else {
            0
        },
        state.preempted().running is None,
        state.preempted().failed == state.failed,
        state.running matches Some((clip, _)) ==> state.preempted().queued.len()
            == state.queued.len() + 1 && state.preempted().queued[0] == clip
            && state.preempted().queued.skip(1) == state.queued && state.preempted().generation
            == state.generation + 1,
        state.running is None ==> state.preempted() == state,
        ({
            let without = state.without(id);
            let ran = state.running is Some && (state.running->0).0 == id;
            &&& !without.queued.contains(id)
            &&& other != id ==> (without.queued.contains(other) <==> state.queued.contains(other))
            &&& ran ==> without.running is None && without.generation == state.generation + 1
            &&& !ran ==> without.running == state.running && without.generation
                == state.generation
            &&& state.failed is Some && (state.failed->0).0 == id ==> without.failed is None
            &&& !(state.failed is Some && (state.failed->0).0 == id) ==> without.failed
                == state.failed
            &&& state.concerns(id) <==> ran || state.queued.contains(id) || (state.failed is Some
                && (state.failed->0).0 == id)
        }),
{
    lemma_filter_is_consistent(state.queued, id);
    if let Some((clip, _)) = state.running {
        assert(state.preempted().queued.skip(1) =~= state.queued);
    }
}

/// **Progress is the running job's**: the percent is shown for the current
/// generation alone, and nothing else changes.
pub proof fn law_progress_is_the_running_job_s(
    queue: &mut Transcription,
    generation: u64,
    percent: u8,
    publish: bool,
)
    requires
        call_ensures(Transcription::progress, (queue, generation, percent), publish),
    ensures
        ({
            let was = old(queue)@;
            let now = final(queue)@;
            &&& now == (TranscriptionState { running: now.running, ..was })
            &&& generation != was.generation || was.running is None ==> now == was && !publish
            &&& generation == was.generation && was.running is Some ==> {
                &&& now.running == Some(((was.running->0).0, percent))
                &&& publish <==> (was.running->0).1 != percent
            }
        }),
{
    if generation != old(queue)@.generation || old(queue)@.running is None {
        assert(final(queue)@ =~= old(queue)@);
    }
}

/// **A request starts at once where nothing is in the way**: with nothing
/// running or waiting, the clip that is asked for is the one that starts; while
/// another runs it waits at the end; and a request that is not taken changes
/// nothing.
pub proof fn law_a_request_starts_at_once(
    queue: &mut Transcription,
    id: Id,
    clips: &Vec<Id>,
    busy: bool,
    effects: Effects,
)
    requires
        call_ensures(Transcription::transcribe, (queue, id, clips, busy), effects),
        old(queue)@.can_count(),
        old(queue)@.generation >= 0,
    ensures
        ({
            let was = old(queue)@;
            let now = final(queue)@;
            let taken = clips@.contains(id) && !was.queued.contains(id) && !(was.running is Some
                && (was.running->0).0 == id);
            &&& !effects.stop
            &&& !taken ==> now == was && effects.start is None && !effects.publish
            &&& taken ==> effects.publish
            &&& taken && !busy && was.running is None && was.queued.len() == 0 ==> {
                &&& now.running == Some((id, 0u8))
                &&& now.queued.len() == 0
                &&& effects.start is Some
                &&& effects.start->0.clip == id
                &&& effects.start->0.generation == was.generation + 1
            }
            &&& taken && (busy || was.running is Some) ==> {
                &&& now.queued == was.queued.push(id)
                &&& now.running == was.running
                &&& effects.start is None
            }
        }),
{
    let was = old(queue)@;
    let queueing = was.queueing(id);
    law_first_come_first_served(queueing, clips@, busy, 0);
}

/// **The next job starts as the current one ends**: the first clip that waits,
/// where nothing is in the way. A stale end starts nothing while another job
/// runs.
pub proof fn law_the_next_job_starts_as_one_ends(
    queue: &mut Transcription,
    generation: u64,
    clip: Id,
    finish: Finish,
    clips: &Vec<Id>,
    busy: bool,
    effects: Effects,
)
    requires
        call_ensures(
            Transcription::finished,
            (queue, generation, clip, finish, clips, busy),
            effects,
        ),
        old(queue)@.can_count(),
        old(queue)@.generation >= 0,
        old(queue)@.queued.no_duplicates(),
    ensures
        ({
            let was = old(queue)@;
            let now = final(queue)@;
            let current = generation == was.generation;
            &&& !effects.stop
            &&& current ==> effects.publish
            &&& current && busy ==> now.running is None && effects.start is None
            &&& current && !busy && !(finish is Words) && was.queued.len() > 0 && clips@.contains(
                was.queued[0],
            ) ==> {
                &&& now.running == Some((was.queued[0], 0u8))
                &&& now.queued == was.queued.subrange(1, was.queued.len() as int)
                &&& effects.start is Some
                &&& effects.start->0.clip == was.queued[0]
                &&& effects.start->0.generation == was.generation + 1
            }
            &&& !current && was.running is Some ==> now.running == was.running
                && effects.start is None
            &&& current && finish is Failed ==> now.failed == Some((clip, finish->Failed_0@))
            &&& !current && !(finish is Words) ==> now.failed == was.failed
        }),
{
    let was = old(queue)@;
    let settled = was.settled(generation, clip, finish);
    law_a_finished_job_makes_way(was, generation, clip, clip, finish);
    law_first_come_first_served(settled, clips@, busy, 0);
}

/// **A cancel stops everything**, the queue too; a recording stops the job alone,
/// and puts its clip first in line.
pub proof fn law_a_cancel_stops_everything(
    all: &mut Transcription,
    recording: &mut Transcription,
    effects: Effects,
    preempted: Effects,
)
    requires
        call_ensures(Transcription::cancel_transcription, (all,), effects),
        call_ensures(Transcription::preempt_transcription, (recording,), preempted),
    ensures
        final(all)@.running is None && final(all)@.queued.len() == 0,
        final(all)@.failed == old(all)@.failed,
        effects.stop <==> old(all)@.running is Some,
        effects.start is None && effects.publish,
        final(recording)@.running is None,
        preempted.stop <==> old(recording)@.running is Some,
        preempted.start is None,
        old(recording)@.running matches Some((clip, _)) ==> final(recording)@.queued == seq![clip]
            + old(recording)@.queued,
        old(recording)@.running is None ==> final(recording)@ == old(recording)@,
{
}

} // verus!
