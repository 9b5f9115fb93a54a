//! Replaying the commentary event log into a playback timeline.
//!
//! Two functions answer closely related questions and are **deliberately not
//! identical** at the end of the source:
//!
//! - [`playback_segments`] is authoritative for **which frame to pull**. It
//!   keeps freeze anchors short of the source's end so a pull-based decoder is
//!   never asked for a frame at or past the end of the file.
//! - [`source_time`] is authoritative for **the clock**: it is the sole input
//!   to the scoreboard's match time.
//!
//! [`law_picture_follows_the_clock`] states how far apart they can be.

use vstd::prelude::*;

use crate::event;
use crate::event::{CommentaryEvent, EventKind};
use crate::project::Clip;
use crate::time;

verus! {

/// How the source behaves across one span of the recording.
#[derive(Debug, Clone, Copy, PartialEq, Eq, Structural)]
pub enum SegmentKind {
    /// The source advances with the recording.
    Play,
    /// The source is held on one frame.
    Freeze,
}

/// One span of the recording timeline.
#[derive(Debug, Clone, Copy, PartialEq, Eq, Structural)]
pub struct PlaybackSegment {
    pub kind: SegmentKind,
    /// Source position at the start of this segment, in ticks.
    pub source_start: i64,
    /// Length on the **recording** timeline, in ticks.
    pub out_duration: i64,
}

/// Freeze anchors are pulled this far back from the end of the source: 50 ms.
///
/// Exactly the source's duration is past its last frame; 50 ms lands safely
/// on a real frame at any realistic frame rate.
pub const FREEZE_EOF_BACKOFF: i64 = 150_000_000;

/// `t` clamped to the source.
pub open spec fn within_source(t: int, source_duration: int) -> int {
    time::clamped(t, 0, time::larger(source_duration, 0))
}

/// The last position a freeze may hold.
pub open spec fn freeze_limit(source_duration: int) -> int {
    time::larger(source_duration - FREEZE_EOF_BACKOFF, 0)
}

fn clamp_source(t: i128, source_duration: i64) -> (clamped: i64)
    ensures
        clamped == within_source(t as int, source_duration as int),
{
    let top: i64 = if source_duration > 0 {
        source_duration
    } else {
        0
    };
    if t < 0 {
        0
    } else if t > top as i128 {
        top
    } else {
        t as i64
    }
}

// ---------------------------------------------------------------------------
// The clock.

/// Where the source stood at a moment of the recording, and whether it was
/// moving.
pub struct Cursor {
    pub source: int,
    pub record: int,
    pub playing: bool,
}

impl Cursor {
    /// The source position once the recording has run on to `record`.
    pub open spec fn at(self, record: int, source_duration: int) -> int {
        within_source(
            self.source + if self.playing {
                record - self.record
            } else {
                0
            },
            source_duration,
        )
    }

    /// The cursor after one event. `Play` and `Pause` anchor it to the
    /// position captured at the keystroke; a skip moves it, clamped.
    pub open spec fn after(self, ev: CommentaryEvent, source_duration: int) -> Cursor {
        let source = self.at(ev.record_time as int, source_duration);
        let record = ev.record_time as int;
        match ev.kind {
            EventKind::Play { source_time } => Cursor {
                source: source_time as int,
                record,
                playing: true,
            },
            EventKind::Pause { source_time } => Cursor {
                source: source_time as int,
                record,
                playing: false,
            },
            EventKind::Skip { delta } => Cursor {
                source: within_source(source + delta, source_duration),
                record,
                playing: self.playing,
            },
            _ => Cursor { source, record, playing: self.playing },
        }
    }
}

/// The cursor `at` ticks into a recording that began at `start`: the events at
/// or before that moment, applied in log order.
pub open spec fn cursor_at(
    start: int,
    events: Seq<CommentaryEvent>,
    at: int,
    source_duration: int,
) -> Cursor
    decreases events.len(),
{
    if events.len() == 0 {
        Cursor { source: start, record: 0, playing: true }
    } else {
        let before = cursor_at(start, events.drop_last(), at, source_duration);
        if events.last().record_time <= at {
            before.after(events.last(), source_duration)
        } else {
            before
        }
    }
}

/// The source position the coach was looking at, `at` ticks into a recording.
pub open spec fn clock(
    start: int,
    events: Seq<CommentaryEvent>,
    at: int,
    source_duration: int,
) -> int {
    cursor_at(start, events, at, source_duration).at(at, source_duration)
}

/// The source-video time the coach was looking at, `at_record_time` ticks into
/// the recording.
///
/// Clamping happens at **each mutation**, mirroring [`playback_segments`], not
/// once on the way out: on a 1000 s source, a skip far past the end and then a
/// skip of -10 s gives 990 s.
pub fn source_time(clip: &Clip, at_record_time: i64, source_duration: i64) -> (at: i64)
    ensures
        at == clock(
            clip.start_source as int,
            clip.events@,
            at_record_time as int,
            source_duration as int,
        ),
{
    let mut source: i64 = clip.start_source;
    let mut record_cursor: i64 = 0;
    let mut playing: bool = true;
    for i in 0..clip.events.len()
        invariant
            (Cursor { source: source as int, record: record_cursor as int, playing }) == cursor_at(
                clip.start_source as int,
                clip.events@.take(i as int),
                at_record_time as int,
                source_duration as int,
            ),
    {
        let ev = clip.events[i];
        assert(clip.events@.take(i + 1).drop_last() =~= clip.events@.take(i as int));
        if ev.record_time <= at_record_time {
            let run: i128 = if playing {
                ev.record_time as i128 - record_cursor as i128
            } else {
                0
            };
            source = clamp_source(source as i128 + run, source_duration);
            record_cursor = ev.record_time;
            match ev.kind {
                EventKind::Play { source_time } => {
                    playing = true;
                    source = source_time;
                },
                EventKind::Pause { source_time } => {
                    playing = false;
                    source = source_time;
                },
                EventKind::Skip { delta } => {
                    source = clamp_source(source as i128 + delta as i128, source_duration);
                },
                EventKind::Stroke | EventKind::ClearAll | EventKind::Zoom | EventKind::Unknown => {
                },
            }
        }
    }
    assert(clip.events@.take(clip.events@.len() as int) =~= clip.events@);
    let run: i128 = if playing {
        at_record_time as i128 - record_cursor as i128
    } else {
        0
    };
    clamp_source(source as i128 + run, source_duration)
}

// ---------------------------------------------------------------------------
// The picture.

/// The segments of one stretch of `length` ticks that begins with the source
/// at `source`. A playing stretch that reaches the source's end plays what is
/// left and holds the last frame for the rest, as a player does.
pub open spec fn stretch(
    source: int,
    length: int,
    playing: bool,
    source_duration: int,
) -> Seq<PlaybackSegment> {
    let limit = freeze_limit(source_duration);
    let played = played_part(source, length, playing, source_duration);
    let play = PlaybackSegment {
        kind: SegmentKind::Play,
        source_start: source as i64,
        out_duration: played as i64,
    };
    let freeze = PlaybackSegment {
        kind: SegmentKind::Freeze,
        source_start: time::smaller(source + played, limit) as i64,
        out_duration: (length - played) as i64,
    };
    (if played > 0 {
        seq![play]
    } else {
        seq![]
    }) + (if length - played > 0 {
        seq![freeze]
    } else {
        seq![]
    })
}

/// How much of a stretch plays before the source runs out.
pub open spec fn played_part(
    source: int,
    length: int,
    playing: bool,
    source_duration: int,
) -> int {
    if playing && length > 0 {
        time::smaller(length, time::larger(source_duration - source, 0))
    } else {
        0
    }
}

/// The segments so far, and the cursor they lead to.
#[verifier::ext_equal]
pub struct Cut {
    pub segments: Seq<PlaybackSegment>,
    pub source: int,
    pub record: int,
    pub playing: bool,
}

impl Cut {
    /// Covers the recording up to `record`. A moment already covered changes
    /// nothing.
    pub open spec fn through(self, record: int, source_duration: int) -> Cut {
        let length = record - self.record;
        if length <= 0 {
            self
        } else {
            Cut {
                segments: self.segments + stretch(
                    self.source,
                    length,
                    self.playing,
                    source_duration,
                ),
                source: self.source + played_part(
                    self.source,
                    length,
                    self.playing,
                    source_duration,
                ),
                record,
                playing: self.playing,
            }
        }
    }

    /// Covers the recording up to an event and applies it. Only the events
    /// that change the rate or move the source split the timeline.
    pub open spec fn after(self, ev: CommentaryEvent, source_duration: int) -> Cut {
        let covered = self.through(ev.record_time as int, source_duration);
        match ev.kind {
            EventKind::Play { source_time } => Cut {
                source: source_time as int,
                playing: true,
                ..covered
            },
            EventKind::Pause { source_time } => Cut {
                source: source_time as int,
                playing: false,
                ..covered
            },
            EventKind::Skip { delta } => Cut {
                source: within_source(covered.source + delta, source_duration),
                ..covered
            },
            _ => self,
        }
    }
}

/// The timeline cut at every event of a log.
pub open spec fn cut_at_events(
    start: int,
    events: Seq<CommentaryEvent>,
    source_duration: int,
) -> Cut
    decreases events.len(),
{
    if events.len() == 0 {
        Cut { segments: seq![], source: start, record: 0, playing: true }
    } else {
        cut_at_events(start, events.drop_last(), source_duration).after(
            events.last(),
            source_duration,
        )
    }
}

/// The segments of a whole recording.
pub open spec fn segments_of(
    start: int,
    events: Seq<CommentaryEvent>,
    recording_duration: int,
    source_duration: int,
) -> Seq<PlaybackSegment> {
    cut_at_events(start, events, source_duration).through(
        recording_duration,
        source_duration,
    ).segments
}

/// Covers the recording from `record_cursor` up to `record_end`, appending the
/// stretch's segments.
fn emit(
    record_end: i64,
    segments: &mut Vec<PlaybackSegment>,
    source_cursor: &mut i64,
    record_cursor: &mut i64,
    playing: bool,
    source_duration: i64,
)
    requires
        *old(record_cursor) >= 0,
    ensures
        ({
            let before = Cut {
                segments: old(segments)@,
                source: *old(source_cursor) as int,
                record: *old(record_cursor) as int,
                playing,
            };
            (Cut {
                segments: final(segments)@,
                source: *final(source_cursor) as int,
                record: *final(record_cursor) as int,
                playing,
            }) == before.through(record_end as int, source_duration as int)
        }),
        *final(record_cursor) >= 0,
{
    // A moment already covered must also leave the record cursor alone: two
    // events can share a record time.
    if record_end <= *record_cursor {
        return;
    }
    let length: i64 = record_end - *record_cursor;
    let limit: i64 = if source_duration > FREEZE_EOF_BACKOFF {
        source_duration - FREEZE_EOF_BACKOFF
    } else {
        0
    };
    let played: i64 = if playing && source_duration > *source_cursor {
        let available: i128 = source_duration as i128 - *source_cursor as i128;
        if (length as i128) < available {
            length
        } else {
            available as i64
        }
    } else {
        0
    };
    let ghost all_before = segments@;
    if played > 0 {
        segments.push(
            PlaybackSegment {
                kind: SegmentKind::Play,
                source_start: *source_cursor,
                out_duration: played,
            },
        );
        *source_cursor = *source_cursor + played;
    }
    if length - played > 0 {
        segments.push(
            PlaybackSegment {
                kind: SegmentKind::Freeze,
                source_start: if *source_cursor < limit {
                    *source_cursor
                } else {
                    limit
                },
                out_duration: length - played,
            },
        );
    }
    *record_cursor = record_end;
    assert(segments@ =~= all_before + stretch(
        *old(source_cursor) as int,
        length as int,
        playing,
        source_duration as int,
    ));
}

/// Walk the event log into play and freeze segments covering the whole
/// recording.
///
/// Zoom, stroke and clear-all must **not** split the timeline: a pinch emits
/// up to sixty zoom events a second, and splitting on each would explode the
/// segment count for no change in output.
pub fn playback_segments(clip: &Clip, source_duration: i64) -> (segments: Vec<PlaybackSegment>)
    ensures
        segments@ == segments_of(
            clip.start_source as int,
            clip.events@,
            clip.recording_duration as int,
            source_duration as int,
        ),
{
    let mut segments: Vec<PlaybackSegment> = Vec::new();
    let mut source_cursor: i64 = clip.start_source;
    let mut record_cursor: i64 = 0;
    let mut playing: bool = true;
    for i in 0..clip.events.len()
        invariant
            record_cursor >= 0,
            (Cut {
                segments: segments@,
                source: source_cursor as int,
                record: record_cursor as int,
                playing,
            }) == cut_at_events(
                clip.start_source as int,
                clip.events@.take(i as int),
                source_duration as int,
            ),
    {
        let ev = clip.events[i];
        assert(clip.events@.take(i + 1).drop_last() =~= clip.events@.take(i as int));
        match ev.kind {
            EventKind::Play { source_time } => {
                emit(
                    ev.record_time,
                    &mut segments,
                    &mut source_cursor,
                    &mut record_cursor,
                    playing,
                    source_duration,
                );
                playing = true;
                source_cursor = source_time;
            },
            EventKind::Pause { source_time } => {
                emit(
                    ev.record_time,
                    &mut segments,
                    &mut source_cursor,
                    &mut record_cursor,
                    playing,
                    source_duration,
                );
                playing = false;
                source_cursor = source_time;
            },
            EventKind::Skip { delta } => {
                emit(
                    ev.record_time,
                    &mut segments,
                    &mut source_cursor,
                    &mut record_cursor,
                    playing,
                    source_duration,
                );
                source_cursor = clamp_source(
                    source_cursor as i128 + delta as i128,
                    source_duration,
                );
            },
            EventKind::Stroke | EventKind::ClearAll | EventKind::Zoom | EventKind::Unknown => {},
        }
    }
    assert(clip.events@.take(clip.events@.len() as int) =~= clip.events@);
    emit(
        clip.recording_duration,
        &mut segments,
        &mut source_cursor,
        &mut record_cursor,
        playing,
        source_duration,
    );
    segments
}

// ---------------------------------------------------------------------------
// Laws.

/// How much of the recording a run of segments covers.
pub open spec fn covered(segments: Seq<PlaybackSegment>) -> int
    decreases segments.len(),
{
    if segments.len() == 0 {
        0
    } else {
        covered(segments.drop_last()) + segments.last().out_duration
    }
}

/// When the last event that splits the timeline came: never before the
/// recording's start.
pub open spec fn last_split(events: Seq<CommentaryEvent>) -> int
    decreases events.len(),
{
    if events.len() == 0 {
        0
    } else {
        let before = last_split(events.drop_last());
        if events.last().splits() {
            time::larger(before, events.last().record_time as int)
        } else {
            before
        }
    }
}

/// A segment a decoder can serve: it has a length, plays nothing past the
/// source's end, and freezes short of it.
pub open spec fn servable(segment: PlaybackSegment, source_duration: int) -> bool {
    &&& segment.out_duration > 0
    &&& segment.kind is Play ==> segment.source_start + segment.out_duration <= source_duration
    &&& segment.kind is Freeze ==> segment.source_start <= if source_duration > 150_000_000 {
        source_duration - 150_000_000
    } else {
        0
    }
}

/// What [`lemma_cut`] shows of every cut.
spec fn sound_cut(cut: Cut, source_duration: i64) -> bool {
    &&& i64::MIN <= cut.source <= i64::MAX
    &&& 0 <= cut.record <= i64::MAX
    &&& covered(cut.segments) == cut.record
    &&& forall|i: int|
        0 <= i < cut.segments.len() ==> servable(
            #[trigger] cut.segments[i],
            source_duration as int,
        )
}

proof fn lemma_covered_appends(a: Seq<PlaybackSegment>, b: Seq<PlaybackSegment>)
    ensures
        covered(a + b) == covered(a) + covered(b),
    decreases b.len(),
{
    if b.len() == 0 {
        assert(a + b =~= a);
    } else {
        assert((a + b).drop_last() =~= a + b.drop_last());
        lemma_covered_appends(a, b.drop_last());
    }
}

proof fn lemma_stretch(source: int, length: int, playing: bool, source_duration: i64)
    requires
        i64::MIN <= source <= i64::MAX,
        0 < length <= i64::MAX,
    ensures
        covered(stretch(source, length, playing, source_duration as int)) == length,
        forall|i: int|
            0 <= i < stretch(source, length, playing, source_duration as int).len() ==> servable(
                #[trigger] stretch(source, length, playing, source_duration as int)[i],
                source_duration as int,
            ),
{
    reveal_with_fuel(covered, 3);
    let s = stretch(source, length, playing, source_duration as int);
    if s.len() == 2 {
        assert(s.drop_last() =~= seq![s[0]]);
        assert(s.drop_last().drop_last() =~= seq![]);
    } else {
        assert(s.len() == 1);
        assert(s.drop_last() =~= seq![]);
    }
}

proof fn lemma_through(cut: Cut, record: int, source_duration: i64)
    requires
        sound_cut(cut, source_duration),
        record <= i64::MAX,
    ensures
        sound_cut(cut.through(record, source_duration as int), source_duration),
        cut.through(record, source_duration as int).record == time::larger(cut.record, record),
{
    let length = record - cut.record;
    if length > 0 {
        let more = stretch(cut.source, length, cut.playing, source_duration as int);
        lemma_stretch(cut.source, length, cut.playing, source_duration);
        lemma_covered_appends(cut.segments, more);
    }
}

proof fn lemma_cut(start: i64, events: Seq<CommentaryEvent>, source_duration: i64)
    ensures
        sound_cut(
            cut_at_events(start as int, events, source_duration as int),
            source_duration,
        ),
        cut_at_events(start as int, events, source_duration as int).record == last_split(events),
    decreases events.len(),
{
    if events.len() > 0 {
        let before = cut_at_events(start as int, events.drop_last(), source_duration as int);
        lemma_cut(start, events.drop_last(), source_duration);
        if events.last().splits() {
            lemma_through(before, events.last().record_time as int, source_duration);
        }
    }
}

/// **The segments cover the recording**, from its start to its end or to the
/// last event that splits it, whichever is later, with no gap and no overlap;
/// and each is one a decoder can serve: of positive length, never playing past
/// the source's end and never frozen within 50 ms of it.
pub proof fn law_segments_cover_the_recording(
    start: i64,
    events: Seq<CommentaryEvent>,
    recording_duration: i64,
    source_duration: i64,
)
    ensures
        ({
            let segments = segments_of(
                start as int,
                events,
                recording_duration as int,
                source_duration as int,
            );
            &&& covered(segments) == time::larger(last_split(events), recording_duration as int)
            &&& forall|i: int|
                0 <= i < segments.len() ==> servable(
                    #[trigger] segments[i],
                    source_duration as int,
                )
        }),
{
    lemma_cut(start, events, source_duration);
    lemma_through(
        cut_at_events(start as int, events, source_duration as int),
        recording_duration as int,
        source_duration,
    );
}

/// The events of a log that change the rate or move the source.
pub open spec fn transport_only(events: Seq<CommentaryEvent>) -> Seq<CommentaryEvent> {
    events.filter(|e: CommentaryEvent| e.splits())
}

/// **Only play, pause and skip split the timeline**: a log without its
/// drawings, wipes and zooms has the same segments.
pub proof fn law_only_transport_events_split(
    start: int,
    events: Seq<CommentaryEvent>,
    recording_duration: int,
    source_duration: int,
)
    ensures
        segments_of(
            start,
            transport_only(events),
            recording_duration,
            source_duration,
        ) == segments_of(start, events, recording_duration, source_duration),
{
    lemma_cut_without_drawings(start, events, source_duration);
}

proof fn lemma_cut_without_drawings(
    start: int,
    events: Seq<CommentaryEvent>,
    source_duration: int,
)
    ensures
        cut_at_events(start, transport_only(events), source_duration)
            == cut_at_events(start, events, source_duration),
    decreases events.len(),
{
    reveal(Seq::filter);
    if events.len() > 0 {
        let p = |e: CommentaryEvent| e.splits();
        lemma_cut_without_drawings(start, events.drop_last(), source_duration);
        let kept = events.drop_last().filter(p);
        if events.last().splits() {
            assert(events.filter(p) == kept.push(events.last()));
            assert(kept.push(events.last()).drop_last() =~= kept);
        } else {
            assert(events.filter(p) == kept);
        }
    }
}

/// A log as the recorder writes it for a source of this length: in time order,
/// nothing before the start, every captured position on the source.
pub open spec fn well_recorded(
    start: int,
    events: Seq<CommentaryEvent>,
    source_duration: int,
) -> bool {
    &&& 0 <= start <= source_duration
    &&& event::in_time_order(events)
    &&& forall|i: int| 0 <= i < events.len() ==> (#[trigger] events[i]).record_time >= 0
    &&& forall|i: int|
        0 <= i < events.len() ==> match (#[trigger] events[i]).kind {
            EventKind::Play { source_time } => 0 <= source_time <= source_duration,
            EventKind::Pause { source_time } => 0 <= source_time <= source_duration,
            _ => true,
        }
}

/// What a segment shows, `offset` ticks into it.
pub open spec fn shown(segment: PlaybackSegment, offset: int) -> int {
    if segment.kind is Play {
        segment.source_start + offset
    } else {
        segment.source_start as int
    }
}

/// The source position the segments show, `at` ticks into the recording.
pub open spec fn picture(segments: Seq<PlaybackSegment>, at: int) -> int
    decreases segments.len(),
{
    if segments.len() == 0 {
        0
    } else {
        let before = covered(segments.drop_last());
        if before <= at {
            shown(segments.last(), at - before)
        } else {
            picture(segments.drop_last(), at)
        }
    }
}

/// How a picture stands to the clock: the same position, or a freeze pulled
/// back from the last 50 ms of the source.
pub open spec fn follows(picture: int, clock: int, source_duration: int) -> bool {
    let last = if source_duration > 150_000_000 {
        source_duration - 150_000_000
    } else {
        0
    };
    ||| picture == clock
    ||| picture == last && last < clock <= source_duration
}

proof fn lemma_picture_of_earlier(
    a: Seq<PlaybackSegment>,
    b: Seq<PlaybackSegment>,
    at: int,
    source_duration: int,
)
    requires
        0 <= at < covered(a),
        forall|i: int| 0 <= i < b.len() ==> servable(#[trigger] b[i], source_duration),
    ensures
        picture(a + b, at) == picture(a, at),
        covered(b) >= 0,
    decreases b.len(),
{
    if b.len() == 0 {
        assert(a + b =~= a);
    } else {
        assert((a + b).drop_last() =~= a + b.drop_last());
        assert(servable(b[b.len() - 1], source_duration));
        assert forall|i: int| 0 <= i < b.drop_last().len() implies servable(
            #[trigger] b.drop_last()[i],
            source_duration,
        ) by {
            assert(b.drop_last()[i] == b[i]);
        }
        lemma_picture_of_earlier(a, b.drop_last(), at, source_duration);
        lemma_covered_appends(a, b.drop_last());
    }
}

proof fn lemma_picture_of_stretch(
    a: Seq<PlaybackSegment>,
    source: int,
    length: int,
    playing: bool,
    source_duration: i64,
    at: int,
)
    requires
        0 <= source <= source_duration,
        0 < length <= i64::MAX,
        covered(a) <= at < covered(a) + length,
    ensures
        follows(
            picture(a + stretch(source, length, playing, source_duration as int), at),
            within_source(
                source + if playing {
                    at - covered(a)
                } else {
                    0
                },
                source_duration as int,
            ),
            source_duration as int,
        ),
        playing && source + (at - covered(a)) < source_duration ==> picture(
            a + stretch(source, length, playing, source_duration as int),
            at,
        ) == source + (at - covered(a)),
{
    let s = stretch(source, length, playing, source_duration as int);
    let all = a + s;
    if s.len() == 2 {
        assert(all.drop_last() =~= a.push(s[0]));
        assert(a.push(s[0]).drop_last() =~= a);
        assert(all.last() == s[1]);
        assert(covered(a.push(s[0])) == covered(a) + s[0].out_duration);
        assert(picture(a.push(s[0]), at) == shown(s[0], at - covered(a)));
    } else {
        assert(s.len() == 1);
        assert(all.drop_last() =~= a);
        assert(all.last() == s[0]);
    }
}

/// How the picture's cut and the clock's cursor stand to each other after the
/// same events.
spec fn in_step(cut: Cut, cursor: Cursor, source_duration: int) -> bool {
    &&& cut.playing == cursor.playing
    &&& 0 <= cut.record <= cursor.record
    &&& 0 <= cut.source <= source_duration
    &&& 0 <= cursor.source <= source_duration
    &&& cursor.source == within_source(
        cut.source + if cut.playing {
            cursor.record - cut.record
        } else {
            0
        },
        source_duration,
    )
}

proof fn lemma_in_step(
    start: i64,
    events: Seq<CommentaryEvent>,
    at: int,
    source_duration: i64,
)
    requires
        well_recorded(start as int, events, source_duration as int),
        forall|i: int| 0 <= i < events.len() ==> (#[trigger] events[i]).record_time <= at,
    ensures
        in_step(
            cut_at_events(start as int, events, source_duration as int),
            cursor_at(start as int, events, at, source_duration as int),
            source_duration as int,
        ),
        events.len() > 0 ==> cursor_at(
            start as int,
            events,
            at,
            source_duration as int,
        ).record == events.last().record_time,
        events.len() == 0 ==> cursor_at(
            start as int,
            events,
            at,
            source_duration as int,
        ).record == 0,
    decreases events.len(),
{
    if events.len() > 0 {
        let earlier = events.drop_last();
        let last = events.last();
        assert(last == events[events.len() - 1]);
        assert forall|i: int| 0 <= i < earlier.len() implies #[trigger] earlier[i] == events[i] by {
        }
        lemma_in_step(start, earlier, at, source_duration);
        if earlier.len() > 0 {
            assert(earlier.last() == events[events.len() - 2]);
        }
    }
}

/// Whatever comes later leaves the picture of a covered moment alone.
proof fn lemma_later_events_keep_the_picture(
    start: i64,
    events: Seq<CommentaryEvent>,
    more: Seq<CommentaryEvent>,
    at: int,
    source_duration: i64,
)
    requires
        0 <= at < cut_at_events(start as int, events, source_duration as int).record,
    ensures
        at < cut_at_events(start as int, events + more, source_duration as int).record,
        picture(
            cut_at_events(start as int, events + more, source_duration as int).segments,
            at,
        ) == picture(
            cut_at_events(start as int, events, source_duration as int).segments,
            at,
        ),
    decreases more.len(),
{
    if more.len() == 0 {
        assert(events + more =~= events);
    } else {
        let rest = events + more.drop_last();
        assert((events + more).drop_last() =~= rest);
        lemma_later_events_keep_the_picture(
            start,
            events,
            more.drop_last(),
            at,
            source_duration,
        );
        let before = cut_at_events(start as int, rest, source_duration as int);
        lemma_cut(start, rest, source_duration);
        lemma_through_keeps_the_picture(
            before,
            more.last().record_time as int,
            at,
            source_duration,
        );
    }
}

proof fn lemma_through_keeps_the_picture(
    cut: Cut,
    record: int,
    at: int,
    source_duration: i64,
)
    requires
        sound_cut(cut, source_duration),
        0 <= at < cut.record,
        record <= i64::MAX,
    ensures
        at < cut.through(record, source_duration as int).record,
        picture(cut.through(record, source_duration as int).segments, at) == picture(
            cut.segments,
            at,
        ),
{
    let length = record - cut.record;
    if length > 0 {
        lemma_stretch(cut.source, length, cut.playing, source_duration);
        lemma_picture_of_earlier(
            cut.segments,
            stretch(cut.source, length, cut.playing, source_duration as int),
            at,
            source_duration as int,
        );
    }
}

proof fn lemma_through_shows_the_clock(
    cut: Cut,
    cursor: Cursor,
    record: int,
    at: int,
    source_duration: i64,
)
    requires
        sound_cut(cut, source_duration),
        in_step(cut, cursor, source_duration as int),
        cursor.record <= at < record <= i64::MAX,
    ensures
        at < cut.through(record, source_duration as int).record,
        follows(
            picture(cut.through(record, source_duration as int).segments, at),
            cursor.at(at, source_duration as int),
            source_duration as int,
        ),
        cursor.playing && cursor.at(at, source_duration as int) < source_duration ==> picture(
            cut.through(record, source_duration as int).segments,
            at,
        ) == cursor.at(at, source_duration as int),
{
    lemma_picture_of_stretch(
        cut.segments,
        cut.source,
        record - cut.record,
        cut.playing,
        source_duration,
        at,
    );
}

/// The events after a moment do not reach its clock.
proof fn lemma_clock_ignores_later_events(
    start: int,
    events: Seq<CommentaryEvent>,
    more: Seq<CommentaryEvent>,
    at: int,
    source_duration: int,
)
    requires
        forall|i: int| 0 <= i < more.len() ==> (#[trigger] more[i]).record_time > at,
    ensures
        cursor_at(start, events + more, at, source_duration) == cursor_at(
            start,
            events,
            at,
            source_duration,
        ),
    decreases more.len(),
{
    if more.len() == 0 {
        assert(events + more =~= events);
    } else {
        assert((events + more).drop_last() =~= events + more.drop_last());
        assert((events + more).last() == more[more.len() - 1]);
        assert forall|i: int| 0 <= i < more.drop_last().len() implies (
        #[trigger] more.drop_last()[i]).record_time > at by {
            assert(more.drop_last()[i] == more[i]);
        }
        lemma_clock_ignores_later_events(start, events, more.drop_last(), at, source_duration);
    }
}

/// How many events of a log in time order have come by `at`.
spec fn come_by(events: Seq<CommentaryEvent>, at: int) -> nat
    decreases events.len(),
{
    if events.len() == 0 {
        0
    } else if events.last().record_time <= at {
        events.len()
    } else {
        come_by(events.drop_last(), at)
    }
}

proof fn lemma_come_by(events: Seq<CommentaryEvent>, at: int)
    requires
        event::in_time_order(events),
    ensures
        come_by(events, at) <= events.len(),
        forall|i: int|
            0 <= i < come_by(events, at) ==> (#[trigger] events[i]).record_time <= at,
        forall|i: int|
            come_by(events, at) <= i < events.len() ==> (#[trigger] events[i]).record_time > at,
    decreases events.len(),
{
    if events.len() > 0 && events.last().record_time > at {
        let earlier = events.drop_last();
        assert forall|i: int| 0 <= i < earlier.len() implies #[trigger] earlier[i] == events[i] by {
        }
        lemma_come_by(earlier, at);
        assert forall|i: int| 0 <= i < come_by(events, at) implies (
        #[trigger] events[i]).record_time <= at by {
            assert(earlier[i] == events[i]);
        }
        assert forall|i: int| come_by(events, at) <= i < events.len() implies (
        #[trigger] events[i]).record_time > at by {
            if i < earlier.len() {
                assert(earlier[i] == events[i]);
            }
        }
    }
}

/// The first event of a run that splits the timeline, if there is one.
proof fn lemma_first_split(events: Seq<CommentaryEvent>) -> (k: int)
    ensures
        0 <= k <= events.len(),
        forall|i: int| 0 <= i < k ==> !(#[trigger] events[i]).splits(),
        k < events.len() ==> events[k].splits(),
    decreases events.len(),
{
    if events.len() == 0 {
        0
    } else {
        let earlier = events.drop_last();
        let k = lemma_first_split(earlier);
        assert forall|i: int| 0 <= i < earlier.len() implies #[trigger] earlier[i] == events[i] by {
        }
        assert forall|i: int| 0 <= i < k implies !(#[trigger] events[i]).splits() by {
            assert(!earlier[i].splits());
        }
        if k < earlier.len() || events.last().splits() {
            k
        } else {
            events.len() as int
        }
    }
}

proof fn lemma_drawings_keep_the_cut(
    start: int,
    events: Seq<CommentaryEvent>,
    more: Seq<CommentaryEvent>,
    source_duration: int,
)
    requires
        forall|i: int| 0 <= i < more.len() ==> !(#[trigger] more[i]).splits(),
    ensures
        cut_at_events(start, events + more, source_duration) == cut_at_events(
            start,
            events,
            source_duration,
        ),
    decreases more.len(),
{
    if more.len() == 0 {
        assert(events + more =~= events);
    } else {
        assert((events + more).drop_last() =~= events + more.drop_last());
        assert((events + more).last() == more[more.len() - 1]);
        assert forall|i: int| 0 <= i < more.drop_last().len() implies !(
        #[trigger] more.drop_last()[i]).splits() by {
            assert(more.drop_last()[i] == more[i]);
        }
        lemma_drawings_keep_the_cut(start, events, more.drop_last(), source_duration);
    }
}

/// **The picture follows the clock**: at every moment of a well-recorded clip
/// the segments show the position [`source_time`] gives, except that in the
/// last 50 ms of the source they hold the frame 50 ms before its end. While the
/// source plays they show that position exactly, up to its very end.
#[verifier::spinoff_prover]
#[verifier::rlimit(40)]
pub proof fn law_picture_follows_the_clock(
    start: i64,
    events: Seq<CommentaryEvent>,
    recording_duration: i64,
    source_duration: i64,
    at: int,
)
    requires
        well_recorded(start as int, events, source_duration as int),
        0 <= at < time::larger(last_split(events), recording_duration as int),
    ensures
        follows(
            picture(
                segments_of(
                    start as int,
                    events,
                    recording_duration as int,
                    source_duration as int,
                ),
                at,
            ),
            clock(start as int, events, at, source_duration as int),
            source_duration as int,
        ),
        forall|k: int|
            0 <= k <= events.len() && (forall|i: int|
                0 <= i < events.len() ==> ((#[trigger] events[i]).record_time <= at <==> i < k))
                && left_playing(#[trigger] events.take(k)) && clock(
                start as int,
                events,
                at,
                source_duration as int,
            ) < source_duration ==> picture(
                segments_of(
                    start as int,
                    events,
                    recording_duration as int,
                    source_duration as int,
                ),
                at,
            ) == clock(start as int, events, at, source_duration as int),
{
    let d = source_duration as int;
    lemma_come_by(events, at);
    let n = come_by(events, at) as int;
    let past = events.take(n);
    let future = events.skip(n);
    assert(past + future =~= events);
    assert forall|i: int| 0 <= i < past.len() implies #[trigger] past[i] == events[i] by {}
    assert forall|i: int| 0 <= i < future.len() implies #[trigger] future[i] == events[n + i] by {}
    lemma_in_step(start, past, at, source_duration);
    lemma_clock_ignores_later_events(start as int, past, future, at, d);
    let cursor = cursor_at(start as int, past, at, d);
    let cut = cut_at_events(start as int, past, d);
    lemma_cut(start, past, source_duration);
    if past.len() > 0 {
        assert(past.last() == events[n - 1]);
    }
    assert forall|m: int|
        0 <= m <= events.len() && (forall|i: int|
            0 <= i < events.len() ==> ((#[trigger] events[i]).record_time <= at <==> i < m))
            && left_playing(#[trigger] events.take(m)) implies cursor.playing by {
        if m < n {
            assert(events[m].record_time <= at);
        } else if n < m {
            assert(events[n].record_time > at);
        }
        lemma_the_cursor_plays(start as int, past, at, d);
    }
    let k = lemma_first_split(future);
    let quiet = future.take(k);
    assert forall|i: int| 0 <= i < quiet.len() implies #[trigger] quiet[i] == future[i] by {}
    lemma_drawings_keep_the_cut(start as int, past, quiet, d);
    if k < future.len() {
        let split = future[k];
        let upto = past + future.take(k + 1);
        assert(upto.drop_last() =~= past + quiet);
        assert(upto.last() == split);
        lemma_through_shows_the_clock(cut, cursor, split.record_time as int, at, source_duration);
        assert(cut_at_events(start as int, upto, d) == cut.after(split, d));
        let rest = future.skip(k + 1);
        assert(upto + rest =~= events);
        lemma_later_events_keep_the_picture(start, upto, rest, at, source_duration);
        lemma_cut(start, events, source_duration);
        lemma_through_keeps_the_picture(
            cut_at_events(start as int, events, d),
            recording_duration as int,
            at,
            source_duration,
        );
    } else {
        assert(quiet =~= future);
        lemma_cut(start, events, source_duration);
        lemma_through_shows_the_clock(
            cut,
            cursor,
            recording_duration as int,
            at,
            source_duration,
        );
    }
}

/// **Drawings, wipes and zooms do not move the clock** of a well-recorded
/// clip: a log without them gives the same source time at every moment.
pub proof fn law_only_transport_events_move_the_clock(
    start: i64,
    events: Seq<CommentaryEvent>,
    at: int,
    source_duration: i64,
)
    requires
        well_recorded(start as int, events, source_duration as int),
        at >= 0,
    ensures
        clock(
            start as int,
            transport_only(events),
            at,
            source_duration as int,
        ) == clock(start as int, events, at, source_duration as int),
{
    let d = source_duration as int;
    lemma_come_by(events, at);
    let n = come_by(events, at) as int;
    let past = events.take(n);
    let future = events.skip(n);
    let p = |e: CommentaryEvent| e.splits();
    assert(past + future =~= events);
    assert forall|i: int| 0 <= i < past.len() implies #[trigger] past[i] == events[i] by {}
    assert forall|i: int| 0 <= i < future.len() implies #[trigger] future[i] == events[n + i] by {}
    Seq::filter_distributes_over_add(past, future, p);
    assert forall|i: int| 0 <= i < future.filter(p).len() implies (
    #[trigger] future.filter(p)[i]).record_time > at by {
        future.lemma_filter_contains_rev(p, future.filter(p)[i]);
        let j = choose|j: int| 0 <= j < future.len() && future[j] == future.filter(p)[i];
        assert(future[j] == events[n + j]);
    }
    lemma_clock_ignores_later_events(start as int, past, future, at, d);
    lemma_clock_ignores_later_events(start as int, past.filter(p), future.filter(p), at, d);
    lemma_filter_is_well_recorded(start as int, past, d);
    lemma_in_step(start, past, at, source_duration);
    assert forall|i: int| 0 <= i < past.filter(p).len() implies (
    #[trigger] past.filter(p)[i]).record_time <= at by {
        past.lemma_filter_contains_rev(p, past.filter(p)[i]);
        let j = choose|j: int| 0 <= j < past.len() && past[j] == past.filter(p)[i];
        assert(past[j] == events[j]);
    }
    lemma_in_step(start, past.filter(p), at, source_duration);
    lemma_cut_without_drawings(start as int, past, d);
    if past.filter(p).len() > 0 {
        let last = past.filter(p).last();
        assert(past.filter(p)[past.filter(p).len() - 1].record_time <= at);
    }
    if past.len() > 0 {
        assert(past[past.len() - 1].record_time <= at);
    }
}

proof fn lemma_filter_is_well_recorded(
    start: int,
    events: Seq<CommentaryEvent>,
    source_duration: int,
)
    requires
        well_recorded(start, events, source_duration),
    ensures
        well_recorded(start, transport_only(events), source_duration),
        forall|i: int|
            0 <= i < transport_only(events).len() ==> exists|j: int|
                0 <= j < events.len() && events[j] == #[trigger] transport_only(events)[i],
    decreases events.len(),
{
    reveal(Seq::filter);
    let p = |e: CommentaryEvent| e.splits();
    if events.len() > 0 {
        let earlier = events.drop_last();
        assert forall|i: int| 0 <= i < earlier.len() implies #[trigger] earlier[i] == events[i] by {
        }
        lemma_filter_is_well_recorded(start, earlier, source_duration);
        let kept = earlier.filter(p);
        let all = events.filter(p);
        assert(all == if p(events.last()) {
            kept.push(events.last())
        } else {
            kept
        });
        assert forall|i: int| 0 <= i < all.len() implies exists|j: int|
            0 <= j < events.len() && events[j] == #[trigger] all[i] by {
            if i < kept.len() {
                let j = choose|j: int| 0 <= j < earlier.len() && earlier[j] == kept[i];
                assert(events[j] == all[i]);
            } else {
                assert(events[events.len() - 1] == all[i]);
            }
        }
        assert forall|i: int, j: int| 0 <= i <= j < all.len() implies all[i].record_time
            <= all[j].record_time by {
            if j >= kept.len() && i < kept.len() {
                let e = choose|e: int| 0 <= e < earlier.len() && earlier[e] == kept[i];
                assert(events[e] == all[i]);
                assert(events[events.len() - 1] == all[j]);
            }
        }
    }
}

/// Whether a log leaves the source playing: every pause in it was followed by
/// a play.
pub open spec fn left_playing(events: Seq<CommentaryEvent>) -> bool {
    forall|i: int|
        0 <= i < events.len() && (#[trigger] events[i]).kind is Pause ==> exists|j: int|
            i < j < events.len() && (#[trigger] events[j]).kind is Play
}

proof fn lemma_the_cursor_plays(
    start: int,
    events: Seq<CommentaryEvent>,
    at: int,
    source_duration: int,
)
    requires
        forall|i: int| 0 <= i < events.len() ==> (#[trigger] events[i]).record_time <= at,
    ensures
        cursor_at(start, events, at, source_duration).playing == left_playing(events),
    decreases events.len(),
{
    if events.len() > 0 {
        let earlier = events.drop_last();
        let last = events[events.len() - 1];
        assert forall|i: int| 0 <= i < earlier.len() implies #[trigger] earlier[i] == events[i] by {
        }
        lemma_the_cursor_plays(start, earlier, at, source_duration);
        if last.kind is Play {
            assert forall|i: int|
                0 <= i < events.len() && (#[trigger] events[i]).kind is Pause implies exists|j: int|
                i < j < events.len() && (#[trigger] events[j]).kind is Play by {
                assert(events[events.len() - 1].kind is Play);
            }
        } else if last.kind is Pause {
            assert(events[events.len() - 1].kind is Pause);
        } else if left_playing(earlier) {
            assert forall|i: int|
                0 <= i < events.len() && (#[trigger] events[i]).kind is Pause implies exists|j: int|
                i < j < events.len() && (#[trigger] events[j]).kind is Play by {
                assert(earlier[i].kind is Pause);
                let j = choose|j: int| i < j < earlier.len() && (#[trigger] earlier[j]).kind is Play;
                assert(events[j].kind is Play);
            }
        } else {
            let i = choose|i: int|
                0 <= i < earlier.len() && (#[trigger] earlier[i]).kind is Pause && !(exists|j: int|
                    i < j < earlier.len() && (#[trigger] earlier[j]).kind is Play);
            assert(events[i].kind is Pause);
            if exists|j: int| i < j < events.len() && (#[trigger] events[j]).kind is Play {
                let j = choose|j: int| i < j < events.len() && (#[trigger] events[j]).kind is Play;
                assert(earlier[j].kind is Play);
            }
        }
    }
}

/// **The clock runs at the recording's rate**: a recording starts out playing,
/// from its first position; a play or pause takes the clock to the position it
/// captured, from where it runs on or stands still. It never leaves the source,
/// and what comes later never reaches back.
pub proof fn law_the_clock_runs(
    start: int,
    events: Seq<CommentaryEvent>,
    ev: CommentaryEvent,
    at: int,
    d: int,
)
    ensures
        ({
            let top = if d > 0 {
                d
            } else {
                0
            };
            let now = clock(start, events.push(ev), at, d);
            let first = clock(start, seq![], at, d);
            &&& first == if start + at < 0 {
                0
            } else if start + at > top {
                top
            } else {
                start + at
            }
            &&& 0 <= now <= top
            &&& ev.record_time > at ==> now == clock(start, events, at, d)
            &&& ev.record_time <= at ==> match ev.kind {
                EventKind::Play { source_time } => {
                    let there = source_time + (at - ev.record_time);
                    now == if there < 0 {
                        0
                    } else if there > top {
                        top
                    } else {
                        there
                    }
                },
                EventKind::Pause { source_time } => now == if source_time < 0 {
                    0
                } else if source_time > top {
                    top
                } else {
                    source_time as int
                },
                _ => true,
            }
        }),
{
    assert(events.push(ev).drop_last() =~= events);
}

/// **A skip moves the source by its own length**, either way, playing or
/// paused: right after it the clock is where it was plus the skip, or at the end
/// of the source that lies in the way. From there it runs on, or stands still,
/// just as it did.
pub proof fn law_a_skip_moves_the_source(
    start: int,
    events: Seq<CommentaryEvent>,
    t: i64,
    delta: i64,
    at: int,
    d: i64,
)
    requires
        forall|i: int| 0 <= i < events.len() ==> (#[trigger] events[i]).record_time <= t,
        at >= t,
    ensures
        ({
            let top = if d > 0 {
                d as int
            } else {
                0
            };
            let wanted = clock(start, events, t as int, d as int) + delta;
            let there = if wanted < 0 {
                0
            } else if wanted > top {
                top
            } else {
                wanted
            };
            let run_on = there + (at - t);
            let skip = CommentaryEvent { record_time: t, kind: EventKind::Skip { delta } };
            &&& clock(start, events.push(skip), t as int, d as int) == there
            &&& clock(start, events.push(skip), at, d as int) == if !left_playing(events) {
                there
            } else if run_on > top {
                top
            } else {
                run_on
            }
        }),
{
    let skip = CommentaryEvent { record_time: t, kind: EventKind::Skip { delta } };
    assert(events.push(skip).drop_last() =~= events);
    lemma_cursor_of_the_past(start, events, t as int, at, d as int);
    lemma_the_cursor_plays(start, events, t as int, d as int);
}

/// Moments that the same events have come by have the same cursor.
proof fn lemma_cursor_of_the_past(
    start: int,
    events: Seq<CommentaryEvent>,
    t: int,
    at: int,
    d: int,
)
    requires
        forall|i: int| 0 <= i < events.len() ==> (#[trigger] events[i]).record_time <= t,
        t <= at,
    ensures
        cursor_at(start, events, t, d) == cursor_at(start, events, at, d),
    decreases events.len(),
{
    if events.len() > 0 {
        assert(events[events.len() - 1].record_time <= t);
        assert forall|i: int| 0 <= i < events.drop_last().len() implies (
        #[trigger] events.drop_last()[i]).record_time <= t by {
            assert(events.drop_last()[i] == events[i]);
        }
        lemma_cursor_of_the_past(start, events.drop_last(), t, at, d);
    }
}

/// **The picture is its segment's**: the segments follow one another from the
/// start of the recording, and a moment shows as far past its segment's start
/// as it is into it, or where that freezes the start itself.
pub proof fn law_the_picture_is_its_segment_s(
    segments: Seq<PlaybackSegment>,
    starts: Seq<int>,
    at: int,
    k: int,
)
    requires
        starts.len() == segments.len() + 1,
        starts[0] == 0,
        forall|i: int|
            #![trigger segments[i]]
            0 <= i < segments.len() ==> segments[i].out_duration > 0 && starts[i + 1] == starts[i]
                + segments[i].out_duration,
        0 <= k < segments.len(),
        starts[k] <= at < starts[k + 1],
    ensures
        covered(segments) == starts.last(),
        segments[k].kind is Play ==> picture(segments, at) == segments[k].source_start + at
            - starts[k],
        segments[k].kind is Freeze ==> picture(segments, at) == segments[k].source_start,
    decreases segments.len(),
{
    let before = segments.drop_last();
    let ends = starts.drop_last();
    let last = segments.len() - 1;
    assert forall|i: int|
        #![trigger before[i]]
        0 <= i < before.len() implies before[i].out_duration > 0 && ends[i + 1] == ends[i]
        + before[i].out_duration by {
        assert(before[i] == segments[i]);
    }
    assert(segments[last].out_duration > 0);
    lemma_covered_is_the_end(before, ends);
    if k < last {
        lemma_ends_grow(segments, starts, k + 1, last);
        law_the_picture_is_its_segment_s(before, ends, at, k);
        assert(before[k] == segments[k]);
    }
}

proof fn lemma_covered_is_the_end(segments: Seq<PlaybackSegment>, starts: Seq<int>)
    requires
        starts.len() == segments.len() + 1,
        starts[0] == 0,
        forall|i: int|
            #![trigger segments[i]]
            0 <= i < segments.len() ==> segments[i].out_duration > 0 && starts[i + 1] == starts[i]
                + segments[i].out_duration,
    ensures
        covered(segments) == starts.last(),
    decreases segments.len(),
{
    if segments.len() > 0 {
        let before = segments.drop_last();
        let ends = starts.drop_last();
        assert forall|i: int|
            #![trigger before[i]]
            0 <= i < before.len() implies before[i].out_duration > 0 && ends[i + 1] == ends[i]
            + before[i].out_duration by {
            assert(before[i] == segments[i]);
        }
        lemma_covered_is_the_end(before, ends);
        assert(segments[segments.len() - 1].out_duration > 0);
    }
}

proof fn lemma_ends_grow(
    segments: Seq<PlaybackSegment>,
    starts: Seq<int>,
    from: int,
    to: int,
)
    requires
        starts.len() == segments.len() + 1,
        forall|i: int|
            #![trigger segments[i]]
            0 <= i < segments.len() ==> segments[i].out_duration > 0 && starts[i + 1] == starts[i]
                + segments[i].out_duration,
        0 <= from <= to <= segments.len(),
    ensures
        starts[from] <= starts[to],
    decreases to - from,
{
    if from < to {
        lemma_ends_grow(segments, starts, from, to - 1);
        assert(segments[to - 1].out_duration > 0);
    }
}

/// **The last split is the last play, pause or skip**: no event of these comes
/// later, one comes then or it is the start, and nothing else counts.
pub proof fn law_the_last_split_is_the_last_of_them(events: Seq<CommentaryEvent>)
    ensures
        last_split(events) >= 0,
        forall|i: int|
            0 <= i < events.len() && ((#[trigger] events[i]).kind is Play
                || events[i].kind is Pause || events[i].kind is Skip) ==> events[i].record_time
                <= last_split(events),
        last_split(events) > 0 ==> exists|i: int|
            0 <= i < events.len() && (#[trigger] events[i]).record_time == last_split(events) && (
            events[i].kind is Play || events[i].kind is Pause || events[i].kind is Skip),
        forall|i: int|
            0 <= i < events.len() ==> ((#[trigger] events[i]).splits() <==> events[i].kind is Play
                || events[i].kind is Pause || events[i].kind is Skip),
    decreases events.len(),
{
    if events.len() > 0 {
        let earlier = events.drop_last();
        law_the_last_split_is_the_last_of_them(earlier);
        assert forall|i: int| 0 <= i < earlier.len() implies earlier[i] == #[trigger] events[i] by {
        }
        assert forall|i: int|
            0 <= i < events.len() && ((#[trigger] events[i]).kind is Play
                || events[i].kind is Pause || events[i].kind is Skip) implies events[i].record_time
            <= last_split(events) by {
            if i < earlier.len() {
                assert(earlier[i] == events[i]);
            }
        }
        if last_split(events) > 0 {
            if last_split(events) == last_split(earlier) {
                let i = choose|i: int|
                    0 <= i < earlier.len() && (#[trigger] earlier[i]).record_time == last_split(
                        earlier,
                    ) && (earlier[i].kind is Play || earlier[i].kind is Pause
                        || earlier[i].kind is Skip);
                assert(events[i] == earlier[i]);
            } else {
                assert(events[events.len() - 1].record_time == last_split(events));
            }
        }
    }
}

/// **The source time hears a skip**: of two clips that differ in one last skip,
/// the source time at the skip differs by its length, either way, or by what
/// the source leaves of it.
pub proof fn law_the_source_time_hears_a_skip(
    before: &Clip,
    after: &Clip,
    t: i64,
    delta: i64,
    d: i64,
    was: i64,
    now: i64,
)
    requires
        call_ensures(source_time, (before, t, d), was),
        call_ensures(source_time, (after, t, d), now),
        after.start_source == before.start_source,
        after.events@ == before.events@.push(
            CommentaryEvent { record_time: t, kind: EventKind::Skip { delta } },
        ),
        forall|i: int|
            0 <= i < before.events@.len() ==> (#[trigger] before.events@[i]).record_time <= t,
        d >= 0,
    ensures
        0 <= was <= d,
        0 <= was + delta <= d ==> now == was + delta,
        was + delta < 0 ==> now == 0,
        was + delta > d ==> now == d,
{
    law_a_skip_moves_the_source(
        before.start_source as int,
        before.events@,
        t,
        delta,
        t as int,
        d,
    );
}

/// **The segments show the source time**: at every moment of a well-recorded
/// clip that the segments cover, they show what [`source_time`] gives, or a
/// freeze 50 ms before the source's end.
pub proof fn law_the_segments_show_the_source_time(
    clip: &Clip,
    d: i64,
    at: i64,
    segments: Vec<PlaybackSegment>,
    now: i64,
)
    requires
        call_ensures(playback_segments, (clip, d), segments),
        call_ensures(source_time, (clip, at, d), now),
        well_recorded(clip.start_source as int, clip.events@, d as int),
        0 <= at < clip.recording_duration,
    ensures
        ({
            let shown = picture(segments@, at as int);
            let last = if d > 150_000_000 {
                d - 150_000_000
            } else {
                0
            };
            shown == now || (shown == last && last < now <= d)
        }),
{
    law_picture_follows_the_clock(
        clip.start_source,
        clip.events@,
        clip.recording_duration,
        d,
        at as int,
    );
}

proof fn lemma_picture_of_any_stretch(
    a: Seq<PlaybackSegment>,
    source: int,
    length: int,
    playing: bool,
    d: i64,
    at: int,
)
    requires
        i64::MIN <= source <= i64::MAX,
        d >= 0,
        0 < length <= i64::MAX,
        covered(a) <= at < covered(a) + length,
    ensures
        ({
            let shown = picture(a + stretch(source, length, playing, d as int), at);
            let last = if d > 150_000_000 {
                d - 150_000_000
            } else {
                0
            };
            let there = source + (at - covered(a));
            &&& playing && there < d ==> shown == there
            &&& playing && there >= d ==> shown == last
            &&& !playing && source <= last ==> shown == source
            &&& !playing && source > last ==> shown == last
        }),
{
    let s = stretch(source, length, playing, d as int);
    let all = a + s;
    if s.len() == 2 {
        assert(all.drop_last() =~= a.push(s[0]));
        assert(a.push(s[0]).drop_last() =~= a);
        assert(all.last() == s[1]);
        assert(covered(a.push(s[0])) == covered(a) + s[0].out_duration);
        assert(picture(a.push(s[0]), at) == shown(s[0], at - covered(a)));
    } else {
        assert(s.len() == 1);
        assert(all.drop_last() =~= a);
        assert(all.last() == s[0]);
    }
}

/// **The picture takes the position a key captured**: after the last play it
/// runs on from there up to the source's end, after the last pause it stands
/// there, and a recording without either runs on from its start. Past the end it
/// holds the frame 50 ms before it, whatever position was captured.
pub proof fn law_the_picture_takes_the_captured_position(
    start: i64,
    events: Seq<CommentaryEvent>,
    ev: CommentaryEvent,
    recording_duration: i64,
    d: i64,
    at: int,
)
    requires
        d >= 0,
        ev.record_time >= 0,
        forall|i: int|
            0 <= i < events.len() && ((#[trigger] events[i]).kind is Play
                || events[i].kind is Pause || events[i].kind is Skip) ==> events[i].record_time
                <= ev.record_time,
        0 <= at < recording_duration,
    ensures
        ({
            let first = picture(
                segments_of(start as int, Seq::empty(), recording_duration as int, d as int),
                at,
            );
            let shown = picture(
                segments_of(start as int, events.push(ev), recording_duration as int, d as int),
                at,
            );
            let last = if d > 150_000_000 {
                d - 150_000_000
            } else {
                0
            };
            &&& start + at < d ==> first == start + at
            &&& start + at >= d ==> first == last
            &&& ev.record_time <= at ==> match ev.kind {
                EventKind::Play { source_time } => {
                    let there = source_time + (at - ev.record_time);
                    (there < d ==> shown == there) && (there >= d ==> shown == last)
                },
                EventKind::Pause { source_time } => (source_time <= last ==> shown == source_time)
                    && (source_time > last ==> shown == last),
                _ => true,
            }
        }),
{
    let none = Seq::<CommentaryEvent>::empty();
    let opening = cut_at_events(start as int, none, d as int);
    lemma_picture_of_any_stretch(
        opening.segments,
        start as int,
        recording_duration as int,
        true,
        d,
        at,
    );
    law_the_last_split_is_the_last_of_them(events);
    if last_split(events) > 0 {
        let i = choose|i: int|
            0 <= i < events.len() && (#[trigger] events[i]).record_time == last_split(events) && (
            events[i].kind is Play || events[i].kind is Pause || events[i].kind is Skip);
        assert(last_split(events) <= ev.record_time);
    }
    if ev.record_time <= at && (ev.kind is Play || ev.kind is Pause) {
        let all = events.push(ev);
        assert(all.drop_last() =~= events);
        lemma_cut(start, events, d);
        lemma_through(
            cut_at_events(start as int, events, d as int),
            ev.record_time as int,
            d,
        );
        let cut = cut_at_events(start as int, all, d as int);
        assert(cut.record == ev.record_time);
        assert(covered(cut.segments) == ev.record_time);
        lemma_picture_of_any_stretch(
            cut.segments,
            cut.source,
            recording_duration - ev.record_time,
            cut.playing,
            d,
            at,
        );
    }
}

} // verus!
