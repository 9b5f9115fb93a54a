//! The drawings on the live picture: which of them show, and until when.
//!
//! A drawing's points and colour stay with the caller, who knows it by a key.

use vstd::prelude::*;

verus! {

/// How long after the pen lifts a drawing clears, with auto-clear on: five
/// seconds, in nanoseconds.
pub const AUTO_CLEAR_NS: u64 = 5_000_000_000;

/// A finished drawing on screen.
#[derive(Debug, Clone, Copy, PartialEq, Eq, Structural)]
pub struct LiveStroke {
    pub key: u64,
    /// The moment it auto-clears, in nanoseconds.
    pub expires: Option<u64>,
}

/// Whether a drawing still shows.
pub open spec fn lasts(stroke: LiveStroke, now: u64) -> bool {
    match stroke.expires {
        Some(at) => at > now,
        None => true,
    }
}

/// The drawings that still show.
pub open spec fn lasting(strokes: Seq<LiveStroke>, now: u64) -> Seq<LiveStroke>
    decreases strokes.len(),
{
    if strokes.len() == 0 {
        seq![]
    } else if lasts(strokes.last(), now) {
        lasting(strokes.drop_last(), now).push(strokes.last())
    } else {
        lasting(strokes.drop_last(), now)
    }
}

/// The drawings on the live picture.
#[derive(Debug, PartialEq, Eq)]
pub struct LiveDrawings {
    strokes: Vec<LiveStroke>,
    /// One is under the pen.
    drawing: bool,
}

/// What [`LiveDrawings`] hold, as mathematical values.
#[verifier::ext_equal]
pub struct Drawings {
    pub strokes: Seq<LiveStroke>,
    pub drawing: bool,
}

impl View for LiveDrawings {
    type V = Drawings;

    closed spec fn view(&self) -> Drawings {
        Drawings { strokes: self.strokes@, drawing: self.drawing }
    }
}

impl Drawings {
    /// A bare picture.
    pub open spec fn none() -> Drawings {
        Drawings { strokes: seq![], drawing: false }
    }

    /// Whether there is anything to wipe.
    pub open spec fn any(self) -> bool {
        self.strokes.len() > 0 || self.drawing
    }

    /// After the pen lifted off a drawing, which then clears by itself or
    /// stays. A drawing on a picture that has no place yet is dropped.
    pub open spec fn released(self, key: u64, pen_up: u64, auto_clear: bool, placed: bool) -> Drawings {
        if self.drawing && placed {
            Drawings {
                strokes: self.strokes.push(
                    LiveStroke {
                        key,
                        expires: if !auto_clear {
                            None
                        } else if pen_up > u64::MAX - AUTO_CLEAR_NS {
                            Some(u64::MAX)
                        } else {
                            Some((pen_up + AUTO_CLEAR_NS) as u64)
                        },
                    },
                ),
                drawing: false,
            }
        } else {
            Drawings { drawing: false, ..self }
        }
    }

    /// After the drawings that are due cleared by themselves.
    pub open spec fn expired(self, now: u64) -> Drawings {
        Drawings { strokes: lasting(self.strokes, now), ..self }
    }
}

impl Default for LiveDrawings {
    fn default() -> (drawings: LiveDrawings)
        ensures
            drawings@ == Drawings::none(),
    {
        let drawings = LiveDrawings { strokes: Vec::new(), drawing: false };
        assert(drawings.strokes@ =~= seq![]);
        drawings
    }
}

impl LiveDrawings {
    /// The finished drawings on screen.
    pub fn strokes(&self) -> (strokes: &Vec<LiveStroke>)
        ensures
            strokes@ == self@.strokes,
    {
        &self.strokes
    }

    /// Whether one is under the pen.
    pub fn is_drawing(&self) -> (drawing: bool)
        ensures
            drawing == self@.drawing,
    {
        self.drawing
    }

    /// The pen went down.
    pub fn press(&mut self)
        ensures
            final(self)@ == (Drawings { drawing: true, ..old(self)@ }),
    {
        self.drawing = true;
    }

    /// The pen lifted. Returns whether a drawing was finished, which is then
    /// logged. Without a place on the picture there is nothing to measure it
    /// against, so it is dropped rather than stored wrong.
    pub fn release(&mut self, key: u64, pen_up: u64, auto_clear: bool, placed: bool) -> (finished:
        bool)
        ensures
            final(self)@ == old(self)@.released(key, pen_up, auto_clear, placed),
            finished == (old(self)@.drawing && placed),
    {
        let finished = self.drawing && placed;
        self.drawing = false;
        if finished {
            let expires: Option<u64> = if !auto_clear {
                None
            } else if pen_up > u64::MAX - AUTO_CLEAR_NS {
                Some(u64::MAX)
            } else {
                Some(pen_up + AUTO_CLEAR_NS)
            };
            self.strokes.push(LiveStroke { key, expires });
        }
        finished
    }

    /// The drawing under the pen was given up.
    pub fn cancel(&mut self)
        ensures
            final(self)@ == (Drawings { drawing: false, ..old(self)@ }),
    {
        self.drawing = false;
    }

    /// Wipes the drawings on screen and the one under the pen, which is
    /// discarded rather than logged. Returns whether there was anything to
    /// wipe: a clear of an empty picture is not logged.
    pub fn clear(&mut self) -> (had_any: bool)
        ensures
            final(self)@ == Drawings::none(),
            had_any == old(self)@.any(),
    {
        let had_any = self.strokes.len() > 0 || self.drawing;
        self.strokes = Vec::new();
        self.drawing = false;
        assert(self.strokes@ =~= seq![]);
        had_any
    }

    /// Clears the drawings that are due. Returns whether the picture has to be
    /// drawn again: something cleared, or the picture was resized under what
    /// is on it.
    pub fn expire(&mut self, now: u64, resized: bool) -> (redraw: bool)
        ensures
            final(self)@ == old(self)@.expired(now),
            redraw == (final(self)@.strokes.len() != old(self)@.strokes.len() || (resized
                && final(self)@.strokes.len() > 0)),
    {
        let before: usize = self.strokes.len();
        let mut kept: Vec<LiveStroke> = Vec::new();
        assert(kept@ =~= lasting(self.strokes@.take(0), now));
        for i in 0..self.strokes.len()
            invariant
                kept@ == lasting(self.strokes@.take(i as int), now),
        {
            let stroke = self.strokes[i];
            assert(self.strokes@.take(i + 1).drop_last() =~= self.strokes@.take(i as int));
            let stays = match stroke.expires {
                Some(at) => at > now,
                None => true,
            };
            if stays {
                kept.push(stroke);
            }
        }
        assert(self.strokes@.take(self.strokes@.len() as int) =~= self.strokes@);
        self.strokes = kept;
        self.strokes.len() != before || (resized && self.strokes.len() > 0)
    }
}

/// **A drawing shows until it is due, and no longer**: at any moment what is
/// left is exactly what was there and lasts, in order; and what does not
/// auto-clear stays until it is wiped.
pub proof fn law_a_drawing_shows_until_it_is_due(strokes: Seq<LiveStroke>, now: u64, i: int)
    requires
        0 <= i < strokes.len(),
    ensures
        lasts(strokes[i], now) ==> lasting(strokes, now).contains(strokes[i]),
        strokes[i].expires is None ==> lasting(strokes, now).contains(strokes[i]),
        forall|k: int|
            0 <= k < lasting(strokes, now).len() ==> lasts(
                #[trigger] lasting(strokes, now)[k],
                now,
            ),
    decreases strokes.len(),
{
    let head = strokes.drop_last();
    let left = lasting(strokes, now);
    if head.len() > 0 {
        let j = if i < head.len() {
            i
        } else {
            0
        };
        law_a_drawing_shows_until_it_is_due(head, now, j);
        if lasting(head, now).contains(strokes[i]) {
            let k = choose|k: int|
                0 <= k < lasting(head, now).len() && lasting(head, now)[k] == strokes[i];
            assert(left[k] == strokes[i]);
        }
    } else {
        assert(lasting(head, now).len() == 0);
    }
    if i == strokes.len() - 1 && lasts(strokes[i], now) {
        assert(left[left.len() - 1] == strokes[i]);
    }
}

/// **Clearing happens once**: what is left at a moment is all left when asked
/// again at that moment, and clearing adds nothing.
pub proof fn law_expiry_is_settled(strokes: Seq<LiveStroke>, now: u64)
    ensures
        lasting(lasting(strokes, now), now) == lasting(strokes, now),
        lasting(strokes, now).len() <= strokes.len(),
    decreases strokes.len(),
{
    if strokes.len() > 0 {
        law_expiry_is_settled(strokes.drop_last(), now);
        let head = lasting(strokes.drop_last(), now);
        if lasts(strokes.last(), now) {
            assert(head.push(strokes.last()).drop_last() =~= head);
        }
    }
}

/// **Only what is due clears**: what is left is each drawing that never clears
/// by itself or is due later, in the order they were drawn, and the one under
/// the pen is not touched.
pub proof fn law_only_what_is_due_clears(drawings: Drawings, now: u64)
    ensures
        drawings.expired(now).strokes == drawings.strokes.filter(
            |s: LiveStroke| s.expires is None || s.expires->0 > now,
        ),
        drawings.expired(now).drawing == drawings.drawing,
{
    lemma_lasting_is_a_filter(drawings.strokes, now);
}

proof fn lemma_lasting_is_a_filter(strokes: Seq<LiveStroke>, now: u64)
    ensures
        lasting(strokes, now) == strokes.filter(
            |s: LiveStroke| s.expires is None || s.expires->0 > now,
        ),
    decreases strokes.len(),
{
    reveal(Seq::filter);
    if strokes.len() > 0 {
        lemma_lasting_is_a_filter(strokes.drop_last(), now);
    }
}

/// **A lifted pen leaves its drawing**, for five seconds where it clears by
/// itself and for good where it does not; a drawing without a place on the
/// picture is dropped, and no other drawing changes.
pub proof fn law_a_lifted_pen_leaves_its_drawing(
    drawings: Drawings,
    key: u64,
    pen_up: u64,
    auto_clear: bool,
    placed: bool,
)
    ensures
        ({
            let next = drawings.released(key, pen_up, auto_clear, placed);
            let n = drawings.strokes.len() as int;
            &&& !next.drawing
            &&& !drawings.drawing || !placed ==> next.strokes == drawings.strokes
            &&& drawings.drawing && placed ==> {
                &&& next.strokes.len() == n + 1
                &&& next.strokes.take(n) == drawings.strokes
                &&& next.strokes[n].key == key
                &&& next.strokes[n].expires is Some <==> auto_clear
                &&& auto_clear && pen_up + 5_000_000_000 <= u64::MAX
                    ==> next.strokes[n].expires->0 == pen_up + 5_000_000_000
            }
        }),
        drawings.any() <==> drawings.drawing || drawings.strokes.len() > 0,
        !Drawings::none().any(),
{
    let next = drawings.released(key, pen_up, auto_clear, placed);
    if drawings.drawing && placed {
        assert(next.strokes.take(drawings.strokes.len() as int) =~= drawings.strokes);
    }
}

} // verus!
