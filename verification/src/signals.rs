//! What the crowd and the referee sound like: whistles and cheers, from the
//! levels a filter bank measured.
//!
//! Everything here is a number series over the same grid, 32 ms windows on a
//! 16 ms hop, and every threshold is **relative to a 60 s rolling median of the
//! signal's own band**: venues differ too much for anything absolute. Levels
//! are in thousandths of a decibel.
//!
//! # Why a whistle needs a tonality term
//!
//! A shout is broadband and leaks into the whistle band, so a whistle is a
//! peak that is loud against the band's recent past and holds its pitch **and**
//! stands over the rest of its own window. The last term catches sound that is
//! broadband and steady, such as a horn.

use vstd::prelude::*;

verus! {

/// The rate every signal here is defined at.
pub const SIGNAL_SAMPLE_RATE: u32 = 16_000;

/// The analysis window: 32 ms.
pub const WINDOW_SAMPLES: usize = 512;

/// The step between windows: 16 ms.
pub const HOP_SAMPLES: usize = 256;

/// [`HOP_SAMPLES`] in ticks: the resolution of every time reported here.
pub const HOP_TICKS: i64 = 48_000_000;

/// How much recent past a level is judged against, in ticks: 60 s.
pub const MEDIAN_TICKS: i64 = 180_000_000_000;

/// The lowest bin of the whistle bank.
pub const WHISTLE_BAND_LOW_HZ: i32 = 2_000;

/// The spacing of the whistle bank's bins.
pub const WHISTLE_BIN_HZ: i32 = 75;

/// 2000 Hz to 4925 Hz in [`WHISTLE_BIN_HZ`] steps.
pub const WHISTLE_BINS: usize = 40;

/// How far the peak bin must stand over the band's rolling median.
pub const WHISTLE_SNR: i64 = 15_000;

/// How far the peak bin must stand over the median of the *other* bins in its
/// own window.
pub const WHISTLE_TONALITY: i64 = 10_000;

/// How far the peak may wander, in Hz, and still be the same whistle.
pub const WHISTLE_PITCH_HZ: i64 = 150;

/// The shortest run that counts as a whistle, in ticks: 0.15 s.
pub const WHISTLE_MIN_TICKS: i64 = 450_000_000;

/// The half-ending blast, not a play-on peep, in ticks: 0.8 s.
pub const WHISTLE_LONG_TICKS: i64 = 2_400_000_000;

/// How far the cheer band must rise over its rolling median.
pub const CHEER_SNR: i64 = 8_000;

/// How long that rise must hold, in ticks: 1 s.
pub const CHEER_MIN_TICKS: i64 = 3_000_000_000;

/// The most windows a series may hold: with one more, the time of its end would
/// outgrow the tick counter.
pub const MAX_WINDOWS: u64 = 192_153_584_100;

// ---------------------------------------------------------------------------
// The framing.

/// How many windows fit in `samples` samples.
pub open spec fn windows_in(samples: int) -> int {
    if samples < WINDOW_SAMPLES {
        0
    } else {
        (samples - WINDOW_SAMPLES) / (HOP_SAMPLES as int) + 1
    }
}

/// How many windows fit in `samples` samples.
pub fn frame_count(samples: usize) -> (windows: usize)
    ensures
        windows == windows_in(samples as int),
{
    if samples < 512 {
        0
    } else {
        (samples - 512) / 256 + 1
    }
}

/// Window `i`'s time: the **centre** of the window, since a run's first and
/// last windows are the ones half over the event.
pub open spec fn window_time(i: int) -> int {
    i * HOP_TICKS + HOP_TICKS
}

/// Window `i`'s time, in ticks.
pub fn frame_time(i: usize) -> (at: i64)
    requires
        i <= MAX_WINDOWS,
    ensures
        at == window_time(i as int),
{
    i as i64 * 48_000_000 + 48_000_000
}

/// [`MEDIAN_TICKS`] as a count of windows.
pub fn median_span() -> (span: usize)
    ensures
        span * HOP_TICKS == MEDIAN_TICKS,
        span == 3750,
{
    3750
}

// ---------------------------------------------------------------------------
// The rolling median.

/// The width of a histogram bucket: the median is reported to this precision.
pub const MEDIAN_BUCKET: i32 = 500;

/// The lowest level the histogram distinguishes. Below it everything is
/// silence.
pub const MEDIAN_FLOOR: i32 = -160_000;

/// -160 dB to +40 dB in [`MEDIAN_BUCKET`] buckets.
pub const MEDIAN_BUCKETS: usize = 400;

/// The bucket a level falls in.
pub open spec fn bucket_of(level: i32) -> int {
    if level <= MEDIAN_FLOOR {
        0
    } else if level >= MEDIAN_FLOOR + MEDIAN_BUCKETS * MEDIAN_BUCKET {
        MEDIAN_BUCKETS - 1
    } else {
        (level - MEDIAN_FLOOR) / (MEDIAN_BUCKET as int)
    }
}

/// The level in the middle of a bucket.
pub open spec fn bucket_level(bucket: int) -> int {
    MEDIAN_FLOOR + bucket * MEDIAN_BUCKET + MEDIAN_BUCKET / 2
}

/// How many of `levels[lo..hi]` fall in a bucket.
pub open spec fn in_bucket(levels: Seq<i32>, lo: int, hi: int, bucket: int) -> int
    decreases hi - lo,
{
    if hi <= lo {
        0
    } else {
        in_bucket(levels, lo, hi - 1, bucket) + if bucket_of(levels[hi - 1]) == bucket {
            1int
        } else {
            0
        }
    }
}

/// How many of `levels[lo..hi]` fall in a bucket or a lower one.
pub open spec fn up_to_bucket(levels: Seq<i32>, lo: int, hi: int, bucket: int) -> int
    decreases hi - lo,
{
    if hi <= lo {
        0
    } else {
        up_to_bucket(levels, lo, hi - 1, bucket) + if bucket_of(levels[hi - 1]) <= bucket {
            1int
        } else {
            0
        }
    }
}

/// Whether `bucket` holds the median of `levels[lo..hi]`: the first by which
/// more than half have been seen.
pub open spec fn holds_median(levels: Seq<i32>, lo: int, hi: int, bucket: int) -> bool {
    &&& 0 <= bucket < MEDIAN_BUCKETS
    &&& up_to_bucket(levels, lo, hi, bucket) > (hi - lo) / 2
    &&& up_to_bucket(levels, lo, hi, bucket - 1) <= (hi - lo) / 2
}

/// Where the centred window of `span` round position `i` begins.
pub open spec fn window_lo(i: int, span: int) -> int {
    if i >= span / 2 {
        i - span / 2
    } else {
        0
    }
}

/// Where the centred window of `span` round position `i` ends.
pub open spec fn window_hi(i: int, span: int, len: int) -> int {
    if i + span / 2 + 1 <= len {
        i + span / 2 + 1
    } else {
        len
    }
}

/// Whether `level` is the median of the window of `span` round position `i`,
/// to the precision of a bucket.
pub open spec fn is_median(levels: Seq<i32>, span: int, i: int, level: int) -> bool {
    exists|bucket: int|
        #[trigger] holds_median(
            levels,
            window_lo(i, span),
            window_hi(i, span, levels.len() as int),
            bucket,
        ) && level == bucket_level(bucket)
}

proof fn lemma_bucket_in_range(level: i32)
    ensures
        0 <= bucket_of(level) < MEDIAN_BUCKETS,
{
}

proof fn lemma_next_bucket(levels: Seq<i32>, lo: int, hi: int, bucket: int)
    ensures
        up_to_bucket(levels, lo, hi, bucket) == up_to_bucket(levels, lo, hi, bucket - 1)
            + in_bucket(levels, lo, hi, bucket),
        in_bucket(levels, lo, hi, bucket) >= 0,
        up_to_bucket(levels, lo, hi, bucket) >= 0,
    decreases hi - lo,
{
    if hi > lo {
        lemma_next_bucket(levels, lo, hi - 1, bucket);
        lemma_next_bucket(levels, lo, hi - 1, bucket - 1);
    }
}

proof fn lemma_all_buckets(levels: Seq<i32>, lo: int, hi: int)
    requires
        lo <= hi,
    ensures
        up_to_bucket(levels, lo, hi, MEDIAN_BUCKETS - 1) == hi - lo,
        up_to_bucket(levels, lo, hi, -1) == 0,
    decreases hi - lo,
{
    if hi > lo {
        lemma_all_buckets(levels, lo, hi - 1);
        lemma_bucket_in_range(levels[hi - 1]);
    }
}

proof fn lemma_drop_oldest(levels: Seq<i32>, lo: int, hi: int, bucket: int)
    requires
        lo < hi,
    ensures
        in_bucket(levels, lo, hi, bucket) == in_bucket(levels, lo + 1, hi, bucket) + if bucket_of(
            levels[lo],
        ) == bucket {
            1int
        } else {
            0
        },
    decreases hi - lo,
{
    if hi > lo + 1 {
        lemma_drop_oldest(levels, lo, hi - 1, bucket);
    } else {
        assert(in_bucket(levels, lo, hi - 1, bucket) == 0);
        assert(in_bucket(levels, lo + 1, hi, bucket) == 0);
    }
}

proof fn lemma_bucket_is_no_more(levels: Seq<i32>, lo: int, hi: int, bucket: int)
    requires
        lo <= hi,
    ensures
        0 <= in_bucket(levels, lo, hi, bucket) <= hi - lo,
        0 <= up_to_bucket(levels, lo, hi, bucket) <= hi - lo,
    decreases hi - lo,
{
    if hi > lo {
        lemma_bucket_is_no_more(levels, lo, hi - 1, bucket);
    }
}

fn bucket(level: i32) -> (b: usize)
    ensures
        b == bucket_of(level),
        b < MEDIAN_BUCKETS,
{
    if level <= -160_000 {
        0
    } else if level >= 40_000 {
        399
    } else {
        ((level + 160_000) / 500) as usize
    }
}

/// The median of `levels` over a centred window of `span`, one per level,
/// clamped at both ends of the series.
///
/// A histogram rather than a sort: buckets of half a decibel make every step
/// cheap, and half a decibel is nothing against the thresholds.
#[verifier::spinoff_prover]
pub fn rolling_median(levels: &Vec<i32>, span: usize) -> (medians: Vec<i32>)
    ensures
        medians@.len() == levels@.len(),
        forall|i: int|
            0 <= i < levels@.len() ==> is_median(
                levels@,
                span as int,
                i,
                #[trigger] medians@[i] as int,
            ),
{
    let half: usize = span / 2;
    let mut histogram: Vec<usize> = Vec::new();
    for b in 0..MEDIAN_BUCKETS
        invariant
            histogram@.len() == b,
            forall|k: int| 0 <= k < b ==> histogram@[k] == 0,
    {
        histogram.push(0);
    }
    let mut lo: usize = 0;
    let mut hi: usize = 0;
    let mut medians: Vec<i32> = Vec::new();
    for i in 0..levels.len()
        invariant
            half == span / 2,
            medians@.len() == i,
            histogram@.len() == MEDIAN_BUCKETS,
            0 <= lo <= hi <= levels@.len(),
            i == 0 ==> lo == 0 && hi == 0,
            i > 0 ==> lo == window_lo(i - 1, span as int) && hi == window_hi(
                i - 1,
                span as int,
                levels@.len() as int,
            ),
            forall|k: int|
                0 <= k < MEDIAN_BUCKETS ==> #[trigger] histogram@[k] == in_bucket(
                    levels@,
                    lo as int,
                    hi as int,
                    k,
                ),
            forall|k: int|
                0 <= k < i ==> is_median(levels@, span as int, k, #[trigger] medians@[k] as int),
    {
        let end: usize = if half < levels.len() - i {
            i + half + 1
        } else {
            levels.len()
        };
        let start: usize = if i >= half {
            i - half
        } else {
            0
        };
        while hi < end
            invariant
                0 <= lo <= hi <= end <= levels@.len(),
                histogram@.len() == MEDIAN_BUCKETS,
                forall|k: int|
                    0 <= k < MEDIAN_BUCKETS ==> #[trigger] histogram@[k] == in_bucket(
                        levels@,
                        lo as int,
                        hi as int,
                        k,
                    ),
            decreases end - hi,
        {
            let b = bucket(levels[hi]);
            proof {
                lemma_bucket_is_no_more(levels@, lo as int, hi as int, b as int);
            }
            let n = histogram[b];
            histogram.set(b, n + 1);
            hi = hi + 1;
        }
        while lo < start
            invariant
                0 <= lo <= start <= hi <= levels@.len(),
                histogram@.len() == MEDIAN_BUCKETS,
                forall|k: int|
                    0 <= k < MEDIAN_BUCKETS ==> #[trigger] histogram@[k] == in_bucket(
                        levels@,
                        lo as int,
                        hi as int,
                        k,
                    ),
            decreases start - lo,
        {
            let b = bucket(levels[lo]);
            proof {
                assert forall|k: int| 0 <= k < MEDIAN_BUCKETS implies in_bucket(
                    levels@,
                    lo as int,
                    hi as int,
                    k,
                ) == #[trigger] in_bucket(levels@, lo + 1, hi as int, k) + if b == k {
                    1int
                } else {
                    0
                } by {
                    lemma_drop_oldest(levels@, lo as int, hi as int, k);
                }
                lemma_bucket_is_no_more(levels@, lo + 1, hi as int, b as int);
            }
            let n = histogram[b];
            histogram.set(b, n - 1);
            lo = lo + 1;
        }
        let middle = median_bucket(&histogram, levels, lo, hi);
        proof {
            assert(holds_median(
                levels@,
                window_lo(i as int, span as int),
                window_hi(i as int, span as int, levels@.len() as int),
                middle as int,
            ));
        }
        medians.push(-160_000 + middle as i32 * 500 + 250);
    }
    medians
}

/// The bucket by which more than half of a window has been seen.
fn median_bucket(
    histogram: &Vec<usize>,
    levels: &Vec<i32>,
    lo: usize,
    hi: usize,
) -> (middle: usize)
    requires
        lo < hi <= levels@.len(),
        histogram@.len() == MEDIAN_BUCKETS,
        forall|k: int|
            0 <= k < MEDIAN_BUCKETS ==> #[trigger] histogram@[k] == in_bucket(
                levels@,
                lo as int,
                hi as int,
                k,
            ),
    ensures
        holds_median(levels@, lo as int, hi as int, middle as int),
{
    let count: usize = hi - lo;
    let mut seen: usize = 0;
    proof {
        lemma_all_buckets(levels@, lo as int, hi as int);
    }
    for b in 0..MEDIAN_BUCKETS
        invariant
            lo < hi <= levels@.len(),
            count == hi - lo,
            histogram@.len() == MEDIAN_BUCKETS,
            forall|k: int|
                0 <= k < MEDIAN_BUCKETS ==> #[trigger] histogram@[k] == in_bucket(
                    levels@,
                    lo as int,
                    hi as int,
                    k,
                ),
            seen == up_to_bucket(levels@, lo as int, hi as int, b - 1),
            seen <= count / 2,
            up_to_bucket(levels@, lo as int, hi as int, MEDIAN_BUCKETS - 1) == count,
    {
        proof {
            lemma_next_bucket(levels@, lo as int, hi as int, b as int);
            lemma_bucket_is_no_more(levels@, lo as int, hi as int, b as int);
        }
        seen = seen + histogram[b];
        if seen > count / 2 {
            return b;
        }
    }
    // Every level is in some bucket, so one of them was the middle one.
    399
}

/// **A median is determined**: no window has two.
pub proof fn law_the_median_is_unique(levels: Seq<i32>, lo: int, hi: int, a: int, b: int)
    requires
        holds_median(levels, lo, hi, a),
        holds_median(levels, lo, hi, b),
    ensures
        a == b,
{
    if a < b {
        lemma_counts_ascend(levels, lo, hi, a, b - 1);
    } else if b < a {
        lemma_counts_ascend(levels, lo, hi, b, a - 1);
    }
}

proof fn lemma_counts_ascend(levels: Seq<i32>, lo: int, hi: int, a: int, b: int)
    requires
        a <= b,
    ensures
        up_to_bucket(levels, lo, hi, a) <= up_to_bucket(levels, lo, hi, b),
    decreases hi - lo,
{
    if hi > lo {
        lemma_counts_ascend(levels, lo, hi - 1, a, b);
    }
}

proof fn lemma_counted_below(levels: Seq<i32>, lo: int, hi: int, bucket: int, below: int)
    requires
        0 <= lo <= hi <= levels.len(),
        -1 <= bucket < 400,
        below == -160_000 + (bucket + 1) * 500,
        forall|k: int| 0 <= k < levels.len() ==> -160_000 <= #[trigger] levels[k] < 40_000,
    ensures
        up_to_bucket(levels, lo, hi, bucket) == levels.subrange(lo, hi).filter(
            |level: i32| level < below,
        ).len(),
    decreases hi - lo,
{
    let quiet = |level: i32| level < below;
    let window = levels.subrange(lo, hi);
    reveal(Seq::filter);
    if hi > lo {
        lemma_counted_below(levels, lo, hi - 1, bucket, below);
        assert(window.drop_last() =~= levels.subrange(lo, hi - 1));
        let level = levels[hi - 1];
        assert(window.last() == level);
        assert((bucket_of(level) <= bucket) == (level < below)) by {
            assert(-160_000 <= level < 40_000);
            let from = level + 160_000;
            assert((from / 500 <= bucket) == (from < (bucket + 1) * 500));
        }
    }
}

/// **A median stands in the middle**: of the levels within half a span of
/// position `i`, more than half are below its bucket's upper edge, and no more
/// than half below its lower one.
pub proof fn law_a_median_stands_in_the_middle(
    levels: Seq<i32>,
    span: int,
    i: int,
    level: int,
    lo: int,
    hi: int,
)
    requires
        0 <= i < levels.len(),
        span >= 0,
        lo == if i < span / 2 {
            0
        } else {
            i - span / 2
        },
        hi == if i + span / 2 >= levels.len() {
            levels.len() as int
        } else {
            i + span / 2 + 1
        },
        forall|k: int| 0 <= k < levels.len() ==> -160_000 <= #[trigger] levels[k] < 40_000,
        is_median(levels, span, i, level),
    ensures
        (level + 160_000) % 500 == 250,
        -160_000 <= level < 40_000,
        2 * levels.subrange(lo, hi).filter(|l: i32| l < level + 250).len() > hi - lo,
        2 * levels.subrange(lo, hi).filter(|l: i32| l < level - 250).len() <= hi - lo,
{
    let bucket = choose|bucket: int|
        #[trigger] holds_median(levels, lo, hi, bucket) && level == bucket_level(bucket);
    lemma_counted_below(levels, lo, hi, bucket, level + 250);
    lemma_counted_below(levels, lo, hi, bucket - 1, level - 250);
}

/// Whether the histogram tells a level from silence and from the loudest.
pub open spec fn on_scale(level: i32) -> bool {
    MEDIAN_FLOOR <= level < MEDIAN_FLOOR + MEDIAN_BUCKETS * MEDIAN_BUCKET
}

/// **Nothing absolute counts**: at a venue louder by some whole buckets, each
/// median is louder by as much, and so every level is as far over its median
/// as before.
#[verifier::spinoff_prover]
pub proof fn law_a_louder_venue_changes_nothing(
    levels: Seq<i32>,
    louder: Seq<i32>,
    steps: int,
    span: int,
    i: int,
    level: int,
)
    requires
        louder.len() == levels.len(),
        forall|k: int|
            0 <= k < levels.len() ==> {
                &&& on_scale(#[trigger] levels[k])
                &&& on_scale(louder[k])
                &&& louder[k] == levels[k] + steps * MEDIAN_BUCKET
            },
        0 <= i < levels.len(),
        span >= 0,
        is_median(levels, span, i, level),
    ensures
        is_median(louder, span, i, level + steps * MEDIAN_BUCKET),
{
    let lo = window_lo(i, span);
    let hi = window_hi(i, span, levels.len() as int);
    let bucket = choose|bucket: int|
        #[trigger] holds_median(levels, lo, hi, bucket) && level == bucket_level(bucket);
    lemma_louder_counts(levels, louder, steps, lo, hi, bucket);
    lemma_louder_counts(levels, louder, steps, lo, hi, bucket - 1);
    lemma_next_bucket(levels, lo, hi, bucket);
    let k = lemma_some_level(levels, lo, hi, bucket);
    assert(bucket_of(louder[k]) == bucket + steps) by {
        lemma_louder_bucket(levels[k], louder[k], steps);
    }
    lemma_bucket_in_range(louder[k]);
    assert(holds_median(louder, lo, hi, bucket + steps));
    assert(bucket_level(bucket + steps) == bucket_level(bucket) + steps * MEDIAN_BUCKET);
}

proof fn lemma_louder_bucket(level: i32, louder: i32, steps: int)
    requires
        on_scale(level),
        on_scale(louder),
        louder == level + steps * MEDIAN_BUCKET,
    ensures
        bucket_of(louder) == bucket_of(level) + steps,
{
    let from = level - MEDIAN_FLOOR;
    assert((from + steps * 500) / 500 == from / 500 + steps);
}

proof fn lemma_louder_counts(
    levels: Seq<i32>,
    louder: Seq<i32>,
    steps: int,
    lo: int,
    hi: int,
    bucket: int,
)
    requires
        0 <= lo,
        hi <= levels.len(),
        louder.len() == levels.len(),
        forall|k: int|
            0 <= k < levels.len() ==> {
                &&& on_scale(#[trigger] levels[k])
                &&& on_scale(louder[k])
                &&& louder[k] == levels[k] + steps * MEDIAN_BUCKET
            },
    ensures
        up_to_bucket(louder, lo, hi, bucket + steps) == up_to_bucket(levels, lo, hi, bucket),
    decreases hi - lo,
{
    if hi > lo {
        lemma_louder_counts(levels, louder, steps, lo, hi - 1, bucket);
        lemma_louder_bucket(levels[hi - 1], louder[hi - 1], steps);
    }
}

proof fn lemma_some_level(levels: Seq<i32>, lo: int, hi: int, bucket: int) -> (k: int)
    requires
        in_bucket(levels, lo, hi, bucket) > 0,
    ensures
        lo <= k < hi,
        bucket_of(levels[k]) == bucket,
    decreases hi - lo,
{
    if bucket_of(levels[hi - 1]) == bucket {
        hi - 1
    } else {
        lemma_some_level(levels, lo, hi - 1, bucket)
    }
}

/// Each level over its own [`MEDIAN_TICKS`] rolling median.
pub fn excess_over_median(levels: &Vec<i32>) -> (excess: Vec<i64>)
    ensures
        excess@.len() == levels@.len(),
        forall|i: int|
            0 <= i < levels@.len() ==> is_median(
                levels@,
                3750,
                i,
                levels@[i] - #[trigger] excess@[i],
            ),
{
    let medians = rolling_median(levels, median_span());
    let mut excess: Vec<i64> = Vec::new();
    for i in 0..levels.len()
        invariant
            excess@.len() == i,
            medians@.len() == levels@.len(),
            forall|k: int|
                0 <= k < levels@.len() ==> is_median(
                    levels@,
                    3750,
                    k,
                    #[trigger] medians@[k] as int,
                ),
            forall|k: int| 0 <= k < i ==> #[trigger] excess@[k] == levels@[k] - medians@[k],
    {
        excess.push(levels[i] as i64 - medians[i] as i64);
    }
    assert forall|i: int| 0 <= i < levels@.len() implies is_median(
        levels@,
        3750,
        i,
        levels@[i] - #[trigger] excess@[i],
    ) by {
        assert(is_median(levels@, 3750, i, medians@[i] as int));
    }
    excess
}

// ---------------------------------------------------------------------------
// Cheers.

/// One broadband rise in the crowd band.
#[derive(Debug, Clone, Copy, PartialEq, Eq, Structural)]
pub struct Cheer {
    /// Ticks into the sound, at the centre of the first window that held it.
    pub onset: i64,
    /// How long it held, in whole hops, as ticks.
    pub duration: i64,
    /// The loudest window's rise over the rolling median.
    pub peak: i64,
}

/// Where a run of windows at or over a threshold ends.
pub open spec fn rise_end(excess: Seq<i64>, snr: i64, i: int) -> int
    decreases excess.len() - i,
{
    if i < excess.len() && excess[i] >= snr {
        rise_end(excess, snr, i + 1)
    } else {
        i
    }
}

/// The largest of `excess[from..to]`.
pub open spec fn peak_of(excess: Seq<i64>, from: int, to: int) -> i64
    decreases to - from,
{
    if to <= from + 1 {
        excess[from]
    } else {
        let before = peak_of(excess, from, to - 1);
        if excess[to - 1] > before {
            excess[to - 1]
        } else {
            before
        }
    }
}

/// The cheers from window `i` on: one for every unbroken run at or over the
/// threshold that holds long enough.
pub open spec fn cheers_from_window(excess: Seq<i64>, snr: i64, min_ticks: i64, i: int) -> Seq<
    Cheer,
>
    decreases excess.len() - i,
    when 0 <= i
{
    if i >= excess.len() {
        seq![]
    } else if excess[i] < snr {
        cheers_from_window(excess, snr, min_ticks, i + 1)
    } else {
        let end = rise_end(excess, snr, i + 1);
        let duration = (end - i - 1) * HOP_TICKS;
        (if duration >= min_ticks {
            seq![
                Cheer {
                    onset: window_time(i) as i64,
                    duration: duration as i64,
                    peak: peak_of(excess, i, end),
                },
            ]
        } else {
            seq![]
        }) + if i < end <= excess.len() {
            cheers_from_window(excess, snr, min_ticks, end)
        } else {
            seq![]
        }
    }
}

proof fn lemma_rise_end(excess: Seq<i64>, snr: i64, i: int)
    requires
        0 <= i <= excess.len(),
    ensures
        i <= rise_end(excess, snr, i) <= excess.len(),
        forall|k: int| i <= k < rise_end(excess, snr, i) ==> #[trigger] excess[k] >= snr,
        rise_end(excess, snr, i) < excess.len() ==> excess[rise_end(excess, snr, i)] < snr,
    decreases excess.len() - i,
{
    if i < excess.len() && excess[i] >= snr {
        lemma_rise_end(excess, snr, i + 1);
    }
}

proof fn lemma_rise_extends(excess: Seq<i64>, snr: i64, from: int, to: int)
    requires
        0 <= from <= to <= excess.len(),
        forall|k: int| from <= k < to ==> #[trigger] excess[k] >= snr,
    ensures
        rise_end(excess, snr, from) == rise_end(excess, snr, to),
    decreases to - from,
{
    if from < to {
        assert(excess[from] >= snr);
        lemma_rise_extends(excess, snr, from + 1, to);
    }
}

/// The cheers in a series of levels over their median, at the given
/// thresholds.
pub fn cheers_from(excess: &Vec<i64>, snr: i64, min_ticks: i64) -> (cheers: Vec<Cheer>)
    requires
        excess@.len() <= MAX_WINDOWS,
    ensures
        cheers@ == cheers_from_window(excess@, snr, min_ticks, 0),
{
    let mut cheers: Vec<Cheer> = Vec::new();
    let mut i: usize = 0;
    let ghost all = cheers_from_window(excess@, snr, min_ticks, 0);
    assert(cheers@ + all =~= all);
    while i < excess.len()
        invariant
            i <= excess@.len() <= MAX_WINDOWS,
            cheers@ + cheers_from_window(excess@, snr, min_ticks, i as int) == all,
        decreases excess@.len() - i,
    {
        if excess[i] < snr {
            i = i + 1;
            continue ;
        }
        let mut end: usize = i + 1;
        let mut peak: i64 = excess[i];
        while end < excess.len() && excess[end] >= snr
            invariant
                i < end <= excess@.len(),
                peak == peak_of(excess@, i as int, end as int),
                forall|k: int| i < k < end ==> #[trigger] excess@[k] >= snr,
            decreases excess@.len() - end,
        {
            if excess[end] > peak {
                peak = excess[end];
            }
            end = end + 1;
        }
        proof {
            lemma_rise_extends(excess@, snr, i + 1, end as int);
        }
        let duration: i64 = (end - i - 1) as i64 * 48_000_000;
        let ghost before = cheers@;
        if duration >= min_ticks {
            cheers.push(Cheer { onset: frame_time(i), duration, peak });
        }
        proof {
            assert(cheers@ + cheers_from_window(excess@, snr, min_ticks, end as int) =~= before
                + cheers_from_window(excess@, snr, min_ticks, i as int));
        }
        i = end;
    }
    assert(cheers@ =~= all);
    cheers
}

/// Cheers that each last at least the minimum and reach the threshold, none
/// before `from`, in order and without touching.
pub open spec fn apart(cheers: Seq<Cheer>, snr: i64, min_ticks: i64, from: int) -> bool {
    &&& forall|k: int|
        0 <= k < cheers.len() ==> {
            &&& (#[trigger] cheers[k]).duration >= min_ticks
            &&& cheers[k].peak >= snr
            &&& cheers[k].onset >= from
        }
    &&& forall|a: int, b: int|
        0 <= a < b < cheers.len() ==> cheers[a].onset + cheers[a].duration < cheers[b].onset
}

/// **Every cheer is a rise that held**: it lasts at least the minimum, its
/// peak reaches the threshold, and cheers come in order without touching.
pub proof fn law_cheers_held(excess: Seq<i64>, snr: i64, min_ticks: i64, i: int)
    requires
        0 <= i <= excess.len() <= MAX_WINDOWS,
    ensures
        apart(cheers_from_window(excess, snr, min_ticks, i), snr, min_ticks, window_time(i)),
    decreases excess.len() - i,
{
    if i < excess.len() {
        if excess[i] < snr {
            law_cheers_held(excess, snr, min_ticks, i + 1);
        } else {
            let end = rise_end(excess, snr, i + 1);
            lemma_rise_end(excess, snr, i + 1);
            law_cheers_held(excess, snr, min_ticks, end);
            lemma_peak_reaches(excess, snr, i, end);
            let rest = cheers_from_window(excess, snr, min_ticks, end);
            let cheers = cheers_from_window(excess, snr, min_ticks, i);
            if (end - i - 1) * HOP_TICKS >= min_ticks {
                let first = cheers[0];
                assert(cheers =~= seq![first] + rest);
                assert(first.onset + first.duration < window_time(end));
                assert forall|a: int, b: int| 0 <= a < b < cheers.len() implies cheers[a].onset
                    + cheers[a].duration < cheers[b].onset by {
                    assert(cheers[b] == rest[b - 1]);
                    if a > 0 {
                        assert(cheers[a] == rest[a - 1]);
                    }
                }
            } else {
                assert(cheers =~= rest);
            }
        }
    }
}

proof fn lemma_peak_reaches(excess: Seq<i64>, snr: i64, from: int, to: int)
    requires
        0 <= from < to <= excess.len(),
        forall|k: int| from <= k < to ==> #[trigger] excess[k] >= snr,
    ensures
        peak_of(excess, from, to) >= snr,
    decreases to - from,
{
    if to > from + 1 {
        lemma_peak_reaches(excess, snr, from, to - 1);
    }
}

/// Whether windows `start..end` are an unbroken run at or over the threshold,
/// which no window next to it belongs to.
pub open spec fn is_rise(excess: Seq<i64>, snr: i64, start: int, end: int) -> bool {
    &&& 0 <= start < end <= excess.len()
    &&& forall|w: int| start <= w < end ==> #[trigger] excess[w] >= snr
    &&& start > 0 ==> excess[start - 1] < snr
    &&& end < excess.len() ==> excess[end] < snr
}

/// Whether a cheer reports a rise: where it starts, how long it held, and its
/// loudest window.
pub open spec fn tells(excess: Seq<i64>, cheer: Cheer, start: int, end: int) -> bool {
    &&& cheer.onset == (start + 1) * 48_000_000
    &&& cheer.duration == (end - start - 1) * 48_000_000
    &&& forall|w: int| start <= w < end ==> #[trigger] excess[w] <= cheer.peak
    &&& exists|w: int| start <= w < end && #[trigger] excess[w] == cheer.peak
}

proof fn lemma_peak_is_the_largest(excess: Seq<i64>, from: int, to: int) -> (at: int)
    requires
        0 <= from < to <= excess.len(),
    ensures
        from <= at < to,
        excess[at] == peak_of(excess, from, to),
        forall|w: int| from <= w < to ==> #[trigger] excess[w] <= peak_of(excess, from, to),
    decreases to - from,
{
    if to <= from + 1 {
        from
    } else {
        let before = lemma_peak_is_the_largest(excess, from, to - 1);
        if excess[to - 1] > peak_of(excess, from, to - 1) {
            to - 1
        } else {
            before
        }
    }
}

/// **Every rise that held is a cheer**: each unbroken run at or over the
/// threshold that lasts the minimum is reported, wherever it is.
pub proof fn law_every_rise_is_a_cheer(
    excess: Seq<i64>,
    snr: i64,
    min_ticks: i64,
    from: int,
    start: int,
    end: int,
) -> (n: int)
    requires
        excess.len() <= MAX_WINDOWS,
        0 <= from <= start,
        from == 0 || excess[from - 1] < snr || from == excess.len() || excess[from] < snr,
        is_rise(excess, snr, start, end),
        (end - start - 1) * 48_000_000 >= min_ticks,
    ensures
        0 <= n < cheers_from_window(excess, snr, min_ticks, from).len(),
        tells(excess, cheers_from_window(excess, snr, min_ticks, from)[n], start, end),
    decreases excess.len() - from,
{
    let cheers = cheers_from_window(excess, snr, min_ticks, from);
    if excess[from] < snr {
        law_every_rise_is_a_cheer(excess, snr, min_ticks, from + 1, start, end)
    } else {
        let stop = rise_end(excess, snr, from + 1);
        lemma_rise_end(excess, snr, from + 1);
        if start == from {
            if stop < end {
                assert(excess[stop] >= snr);
            } else if end < stop {
                assert(excess[end] >= snr);
            }
            let at = lemma_peak_is_the_largest(excess, from, end);
            assert(excess[at] == cheers[0].peak);
            0
        } else {
            if start <= stop {
                if start < stop {
                    assert(excess[start - 1] >= snr);
                }
                if start == stop {
                    assert(excess[stop] >= snr);
                }
            }
            let rest = cheers_from_window(excess, snr, min_ticks, stop);
            let n = law_every_rise_is_a_cheer(excess, snr, min_ticks, stop, start, end);
            if (stop - from - 1) * HOP_TICKS >= min_ticks {
                assert(cheers[n + 1] == rest[n]);
                n + 1
            } else {
                assert(cheers =~= rest);
                n
            }
        }
    }
}

/// **Every cheer is a rise that held**: an unbroken run at or over the
/// threshold, for the minimum or longer.
pub proof fn law_every_cheer_is_a_rise(
    excess: Seq<i64>,
    snr: i64,
    min_ticks: i64,
    from: int,
    n: int,
) -> (run: (int, int))
    requires
        excess.len() <= MAX_WINDOWS,
        0 <= from <= excess.len(),
        from == 0 || excess[from - 1] < snr || from == excess.len() || excess[from] < snr,
        0 <= n < cheers_from_window(excess, snr, min_ticks, from).len(),
    ensures
        from <= run.0,
        is_rise(excess, snr, run.0, run.1),
        (run.1 - run.0 - 1) * 48_000_000 >= min_ticks,
        tells(excess, cheers_from_window(excess, snr, min_ticks, from)[n], run.0, run.1),
    decreases excess.len() - from,
{
    let cheers = cheers_from_window(excess, snr, min_ticks, from);
    if excess[from] < snr {
        law_every_cheer_is_a_rise(excess, snr, min_ticks, from + 1, n)
    } else {
        let stop = rise_end(excess, snr, from + 1);
        lemma_rise_end(excess, snr, from + 1);
        let rest = cheers_from_window(excess, snr, min_ticks, stop);
        if (stop - from - 1) * HOP_TICKS >= min_ticks {
            if n == 0 {
                let at = lemma_peak_is_the_largest(excess, from, stop);
                assert(excess[at] == cheers[0].peak);
                (from, stop)
            } else {
                assert(cheers[n] == rest[n - 1]);
                law_every_cheer_is_a_rise(excess, snr, min_ticks, stop, n - 1)
            }
        } else {
            assert(cheers =~= rest);
            law_every_cheer_is_a_rise(excess, snr, min_ticks, stop, n)
        }
    }
}

/// The cheers in a series of cheer-band levels.
pub fn cheers(levels: &Vec<i32>) -> (cheers: Vec<Cheer>)
    requires
        levels@.len() <= MAX_WINDOWS,
    ensures
        exists|excess: Seq<i64>|
            excess.len() == levels@.len() && (forall|i: int|
                0 <= i < excess.len() ==> is_median(
                    levels@,
                    3750,
                    i,
                    levels@[i] - #[trigger] excess[i],
                )) && cheers@ == #[trigger] cheers_from_window(
                excess,
                CHEER_SNR,
                CHEER_MIN_TICKS,
                0,
            ),
{
    let excess = excess_over_median(levels);
    cheers_from(&excess, CHEER_SNR, CHEER_MIN_TICKS)
}

// ---------------------------------------------------------------------------
// The whistle bank.

/// What the bank of filters says about each window.
#[derive(Debug)]
pub struct Band {
    /// The strongest bin's level.
    pub peak: Vec<i32>,
    /// That bin's frequency, in Hz.
    pub freq: Vec<i32>,
    /// The peak over the median of the window's other bins.
    pub tonality: Vec<i64>,
}

impl Band {
    /// One value of each kind per window.
    pub open spec fn aligned(&self) -> bool {
        self.peak@.len() == self.freq@.len() && self.peak@.len() == self.tonality@.len()
    }
}

/// The frequency of bin `k`.
pub fn bin_hz(k: usize) -> (hz: i32)
    requires
        k < WHISTLE_BINS,
    ensures
        hz == WHISTLE_BAND_LOW_HZ + k * WHISTLE_BIN_HZ,
{
    2_000 + k as i32 * 75
}

/// Whether a run of levels is in ascending order.
pub open spec fn ascending(levels: Seq<i32>) -> bool {
    forall|i: int, j: int| 0 <= i <= j < levels.len() ==> levels[i] <= levels[j]
}

/// The bins in ascending order.
fn sorted(bins: &Vec<i32>) -> (order: Vec<i32>)
    ensures
        ascending(order@),
        order@.to_multiset() == bins@.to_multiset(),
        order@.len() == bins@.len(),
{
    broadcast use vstd::seq_lib::group_to_multiset_ensures;

    let mut order: Vec<i32> = Vec::new();
    assert(bins@.take(0) =~= order@);
    for i in 0..bins.len()
        invariant
            ascending(order@),
            order@.to_multiset() == bins@.take(i as int).to_multiset(),
            order@.len() == i,
    {
        let level = bins[i];
        let mut at: usize = order.len();
        while at > 0 && order[at - 1] > level
            invariant
                at <= order@.len(),
                forall|k: int| at <= k < order@.len() ==> #[trigger] order@[k] > level,
            decreases at,
        {
            at = at - 1;
        }
        let ghost before = order@;
        order.insert(at, level);
        proof {
            broadcast use vstd::seq_lib::group_to_multiset_ensures;

            vstd::seq_lib::to_multiset_insert(before, at as int, level);
            assert(bins@.take(i + 1) =~= bins@.take(i as int).push(level));
        }
    }
    assert(bins@.take(bins@.len() as int) =~= bins@);
    order
}

/// What one window's bins say: the peak, the first bin that reaches it, and
/// how far it stands over the median of the others.
#[derive(Debug, Clone, Copy, PartialEq, Eq, Structural)]
pub struct WindowPeak {
    pub peak: i32,
    pub bin: usize,
    pub tonality: i64,
}

/// Whether `found` is what one window's bins say. The peak is the last of the
/// ordered bins, so the median of the others is the middle of what is left.
pub open spec fn is_window_peak(bins: Seq<i32>, found: WindowPeak) -> bool {
    &&& found.bin < bins.len()
    &&& bins[found.bin as int] == found.peak
    &&& forall|k: int| 0 <= k < bins.len() ==> #[trigger] bins[k] <= found.peak
    &&& forall|k: int| 0 <= k < found.bin ==> #[trigger] bins[k] < found.peak
    &&& exists|order: Seq<i32>| #[trigger]
        ascending(order) && order.to_multiset() == bins.to_multiset() && found.tonality
            == found.peak - order[(bins.len() - 1) / 2]
}

/// The peak of one window of the bank.
pub fn window_peak(bins: &Vec<i32>) -> (found: WindowPeak)
    requires
        bins@.len() > 0,
    ensures
        is_window_peak(bins@, found),
{
    let order = sorted(bins);
    let others = order[(bins.len() - 1) / 2];
    let mut peak: i32 = bins[0];
    let mut bin: usize = 0;
    for k in 1..bins.len()
        invariant
            1 <= k <= bins@.len(),
            bin < k,
            bins@[bin as int] == peak,
            forall|j: int| 0 <= j < k ==> #[trigger] bins@[j] <= peak,
            forall|j: int| 0 <= j < bin ==> #[trigger] bins@[j] < peak,
    {
        if bins[k] > peak {
            peak = bins[k];
            bin = k;
        }
    }
    WindowPeak { peak, bin, tonality: peak as i64 - others as i64 }
}

/// Whether entry `i` of a band is what the bins of that window say.
pub open spec fn measured(band: &Band, i: int, bins: Seq<i32>) -> bool {
    exists|found: WindowPeak| #[trigger]
        is_window_peak(bins, found) && band.peak@[i] == found.peak && band.freq@[i]
            == WHISTLE_BAND_LOW_HZ + found.bin * WHISTLE_BIN_HZ && band.tonality@[i]
            == found.tonality
}

/// What the bank says about each window, from the levels of its bins.
pub fn whistle_band(windows: &Vec<Vec<i32>>) -> (band: Band)
    requires
        forall|i: int| 0 <= i < windows@.len() ==> (#[trigger] windows@[i])@.len() == WHISTLE_BINS,
    ensures
        band.aligned(),
        band.peak@.len() == windows@.len(),
        forall|i: int|
            0 <= i < windows@.len() ==> #[trigger] measured(&band, i, windows@[i]@),
{
    let mut band = Band { peak: Vec::new(), freq: Vec::new(), tonality: Vec::new() };
    for i in 0..windows.len()
        invariant
            forall|k: int|
                0 <= k < windows@.len() ==> (#[trigger] windows@[k])@.len() == WHISTLE_BINS,
            band.aligned(),
            band.peak@.len() == i,
            forall|k: int|
                0 <= k < i ==> #[trigger] measured(&band, k, windows@[k]@),
    {
        let ghost before = band;
        let found = window_peak(&windows[i]);
        band.peak.push(found.peak);
        band.freq.push(bin_hz(found.bin));
        band.tonality.push(found.tonality);
        proof {
            assert(is_window_peak(windows@[i as int]@, found));
            assert(measured(&band, i as int, windows@[i as int]@));
            assert forall|k: int| 0 <= k < i + 1 implies #[trigger] measured(
                &band,
                k,
                windows@[k]@,
            ) by {
                if k < i {
                    assert(measured(&before, k, windows@[k]@));
                }
            }
        }
    }
    band
}

/// **A window shows its loudest bin**: the first that reaches the peak gives
/// the pitch, and the tonality is the peak over the middle of the others, in
/// order.
pub proof fn law_a_window_shows_its_loudest_bin(
    band: &Band,
    i: int,
    bins: Seq<i32>,
    order: Seq<i32>,
) -> (k: int)
    requires
        measured(band, i, bins),
        forall|a: int, b: int| 0 <= a <= b < order.len() ==> order[a] <= order[b],
        order.to_multiset() == bins.to_multiset(),
    ensures
        0 <= k < bins.len(),
        bins[k] == band.peak@[i],
        band.freq@[i] == 2_000 + 75 * k,
        forall|j: int| 0 <= j < bins.len() ==> #[trigger] bins[j] <= bins[k],
        forall|j: int| 0 <= j < k ==> #[trigger] bins[j] < bins[k],
        bins.len() == 40 ==> band.tonality@[i] == bins[k] - order[19],
{
    let found = choose|found: WindowPeak| #[trigger]
        is_window_peak(bins, found) && band.peak@[i] == found.peak && band.freq@[i]
            == WHISTLE_BAND_LOW_HZ + found.bin * WHISTLE_BIN_HZ && band.tonality@[i]
            == found.tonality;
    let other = choose|other: Seq<i32>| #[trigger]
        ascending(other) && other.to_multiset() == bins.to_multiset() && found.tonality
            == found.peak - other[(bins.len() - 1) / 2];
    let leq = |a: i32, b: i32| a <= b;
    vstd::seq_lib::lemma_sorted_unique(order, other, leq);
    found.bin as int
}

// ---------------------------------------------------------------------------
// Whistles.

/// One tonal event in the whistle band.
#[derive(Debug, Clone, Copy, PartialEq, Eq, Structural)]
pub struct Whistle {
    /// Ticks into the sound, at the centre of the first window that held it.
    pub start: i64,
    /// How long it held, in whole hops, as ticks.
    pub duration: i64,
    /// The peak bin of its loudest window, in Hz.
    pub freq: i32,
    /// That window's peak over the band's rolling median.
    pub snr: i64,
    /// That window's peak over the median of its own other bins.
    pub tonality: i64,
}

impl Whistle {
    /// Long enough to be a period's end rather than a stoppage.
    pub fn is_long(&self) -> (long: bool)
        ensures
            long == (self.duration >= WHISTLE_LONG_TICKS),
    {
        self.duration >= WHISTLE_LONG_TICKS
    }
}

/// Window `i`'s peak over the rolling median.
pub open spec fn rise(band: &Band, medians: Seq<i32>, i: int) -> int {
    band.peak@[i] - medians[i]
}

/// Whether window `i` is loud and tonal enough.
pub open spec fn tonal(band: &Band, medians: Seq<i32>, i: int) -> bool {
    rise(band, medians, i) >= WHISTLE_SNR && band.tonality@[i] >= WHISTLE_TONALITY
}

/// Whether window `i`'s peak is near enough to `pitch`.
pub open spec fn on_pitch(band: &Band, pitch: i32, i: int) -> bool {
    -WHISTLE_PITCH_HZ <= band.freq@[i] - pitch <= WHISTLE_PITCH_HZ
}

/// Whether window `i` goes on with a whistle on `pitch`.
pub open spec fn holds_tone(band: &Band, medians: Seq<i32>, pitch: i32, i: int) -> bool {
    tonal(band, medians, i) && on_pitch(band, pitch, i)
}

/// Where a run of windows on one pitch ends. The pitch is held against the
/// run's **first** window: a slide that creeps would otherwise never break.
pub open spec fn tone_end(band: &Band, medians: Seq<i32>, pitch: i32, i: int) -> int
    decreases band.peak@.len() - i,
{
    if i < band.peak@.len() && holds_tone(band, medians, pitch, i) {
        tone_end(band, medians, pitch, i + 1)
    } else {
        i
    }
}

/// The loudest window of `from..to`: of equal ones, the last.
pub open spec fn loudest(band: &Band, medians: Seq<i32>, from: int, to: int) -> int
    decreases to - from,
{
    if to <= from + 1 {
        from
    } else {
        let before = loudest(band, medians, from, to - 1);
        if rise(band, medians, to - 1) >= rise(band, medians, before) {
            to - 1
        } else {
            before
        }
    }
}

/// The whistles from window `i` on: one for every run of tonal windows on one
/// pitch that holds long enough. A run that broke on pitch restarts where it
/// broke, so the second half of a slide gets its own chance.
pub open spec fn whistles_from_window(band: &Band, medians: Seq<i32>, i: int) -> Seq<Whistle>
    decreases band.peak@.len() - i,
    when 0 <= i
{
    if i >= band.peak@.len() {
        seq![]
    } else if !tonal(band, medians, i) {
        whistles_from_window(band, medians, i + 1)
    } else {
        let end = tone_end(band, medians, band.freq@[i], i + 1);
        let duration = (end - i - 1) * HOP_TICKS;
        let at = loudest(band, medians, i, end);
        (if duration >= WHISTLE_MIN_TICKS {
            seq![
                Whistle {
                    start: window_time(i) as i64,
                    duration: duration as i64,
                    freq: band.freq@[at],
                    snr: rise(band, medians, at) as i64,
                    tonality: band.tonality@[at],
                },
            ]
        } else {
            seq![]
        }) + if i < end <= band.peak@.len() {
            whistles_from_window(band, medians, end)
        } else {
            seq![]
        }
    }
}

proof fn lemma_tone_extends(band: &Band, medians: Seq<i32>, pitch: i32, from: int, to: int)
    requires
        0 <= from <= to <= band.peak@.len(),
        forall|k: int| from <= k < to ==> #[trigger] holds_tone(band, medians, pitch, k),
    ensures
        tone_end(band, medians, pitch, from) == tone_end(band, medians, pitch, to),
    decreases to - from,
{
    if from < to {
        assert(holds_tone(band, medians, pitch, from));
        lemma_tone_extends(band, medians, pitch, from + 1, to);
    }
}

fn is_tonal(band: &Band, medians: &Vec<i32>, i: usize) -> (yes: bool)
    requires
        band.aligned(),
        medians@.len() == band.peak@.len(),
        i < band.peak@.len(),
    ensures
        yes == tonal(band, medians@, i as int),
{
    band.peak[i] as i64 - medians[i] as i64 >= WHISTLE_SNR && band.tonality[i] >= WHISTLE_TONALITY
}

/// The whistles in a band whose rolling median is known.
pub fn whistles_from(band: &Band, medians: &Vec<i32>) -> (whistles: Vec<Whistle>)
    requires
        band.aligned(),
        medians@.len() == band.peak@.len() <= MAX_WINDOWS,
    ensures
        whistles@ == whistles_from_window(band, medians@, 0),
{
    let mut whistles: Vec<Whistle> = Vec::new();
    let mut i: usize = 0;
    let ghost all = whistles_from_window(band, medians@, 0);
    assert(whistles@ + all =~= all);
    while i < band.peak.len()
        invariant
            band.aligned(),
            medians@.len() == band.peak@.len() <= MAX_WINDOWS,
            i <= band.peak@.len(),
            whistles@ + whistles_from_window(band, medians@, i as int) == all,
        decreases band.peak@.len() - i,
    {
        if !is_tonal(band, medians, i) {
            i = i + 1;
            continue ;
        }
        let pitch = band.freq[i];
        let mut end: usize = i + 1;
        let mut at: usize = i;
        while end < band.peak.len() && is_tonal(band, medians, end) && band.freq[end] as i64
            - pitch as i64 <= WHISTLE_PITCH_HZ && pitch as i64 - band.freq[end] as i64
            <= WHISTLE_PITCH_HZ
            invariant
                band.aligned(),
                medians@.len() == band.peak@.len(),
                i < end <= band.peak@.len(),
                i <= at < end,
                at == loudest(band, medians@, i as int, end as int),
                forall|k: int| i < k < end ==> #[trigger] holds_tone(band, medians@, pitch, k),
            decreases band.peak@.len() - end,
        {
            if band.peak[end] as i64 - medians[end] as i64 >= band.peak[at] as i64
                - medians[at] as i64 {
                at = end;
            }
            end = end + 1;
        }
        proof {
            lemma_tone_extends(band, medians@, pitch, i + 1, end as int);
        }
        let duration: i64 = (end - i - 1) as i64 * 48_000_000;
        let ghost before = whistles@;
        if duration >= WHISTLE_MIN_TICKS {
            whistles.push(
                Whistle {
                    start: frame_time(i),
                    duration,
                    freq: band.freq[at],
                    snr: band.peak[at] as i64 - medians[at] as i64,
                    tonality: band.tonality[at],
                },
            );
        }
        proof {
            assert(whistles@ + whistles_from_window(band, medians@, end as int) =~= before
                + whistles_from_window(band, medians@, i as int));
        }
        i = end;
    }
    assert(whistles@ =~= all);
    whistles
}

/// Whether every whistle is tonal and held, none begins before `from`, and
/// each begins after the one before it was last heard.
pub open spec fn in_turn(whistles: Seq<Whistle>, from: int) -> bool {
    &&& forall|k: int|
        0 <= k < whistles.len() ==> {
            &&& (#[trigger] whistles[k]).duration >= WHISTLE_MIN_TICKS
            &&& whistles[k].snr >= WHISTLE_SNR
            &&& whistles[k].tonality >= WHISTLE_TONALITY
            &&& whistles[k].start >= from
        }
    &&& forall|a: int, b: int|
        0 <= a < b < whistles.len() ==> whistles[a].start + whistles[a].duration
            < whistles[b].start
}

/// **Every whistle is a tone that held**: it lasts at least the minimum, its
/// loudest window stands far enough over both the band's past and the rest of
/// its own window, and whistles come in order without touching.
pub proof fn law_whistles_held(band: &Band, medians: Seq<i32>, i: int)
    requires
        band.aligned(),
        0 <= i <= band.peak@.len() <= MAX_WINDOWS,
    ensures
        in_turn(whistles_from_window(band, medians, i), window_time(i)),
    decreases band.peak@.len() - i,
{
    if i < band.peak@.len() {
        if !tonal(band, medians, i) {
            law_whistles_held(band, medians, i + 1);
        } else {
            let pitch = band.freq@[i];
            let end = tone_end(band, medians, pitch, i + 1);
            lemma_tone_end(band, medians, pitch, i + 1);
            law_whistles_held(band, medians, end);
            assert forall|k: int| i <= k < end implies #[trigger] tonal(band, medians, k) by {
                if k > i {
                    assert(holds_tone(band, medians, pitch, k));
                }
            }
            lemma_loudest_is_among(band, medians, i, end);
            let at = loudest(band, medians, i, end);
            assert(tonal(band, medians, at));
            let rest = whistles_from_window(band, medians, end);
            let whistles = whistles_from_window(band, medians, i);
            if (end - i - 1) * HOP_TICKS >= WHISTLE_MIN_TICKS {
                let first = whistles[0];
                assert(whistles =~= seq![first] + rest);
                assert(first.start + first.duration < window_time(end));
                assert forall|a: int, b: int| 0 <= a < b < whistles.len() implies whistles[a].start
                    + whistles[a].duration < whistles[b].start by {
                    assert(whistles[b] == rest[b - 1]);
                    if a > 0 {
                        assert(whistles[a] == rest[a - 1]);
                    }
                }
            } else {
                assert(whistles =~= rest);
            }
        }
    }
}

proof fn lemma_tone_end(band: &Band, medians: Seq<i32>, pitch: i32, i: int)
    requires
        0 <= i <= band.peak@.len(),
    ensures
        i <= tone_end(band, medians, pitch, i) <= band.peak@.len(),
        forall|k: int|
            i <= k < tone_end(band, medians, pitch, i) ==> #[trigger] holds_tone(
                band,
                medians,
                pitch,
                k,
            ),
        tone_end(band, medians, pitch, i) < band.peak@.len() ==> !holds_tone(
            band,
            medians,
            pitch,
            tone_end(band, medians, pitch, i),
        ),
    decreases band.peak@.len() - i,
{
    if i < band.peak@.len() && holds_tone(band, medians, pitch, i) {
        lemma_tone_end(band, medians, pitch, i + 1);
    }
}

proof fn lemma_loudest_is_among(band: &Band, medians: Seq<i32>, from: int, to: int)
    requires
        from < to,
    ensures
        from <= loudest(band, medians, from, to) < to,
    decreases to - from,
{
    if to > from + 1 {
        lemma_loudest_is_among(band, medians, from, to - 1);
    }
}

/// One unbroken tone: the windows from `start` up to `end`.
pub struct Tone {
    pub start: int,
    pub end: int,
}

/// Whether a window sounds like a whistle: 15 dB over the band's past, and
/// 10 dB over the rest of its own window.
pub open spec fn sounds(band: &Band, medians: Seq<i32>, w: int) -> bool {
    band.peak@[w] - medians[w] >= 15_000 && band.tonality@[w] >= 10_000
}

/// Whether a tone is one: every window of it sounds, within 150 Hz of the first,
/// and the next one does not.
pub open spec fn is_tone(band: &Band, medians: Seq<i32>, tone: Tone) -> bool {
    &&& 0 <= tone.start < tone.end <= band.peak@.len()
    &&& forall|w: int|
        tone.start <= w < tone.end ==> #[trigger] sounds(band, medians, w) && -150
            <= band.freq@[w] - band.freq@[tone.start] <= 150
    &&& tone.end < band.peak@.len() ==> !(sounds(band, medians, tone.end) && -150
        <= band.freq@[tone.end] - band.freq@[tone.start] <= 150)
}

/// Whether `tones` are all there are from window `from` on: in order, and every
/// window that sounds is in one.
pub open spec fn all_tones(band: &Band, medians: Seq<i32>, tones: Seq<Tone>, from: int) -> bool {
    &&& forall|k: int|
        0 <= k < tones.len() ==> is_tone(band, medians, #[trigger] tones[k]) && tones[k].start
            >= from
    &&& forall|j: int, k: int| 0 <= j < k < tones.len() ==> tones[j].end <= tones[k].start
    &&& forall|w: int|
        from <= w < band.peak@.len() && #[trigger] sounds(band, medians, w) ==> exists|k: int|
            0 <= k < tones.len() && (#[trigger] tones[k]).start <= w < tones[k].end
}

/// Whether a whistle reports a tone: where it starts, how long it held, and
/// what its loudest window was like, of equal ones the last.
#[verifier::opaque]
pub open spec fn reports(band: &Band, medians: Seq<i32>, whistle: Whistle, tone: Tone) -> bool {
    &&& whistle.start == (tone.start + 1) * 48_000_000
    &&& whistle.duration == (tone.end - tone.start - 1) * 48_000_000
    &&& exists|at: int|
        tone.start <= at < tone.end && whistle.freq == #[trigger] band.freq@[at] && whistle.snr
            == band.peak@[at] - medians[at] && whistle.tonality == band.tonality@[at] && (forall|
            w: int,
        |
            #![trigger band.peak@[w]]
            tone.start <= w < tone.end ==> band.peak@[w] - medians[w] <= whistle.snr && (w > at
                ==> band.peak@[w] - medians[w] < whistle.snr))
}

/// Whether a tone held for 150 ms.
pub open spec fn held(tone: Tone) -> bool {
    (tone.end - tone.start - 1) * 48_000_000 >= 450_000_000
}

/// Whether every tone that held has its whistle.
#[verifier::opaque]
pub open spec fn each_tone_is_reported(
    band: &Band,
    medians: Seq<i32>,
    tones: Seq<Tone>,
    whistles: Seq<Whistle>,
) -> bool {
    forall|k: int|
        0 <= k < tones.len() && held(#[trigger] tones[k]) ==> exists|n: int|
            0 <= n < whistles.len() && reports(band, medians, #[trigger] whistles[n], tones[k])
}

/// Whether every whistle has its tone, which held.
#[verifier::opaque]
pub open spec fn each_whistle_is_a_tone(
    band: &Band,
    medians: Seq<i32>,
    tones: Seq<Tone>,
    whistles: Seq<Whistle>,
) -> bool {
    forall|n: int|
        0 <= n < whistles.len() ==> is_one_of(band, medians, tones, #[trigger] whistles[n])
}

/// Whether the whistle reports one of the tones, which held.
pub open spec fn is_one_of(
    band: &Band,
    medians: Seq<i32>,
    tones: Seq<Tone>,
    whistle: Whistle,
) -> bool {
    exists|k: int|
        0 <= k < tones.len() && held(#[trigger] tones[k]) && reports(
            band,
            medians,
            whistle,
            tones[k],
        )
}

proof fn lemma_one_more_tone(
    band: &Band,
    medians: Seq<i32>,
    first: Tone,
    rest: Seq<Tone>,
)
    requires
        is_tone(band, medians, first),
        all_tones(band, medians, rest, first.end),
    ensures
        all_tones(band, medians, seq![first] + rest, first.start),
{
    let tones = seq![first] + rest;
    assert forall|k: int| 0 <= k < tones.len() implies is_tone(
        band,
        medians,
        #[trigger] tones[k],
    ) && tones[k].start >= first.start by {
        if k > 0 {
            assert(tones[k] == rest[k - 1]);
        }
    }
    assert forall|j: int, k: int| 0 <= j < k < tones.len() implies tones[j].end
        <= tones[k].start by {
        assert(tones[k] == rest[k - 1]);
        if j > 0 {
            assert(tones[j] == rest[j - 1]);
        }
    }
    assert forall|w: int|
        first.start <= w < band.peak@.len() && #[trigger] sounds(band, medians, w) implies exists|
        k: int,
    |
        0 <= k < tones.len() && (#[trigger] tones[k]).start <= w < tones[k].end by {
        if w < first.end {
            assert(tones[0].start <= w < tones[0].end);
        } else {
            let k = choose|k: int|
                0 <= k < rest.len() && (#[trigger] rest[k]).start <= w < rest[k].end;
            assert(tones[k + 1].start <= w < tones[k + 1].end);
        }
    }
}

proof fn lemma_one_more_report(
    band: &Band,
    medians: Seq<i32>,
    first: Tone,
    rest: Seq<Tone>,
    report: Seq<Whistle>,
    later: Seq<Whistle>,
)
    requires
        each_tone_is_reported(band, medians, rest, later),
        held(first) ==> report.len() == 1 && reports(band, medians, report[0], first),
    ensures
        each_tone_is_reported(band, medians, seq![first] + rest, report + later),
{
    reveal(each_tone_is_reported);
    let tones = seq![first] + rest;
    let whistles = report + later;
    let shift = report.len() as int;
    assert forall|k: int| 0 <= k < tones.len() && held(#[trigger] tones[k]) implies exists|n: int|
        0 <= n < whistles.len() && reports(band, medians, #[trigger] whistles[n], tones[k]) by {
        if k == 0 {
            assert(whistles[0] == report[0]);
            assert(reports(band, medians, whistles[0], tones[0]));
        } else {
            assert(tones[k] == rest[k - 1]);
            let n = choose|n: int|
                0 <= n < later.len() && reports(band, medians, #[trigger] later[n], rest[k - 1]);
            assert(whistles[n + shift] == later[n]);
        }
    }
}

proof fn lemma_one_more_whistle(
    band: &Band,
    medians: Seq<i32>,
    first: Tone,
    rest: Seq<Tone>,
    report: Seq<Whistle>,
    later: Seq<Whistle>,
)
    requires
        each_whistle_is_a_tone(band, medians, rest, later),
        held(first) ==> report.len() == 1 && reports(band, medians, report[0], first),
        !held(first) ==> report.len() == 0,
    ensures
        each_whistle_is_a_tone(band, medians, seq![first] + rest, report + later),
{
    reveal(each_whistle_is_a_tone);
    let tones = seq![first] + rest;
    let whistles = report + later;
    let shift = report.len() as int;
    assert forall|n: int| 0 <= n < whistles.len() implies is_one_of(
        band,
        medians,
        tones,
        #[trigger] whistles[n],
    ) by {
        if n < shift {
            assert(whistles[n] == report[0]);
            assert(held(tones[0]));
        } else {
            assert(whistles[n] == later[n - shift]);
            assert(is_one_of(band, medians, rest, later[n - shift]));
            let k = choose|k: int|
                0 <= k < rest.len() && held(#[trigger] rest[k]) && reports(
                    band,
                    medians,
                    later[n - shift],
                    rest[k],
                );
            assert(tones[k + 1] == rest[k]);
        }
    }
}

/// **Every tone that held for 150 ms is reported, and nothing else**: the sound
/// falls into tones in just one way, and each of them that held has its whistle.
pub proof fn law_every_held_tone_is_reported(band: &Band, medians: Seq<i32>, from: int) -> (tones:
    Seq<Tone>)
    requires
        band.aligned(),
        medians.len() == band.peak@.len(),
        0 <= from <= band.peak@.len() <= MAX_WINDOWS,
    ensures
        all_tones(band, medians, tones, from),
        each_tone_is_reported(
            band,
            medians,
            tones,
            whistles_from_window(band, medians, from),
        ),
        each_whistle_is_a_tone(
            band,
            medians,
            tones,
            whistles_from_window(band, medians, from),
        ),
    decreases band.peak@.len() - from,
{
    if from == band.peak@.len() {
        reveal(each_tone_is_reported);
        reveal(each_whistle_is_a_tone);
        seq![]
    } else if !tonal(band, medians, from) {
        let tones = law_every_held_tone_is_reported(band, medians, from + 1);
        assert(!sounds(band, medians, from));
        tones
    } else {
        let pitch = band.freq@[from];
        let end = tone_end(band, medians, pitch, from + 1);
        lemma_tone_end(band, medians, pitch, from + 1);
        let rest = law_every_held_tone_is_reported(band, medians, end);
        let first = Tone { start: from, end };
        let whistles = whistles_from_window(band, medians, from);
        let later = whistles_from_window(band, medians, end);
        assert forall|w: int| first.start <= w < first.end implies #[trigger] sounds(
            band,
            medians,
            w,
        ) && -150 <= band.freq@[w] - band.freq@[first.start] <= 150 by {
            if w > from {
                assert(holds_tone(band, medians, pitch, w));
            }
        }
        assert(is_tone(band, medians, first));
        lemma_one_more_tone(band, medians, first, rest);
        lemma_loudest_is_loudest(band, medians, from, end);
        let report: Seq<Whistle> = if held(first) {
            seq![whistles[0]]
        } else {
            seq![]
        };
        if held(first) {
            let at = loudest(band, medians, from, end);
            reveal(reports);
            assert(whistles[0].freq == band.freq@[at]);
            assert(reports(band, medians, whistles[0], first));
        }
        assert(whistles =~= report + later);
        lemma_one_more_report(band, medians, first, rest, report, later);
        lemma_one_more_whistle(band, medians, first, rest, report, later);
        seq![first] + rest
    }
}

proof fn lemma_loudest_is_loudest(band: &Band, medians: Seq<i32>, from: int, to: int)
    requires
        0 <= from < to <= band.peak@.len(),
    ensures
        from <= loudest(band, medians, from, to) < to,
        forall|w: int|
            #![trigger band.peak@[w]]
            from <= w < to ==> {
                let most = rise(band, medians, loudest(band, medians, from, to));
                &&& band.peak@[w] - medians[w] <= most
                &&& w > loudest(band, medians, from, to) ==> band.peak@[w] - medians[w] < most
            },
    decreases to - from,
{
    if to > from + 1 {
        lemma_loudest_is_loudest(band, medians, from, to - 1);
    }
}

/// The whistles in a band.
pub fn whistles(band: &Band) -> (whistles: Vec<Whistle>)
    requires
        band.aligned(),
        band.peak@.len() <= MAX_WINDOWS,
    ensures
        exists|medians: Seq<i32>|
            medians.len() == band.peak@.len() && (forall|i: int|
                0 <= i < medians.len() ==> is_median(
                    band.peak@,
                    3750,
                    i,
                    #[trigger] medians[i] as int,
                )) && whistles@ == #[trigger] whistles_from_window(band, medians, 0),
{
    let medians = rolling_median(&band.peak, median_span());
    whistles_from(band, &medians)
}

/// **Whistles are the tones that held**: of the windows as they were measured,
/// each tone that held for 150 ms is a whistle, and each whistle is one.
pub proof fn law_whistles_are_the_tones_that_held(
    band: &Band,
    medians: &Vec<i32>,
    whistles: Vec<Whistle>,
) -> (tones: Seq<Tone>)
    requires
        call_ensures(whistles_from, (band, medians), whistles),
        band.aligned(),
        medians@.len() == band.peak@.len() <= MAX_WINDOWS,
    ensures
        all_tones(band, medians@, tones, 0),
        each_tone_is_reported(band, medians@, tones, whistles@),
        each_whistle_is_a_tone(band, medians@, tones, whistles@),
{
    law_every_held_tone_is_reported(band, medians@, 0)
}

/// **Cheers are the rises that held**, every one of them.
pub proof fn law_cheers_are_the_rises_that_held(
    excess: &Vec<i64>,
    snr: i64,
    min_ticks: i64,
    cheers: Vec<Cheer>,
    start: int,
    end: int,
) -> (n: int)
    requires
        call_ensures(cheers_from, (excess, snr, min_ticks), cheers),
        excess@.len() <= MAX_WINDOWS,
        is_rise(excess@, snr, start, end),
        (end - start - 1) * 48_000_000 >= min_ticks,
    ensures
        0 <= n < cheers@.len(),
        tells(excess@, cheers@[n], start, end),
{
    law_every_rise_is_a_cheer(excess@, snr, min_ticks, 0, start, end)
}

/// **A cheer lasts a second and stands 8 dB out**, each of them.
pub proof fn law_a_cheer_lasts_and_stands_out(levels: &Vec<i32>, found: Vec<Cheer>, i: int)
    requires
        call_ensures(cheers, (levels,), found),
        levels@.len() <= MAX_WINDOWS,
        0 <= i < found@.len(),
    ensures
        found@[i].duration >= 3_000_000_000,
        found@[i].peak >= 8_000,
        i > 0 ==> found@[i - 1].onset + found@[i - 1].duration < found@[i].onset,
{
    let excess = choose|excess: Seq<i64>|
        excess.len() == levels@.len() && (forall|k: int|
            0 <= k < excess.len() ==> is_median(
                levels@,
                3750,
                k,
                levels@[k] - #[trigger] excess[k],
            )) && found@ == #[trigger] cheers_from_window(excess, CHEER_SNR, CHEER_MIN_TICKS, 0);
    law_cheers_held(excess, CHEER_SNR, CHEER_MIN_TICKS, 0);
}

/// **A whistle lasts 150 ms, 15 dB over its past and 10 dB over its window**,
/// each of them, and one of 0.8 s is a long one.
pub proof fn law_a_whistle_lasts_and_stands_out(
    band: &Band,
    found: Vec<Whistle>,
    i: int,
    long: bool,
)
    requires
        call_ensures(whistles, (band,), found),
        band.aligned(),
        band.peak@.len() <= MAX_WINDOWS,
        0 <= i < found@.len(),
        call_ensures(Whistle::is_long, (&found@[i],), long),
    ensures
        found@[i].duration >= 450_000_000,
        found@[i].snr >= 15_000,
        found@[i].tonality >= 10_000,
        i > 0 ==> found@[i - 1].start + found@[i - 1].duration < found@[i].start,
        long <==> found@[i].duration >= 2_400_000_000,
{
    let medians = choose|medians: Seq<i32>|
        medians.len() == band.peak@.len() && (forall|k: int|
            0 <= k < medians.len() ==> is_median(
                band.peak@,
                3750,
                k,
                #[trigger] medians[k] as int,
            )) && found@ == #[trigger] whistles_from_window(band, medians, 0);
    law_whistles_held(band, medians, 0);
}

/// **A window fits while its samples are there**: each takes 512 and starts 256
/// after the one before it.
pub proof fn law_a_window_fits_while_its_samples_are_there(samples: usize, windows: usize, n: int)
    requires
        call_ensures(frame_count, (samples,), windows),
        n >= 0,
    ensures
        n < windows <==> 256 * n + 512 <= samples,
{
}

} // verus!
