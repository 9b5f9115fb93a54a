//! What the sound of a match tells: windows, medians, cheers and whistles.

use video_coach::signals::{
    bin_hz, cheers_from, excess_over_median, frame_count, frame_time, median_span,
    rolling_median, whistle_band, whistles, window_peak, CHEER_MIN_TICKS, CHEER_SNR, HOP_SAMPLES,
    HOP_TICKS, MAX_WINDOWS, MEDIAN_BUCKET, WHISTLE_BINS, WINDOW_SAMPLES,
};

#[test]
fn the_rolling_median_follows_a_ramp_rather_than_averaging_it() {
    // A 0.1 dB/step ramp: a centred median reads the value at its middle, so
    // the excess over it is nothing anywhere.
    let values: Vec<i32> = (0..1000).map(|i| -60_000 + i * 100).collect();
    let median = rolling_median(&values, 101);
    for i in 50..950 {
        assert!(
            (median[i] - values[i]).abs() <= MEDIAN_BUCKET,
            "at {i}: median {} for value {}",
            median[i],
            values[i]
        );
    }
}

#[test]
fn a_window_that_does_not_fit_is_not_a_frame() {
    assert_eq!(frame_count(0), 0);
    assert_eq!(frame_count(WINDOW_SAMPLES - 1), 0);
    assert_eq!(frame_count(WINDOW_SAMPLES), 1);
    assert_eq!(frame_count(WINDOW_SAMPLES + HOP_SAMPLES), 2);
}

#[test]
fn a_window_s_time_is_its_centre() {
    // 256 samples at 16 kHz are 16 ms.
    assert_eq!(frame_time(0), 48_000_000);
    assert_eq!(frame_time(10), 11 * 48_000_000);
    // As late as the counter goes.
    let last = MAX_WINDOWS as usize;
    assert_eq!(frame_time(last), 9_223_372_036_848_000_000);
    assert_eq!(frame_time(last).checked_add(48_000_000), None);
    assert_eq!(median_span(), 3750);
}

#[test]
fn silence_is_at_the_floor() {
    let medians = rolling_median(&vec![i32::MIN, -200_000, -160_000], 3);
    assert!(medians.iter().all(|&m| m == medians[0]));
    assert!((-160_500..=-159_500).contains(&medians[0]));
    assert!(rolling_median(&vec![], 3).is_empty());
}

#[test]
fn the_excess_is_over_the_median() {
    let mut levels = vec![-40_000; 100];
    levels[50] = -20_000;
    let excess = excess_over_median(&levels);
    assert!((excess[50] - 20_000).abs() <= i64::from(MEDIAN_BUCKET));
    assert!(excess[10].abs() <= i64::from(MEDIAN_BUCKET));
}

#[test]
fn a_cheer_has_to_hold() {
    let long = (CHEER_MIN_TICKS / HOP_TICKS) as usize + 2;
    let mut excess = vec![0; 10];
    excess.extend(vec![CHEER_SNR; long]);
    excess[15] = 12_000;
    excess.extend(vec![0; 10]);
    // A short one, which is no cheer.
    excess.extend(vec![CHEER_SNR; 5]);
    let cheers = cheers_from(&excess, CHEER_SNR, CHEER_MIN_TICKS);
    assert_eq!(cheers.len(), 1);
    assert_eq!(cheers[0].onset, frame_time(10));
    assert_eq!(cheers[0].peak, 12_000);
    assert_eq!(cheers[0].duration, (long as i64 - 1) * HOP_TICKS);
}

#[test]
fn the_loudest_bin_is_the_peak() {
    let mut bins = vec![-60_000; WHISTLE_BINS];
    bins[20] = -20_000;
    let found = window_peak(&bins);
    assert_eq!((found.bin, found.peak), (20, -20_000));
    assert!(found.tonality > 10_000);
    assert_eq!(bin_hz(0), 2_000);
    assert_eq!(bin_hz(20), 3_500);
}

#[test]
fn a_steady_tone_is_a_whistle_and_noise_is_none() {
    let quiet = vec![-80_000; WHISTLE_BINS];
    let mut tone = vec![-80_000; WHISTLE_BINS];
    tone[24] = -20_000;
    let mut windows: Vec<Vec<i32>> = vec![quiet.clone(); 200];
    windows.extend(vec![tone.clone(); 60]);
    windows.extend(vec![quiet.clone(); 200]);
    let found = whistles(&whistle_band(&windows));
    assert_eq!(found.len(), 1);
    assert_eq!(found[0].freq, bin_hz(24));
    assert_eq!(found[0].start, frame_time(200));
    assert!(found[0].is_long());

    // As loud in every bin: nothing tonal about it.
    let loud = vec![-20_000; WHISTLE_BINS];
    let mut noise: Vec<Vec<i32>> = vec![quiet.clone(); 200];
    noise.extend(vec![loud; 60]);
    noise.extend(vec![quiet; 200]);
    assert!(whistles(&whistle_band(&noise)).is_empty());
}

#[test]
fn a_louder_venue_changes_nothing() {
    let mut levels: Vec<i32> = (0..300).map(|i| -70_000 + (i * 37 % 9_000)).collect();
    levels[150] = -20_000;
    let louder: Vec<i32> = levels.iter().map(|l| l + 54 * MEDIAN_BUCKET).collect();
    assert_eq!(excess_over_median(&levels), excess_over_median(&louder));
}
