use silence_gate::{
    count_windows, filter_silence, gate_windows, loudness, window_bounds, Decibels, FilterError,
};
use std::cell::RefCell;

fn level(value: f64) -> Decibels {
    Decibels::from_bits(value.to_bits())
}

fn root_mean_square(samples: &[i16]) -> f64 {
    let sum_of_squares: f64 = samples.iter().map(|&sample| (sample as f64).powi(2)).sum();
    (sum_of_squares / samples.len() as f64).sqrt()
}

fn decibels_of(window: &[i16]) -> f64 {
    20.0 * root_mean_square(window).log10()
}

fn to_decibels(sum_of_squares: u128, count: usize) -> Decibels {
    level(20.0 * (sum_of_squares as f64 / count as f64).sqrt().log10())
}

fn filter(samples: &[i16], window_size: usize, threshold_db: f64) -> Result<Vec<i16>, FilterError> {
    filter_silence(samples, window_size, level(threshold_db), to_decibels)
}

/// The same filter as one plain loop over floats.
fn plain_loop(samples: &[i16], window_size: usize, threshold_db: f64) -> Vec<i16> {
    let mut result = Vec::new();
    let mut i = 0;
    while i < samples.len() {
        let end = i.saturating_add(window_size).min(samples.len());
        if decibels_of(&samples[i..end]) >= threshold_db {
            result.extend_from_slice(&samples[i..end]);
        }
        i = end;
    }
    result
}

fn noise(len: usize, seed: u64) -> Vec<i16> {
    let mut state = seed | 1;
    (0..len)
        .map(|i| {
            state ^= state << 13;
            state ^= state >> 7;
            state ^= state << 17;
            // Loud and quiet stretches alternate, with some exact silence.
            let shift = match (i / 7) % 4 {
                0 => 0,
                1 => 6,
                2 => 12,
                _ => 16,
            };
            ((state >> 48) as u16 as i16) >> shift
        })
        .collect()
}

#[test]
fn empty_input_gives_empty_output() {
    for &size in &[1usize, 4, 44, usize::MAX] {
        for &threshold in &[-100.0, 0.0, 100.0, f64::NEG_INFINITY, f64::INFINITY, f64::NAN] {
            assert_eq!(filter(&[], size, threshold), Ok(vec![]));
        }
    }
}

#[test]
fn all_zero_input_is_dropped_under_any_finite_threshold() {
    for &len in &[1usize, 3, 4, 9, 100] {
        let samples = vec![0i16; len];
        for &size in &[1usize, 2, 4, 10, 1000] {
            for &threshold in &[f64::MIN, -1.0e300, -100.0, -1.0, 0.0, 1.0, 100.0, f64::MAX] {
                assert_eq!(filter(&samples, size, threshold), Ok(vec![]));
            }
        }
    }
}

#[test]
fn all_zero_input_passes_a_threshold_of_negative_infinity() {
    let samples = vec![0i16; 10];
    assert_eq!(filter(&samples, 4, f64::NEG_INFINITY), Ok(samples.clone()));
}

#[test]
fn zero_windows_are_dropped_between_loud_ones() {
    let samples = [500, -500, 0, 0, 0, 0, 7, -7, 0];
    assert_eq!(filter(&samples, 2, -1000.0), Ok(vec![500, -500, 7, -7]));
}

#[test]
fn full_scale_input_is_retained_under_a_low_threshold() {
    let samples = vec![32767i16; 10];
    assert_eq!(filter(&samples, 4, -100.0), Ok(samples.clone()));
    let samples = vec![32767i16; 12];
    assert_eq!(filter(&samples, 4, -100.0), Ok(samples.clone()));
    let samples = vec![i16::MIN; 9];
    assert_eq!(filter(&samples, 4, 90.0), Ok(samples.clone()));
}

#[test]
fn full_scale_loudness_is_twenty_times_the_logarithm_of_the_amplitude() {
    let samples = vec![32767i16; 4];
    let db = decibels_of(&samples);
    assert_eq!(db, 20.0 * 32767.0f64.log10());
    assert!((db - 90.308_733_622_833_98).abs() < 1e-9);
    assert_eq!(filter(&samples, 4, db), Ok(samples.clone()));
    assert_eq!(filter(&samples, 4, 90.4), Ok(vec![]));
}

#[test]
fn single_short_window_is_scored_once_and_unpadded() {
    let samples = [100i16, 200, 50];
    let seen: RefCell<Vec<(u128, usize)>> = RefCell::new(Vec::new());
    let converter = |sum: u128, count: usize| {
        seen.borrow_mut().push((sum, count));
        to_decibels(sum, count)
    };
    let db = decibels_of(&samples);
    assert!((db - 42.430_380_486_862_94).abs() < 1e-9);
    let output = filter_silence(&samples, 10, level(db), converter);
    assert_eq!(output, Ok(vec![100, 200, 50]));
    assert_eq!(*seen.borrow(), vec![(52_500u128, 3usize)]);
}

#[test]
fn single_short_window_is_kept_or_dropped_whole() {
    let samples = [100i16, 200, 50];
    assert_eq!(filter(&samples, 10, 42.4), Ok(vec![100, 200, 50]));
    assert_eq!(filter(&samples, 10, -100.0), Ok(vec![100, 200, 50]));
    assert_eq!(filter(&samples, 10, 42.5), Ok(vec![]));
    // Padded to ten samples the window would score about 37.2 dB.
    assert_eq!(filter(&samples, 10, 40.0), Ok(vec![100, 200, 50]));
}

#[test]
fn window_scoring_exactly_the_threshold_is_admitted() {
    let samples = [100i16, 200, 50, 1, 2, 3, -3000, 4000];
    for size in 1..=8usize {
        let count = count_windows(samples.len(), size).unwrap();
        for index in 0..count {
            let (start, end) = window_bounds(samples.len(), size, index).unwrap();
            let window = &samples[start..end];
            let threshold = decibels_of(window);
            let output = filter(&samples, size, threshold).unwrap();
            let expected_len: usize = (0..count)
                .map(|k| window_bounds(samples.len(), size, k).unwrap())
                .filter(|&(s, e)| decibels_of(&samples[s..e]) >= threshold)
                .map(|(s, e)| e - s)
                .sum();
            assert_eq!(output.len(), expected_len);
            assert!(output.windows(window.len()).any(|part| part == window));
        }
    }
}

#[test]
fn threshold_just_above_the_score_rejects_the_window() {
    let samples = [100i16, 200, 50];
    let db = decibels_of(&samples);
    let above = f64::from_bits(db.to_bits() + 1);
    let below = f64::from_bits(db.to_bits() - 1);
    assert_eq!(filter(&samples, 3, db), Ok(vec![100, 200, 50]));
    assert_eq!(filter(&samples, 3, below), Ok(vec![100, 200, 50]));
    assert_eq!(filter(&samples, 3, above), Ok(vec![]));
}

#[test]
fn raising_the_threshold_never_admits_more() {
    let samples = noise(500, 11);
    for &size in &[1usize, 3, 7, 10, 44] {
        let mut previous = usize::MAX;
        let mut threshold = -20.0;
        while threshold <= 100.0 {
            let output = filter(&samples, size, threshold).unwrap();
            assert!(output.len() <= previous, "size {size}, threshold {threshold}");
            previous = output.len();
            threshold += 2.5;
        }
        assert_eq!(previous, 0);
    }
}

#[test]
fn repeated_runs_give_identical_output() {
    let samples = noise(300, 5);
    let first = filter(&samples, 10, 30.0);
    for _ in 0..5 {
        assert_eq!(filter(&samples, 10, 30.0), first);
    }
}

#[test]
fn output_is_made_of_whole_windows_in_their_order() {
    // Every sample is its own offset, so the output shows where it came from.
    let samples: Vec<i16> = (0..100).collect();
    let size = 8usize;
    let threshold = 20.0 * 40.0f64.log10();
    let output = filter(&samples, size, threshold).unwrap();
    assert!(!output.is_empty());
    assert!(output.len() < samples.len());
    assert!(output.windows(2).all(|pair| pair[0] < pair[1]));
    let mut at = 0usize;
    while at < output.len() {
        let start = output[at] as usize;
        assert_eq!(start % size, 0);
        let index = start / size;
        let (from, to) = window_bounds(samples.len(), size, index).unwrap();
        assert_eq!(&output[at..at + (to - from)], &samples[from..to]);
        assert!(decibels_of(&samples[from..to]) >= threshold);
        at += to - from;
    }
    assert_eq!(at, output.len());
}

#[test]
fn output_agrees_with_a_plain_loop_over_floats() {
    for seed in 1..40u64 {
        let samples = noise(200 + seed as usize, seed);
        for &size in &[1usize, 2, 5, 8, 44, 199, 1000] {
            for &threshold in &[-100.0, 0.0, 12.0, 36.5, 60.0, 84.0, 95.0] {
                assert_eq!(
                    filter(&samples, size, threshold),
                    Ok(plain_loop(&samples, size, threshold)),
                    "seed {seed}, size {size}, threshold {threshold}"
                );
            }
        }
    }
}

#[test]
fn output_agrees_with_gating_the_same_scores() {
    let samples = noise(257, 3);
    for &size in &[1usize, 4, 10, 300] {
        let count = count_windows(samples.len(), size).unwrap();
        let scores: Vec<Decibels> = (0..count)
            .map(|k| {
                let (start, end) = window_bounds(samples.len(), size, k).unwrap();
                loudness(&samples[start..end], &to_decibels).unwrap()
            })
            .collect();
        for &threshold in &[-10.0, 30.0, 70.0] {
            assert_eq!(
                filter(&samples, size, threshold),
                gate_windows(&samples, size, &scores, level(threshold))
            );
        }
    }
}

#[test]
fn every_window_is_rated_once_in_order() {
    let samples: Vec<i16> = (1..=10).collect();
    let seen: RefCell<Vec<(u128, usize)>> = RefCell::new(Vec::new());
    let converter = |sum: u128, count: usize| {
        seen.borrow_mut().push((sum, count));
        to_decibels(sum, count)
    };
    let output = filter_silence(&samples, 4, level(-100.0), converter);
    assert_eq!(output, Ok(samples.clone()));
    assert_eq!(*seen.borrow(), vec![(30u128, 4usize), (174, 4), (181, 2)]);
}

#[test]
fn no_empty_window_is_ever_rated() {
    for len in 0..30usize {
        for size in 1..12usize {
            let samples = vec![1i16; len];
            let calls = RefCell::new(0usize);
            let converter = |sum: u128, count: usize| {
                assert!(count >= 1);
                assert!(count <= size);
                assert_eq!(sum, count as u128);
                *calls.borrow_mut() += 1;
                to_decibels(sum, count)
            };
            let output = filter_silence(&samples, size, level(-1.0), converter);
            assert_eq!(output, Ok(samples.clone()));
            assert_eq!(*calls.borrow(), count_windows(len, size).unwrap());
        }
    }
}

#[test]
fn zero_window_size_is_rejected_before_any_rating() {
    let calls = RefCell::new(0usize);
    let converter = |sum: u128, count: usize| {
        *calls.borrow_mut() += 1;
        to_decibels(sum, count)
    };
    assert_eq!(
        filter_silence(&[1, 2, 3], 0, level(0.0), converter),
        Err(FilterError::InvalidInput)
    );
    assert_eq!(*calls.borrow(), 0);
    assert_eq!(filter(&[], 0, 0.0), Err(FilterError::InvalidInput));
}

#[test]
fn score_that_is_not_a_number_rejects_the_window() {
    let samples = [1i16, 2, 3, 4, 5, 6];
    let converter = |sum: u128, _count: usize| {
        if sum == 25 {
            level(f64::NAN)
        } else {
            level(50.0)
        }
    };
    assert_eq!(
        filter_silence(&samples, 2, level(-1.0e308), converter),
        Ok(vec![1, 2, 5, 6])
    );
}

#[test]
fn threshold_that_is_not_a_number_rejects_every_window() {
    let samples = noise(50, 9);
    assert_eq!(filter(&samples, 5, f64::NAN), Ok(vec![]));
}

#[test]
fn window_larger_than_any_input_makes_one_window() {
    let samples = noise(20, 2);
    assert_eq!(filter(&samples, usize::MAX, -100.0), Ok(samples.clone()));
    assert_eq!(filter(&samples, usize::MAX, 200.0), Ok(vec![]));
}

#[test]
fn input_is_left_untouched() {
    let samples = noise(64, 8);
    let copy = samples.clone();
    let _ = filter(&samples, 7, 40.0);
    assert_eq!(samples, copy);
}
