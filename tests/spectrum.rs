use noctavox_core::spectrum::{SpectrumState, UpdateOutcome, DEFAULT_DECAY, PEAK_FLOOR, UNIT};

fn band_of(state: &SpectrumState, freq: u64) -> usize {
    state
        .bands()
        .iter()
        .position(|&(lo, hi)| lo <= freq && freq < hi)
        .unwrap()
}

#[test]
fn default_state_is_empty() {
    let s = SpectrumState::default();
    assert!(s.bins.is_empty());
    assert_eq!(s.band_count(), 0);
    assert_eq!(s.sample_rate(), 0);
    assert_eq!(s.decay_factor, DEFAULT_DECAY);
}

#[test]
fn degenerate_configuration_changes_nothing() {
    let mut s = SpectrumState::default();
    assert!(matches!(s.update(4096, 1, 48000), UpdateOutcome::Analyse { .. }));
    s.apply_spectrum(&vec![(1_000_000, 4_096_000)], 4096);
    let bins = s.bins.clone();
    let peaks = s.band_peaks().to_vec();
    let bands = s.bands().to_vec();
    assert_eq!(s.update(4096, 0, 48000), UpdateOutcome::Ignored);
    assert_eq!(s.update(4096, 2, 0), UpdateOutcome::Ignored);
    assert_eq!(s.bins, bins);
    assert_eq!(s.band_peaks().to_vec(), peaks);
    assert_eq!(s.bands().to_vec(), bands);
    assert_eq!(s.sample_rate(), 48000);
}

#[test]
fn first_bands_at_48k() {
    let mut s = SpectrumState::default();
    s.update(0, 1, 48000);
    assert_eq!(s.bands()[0], (20_000, 31_718));
    assert_eq!(s.bands()[1], (31_718, 43_436));
    let last = s.bands()[s.band_count() - 1];
    assert_eq!(last.1, 20_000_000);
}

#[test]
fn new_sample_rate_rebuilds_table() {
    let mut s = SpectrumState::default();
    s.update(4096, 1, 48000);
    s.apply_spectrum(&vec![(1_000_000, 4_096_000)], 4096);
    let count_48k = s.band_count();
    assert!(s.bins.iter().any(|&b| b > 0));
    s.update(4096, 1, 8000);
    assert_ne!(s.band_count(), count_48k);
    assert_eq!(s.bins.len(), s.band_count());
    assert!(s.bins.iter().all(|&b| b == 0));
    assert!(s.band_peaks().iter().all(|&p| p == PEAK_FLOOR));
    assert_eq!(s.sample_rate(), 8000);
}

#[test]
fn underrun_releases_every_bin() {
    let mut s = SpectrumState::default();
    s.update(4096, 1, 48000);
    s.apply_spectrum(&vec![(1_000_000, 4_096_000)], 4096);
    let i = band_of(&s, 1_000_000);
    assert_eq!(s.bins[i], UNIT);
    let peaks = s.band_peaks().to_vec();
    assert_eq!(s.update(100, 1, 48000), UpdateOutcome::Decayed);
    assert_eq!(s.bins[i], 850_000);
    assert_eq!(s.band_peaks().to_vec(), peaks);
}

#[test]
fn stereo_window_is_half() {
    let mut s = SpectrumState::default();
    assert_eq!(s.update(4096, 2, 44100), UpdateOutcome::Analyse { start: 0, len: 2048 });
    assert_eq!(s.update(5000, 2, 44100), UpdateOutcome::Analyse { start: 452, len: 2048 });
    assert_eq!(s.update(4094, 2, 44100), UpdateOutcome::Decayed);
}

#[test]
fn steady_tone_holds_its_band_near_full_scale() {
    let mut s = SpectrumState::default();
    s.update(4096, 1, 48000);
    let tone = vec![(1_000_000, 4_096_000)];
    let i = band_of(&s, 1_000_000);
    s.apply_spectrum(&tone, 4096);
    assert_eq!(s.band_peaks()[i], 2000);
    assert_eq!(s.bins[i], UNIT);
    s.apply_spectrum(&tone, 4096);
    assert_eq!(s.band_peaks()[i], 1980);
    assert_eq!(s.bins[i], 850_000);
    s.apply_spectrum(&tone, 4096);
    assert_eq!(s.band_peaks()[i], 2000);
    assert_eq!(s.bins[i], UNIT);
    for (k, &b) in s.bins.iter().enumerate() {
        if k != i {
            assert_eq!(b, 0);
        }
    }
}

#[test]
fn silence_releases_bins_faster_than_peaks() {
    let mut s = SpectrumState::default();
    s.update(4096, 1, 48000);
    let i = band_of(&s, 1_000_000);
    s.apply_spectrum(&vec![(1_000_000, 40_960_000)], 4096);
    assert_eq!(s.band_peaks()[i], 20_000);
    let silence: Vec<(u64, u64)> = Vec::new();
    s.apply_spectrum(&silence, 4096);
    assert_eq!(s.bins[i], 850_000);
    assert_eq!(s.band_peaks()[i], 19_800);
    s.apply_spectrum(&silence, 4096);
    assert_eq!(s.bins[i], 722_500);
    assert_eq!(s.band_peaks()[i], 19_602);
    for _ in 0..200 {
        s.apply_spectrum(&silence, 4096);
    }
    assert_eq!(s.bins[i], 0);
    assert!(s.band_peaks()[i] > PEAK_FLOOR);
}

#[test]
fn band_level_is_mean_over_band() {
    let mut s = SpectrumState::default();
    s.update(4096, 1, 48000);
    let i = band_of(&s, 1_000_000);
    let (lo, _) = s.bands()[i];
    s.apply_spectrum(&vec![(lo, 2_048_000), (1_000_000, 6_144_000)], 4096);
    // mean 4_096_000, relative to half the window: 2000
    assert_eq!(s.band_peaks()[i], 2000);
}

#[test]
fn extreme_magnitudes_stay_in_range() {
    let mut s = SpectrumState::default();
    s.update(4096, 1, 48000);
    let points: Vec<(u64, u64)> = (0..2000u64).map(|k| (20_000 + k * 10_000, u64::MAX)).collect();
    for _ in 0..3 {
        s.apply_spectrum(&points, 4096);
        assert!(s.bins.iter().all(|&b| b <= UNIT));
    }
    s.apply_spectrum(&vec![(1_000_000, 1)], 4096);
    assert!(s.bins.iter().all(|&b| b <= UNIT));
}

#[test]
fn release_by_scales_bins() {
    let mut s = SpectrumState::default();
    s.update(4096, 1, 48000);
    s.apply_spectrum(&vec![(1_000_000, 4_096_000)], 4096);
    let i = band_of(&s, 1_000_000);
    s.release_by(500_000);
    assert_eq!(s.bins[i], 500_000);
}
