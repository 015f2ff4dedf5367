use noctavox_core::spectrum::{SpectrumState, UpdateOutcome, UNIT};
use noctavox_core::widgets::{Progress, ProgressDisplay, ProgressView, SpectrumAnalyzer};

#[test]
fn inactive_player_shows_nothing() {
    assert_eq!(Progress::view(false, ProgressDisplay::Spectrum, true), None);
}

#[test]
fn views_follow_display_choice() {
    assert_eq!(
        Progress::view(true, ProgressDisplay::ProgressBar, false),
        Some(ProgressView::ProgressBar)
    );
    assert_eq!(
        Progress::view(true, ProgressDisplay::Waveform, true),
        Some(ProgressView::Waveform)
    );
    assert_eq!(
        Progress::view(true, ProgressDisplay::Waveform, false),
        Some(ProgressView::Oscilloscope)
    );
    assert_eq!(
        Progress::view(true, ProgressDisplay::Oscilloscope, true),
        Some(ProgressView::Oscilloscope)
    );
    assert_eq!(
        Progress::view(true, ProgressDisplay::Spectrum, false),
        Some(ProgressView::Spectrum)
    );
}

#[test]
fn columns_interpolate_between_bins() {
    let bins = vec![0, UNIT];
    assert_eq!(SpectrumAnalyzer::columns(&bins, 5), vec![0, 500_000, UNIT]);
    assert_eq!(SpectrumAnalyzer::columns(&bins, 1), vec![0]);
    assert!(SpectrumAnalyzer::columns(&Vec::new(), 40).is_empty());
}

#[test]
fn columns_fill_canvas() {
    let bins = vec![100, 200, 300, 400];
    let cols = SpectrumAnalyzer::columns(&bins, 9);
    assert_eq!(cols.len(), 7);
    assert_eq!(cols[0], 100);
    assert_eq!(cols[2], 200);
    assert_eq!(cols[6], 400);
    assert_eq!(cols[1], 150);
}

#[test]
fn paused_spectrum_releases_bins() {
    let mut s = SpectrumState::default();
    s.update(4096, 1, 48000);
    s.apply_spectrum(&vec![(1_000_000, 4_096_000)], 4096);
    let i = s.bins.iter().position(|&b| b == UNIT).unwrap();
    assert_eq!(SpectrumAnalyzer::settle(&mut s, true, 4096, 1, 48000), None);
    assert_eq!(s.bins[i], 920_000);
    assert_eq!(
        SpectrumAnalyzer::settle(&mut s, false, 4096, 1, 48000),
        Some(UpdateOutcome::Analyse { start: 0, len: 4096 })
    );
    assert_eq!(s.bins[i], 920_000);
}

#[test]
fn bar_count_is_clamped() {
    assert_eq!(SpectrumAnalyzer::bar_count(0), 1);
    assert_eq!(SpectrumAnalyzer::bar_count(2), 1);
    assert_eq!(SpectrumAnalyzer::bar_count(10), 8);
    assert_eq!(SpectrumAnalyzer::bar_count(1000), 256);
}

#[test]
fn edge_bars_are_boosted() {
    assert_eq!(SpectrumAnalyzer::boost(500_000, 0, 4), 675_000);
    assert_eq!(SpectrumAnalyzer::boost(500_000, 2, 4), 500_000);
    assert_eq!(SpectrumAnalyzer::boost(400_000, 1, 4), 470_000);
    assert_eq!(SpectrumAnalyzer::boost(900_000, 0, 4), UNIT);
}

#[test]
fn bars_rise_halfway_and_fall_with_gravity() {
    let mut bars: Vec<u64> = Vec::new();
    let mut peaks: Vec<u64> = Vec::new();
    SpectrumAnalyzer::advance_bars(&mut bars, &mut peaks, &vec![600_000, 0]);
    assert_eq!(bars, vec![300_000, 0]);
    assert_eq!(peaks, vec![300_000, 0]);
    SpectrumAnalyzer::advance_bars(&mut bars, &mut peaks, &vec![0, 0]);
    assert_eq!(bars, vec![250_000, 0]);
    assert_eq!(peaks, vec![292_000, 0]);
    SpectrumAnalyzer::advance_bars(&mut bars, &mut peaks, &vec![0, 0, 0]);
    assert_eq!(bars, vec![0, 0, 0]);
    assert_eq!(peaks, vec![0, 0, 0]);
}

#[test]
fn bar_window_is_power_of_two_below_count() {
    assert_eq!(SpectrumAnalyzer::window_len(0), None);
    assert_eq!(SpectrumAnalyzer::window_len(32), None);
    assert_eq!(SpectrumAnalyzer::window_len(33), Some(32));
    assert_eq!(SpectrumAnalyzer::window_len(64), Some(32));
    assert_eq!(SpectrumAnalyzer::window_len(1000), Some(512));
    assert_eq!(SpectrumAnalyzer::window_len(1024), Some(512));
    assert_eq!(SpectrumAnalyzer::window_len(4096), Some(512));
}
