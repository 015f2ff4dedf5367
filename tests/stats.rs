use noctavox_core::stats::{LibraryStats, PopupType, UiState};

#[test]
fn stats_popup_keeps_found_songs_in_order() {
    let mut ui = UiState::new();
    let lib = LibraryStats { total_tracks: 12, total_plays: 40, ..LibraryStats::default() };
    ui.show_stats_popup(lib, &vec![(7, 20), (3, 11), (9, 5)], &vec![true, false, true]);
    assert_eq!(ui.get_most_played(), &[(7, 20), (9, 5)]);
    assert_eq!(ui.get_lib_stats().total_tracks, 12);
    assert_eq!(ui.popup, Some(PopupType::Stats));
}

#[test]
fn fresh_state_has_no_stats() {
    let ui = UiState::new();
    assert!(ui.get_most_played().is_empty());
    assert_eq!(ui.popup, None);
}
