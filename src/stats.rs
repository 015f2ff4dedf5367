//! The statistics popup: library totals and the most played songs, as read
//! from the database by the front end. A song is named by its id.
use vstd::prelude::*;

verus! {

/// Totals over the music library.
#[derive(Clone, Copy, Debug, Default, PartialEq, Eq, Structural)]
pub struct LibraryStats {
    pub total_tracks: u32,
    pub total_albums: u32,
    pub total_artists: u32,
    pub min_year: u32,
    pub max_year: u32,
    pub total_playlists: u32,
    pub unique_plays: u32,
    pub total_plays: u32,
    /// Total running time, in seconds.
    pub total_duration_secs: u64,
    /// Share of tracks played at least once, in hundredths of a percent.
    pub play_basis_points: u32,
}

/// What the statistics popup shows.
pub struct VoxStats {
    pub lib_stats: LibraryStats,
    /// `(song id, play count)`, most played first.
    pub top_played: Vec<(u64, u16)>,
}

/// The popups the interface can show.
#[derive(Clone, Copy, Debug, PartialEq, Eq, Structural)]
pub enum PopupType {
    Stats,
}

/// The part of the interface state that the statistics popup reads and
/// writes.
pub struct UiState {
    pub stats: VoxStats,
    pub popup: Option<PopupType>,
}

/// The entries of `most_played` whose song was found in the library, in
/// order.
pub open spec fn found_entries(most_played: Seq<(u64, u16)>, found: Seq<bool>) -> Seq<(u64, u16)>
    decreases most_played.len(),
{
    if most_played.len() == 0 {
        Seq::empty()
    } else {
        let rest = found_entries(most_played.drop_last(), found.drop_last());
        if found.last() {
            rest.push(most_played.last())
        } else {
            rest
        }
    }
}

impl UiState {
    /// An interface state with empty statistics and no popup.
    pub fn new() -> (r: Self)
        ensures
            r.stats.top_played@.len() == 0,
            r.stats.lib_stats == (LibraryStats {
                total_tracks: 0,
                total_albums: 0,
                total_artists: 0,
                min_year: 0,
                max_year: 0,
                total_playlists: 0,
                unique_plays: 0,
                total_plays: 0,
                total_duration_secs: 0,
                play_basis_points: 0,
            }),
            (r.popup is None),
    {
        UiState {
            stats: VoxStats {
                lib_stats: LibraryStats {
                    total_tracks: 0,
                    total_albums: 0,
                    total_artists: 0,
                    min_year: 0,
                    max_year: 0,
                    total_playlists: 0,
                    unique_plays: 0,
                    total_plays: 0,
                    total_duration_secs: 0,
                    play_basis_points: 0,
                },
                top_played: Vec::new(),
            },
            popup: None,
        }
    }

    /// Refreshes the statistics and opens their popup. `most_played` holds the
    /// database's most played songs as `(song id, play count)`, and
    /// `found[i]` tells whether the song of entry `i` is in the library: only
    /// those entries are kept, in order.
    pub fn show_stats_popup(
        &mut self,
        lib_stats: LibraryStats,
        most_played: &Vec<(u64, u16)>,
        found: &Vec<bool>,
    )
        requires
            most_played@.len() == found@.len(),
        ensures
            final(self).stats.lib_stats == lib_stats,
            final(self).stats.top_played@ == found_entries(most_played@, found@),
            final(self).popup == Some(PopupType::Stats),
    {
        let mut kept: Vec<(u64, u16)> = Vec::new();
        let mut i: usize = 0;
        while i < most_played.len()
            invariant
                i <= most_played@.len(),
                most_played@.len() == found@.len(),
                kept@ == found_entries(most_played@.subrange(0, i as int), found@.subrange(
                    0,
                    i as int,
                )),
            decreases most_played.len() - i,
        {
            assert(most_played@.subrange(0, i + 1).drop_last() =~= most_played@.subrange(
                0,
                i as int,
            ));
            assert(found@.subrange(0, i + 1).drop_last() =~= found@.subrange(0, i as int));
            if found[i] {
                kept.push(most_played[i]);
            }
            i = i + 1;
        }
        assert(most_played@.subrange(0, i as int) =~= most_played@);
        assert(found@.subrange(0, i as int) =~= found@);
        self.stats.lib_stats = lib_stats;
        self.stats.top_played = kept;
        self.popup = Some(PopupType::Stats);
    }

    /// The library totals last shown.
    pub fn get_lib_stats(&self) -> (r: &LibraryStats)
        ensures
            *r == self.stats.lib_stats,
    {
        &self.stats.lib_stats
    }

    /// The most played songs last shown, as `(song id, play count)`.
    pub fn get_most_played(&self) -> (r: &[(u64, u16)])
        ensures
            r@ == self.stats.top_played@,
    {
        self.stats.top_played.as_slice()
    }
}

} // verus!
