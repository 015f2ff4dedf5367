//! The decisions behind the progress pane: which view draws, how the
//! spectrum view settles its bins while playback is paused, and how the band
//! levels are stretched over the columns of the canvas. Drawing itself is
//! left to the terminal front end.
use vstd::prelude::*;
use crate::spectrum::{decayed, levels_bounded, updated, widen, SpectrumState, UpdateOutcome, UNIT};

verus! {

/// The release applied to every bin on each frame while playback is paused
/// or stopped (0.92 of full scale).
pub const PAUSED_RELEASE: u64 = 920_000;

/// The kind of progress display the user picked.
#[derive(Clone, Copy, Debug, PartialEq, Eq, Structural)]
pub enum ProgressDisplay {
    ProgressBar,
    Waveform,
    Oscilloscope,
    Spectrum,
}

/// The view that draws the progress pane on a frame.
#[derive(Clone, Copy, Debug, PartialEq, Eq, Structural)]
pub enum ProgressView {
    ProgressBar,
    Waveform,
    Oscilloscope,
    Spectrum,
}

/// The progress pane.
pub struct Progress;

impl Progress {
    /// The view for a frame: none while no player is active; the waveform
    /// falls back to the oscilloscope while no waveform is loaded.
    pub fn view(active: bool, display: ProgressDisplay, has_waveform: bool) -> (r: Option<
        ProgressView,
    >)
        ensures
            !active ==> (r is None),
            active && display == ProgressDisplay::ProgressBar ==> r == Some(
                ProgressView::ProgressBar,
            ),
            active && display == ProgressDisplay::Waveform && has_waveform ==> r == Some(
                ProgressView::Waveform,
            ),
            active && display == ProgressDisplay::Waveform && !has_waveform ==> r == Some(
                ProgressView::Oscilloscope,
            ),
            active && display == ProgressDisplay::Oscilloscope ==> r == Some(
                ProgressView::Oscilloscope,
            ),
            active && display == ProgressDisplay::Spectrum ==> r == Some(ProgressView::Spectrum),
    {
        if !active {
            return None;
        }
        match display {
            ProgressDisplay::ProgressBar => Some(ProgressView::ProgressBar),
            ProgressDisplay::Waveform => {
                if has_waveform {
                    Some(ProgressView::Waveform)
                } else {
                    Some(ProgressView::Oscilloscope)
                }
            },
            ProgressDisplay::Oscilloscope => Some(ProgressView::Oscilloscope),
            ProgressDisplay::Spectrum => Some(ProgressView::Spectrum),
        }
    }
}

/// The number of columns of a canvas drawn in an area `area_width` cells
/// wide: the width less a one-cell border on each side, at least 1.
pub open spec fn canvas_columns(area_width: int) -> int {
    if area_width - 2 >= 1 {
        area_width - 2
    } else {
        1
    }
}

/// The value of column `i` of `columns`: the bins read at the position
/// `i * (n - 1) / (columns - 1)` and linearly interpolated between the two
/// bins around it.
pub open spec fn column_value(bins: Seq<u64>, columns: int, i: int) -> int {
    let n = bins.len() as int;
    let d = if columns - 1 >= 1 {
        columns - 1
    } else {
        1
    };
    let lo = i * (n - 1) / d;
    let frac = i * (n - 1) % d;
    let hi = if lo + 1 <= n - 1 {
        lo + 1
    } else {
        n - 1
    };
    (bins[lo] * (d - frac) + bins[hi] * frac) / d
}

/// How far a falling bar drops per frame (0.05 of full scale).
pub const BAR_FALLOFF: u64 = 50_000;

/// How far a held peak drops per frame (0.008 of full scale).
pub const PEAK_FALL: u64 = 8_000;

/// The extra gain at the outermost bars (0.35 of full scale): bass and treble
/// are boosted so the bars look evenly filled.
pub const EDGE_BOOST: u64 = 350_000;

/// The most bars the bar view draws.
pub const MAX_BARS: u16 = 256;

/// The number of bars for an area `area_width` cells wide: the width less a
/// one-cell border on each side, between 1 and `MAX_BARS`.
pub open spec fn bar_count_of(area_width: int) -> int {
    let inner = if area_width >= 2 {
        area_width - 2
    } else {
        0
    };
    if inner < 1 {
        1
    } else if inner > MAX_BARS {
        MAX_BARS as int
    } else {
        inner
    }
}

/// The distance of bar `i` of `n` from the middle, as a share of the
/// half-width: `|2i - n| / n`, in fixed point.
pub open spec fn edge_distance(i: int, n: int) -> int {
    let d = if 2 * i >= n {
        2 * i - n
    } else {
        n - 2 * i
    };
    d * UNIT / n
}

/// The level of bar `i` of `n` after the edge boost, clamped to full scale.
pub open spec fn boosted_level(level: int, i: int, n: int) -> int {
    let gain = UNIT + EDGE_BOOST * edge_distance(i, n) / (UNIT as int);
    let v = level * gain / (UNIT as int);
    if v <= UNIT {
        v
    } else {
        UNIT as int
    }
}

/// A bar after a new target: halfway up towards a higher target, otherwise
/// down by `BAR_FALLOFF`, not below 0.
pub open spec fn next_bar(bar: int, target: int) -> int {
    if target > bar {
        (bar + target) / 2
    } else if bar >= BAR_FALLOFF {
        bar - BAR_FALLOFF
    } else {
        0
    }
}

/// A held peak after its bar moved: it rises with the bar and otherwise
/// falls by `PEAK_FALL`, never below the bar.
pub open spec fn next_held_peak(peak: int, bar: int) -> int {
    if bar >= peak {
        bar
    } else if peak - PEAK_FALL >= bar {
        peak - PEAK_FALL
    } else {
        bar
    }
}

/// Whether `p` is a power of two.
pub open spec fn is_pow2(p: int) -> bool
    decreases p,
{
    if p <= 0 {
        false
    } else if p == 1 {
        true
    } else {
        p % 2 == 0 && is_pow2(p / 2)
    }
}

/// The most samples the bar view transforms.
pub const MAX_WINDOW: usize = 1024;

/// The smallest window the bar view transforms.
pub const MIN_WINDOW: usize = 32;

/// The spectrum view of the progress pane.
pub struct SpectrumAnalyzer;

impl SpectrumAnalyzer {
    /// Brings the spectrum up to date on a frame: while playback is paused or
    /// stopped every bin is released by `PAUSED_RELEASE`; otherwise the
    /// samples of the frame go to `SpectrumState::update`, whose outcome is
    /// returned.
    pub fn settle(
        state: &mut SpectrumState,
        inactive: bool,
        sample_count: usize,
        channels: u8,
        sample_rate: u32,
    ) -> (r: Option<UpdateOutcome>)
        requires
            old(state).wf(),
        ensures
            final(state).wf(),
            levels_bounded(final(state).levels()),
            inactive ==> (r is None),
            inactive ==> widen(final(state).levels()) == decayed(
                widen(old(state).levels()),
                PAUSED_RELEASE as int,
            ),
            inactive ==> final(state).band_edges() == old(state).band_edges(),
            inactive ==> final(state).peaks() == old(state).peaks(),
            inactive ==> final(state).rate() == old(state).rate(),
            inactive ==> final(state).decay() == old(state).decay(),
            !inactive ==> (r matches Some(o) && updated(
                old(state),
                final(state),
                o,
                sample_count as int,
                channels as int,
                sample_rate as int,
            )),
    {
        if inactive {
            state.release_by(PAUSED_RELEASE);
            None
        } else {
            Some(state.update(sample_count, channels, sample_rate))
        }
    }

    /// The length of the bar view's transform for `available` samples: of
    /// the first `MAX_WINDOW` of them at most, the largest power of two below
    /// their number; none when that is under `MIN_WINDOW`.
    pub fn window_len(available: usize) -> (r: Option<usize>)
        ensures
            ({
                let n = if available <= MAX_WINDOW {
                    available as int
                } else {
                    MAX_WINDOW as int
                };
                &&& n <= MIN_WINDOW ==> r is None
                &&& n > MIN_WINDOW ==> (r matches Some(p) && is_pow2(p as int) && p < n <= 2 * p)
            }),
    {
        let n = if available <= MAX_WINDOW {
            available
        } else {
            MAX_WINDOW
        };
        if n <= MIN_WINDOW {
            return None;
        }
        let mut p: usize = 1;
        while p * 2 < n
            invariant
                is_pow2(p as int),
                1 <= p < n,
                n <= MAX_WINDOW,
            decreases n - p,
        {
            assert(is_pow2((p * 2) as int)) by {
                assert((p * 2) as int / 2 == p as int);
            }
            p = p * 2;
        }
        Some(p)
    }

    /// The number of bars for an area `area_width` cells wide.
    pub fn bar_count(area_width: u16) -> (r: usize)
        ensures
            r == bar_count_of(area_width as int),
            1 <= r <= MAX_BARS,
    {
        let inner = if area_width >= 2 {
            area_width - 2
        } else {
            0
        };
        if inner < 1 {
            1
        } else if inner > MAX_BARS {
            MAX_BARS as usize
        } else {
            inner as usize
        }
    }

    /// The level of bar `i` of `n` after the edge boost: the outermost bars
    /// gain up to `EDGE_BOOST`, the middle ones nothing; clamped to full
    /// scale.
    pub fn boost(level: u64, i: usize, n: usize) -> (r: u64)
        requires
            i < n <= MAX_BARS,
            level <= UNIT,
        ensures
            r == boosted_level(level as int, i as int, n as int),
            r <= UNIT,
    {
        let d: u64 = if 2 * i >= n {
            (2 * i - n) as u64
        } else {
            (n - 2 * i) as u64
        };
        assert(d <= n);
        let distance = d * UNIT / (n as u64);
        assert(distance <= UNIT) by (nonlinear_arith)
            requires
                distance == (d as int) * 1_000_000 / (n as int),
                d <= n,
                n >= 1,
        ;
        let gain = UNIT + EDGE_BOOST * distance / UNIT;
        assert(gain <= 2 * UNIT) by (nonlinear_arith)
            requires
                gain == 1_000_000 + 350_000 * (distance as int) / 1_000_000,
                distance <= 1_000_000,
        ;
        assert(level * gain <= 2_000_000_000_000) by (nonlinear_arith)
            requires
                level <= 1_000_000,
                gain <= 2_000_000,
        ;
        let v = level * gain / UNIT;
        if v <= UNIT {
            v
        } else {
            UNIT
        }
    }

    /// Moves the bars and their held peaks one frame towards `targets` (one
    /// level per bar, within `0..=UNIT`). When the number of bars changed,
    /// bars and peaks first restart from 0. Each bar moves halfway up to a
    /// higher target and otherwise falls by `BAR_FALLOFF`; each peak rises
    /// with its bar and otherwise falls by `PEAK_FALL`, never below the bar.
    pub fn advance_bars(bars: &mut Vec<u64>, peaks: &mut Vec<u64>, targets: &Vec<u64>)
        requires
            levels_bounded(targets@),
            levels_bounded(old(bars)@),
            levels_bounded(old(peaks)@),
            old(bars)@.len() == old(peaks)@.len(),
        ensures
            final(bars)@.len() == targets@.len(),
            final(peaks)@.len() == targets@.len(),
            levels_bounded(final(bars)@),
            levels_bounded(final(peaks)@),
            forall|i: int|
                0 <= i < targets@.len() ==> {
                    let restart = old(bars)@.len() != targets@.len();
                    let bar = if restart {
                        0
                    } else {
                        old(bars)@[i] as int
                    };
                    let peak = if restart {
                        0
                    } else {
                        old(peaks)@[i] as int
                    };
                    &&& #[trigger] final(bars)@[i] == next_bar(bar, targets@[i] as int)
                    &&& final(peaks)@[i] == next_held_peak(peak, final(bars)@[i] as int)
                },
    {
        let n = targets.len();
        let restart = bars.len() != n;
        if restart {
            let mut fresh_bars: Vec<u64> = Vec::new();
            let mut fresh_peaks: Vec<u64> = Vec::new();
            let mut k: usize = 0;
            while k < n
                invariant
                    k <= n,
                    fresh_bars@ == Seq::new(k as nat, |j: int| 0u64),
                    fresh_peaks@ == Seq::new(k as nat, |j: int| 0u64),
                decreases n - k,
            {
                fresh_bars.push(0);
                fresh_peaks.push(0);
                k = k + 1;
                assert(fresh_bars@ =~= Seq::new(k as nat, |j: int| 0u64));
                assert(fresh_peaks@ =~= Seq::new(k as nat, |j: int| 0u64));
            }
            *bars = fresh_bars;
            *peaks = fresh_peaks;
        }
        let ghost start_bars = bars@;
        let ghost start_peaks = peaks@;
        assert(forall|j: int|
            0 <= j < n ==> start_bars[j] as int == (if restart {
                0
            } else {
                old(bars)@[j] as int
            }) && start_peaks[j] as int == (if restart {
                0
            } else {
                old(peaks)@[j] as int
            }));
        let mut i: usize = 0;
        while i < n
            invariant
                n == targets@.len(),
                bars@.len() == n,
                peaks@.len() == n,
                i <= n,
                levels_bounded(targets@),
                start_bars.len() == n,
                start_peaks.len() == n,
                levels_bounded(start_bars),
                levels_bounded(start_peaks),
                forall|j: int|
                    0 <= j < i ==> {
                        &&& #[trigger] bars@[j] == next_bar(
                            start_bars[j] as int,
                            targets@[j] as int,
                        )
                        &&& peaks@[j] == next_held_peak(start_peaks[j] as int, bars@[j] as int)
                        &&& bars@[j] <= UNIT
                        &&& peaks@[j] <= UNIT
                    },
                forall|j: int| i <= j < n ==> bars@[j] == start_bars[j] && peaks@[j] == start_peaks[j],
            decreases n - i,
        {
            let bar = bars[i];
            let target = targets[i];
            let next = if target > bar {
                (bar + target) / 2
            } else if bar >= BAR_FALLOFF {
                bar - BAR_FALLOFF
            } else {
                0
            };
            let peak = peaks[i];
            let held = if next >= peak {
                next
            } else if peak >= PEAK_FALL && peak - PEAK_FALL >= next {
                peak - PEAK_FALL
            } else {
                next
            };
            bars.set(i, next);
            peaks.set(i, held);
            i = i + 1;
        }
        assert forall|j: int| 0 <= j < n implies peaks@[j] <= UNIT && bars@[j] <= UNIT by {
            assert(bars@[j] == next_bar(start_bars[j] as int, targets@[j] as int));
        }
    }

    /// The band levels stretched over the columns of a canvas in an area
    /// `area_width` cells wide, by linear interpolation between neighbouring
    /// bins; empty when there are no bins.
    pub fn columns(bins: &Vec<u64>, area_width: u16) -> (r: Vec<u64>)
        requires
            levels_bounded(bins@),
        ensures
            bins@.len() == 0 ==> r@.len() == 0,
            bins@.len() > 0 ==> r@.len() == canvas_columns(area_width as int),
            bins@.len() > 0 ==> forall|i: int|
                0 <= i < r@.len() ==> #[trigger] r@[i] == column_value(
                    bins@,
                    canvas_columns(area_width as int),
                    i,
                ),
            levels_bounded(r@),
    {
        let mut out: Vec<u64> = Vec::new();
        let n = bins.len();
        if n == 0 {
            return out;
        }
        let columns: usize = if area_width >= 3 {
            (area_width - 2) as usize
        } else {
            1
        };
        let d: usize = if columns >= 2 {
            columns - 1
        } else {
            1
        };
        let mut i: usize = 0;
        while i < columns
            invariant
                n == bins@.len(),
                n > 0,
                columns == canvas_columns(area_width as int),
                columns <= 0xFFFF,
                d == (if columns - 1 >= 1 {
                    columns - 1
                } else {
                    1
                }),
                i <= columns,
                levels_bounded(bins@),
                out@.len() == i,
                forall|k: int|
                    0 <= k < i ==> #[trigger] out@[k] == column_value(bins@, columns as int, k),
                levels_bounded(out@),
            decreases columns - i,
        {
            assert((i as int) * ((n - 1) as int) <= 0xFFFF * 0xFFFF_FFFF_FFFF_FFFFint)
                by (nonlinear_arith)
                requires
                    i <= 0xFFFF,
                    0 <= n - 1 <= 0xFFFF_FFFF_FFFF_FFFFint,
            ;
            let pos: u128 = (i as u128) * ((n - 1) as u128);
            let lo_wide = pos / (d as u128);
            let frac_wide = pos % (d as u128);
            assert(lo_wide <= n - 1) by (nonlinear_arith)
                requires
                    lo_wide == (pos as int) / (d as int),
                    pos == (i as int) * (n - 1),
                    i <= d,
                    d >= 1,
                    n >= 1,
            ;
            assert(i <= d);
            let lo = lo_wide as usize;
            let frac = frac_wide as u64;
            let hi = if lo + 1 <= n - 1 {
                lo + 1
            } else {
                n - 1
            };
            let a = bins[lo];
            let b = bins[hi];
            assert(a <= UNIT && b <= UNIT);
            let dd = d as u64;
            assert(frac < dd);
            assert(a * (dd - frac) <= UNIT * dd && b * frac <= UNIT * dd && a * (dd - frac) + b
                * frac <= UNIT * dd) by (nonlinear_arith)
                requires
                    a <= UNIT,
                    b <= UNIT,
                    frac < dd,
                    dd <= 0xFFFF,
            ;
            let mixed: u64 = (a * (dd - frac) + b * frac) / dd;
            assert(mixed <= UNIT) by (nonlinear_arith)
                requires
                    mixed == ((a * (dd - frac) + b * frac) as int) / (dd as int),
                    a * (dd - frac) + b * frac <= UNIT * dd,
                    dd >= 1,
            ;
            out.push(mixed);
            i = i + 1;
        }
        out
    }
}

} // verus!
