//! The spectrum engine: turns the magnitude spectrum of the freshest window of
//! samples into one level per perceptual band, normalised by each band's own
//! recent peak and smoothed with a fast attack and a slow release.
//!
//! Levels are fixed-point: `UNIT` stands for 1.0. Frequencies are in
//! millihertz. The transform itself (downmix, Hann window, FFT) runs outside
//! the engine: `update` says which window to analyse, and `apply_spectrum`
//! takes the resulting `(frequency, magnitude)` points.
use vstd::prelude::*;

verus! {

/// The number of raw samples the analysis reads from the tap.
pub const TAP_BUFFER_CAPACITY: usize = 4096;

/// Full scale of a level, standing for 1.0.
pub const UNIT: u64 = 1_000_000;

/// The lowest a band peak falls to (1e-3 of full scale).
pub const PEAK_FLOOR: u64 = 1_000;

/// Lower end of the analysed range: 20 Hz, in millihertz.
pub const LOW_EDGE: u64 = 20_000;

/// Upper end of the analysed range: 20 kHz, in millihertz.
pub const HIGH_EDGE: u64 = 20_000_000;

/// The release applied to a falling bin (0.85 of full scale).
pub const DEFAULT_DECAY: u64 = 850_000;

/// `v` scaled by the fixed-point factor `f`.
pub open spec fn scaled(v: int, f: int) -> int {
    v * f / UNIT as int
}

/// The upper edge of the band that starts at `freq`: 5% above it, or one
/// frequency step above it when that is wider.
pub open spec fn next_edge(freq: int, resolution: int) -> int {
    let grown = freq * 105 / 100;
    let stepped = freq + resolution;
    if grown >= stepped {
        grown
    } else {
        stepped
    }
}

/// The bands from `freq` up to the top of the analysed range.
pub open spec fn bands_from(freq: int, resolution: int) -> Seq<(int, int)>
    decreases HIGH_EDGE - freq via bands_from_decreases
{
    if freq < LOW_EDGE || freq >= HIGH_EDGE || resolution < 0 {
        Seq::empty()
    } else {
        let next = next_edge(freq, resolution);
        if next >= HIGH_EDGE {
            seq![(freq, HIGH_EDGE as int)]
        } else {
            seq![(freq, next)] + bands_from(next, resolution)
        }
    }
}

#[via_fn]
proof fn bands_from_decreases(freq: int, resolution: int) {
    if !(freq < LOW_EDGE || freq >= HIGH_EDGE || resolution < 0) {
        assert(freq * 105 / 100 > freq) by (nonlinear_arith)
            requires
                freq >= 20_000,
        ;
        assert(next_edge(freq, resolution) > freq);
    }
}

/// The frequency step of a transform over `window` samples at `sample_rate`,
/// in millihertz.
pub open spec fn resolution_of(sample_rate: int, window: int) -> int {
    sample_rate * 1000 / window
}

/// The band table for a sample rate and analysis window: geometrically
/// growing bands from 20 Hz to 20 kHz.
pub open spec fn band_table(sample_rate: int, window: int) -> Seq<(int, int)> {
    bands_from(LOW_EDGE as int, resolution_of(sample_rate, window))
}

/// The analysis window, in mono frames, for a channel count.
pub open spec fn window_of(channels: int) -> int {
    TAP_BUFFER_CAPACITY as int / channels
}

/// A band table with its edges as integers.
pub open spec fn band_view(v: Seq<(u64, u64)>) -> Seq<(int, int)> {
    v.map_values(|b: (u64, u64)| (b.0 as int, b.1 as int))
}

/// Every bin released once by the decay factor.
pub open spec fn decayed(bins: Seq<int>, decay: int) -> Seq<int> {
    Seq::new(bins.len(), |i: int| scaled(bins[i] as int, decay))
}

/// Levels as integers.
pub open spec fn widen(v: Seq<u64>) -> Seq<int> {
    v.map_values(|x: u64| x as int)
}

/// The sum of the magnitudes of the points whose frequency lies in `[lo, hi)`.
pub open spec fn band_sum(points: Seq<(u64, u64)>, lo: int, hi: int) -> int
    decreases points.len(),
{
    if points.len() == 0 {
        0
    } else {
        let p = points.last();
        band_sum(points.drop_last(), lo, hi) + if lo <= p.0 < hi {
            p.1 as int
        } else {
            0
        }
    }
}

/// The number of points whose frequency lies in `[lo, hi)`.
pub open spec fn band_hits(points: Seq<(u64, u64)>, lo: int, hi: int) -> int
    decreases points.len(),
{
    if points.len() == 0 {
        0
    } else {
        let p = points.last();
        band_hits(points.drop_last(), lo, hi) + if lo <= p.0 < hi {
            1int
        } else {
            0
        }
    }
}

/// A band's level: the mean magnitude of its points, relative to half the
/// window length; 0 for a band that no point falls in.
pub open spec fn band_level(points: Seq<(u64, u64)>, band: (int, int), window: int) -> int {
    let hits = band_hits(points, band.0, band.1);
    if hits == 0 {
        0
    } else {
        band_sum(points, band.0, band.1) / hits * 2 / window
    }
}

/// The tracked peak after a level: it snaps up to a louder level at once and
/// otherwise falls by 1%, never below the floor.
pub open spec fn next_peak(level: int, peak: int) -> int {
    if level > peak {
        level
    } else {
        let fallen = peak * 99 / 100;
        if fallen >= PEAK_FLOOR {
            fallen
        } else {
            PEAK_FLOOR as int
        }
    }
}

/// A level relative to its band's peak, clamped to full scale.
pub open spec fn relative_level(level: int, peak: int) -> int {
    let r = level * UNIT / peak;
    if r <= UNIT {
        r
    } else {
        UNIT as int
    }
}

/// A displayed bin after a new relative level: it rises to a higher level at
/// once and otherwise is released by the decay factor.
pub open spec fn next_bin(relative: int, bin: int, decay: int) -> int {
    if relative > bin {
        relative
    } else {
        scaled(bin, decay)
    }
}

/// Every level lies within `0..=UNIT`.
pub open spec fn levels_bounded(levels: Seq<u64>) -> bool {
    forall|i: int| 0 <= i < levels.len() ==> levels[i] <= UNIT
}

/// Builds the band table for a sample rate and an analysis window of
/// `window` mono frames.
fn build_bands(sample_rate: u32, window: usize) -> (r: Vec<(u64, u64)>)
    requires
        window >= 1,
    ensures
        band_view(r@) == band_table(sample_rate as int, window as int),
{
    let resolution: u64 = (sample_rate as u64) * 1000 / (window as u64);
    assert(resolution <= 0xFFFF_FFFFu64 * 1000) by (nonlinear_arith)
        requires
            resolution == (sample_rate as int) * 1000 / (window as int),
            window >= 1,
            sample_rate <= 0xFFFF_FFFFu64,
    ;
    let ghost all = bands_from(LOW_EDGE as int, resolution as int);
    let mut bands: Vec<(u64, u64)> = Vec::new();
    let mut freq: u64 = LOW_EDGE;
    assert(band_view(bands@) + bands_from(freq as int, resolution as int) =~= all);
    while freq < HIGH_EDGE
        invariant
            LOW_EDGE <= freq,
            resolution <= 0xFFFF_FFFFu64 * 1000,
            band_view(bands@) + bands_from(freq as int, resolution as int) == all,
        decreases (if freq < HIGH_EDGE {
            HIGH_EDGE - freq
        } else {
            0
        }),
    {
        let grown = freq * 105 / 100;
        let stepped = freq + resolution;
        let next = if grown >= stepped {
            grown
        } else {
            stepped
        };
        assert(grown > freq) by (nonlinear_arith)
            requires
                grown == (freq as int) * 105 / 100,
                freq >= 20_000,
        ;
        let hi = if next <= HIGH_EDGE {
            next
        } else {
            HIGH_EDGE
        };
        let ghost before = band_view(bands@);
        assert(bands_from(freq as int, resolution as int) == seq![(freq as int, hi as int)]
            + bands_from(next as int, resolution as int)) by {
            if next >= HIGH_EDGE {
                assert(bands_from(next as int, resolution as int) =~= Seq::<(int, int)>::empty());
                assert(seq![(freq as int, hi as int)] + Seq::<(int, int)>::empty() =~= seq![
                    (freq as int, hi as int),
                ]);
            }
        }
        bands.push((freq, hi));
        assert(band_view(bands@) =~= before + seq![(freq as int, hi as int)]);
        assert(band_view(bands@) + bands_from(next as int, resolution as int) =~= before + (seq![
            (freq as int, hi as int),
        ] + bands_from(next as int, resolution as int)));
        freq = next;
    }
    assert(bands_from(freq as int, resolution as int) =~= Seq::<(int, int)>::empty());
    assert(band_view(bands@) =~= all);
    bands
}

/// Sums and counts the points of one band, then scales the mean magnitude by
/// half the window length.
fn measure_band(points: &Vec<(u64, u64)>, lo: u64, hi: u64, window: usize) -> (r: u64)
    requires
        window >= 2,
    ensures
        r == band_level(points@, (lo as int, hi as int), window as int),
{
    let mut sum: u128 = 0;
    let mut hits: u64 = 0;
    let mut j: usize = 0;
    while j < points.len()
        invariant
            j <= points@.len(),
            sum == band_sum(points@.subrange(0, j as int), lo as int, hi as int),
            hits == band_hits(points@.subrange(0, j as int), lo as int, hi as int),
            sum <= hits * 0xFFFF_FFFF_FFFF_FFFFu128,
            hits <= j,
        decreases points.len() - j,
    {
        let (f, m) = points[j];
        assert(points@.subrange(0, j + 1).drop_last() =~= points@.subrange(0, j as int));
        if lo <= f && f < hi {
            sum = sum + m as u128;
            hits = hits + 1;
        }
        j = j + 1;
    }
    assert(points@.subrange(0, j as int) =~= points@);
    if hits == 0 {
        0
    } else {
        let mean = sum / (hits as u128);
        assert(mean <= 0xFFFF_FFFF_FFFF_FFFFu128) by (nonlinear_arith)
            requires
                mean == (sum as int) / (hits as int),
                sum <= hits * 0xFFFF_FFFF_FFFF_FFFFu128,
                1 <= hits,
        ;
        let level = mean * 2 / (window as u128);
        assert(level <= mean) by (nonlinear_arith)
            requires
                level == (mean as int) * 2 / (window as int),
                window >= 2,
        ;
        level as u64
    }
}

/// A vector of `n` copies of `v`.
fn filled(n: usize, v: u64) -> (r: Vec<u64>)
    ensures
        r@ == Seq::new(n as nat, |i: int| v),
{
    let mut r: Vec<u64> = Vec::new();
    let mut k: usize = 0;
    while k < n
        invariant
            k <= n,
            r@ == Seq::new(k as nat, |i: int| v),
        decreases n - k,
    {
        r.push(v);
        k = k + 1;
        assert(r@ =~= Seq::new(k as nat, |i: int| v));
    }
    r
}

/// What an update asks of the caller.
#[derive(Clone, Copy, Debug, PartialEq, Eq, Structural)]
pub enum UpdateOutcome {
    /// No channels or no sample rate: nothing was done.
    Ignored,
    /// Too few samples for a window: every bin was released once.
    Decayed,
    /// The caller is to transform the `len` mono frames from `start` on and
    /// hand the spectrum to `apply_spectrum`.
    Analyse { start: usize, len: usize },
}

/// What one update does (see `SpectrumState::update`): with no channels or
/// no sample rate nothing changes; a new sample rate rebuilds the band table
/// and resets bins and peaks; too few frames for the window release every bin
/// once; otherwise the newest window is to be analysed.
pub open spec fn updated(
    before: &SpectrumState,
    after: &SpectrumState,
    r: UpdateOutcome,
    sample_count: int,
    channels: int,
    sample_rate: int,
) -> bool {
    &&& after.decay() == before.decay()
    &&& (channels == 0 || sample_rate == 0) ==> {
        &&& r == UpdateOutcome::Ignored
        &&& after.levels() == before.levels()
        &&& after.band_edges() == before.band_edges()
        &&& after.peaks() == before.peaks()
        &&& after.rate() == before.rate()
    }
    &&& (channels > 0 && sample_rate > 0) ==> {
        let w = window_of(channels);
        let frames = sample_count / channels;
        let fresh = sample_rate != before.rate();
        let n = after.band_edges().len();
        let base = if fresh {
            Seq::new(n, |i: int| 0int)
        } else {
            widen(before.levels())
        };
        &&& after.rate() == sample_rate
        &&& fresh ==> after.band_edges() == band_table(sample_rate, w) && after.peaks()
            == Seq::new(n, |i: int| PEAK_FLOOR)
        &&& !fresh ==> after.band_edges() == before.band_edges() && after.peaks()
            == before.peaks()
        &&& frames < w ==> r == UpdateOutcome::Decayed && widen(after.levels()) == decayed(
            base,
            before.decay(),
        )
        &&& frames >= w ==> r == (UpdateOutcome::Analyse {
            start: (frames - w) as usize,
            len: w as usize,
        }) && widen(after.levels()) == base
    }
}

/// Band levels for display, with the band table and peaks behind them.
pub struct SpectrumState {
    /// One level per band, within `0..=UNIT`.
    pub bins: Vec<u64>,
    /// The release of a falling bin, within `0..=UNIT`.
    pub decay_factor: u64,
    bands: Vec<(u64, u64)>,
    band_peaks: Vec<u64>,
    sample_rate: u32,
}

impl SpectrumState {
    /// The band table, as `(low, high)` edges in millihertz.
    pub closed spec fn band_edges(&self) -> Seq<(int, int)> {
        band_view(self.bands@)
    }

    /// The displayed level of each band.
    pub closed spec fn levels(&self) -> Seq<u64> {
        self.bins@
    }

    /// The release factor of a falling bin.
    pub closed spec fn decay(&self) -> int {
        self.decay_factor as int
    }

    /// The tracked peak of each band.
    pub closed spec fn peaks(&self) -> Seq<u64> {
        self.band_peaks@
    }

    /// The sample rate the band table was built for (0 before the first).
    pub closed spec fn rate(&self) -> u32 {
        self.sample_rate
    }

    /// Bins, bands and peaks have one entry each per band, every bin and
    /// the release factor lie within `0..=UNIT`, and every peak is at or
    /// above the floor.
    pub closed spec fn wf(&self) -> bool {
        &&& self.bins@.len() == self.bands@.len()
        &&& self.band_peaks@.len() == self.bands@.len()
        &&& levels_bounded(self.bins@)
        &&& self.decay_factor <= UNIT
        &&& forall|i: int| 0 <= i < self.band_peaks@.len() ==> self.band_peaks@[i] >= PEAK_FLOOR
    }

    /// Releases every bin once by the fixed-point factor `factor`.
    pub fn release_by(&mut self, factor: u64)
        requires
            old(self).wf(),
            factor <= UNIT,
        ensures
            final(self).wf(),
            levels_bounded(final(self).levels()),
            widen(final(self).levels()) == decayed(widen(old(self).levels()), factor as int),
            final(self).band_edges() == old(self).band_edges(),
            final(self).peaks() == old(self).peaks(),
            final(self).rate() == old(self).rate(),
            final(self).decay() == old(self).decay(),
    {
        let n = self.bins.len();
        let mut i: usize = 0;
        while i < n
            invariant
                self.wf(),
                n == self.bins@.len(),
                i <= n,
                self.decay_factor == old(self).decay_factor,
                factor <= UNIT,
                self.bands@ == old(self).bands@,
                self.band_peaks@ == old(self).band_peaks@,
                self.sample_rate == old(self).sample_rate,
                forall|k: int|
                    0 <= k < i ==> self.bins@[k] == scaled(old(self).bins@[k] as int, factor as int),
                forall|k: int| i <= k < n ==> self.bins@[k] == old(self).bins@[k],
            decreases n - i,
        {
            let b = self.bins[i];
            let d = factor;
            assert(b <= UNIT);
            assert((b as int) * (d as int) <= 1_000_000_000_000) by (nonlinear_arith)
                requires
                    b <= 1_000_000,
                    d <= 1_000_000,
            ;
            let v = b * d / UNIT;
            assert(v <= b) by (nonlinear_arith)
                requires
                    v == (b as int) * (d as int) / 1_000_000,
                    d <= 1_000_000,
            ;
            self.bins.set(i, v);
            i = i + 1;
        }
        assert(widen(self.levels()) =~= decayed(widen(old(self).levels()), factor as int));
    }

    /// Takes the samples available this tick (`sample_count` interleaved
    /// samples over `channels` channels at `sample_rate`) and prepares the
    /// analysis. With no channels or no sample rate nothing changes. A new
    /// sample rate rebuilds the band table and resets every bin to 0 and every
    /// peak to the floor. With fewer mono frames than the window (the tap
    /// capacity over the channel count) every bin is released once by the
    /// decay factor; otherwise the newest window of frames is to be analysed.
    pub fn update(&mut self, sample_count: usize, channels: u8, sample_rate: u32) -> (r:
        UpdateOutcome)
        requires
            old(self).wf(),
        ensures
            final(self).wf(),
            levels_bounded(final(self).levels()),
            updated(
                old(self),
                final(self),
                r,
                sample_count as int,
                channels as int,
                sample_rate as int,
            ),
    {
        if channels == 0 || sample_rate == 0 {
            return UpdateOutcome::Ignored;
        }
        let window = TAP_BUFFER_CAPACITY / (channels as usize);
        assert(window >= 16) by (nonlinear_arith)
            requires
                window == 4096int / (channels as int),
                1 <= channels <= 255,
        ;
        let fresh = self.sample_rate != sample_rate;
        if fresh {
            self.sample_rate = sample_rate;
            let bands = build_bands(sample_rate, window);
            let n = bands.len();
            self.bands = bands;
            self.band_peaks = filled(n, PEAK_FLOOR);
            self.bins = filled(n, 0);
            assert(widen(self.bins@) =~= Seq::new(n as nat, |i: int| 0int));
        }
        let ghost base = widen(self.bins@);
        let frames = sample_count / (channels as usize);
        if frames < window {
            let d = self.decay_factor;
            self.release_by(d);
            return UpdateOutcome::Decayed;
        }
        UpdateOutcome::Analyse { start: frames - window, len: window }
    }

    /// Takes the magnitude spectrum of the analysed window, as `(frequency,
    /// magnitude)` points with frequencies in millihertz, and updates every
    /// band: its level is the mean magnitude of the points in `[low, high)`
    /// relative to half the window; its peak snaps up to a louder level and
    /// otherwise falls by 1% down to the floor; its bin rises at once to a
    /// higher level relative to the new peak (clamped to full scale) and is
    /// otherwise released by the decay factor.
    pub fn apply_spectrum(&mut self, points: &Vec<(u64, u64)>, window: usize)
        requires
            old(self).wf(),
            window >= 2,
        ensures
            final(self).wf(),
            levels_bounded(final(self).levels()),
            final(self).band_edges() == old(self).band_edges(),
            final(self).rate() == old(self).rate(),
            final(self).decay() == old(self).decay(),
            final(self).levels().len() == old(self).levels().len(),
            forall|i: int|
                0 <= i < old(self).levels().len() ==> {
                    let level = band_level(points@, old(self).band_edges()[i], window as int);
                    &&& #[trigger] final(self).peaks()[i] == next_peak(level, old(self).peaks()[i] as int)
                    &&& final(self).levels()[i] == next_bin(
                        relative_level(level, final(self).peaks()[i] as int),
                        old(self).levels()[i] as int,
                        old(self).decay(),
                    )
                },
    {
        let n = self.bands.len();
        let mut i: usize = 0;
        while i < n
            invariant
                self.wf(),
                n == self.bands@.len(),
                i <= n,
                window >= 2,
                self.decay_factor == old(self).decay_factor,
                self.bands@ == old(self).bands@,
                self.sample_rate == old(self).sample_rate,
                forall|k: int|
                    0 <= k < i ==> {
                        let level = band_level(points@, old(self).band_edges()[k], window as int);
                        &&& #[trigger] self.band_peaks@[k] == next_peak(
                            level,
                            old(self).band_peaks@[k] as int,
                        )
                        &&& self.bins@[k] == next_bin(
                            relative_level(level, self.band_peaks@[k] as int),
                            old(self).bins@[k] as int,
                            old(self).decay_factor as int,
                        )
                    },
                forall|k: int|
                    i <= k < n ==> self.bins@[k] == old(self).bins@[k] && self.band_peaks@[k]
                        == old(self).band_peaks@[k],
            decreases n - i,
        {
            let (lo, hi) = self.bands[i];
            assert(old(self).band_edges()[i as int] == (lo as int, hi as int));
            let level = measure_band(points, lo, hi, window);
            let peak = self.band_peaks[i];
            let new_peak = if level > peak {
                level
            } else {
                let fallen = ((peak as u128) * 99 / 100) as u64;
                if fallen >= PEAK_FLOOR {
                    fallen
                } else {
                    PEAK_FLOOR
                }
            };
            self.band_peaks.set(i, new_peak);
            let scaled_level = (level as u128) * (UNIT as u128) / (new_peak as u128);
            let relative = if scaled_level <= UNIT as u128 {
                scaled_level as u64
            } else {
                UNIT
            };
            let bin = self.bins[i];
            let d = self.decay_factor;
            let next = if relative > bin {
                relative
            } else {
                assert(bin <= UNIT);
                assert((bin as int) * (d as int) <= 1_000_000_000_000) by (nonlinear_arith)
                    requires
                        bin <= 1_000_000,
                        d <= 1_000_000,
                ;
                let v = bin * d / UNIT;
                assert(v <= bin) by (nonlinear_arith)
                    requires
                        v == (bin as int) * (d as int) / 1_000_000,
                        d <= 1_000_000,
                ;
                v
            };
            self.bins.set(i, next);
            i = i + 1;
        }
    }

    /// A well-formed state holds every bin within `0..=UNIT`, its release
    /// factor within `0..=UNIT`, and every peak at or above the floor.
    pub proof fn lemma_wf_bounds(&self)
        requires
            self.wf(),
        ensures
            levels_bounded(self.levels()),
            0 <= self.decay() <= UNIT,
            forall|i: int| 0 <= i < self.peaks().len() ==> self.peaks()[i] >= PEAK_FLOOR,
            self.levels().len() == self.band_edges().len(),
            self.peaks().len() == self.band_edges().len(),
    {
    }

    /// Sets how fast a falling bin is released.
    pub fn set_decay_factor(&mut self, decay: u64)
        requires
            old(self).wf(),
            decay <= UNIT,
        ensures
            final(self).wf(),
            final(self).decay() == decay,
            final(self).levels() == old(self).levels(),
            final(self).band_edges() == old(self).band_edges(),
            final(self).peaks() == old(self).peaks(),
            final(self).rate() == old(self).rate(),
    {
        self.decay_factor = decay;
    }

    /// The band table, as `(low, high)` edges in millihertz.
    pub fn bands(&self) -> (r: &[(u64, u64)])
        ensures
            band_view(r@) == self.band_edges(),
    {
        self.bands.as_slice()
    }

    /// The tracked peak of each band.
    pub fn band_peaks(&self) -> (r: &[u64])
        ensures
            r@ == self.peaks(),
    {
        self.band_peaks.as_slice()
    }

    /// The sample rate the band table was built for (0 before the first).
    pub fn sample_rate(&self) -> (r: u32)
        ensures
            r == self.rate(),
    {
        self.sample_rate
    }

    /// The number of bands.
    pub fn band_count(&self) -> (r: usize)
        requires
            self.wf(),
        ensures
            r == self.band_edges().len(),
            r == self.levels().len(),
    {
        self.bands.len()
    }
}

impl Default for SpectrumState {
    /// No bands yet, no sample rate, and the default release.
    fn default() -> (r: Self)
        ensures
            r.wf(),
            r.levels().len() == 0,
            r.band_edges().len() == 0,
            r.peaks().len() == 0,
            r.rate() == 0,
            r.decay() == DEFAULT_DECAY,
    {
        SpectrumState {
            bins: Vec::new(),
            decay_factor: DEFAULT_DECAY,
            bands: Vec::new(),
            band_peaks: Vec::new(),
            sample_rate: 0,
        }
    }
}

/// A band whose level stays at or above its tracked peak, as a steady tone
/// in its range keeps it: the peak ends between the floor and the level (so
/// the next update with the same level finds the same situation), the
/// relative level is full scale, and the bin ends at full scale when it was
/// below it, and never below the release factor.
pub proof fn law_steady_tone_band(level: int, peak: int, bin: int, decay: int)
    requires
        level >= peak >= PEAK_FLOOR,
        0 <= bin <= UNIT,
        0 <= decay <= UNIT,
    ensures
        ({
            let p = next_peak(level, peak);
            let b = next_bin(relative_level(level, p), bin, decay);
            &&& PEAK_FLOOR <= p <= level
            &&& relative_level(level, p) == UNIT
            &&& bin < UNIT ==> b == UNIT
            &&& decay <= b <= UNIT
        }),
{
    let p = next_peak(level, peak);
    assert(peak * 99 / 100 <= peak) by (nonlinear_arith)
        requires
            peak >= 0,
    ;
    assert(p <= level);
    assert(level * UNIT / p >= UNIT) by (nonlinear_arith)
        requires
            level >= p,
            p >= 1,
            UNIT == 1_000_000,
    ;
    if bin == UNIT {
        assert(scaled(bin, decay) == decay);
    }
}

/// In silence (a band level of 0) the bin is released once by the decay
/// factor and the peak falls by only 1%, down to the floor: with a release
/// faster than 1% the bin falls faster than the peak, and a bin above 0
/// strictly falls whenever the release factor is below full scale.
pub proof fn law_silence_releases(bin: int, peak: int, decay: int)
    requires
        0 <= bin <= UNIT,
        peak >= PEAK_FLOOR,
        0 <= decay <= UNIT,
    ensures
        ({
            let p = next_peak(0, peak);
            &&& p == if peak * 99 / 100 >= PEAK_FLOOR {
                peak * 99 / 100
            } else {
                PEAK_FLOOR as int
            }
            &&& next_bin(relative_level(0, p), bin, decay) == scaled(bin, decay)
            &&& 0 <= scaled(bin, decay) <= bin
            &&& decay < UNIT && bin > 0 ==> scaled(bin, decay) < bin
            &&& decay * 100 <= UNIT * 99 ==> scaled(bin, decay) * 100 <= bin * 99
        }),
{
    assert(0 <= bin * decay / (UNIT as int) <= bin) by (nonlinear_arith)
        requires
            0 <= bin,
            0 <= decay <= UNIT,
            UNIT == 1_000_000,
    ;
    if decay < UNIT && bin > 0 {
        assert(bin * decay / (UNIT as int) < bin) by (nonlinear_arith)
            requires
                bin > 0,
                0 <= decay < UNIT,
                UNIT == 1_000_000,
        ;
    }
    if decay * 100 <= UNIT * 99 {
        assert((bin * decay / (UNIT as int)) * 100 <= bin * 99) by (nonlinear_arith)
            requires
                bin >= 0,
                0 <= decay,
                decay * 100 <= UNIT * 99,
                UNIT == 1_000_000,
        ;
    }
}

/// A bin after `k` silent updates.
pub open spec fn silent_bin(bin: int, decay: int, k: nat) -> int
    decreases k,
{
    if k == 0 {
        bin
    } else {
        scaled(silent_bin(bin, decay, (k - 1) as nat), decay)
    }
}

/// With a release factor below full scale, silence brings every bin to 0
/// within a bounded number of updates: after `k` of them at most `bin - k`
/// is left, so after `UNIT` of them nothing is.
pub proof fn law_silence_reaches_zero(bin: int, decay: int, k: nat)
    requires
        0 <= bin <= UNIT,
        0 <= decay < UNIT,
    ensures
        0 <= silent_bin(bin, decay, k) <= bin,
        silent_bin(bin, decay, k) <= if bin - k >= 0 {
            bin - k
        } else {
            0
        },
        k >= UNIT ==> silent_bin(bin, decay, k) == 0,
    decreases k,
{
    if k > 0 {
        law_silence_reaches_zero(bin, decay, (k - 1) as nat);
        let prev = silent_bin(bin, decay, (k - 1) as nat);
        law_silence_releases(prev, PEAK_FLOOR as int, decay);
    }
}

proof fn lemma_bands_from_shape(freq: int, resolution: int)
    requires
        LOW_EDGE <= freq < HIGH_EDGE,
        resolution >= 0,
    ensures
        ({
            let t = bands_from(freq, resolution);
            &&& t.len() >= 1
            &&& t[0].0 == freq
            &&& t.last().1 == HIGH_EDGE
            &&& forall|i: int| 0 <= i < t.len() ==> freq <= #[trigger] t[i].0 < t[i].1 <= HIGH_EDGE
            &&& forall|i: int| 0 <= i < t.len() - 1 ==> #[trigger] t[i].1 == t[i + 1].0
        }),
    decreases HIGH_EDGE - freq,
{
    let next = next_edge(freq, resolution);
    assert(freq * 105 / 100 > freq) by (nonlinear_arith)
        requires
            freq >= 20_000,
    ;
    let t = bands_from(freq, resolution);
    if next < HIGH_EDGE {
        lemma_bands_from_shape(next, resolution);
        let rest = bands_from(next, resolution);
        assert(t == seq![(freq, next)] + rest);
        assert forall|i: int| 0 <= i < t.len() implies freq <= #[trigger] t[i].0 < t[i].1
            <= HIGH_EDGE by {
            if i > 0 {
                assert(t[i] == rest[i - 1]);
            }
        }
        assert forall|i: int| 0 <= i < t.len() - 1 implies #[trigger] t[i].1 == t[i + 1].0 by {
            if i > 0 {
                assert(t[i] == rest[i - 1]);
                assert(t[i + 1] == rest[i]);
            }
        }
    }
}

/// The band table covers 20 Hz to 20 kHz without gap or overlap: it has at
/// least one band, the first starts at 20 Hz, the last ends at 20 kHz, every
/// band is non-empty, and each band ends where the next begins.
pub proof fn law_band_table_shape(sample_rate: int, window: int)
    requires
        sample_rate >= 0,
        window >= 1,
    ensures
        ({
            let t = band_table(sample_rate, window);
            &&& t.len() >= 1
            &&& t[0].0 == LOW_EDGE
            &&& t.last().1 == HIGH_EDGE
            &&& forall|i: int|
                0 <= i < t.len() ==> LOW_EDGE <= #[trigger] t[i].0 < t[i].1 <= HIGH_EDGE
            &&& forall|i: int| 0 <= i < t.len() - 1 ==> #[trigger] t[i].1 == t[i + 1].0
        }),
{
    assert(resolution_of(sample_rate, window) >= 0) by (nonlinear_arith)
        requires
            sample_rate >= 0,
            window >= 1,
    ;
    lemma_bands_from_shape(LOW_EDGE as int, resolution_of(sample_rate, window));
}

} // verus!
