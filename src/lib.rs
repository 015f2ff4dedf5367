//! Live audio samples for visualisation: a lock-free sample tap between the
//! playback engine and the display, and the fixed-point spectrum engine that
//! turns analysed windows into smoothed, self-calibrating band levels.
pub mod spectrum;
pub mod stats;
pub mod tap;
pub mod widgets;
