//! Windowed spectral analysis of decoded audio: sample assembly, overlapping
//! windows handed to a transform kernel, peak-bin estimation, spectrogram
//! rasters and single-bin traces.
//!
//! Samples are of any `Copy` type. A magnitude is carried as a `u64` key, the
//! bit pattern of a non-negative IEEE-754 double: for such values the unsigned
//! order of the keys is the numeric order of the magnitudes, and clearing bit
//! 63 of any double's pattern gives the pattern of its absolute value.
//! Frequencies are whole millihertz.
pub mod assembly;
pub mod peak;
pub mod spectrogram;
pub mod trace;
pub mod windowing;
