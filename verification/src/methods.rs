//! Selectors for the alternative engines of the restoration stages, each with
//! the default the toolbox uses when none is named.
use vstd::prelude::*;

verus! {

/// How lag is estimated between two signals.
#[derive(Debug, Clone, Copy, PartialEq, Eq, Structural)]
pub enum LagMethod {
    /// Time-domain normalised cross-correlation (default; cheap, robust on
    /// similar signals).
    Correlation,
    /// Generalised cross-correlation with phase transform — better on
    /// dissimilar levels or mild reverb.
    GccPhat,
}

impl Default for LagMethod {
    /// Plain cross-correlation is the default estimator.
    fn default() -> (m: Self)
        ensures
            m == LagMethod::Correlation,
    {
        LagMethod::Correlation
    }
}

/// Reconstruction strategy for clipped (flat-topped) samples.
#[derive(Debug, Clone, Copy, PartialEq, Eq, Structural)]
pub enum DeclipMethod {
    /// A-SPADE sparse reconstruction over a Gabor tight frame (default).
    Spade,
    /// Cubic-Hermite fill across each clipped run.
    Cubic,
    /// Social sparsity via persistent empirical Wiener shrinkage.
    Social,
    /// Constrained orthogonal matching pursuit on a DFT dictionary.
    Omp,
    /// Non-negative matrix factorisation of the STFT magnitude.
    Nmf,
    /// Deep-unfolded soft-threshold iterations.
    Neural,
}

impl Default for DeclipMethod {
    /// A-SPADE is the default reconstruction.
    fn default() -> (m: Self)
        ensures
            m == DeclipMethod::Spade,
    {
        DeclipMethod::Spade
    }
}

/// A standard de-emphasis curve.
#[derive(Debug, Clone, Copy, PartialEq, Eq, Structural)]
pub enum Emphasis {
    /// FM broadcast, 50 µs time constant.
    Fm50,
    /// FM broadcast, 75 µs time constant.
    Fm75,
    /// CD / IEC 60908 optional pre-emphasis (50 µs pole, 15 µs zero).
    CdIec,
}

/// Bandwidth-extension strategy.
#[derive(Debug, Clone, Copy, PartialEq, Eq, Structural)]
pub enum EnhanceMethod {
    /// Spectral band replication (default).
    Replicate,
    /// Log-spaced magnitude interpolation into the empty high band.
    Interpolate,
}

impl Default for EnhanceMethod {
    /// Band replication is the default.
    fn default() -> (m: Self)
        ensures
            m == EnhanceMethod::Replicate,
    {
        EnhanceMethod::Replicate
    }
}

/// How to redraw samples after a click is detected.
#[derive(Debug, Clone, Copy, PartialEq, Eq, Structural)]
pub enum DeclickMethod {
    /// Autoregressive interpolation across the excised span (default).
    Ar,
    /// Cubic-Hermite curve across the gap.
    Cubic,
}

impl Default for DeclickMethod {
    /// Autoregressive reconstruction is the default.
    fn default() -> (m: Self)
        ensures
            m == DeclickMethod::Ar,
    {
        DeclickMethod::Ar
    }
}

/// How to tame plosive pops.
#[derive(Debug, Clone, Copy, PartialEq, Eq, Structural)]
pub enum DeplosiveMethod {
    /// Event-gated downward expander on the low band (default): undamaged
    /// material is returned unchanged.
    Events,
    /// Whole-file STFT band-transient suppression.
    Transients,
}

impl Default for DeplosiveMethod {
    /// The event-gated expander is the default.
    fn default() -> (m: Self)
        ensures
            m == DeplosiveMethod::Events,
    {
        DeplosiveMethod::Events
    }
}

/// Which time-stretch engine to use.
#[derive(Debug, Clone, Copy, PartialEq, Eq, Structural)]
pub enum StretchMode {
    /// Waveform-similarity overlap-add (default, no FFT).
    Wsola,
    /// Phase vocoder — smoother on tonal material.
    PhaseVocoder,
}

impl Default for StretchMode {
    /// WSOLA is the default engine.
    fn default() -> (m: Self)
        ensures
            m == StretchMode::Wsola,
    {
        StretchMode::Wsola
    }
}

/// Geometry and capacity of a neural spectral-gain denoiser. The STFT size
/// fixes the input width (`fft_size / 2 + 1` bins).
#[derive(Debug, Clone, Copy, PartialEq, Eq, Structural)]
pub struct NeuralConfig {
    /// Analysis/synthesis FFT size in samples.
    pub fft_size: usize,
    /// Hop between successive frames in samples.
    pub hop_size: usize,
    /// GRU hidden width.
    pub hidden: usize,
}

impl Default for NeuralConfig {
    /// 512-point STFT at 75 % overlap, 256-wide GRU.
    fn default() -> (c: Self)
        ensures
            c.fft_size == 512,
            c.hop_size == 128,
            c.hidden == 256,
    {
        NeuralConfig { fft_size: 512, hop_size: 128, hidden: 256 }
    }
}

} // verus!
