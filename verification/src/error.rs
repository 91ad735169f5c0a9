//! Errors of the toolbox's decode, encode and processing routines.
use vstd::prelude::*;

verus! {

/// Errors returned by the toolbox's decode, encode, and processing routines.
#[derive(Debug, Clone, PartialEq, Eq)]
pub enum Error {
    /// Encoding to the chosen output container (FLAC/AIFF) failed.
    Encode(String),
    /// Decoding the input failed (unsupported codec, corrupt stream, …).
    Decode(String),
    /// The container has no audio track to decode.
    NoAudioTrack,
    /// The input format or codec parameters are not supported.
    UnsupportedFormat,
    /// The signal is shorter than the analysis window the stage requires.
    TooShort,
    /// An FFT planning or processing error.
    Fft(String),
    /// A supplied noise print's FFT size does not match the denoiser's.
    NoisePrintMismatch,
}

} // verus!
