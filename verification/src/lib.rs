//! Verified core of an audio-file inspector: the decisions and bookkeeping behind decoding,
//! tag scanning, bit-depth padding detection, clipping counts, playback position and the
//! lossy-history verdict. Signal processing on floating-point samples lives with the
//! application around this library; every rule that reads integers, flags or text is here.

pub mod decode;
pub mod text;
pub mod tags;
pub mod mdct_grid;
pub mod transcode_detect;
pub mod commands;
pub mod bit_depth;
pub mod signal_analysis;
pub mod player;
pub mod spectral;
pub mod dynamic_range;
