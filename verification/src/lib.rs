//! Verified core of a subtitle-generation pipeline: decoding a raw
//! little-endian 16-bit PCM byte stream, materialising it as a WAV
//! container, and formatting recognizer segments as an SRT document.

pub mod pcm;
pub mod srt;
pub mod wav;
