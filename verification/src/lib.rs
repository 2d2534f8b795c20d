//! An LZ77-style byte compressor with a verified wire format.
//!
//! The encoder walks the input with a sliding-window match finder and emits
//! a fixed ten-byte header followed by a stream of literal and
//! back-reference tokens; the decoder replays such a stream and rejects
//! corrupted input.  The contracts pin both directions down to mathematical
//! models of the format, and the round-trip law is proved in
//! [`correctness`].

pub mod correctness;
pub mod decoder;
pub mod encoder;
pub mod format;
pub mod match_finder;

pub use decoder::decompress;
pub use decoder::DecodeError;
pub use encoder::compress_bytes;
pub use encoder::compress_str;
pub use match_finder::find_longest_match;
