//! Bookkeeping core of a streaming speech recognizer: framing of the sample
//! stream, low-frame-rate stacking, the voice-activity window detector, token
//! decoding and the orchestration state that threads buffers between them.
//!
//! Sample and feature values are carried as an opaque element type `T`; every
//! function here moves, selects and counts them, and none does arithmetic on
//! them.

pub mod command;
pub mod constant;
pub mod download;
pub mod e2e_vad;
pub mod fbank;
pub mod frontend;
pub mod global;
pub mod paraformer;
pub mod recorder;
pub mod sense_voice;
pub mod seqs;
pub mod token;
