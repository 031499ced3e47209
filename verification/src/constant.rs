//! Numeric parameters of the pipeline.

use vstd::prelude::*;

verus! {

/// Sample rate, in Hz, of the stream that enters framing.
pub const SAMPLE_RATE: usize = 16000;

/// Samples in one analysis window (25 ms).
pub const FRAME_LENGTH: usize = 400;

/// Samples between the starts of two consecutive windows (10 ms).
pub const FRAME_SHIFT: usize = 160;

/// Size of the zero-padded transform input.
pub const PADDED_SIZE: usize = 512;

/// Mel bins in one frame's feature vector.
pub const MEL_BINS: usize = 80;

/// Frames stacked into one row for the endpoint detector.
pub const ENDPOINT_DETECTION_LFR_M: usize = 5;

/// Frames between two consecutive rows for the endpoint detector.
pub const ENDPOINT_DETECTION_LFR_N: usize = 1;

/// Frames stacked into one row for the recognizers.
pub const SPEECH_RECOGNITION_LFR_M: usize = 7;

/// Frames between two consecutive rows for the recognizers.
pub const SPEECH_RECOGNITION_LFR_N: usize = 6;

/// Labels held by the sliding window of the endpoint detector.
pub const WIN_SIZE_FRAME: usize = 20;

/// Speech labels in the window at or above which silence turns into speech.
pub const SIL_TO_SPEECH_FRMCNT_THRES: usize = 15;

/// Speech labels in the window at or below which speech turns into silence.
pub const SPEECH_TO_SIL_FRMCNT_THRES: usize = 15;

/// Most samples the capture queue holds (five minutes at 16 kHz).
pub const MAX_QUEUE_SIZE: usize = 4800000;

} // verus!
