//! The recognition loop's state and decisions: which frames go to which
//! recognizer and when. The loop itself, which waits for samples, runs the
//! models and sends the transcripts, lives with the caller; it hands every
//! event to the state kept here and performs what comes back.

use crate::constant::{
    ENDPOINT_DETECTION_LFR_M, ENDPOINT_DETECTION_LFR_N, MEL_BINS, SPEECH_RECOGNITION_LFR_M,
    SPEECH_RECOGNITION_LFR_N,
};
use crate::e2e_vad::{PointType, Segment};
use crate::fbank::{
    copy_frames, features_of, frame_residual, frame_windows, frames_view, frames_wf, pretreatment,
    Frame, FrameView,
};
use crate::frontend::{apply_lfr, lfr_count, lfr_residual, lfr_rows, rows_have_width};
use crate::paraformer::{fresh_cache, Cache, CacheView};
use crate::recorder::newest;
use crate::seqs::rows_view;
use vstd::prelude::*;

verus! {

/// Samples that the loop takes from the capture queue at a time (200 ms).
pub const CHUNK_SAMPLES: usize = 3200;

/// Frames kept from before the start of an utterance (300 ms).
pub const LEAD_FRAMES: usize = 30;

/// Frames beyond which the streaming recognizer is run on what has
/// gathered.
pub const ONLINE_BATCH_FRAMES: usize = 60;

/// Kind of a transcript.
#[derive(Debug, Clone, Copy, PartialEq, Eq, Structural)]
pub enum SubtitlesType {
    /// A partial transcript, made while the speaker goes on.
    Online,
    /// The final transcript of an utterance.
    Offline,
}

impl SubtitlesType {
    /// The number that stands for the kind in a message.
    pub open spec fn spec_code(self) -> int {
        match self {
            SubtitlesType::Online => 1,
            SubtitlesType::Offline => 2,
        }
    }

    /// The number that stands for the kind in a message.
    pub fn code(&self) -> (code: u8)
        ensures
            code == self.spec_code(),
    {
        match self {
            SubtitlesType::Online => 1,
            SubtitlesType::Offline => 2,
        }
    }
}

/// One transcript on its way to the user.
#[derive(Debug)]
pub struct Subtitles {
    pub type_: SubtitlesType,
    pub msg: String,
}

/// What the endpoint detector reads for one batch of frames.
#[derive(Debug)]
pub struct VadInput<T> {
    /// The stacked features, one row per frame to label, not yet normalized.
    pub features: Vec<Vec<T>>,
    /// The energy of the frame that each row starts at.
    pub decibels: Vec<T>,
}

/// The state of the loop, as mathematical values.
pub struct RecognitionView<T> {
    /// Whether an utterance is open: a start was seen and no end yet.
    pub recording: bool,
    /// The newest frames seen, `LEAD_FRAMES` at most, while no utterance
    /// has taken them.
    pub last_300ms: Seq<FrameView<T>>,
    /// Samples that framing has left pending.
    pub remaining_waveform: Seq<T>,
    /// Frames that stacking for the endpoint detector has left pending.
    pub vad_remaining_frames: Seq<FrameView<T>>,
    /// Frames of the open utterance that the streaming recognizer has not
    /// been given yet.
    pub paraformer_frames: Seq<FrameView<T>>,
    /// Frames that stacking for the streaming recognizer has left pending.
    pub paraformer_remaining_frames: Seq<FrameView<T>>,
    /// All frames of the open utterance.
    pub sense_voice_frames: Seq<FrameView<T>>,
}

/// The state before the first sample.
pub open spec fn initial_view<T>() -> RecognitionView<T> {
    RecognitionView {
        recording: false,
        last_300ms: Seq::empty(),
        remaining_waveform: Seq::empty(),
        vad_remaining_frames: Seq::empty(),
        paraformer_frames: Seq::empty(),
        paraformer_remaining_frames: Seq::empty(),
        sense_voice_frames: Seq::empty(),
    }
}

/// The state after freshly drained samples have gone through framing.
pub open spec fn after_samples<T>(v: RecognitionView<T>, audio: Seq<T>) -> RecognitionView<T> {
    RecognitionView { remaining_waveform: frame_residual(v.remaining_waveform + audio), ..v }
}

/// The frames that the endpoint detector's stacking works on when `frames`
/// have come in: those it had left pending, then the new ones.
pub open spec fn vad_frames<T>(v: RecognitionView<T>, frames: Seq<FrameView<T>>) -> Seq<
    FrameView<T>,
> {
    v.vad_remaining_frames + frames
}

/// The rows that the endpoint detector reads when `frames` have come in.
pub open spec fn vad_features<T>(v: RecognitionView<T>, frames: Seq<FrameView<T>>) -> Seq<Seq<T>> {
    lfr_rows(
        features_of(vad_frames(v, frames)),
        ENDPOINT_DETECTION_LFR_M as nat,
        ENDPOINT_DETECTION_LFR_N as nat,
    )
}

/// The energies that go with the rows of `vad_features`: row `i` has the
/// energy of frame `i`.
pub open spec fn vad_decibels<T>(v: RecognitionView<T>, frames: Seq<FrameView<T>>) -> Seq<T> {
    Seq::new(vad_features(v, frames).len(), |i: int| vad_frames(v, frames)[i].decibel)
}

/// The state after new frames have come in: an open utterance gathers them
/// for both recognizers, the endpoint detector's stacking keeps its pending
/// frames, and the newest `LEAD_FRAMES` frames are remembered.
pub open spec fn after_frames<T>(v: RecognitionView<T>, frames: Seq<FrameView<T>>) -> RecognitionView<
    T,
> {
    RecognitionView {
        last_300ms: newest(v.last_300ms + frames, LEAD_FRAMES as nat),
        vad_remaining_frames: lfr_residual(
            vad_frames(v, frames),
            ENDPOINT_DETECTION_LFR_M as nat,
            ENDPOINT_DETECTION_LFR_N as nat,
        ),
        paraformer_frames: if v.recording {
            v.paraformer_frames + frames
        } else {
            v.paraformer_frames
        },
        sense_voice_frames: if v.recording {
            v.sense_voice_frames + frames
        } else {
            v.sense_voice_frames
        },
        ..v
    }
}

/// The rows that the recognizers read of `frames`.
pub open spec fn recognition_features<T>(frames: Seq<FrameView<T>>) -> Seq<Seq<T>> {
    lfr_rows(
        features_of(frames),
        SPEECH_RECOGNITION_LFR_M as nat,
        SPEECH_RECOGNITION_LFR_N as nat,
    )
}

/// The state after a boundary. A start opens an utterance and seeds both
/// recognizers with the frames remembered from before it. An end closes the
/// utterance and clears what was gathered for it and the streaming
/// recognizer's pending frames.
pub open spec fn after_segment<T>(v: RecognitionView<T>, point: PointType) -> RecognitionView<T> {
    match point {
        PointType::Start => RecognitionView {
            recording: true,
            paraformer_frames: v.last_300ms,
            sense_voice_frames: v.last_300ms,
            last_300ms: Seq::empty(),
            ..v
        },
        PointType::End => RecognitionView {
            recording: false,
            paraformer_frames: Seq::empty(),
            paraformer_remaining_frames: Seq::empty(),
            sense_voice_frames: Seq::empty(),
            ..v
        },
    }
}

/// The streaming recognizer's state after a boundary: an end starts it
/// afresh, every value being `zero`; a start leaves it as it is.
pub open spec fn cache_after_segment<T>(cache: CacheView<T>, point: PointType, zero: T) -> CacheView<
    T,
> {
    match point {
        PointType::Start => cache,
        PointType::End => fresh_cache(zero),
    }
}

/// What the offline recognizer is to read at a boundary: at an end, the
/// rows of all frames of the utterance; at a start, nothing.
pub open spec fn offline_features<T>(v: RecognitionView<T>, point: PointType) -> Option<
    Seq<Seq<T>>,
> {
    match point {
        PointType::Start => None,
        PointType::End => Some(recognition_features(v.sense_voice_frames)),
    }
}

/// Whether the streaming recognizer is due: an utterance is open and more
/// than `ONLINE_BATCH_FRAMES` frames have gathered for it.
pub open spec fn online_due<T>(v: RecognitionView<T>) -> bool {
    v.recording && v.paraformer_frames.len() > ONLINE_BATCH_FRAMES
}

/// The frames that the streaming recognizer's stacking works on when it is
/// due: those it had left pending, then the gathered ones.
pub open spec fn online_frames<T>(v: RecognitionView<T>) -> Seq<FrameView<T>> {
    v.paraformer_remaining_frames + v.paraformer_frames
}

/// The state after the streaming recognizer was given what had gathered.
pub open spec fn after_online<T>(v: RecognitionView<T>) -> RecognitionView<T> {
    if online_due(v) {
        RecognitionView {
            paraformer_frames: Seq::empty(),
            paraformer_remaining_frames: lfr_residual(
                online_frames(v),
                SPEECH_RECOGNITION_LFR_M as nat,
                SPEECH_RECOGNITION_LFR_N as nat,
            ),
            ..v
        }
    } else {
        v
    }
}

/// Appends copies of `frames` to `buffer`.
pub fn extend_frames<T: Copy>(buffer: &mut Vec<Frame<T>>, frames: &Vec<Frame<T>>)
    ensures
        frames_view(final(buffer)@) == frames_view(old(buffer)@) + frames_view(frames@),
{
    let mut copy = copy_frames(frames, 0, frames.len());
    let ghost held = frames_view(buffer@);
    let ghost added = frames_view(copy@);
    buffer.append(&mut copy);
    proof {
        assert(added =~= frames_view(frames@));
        assert(frames_view(buffer@) =~= held + added);
    }
}

/// Joining well-formed frames gives well-formed frames.
pub proof fn lemma_frames_wf_concat<T>(a: Seq<FrameView<T>>, b: Seq<FrameView<T>>)
    requires
        frames_wf(a),
        frames_wf(b),
    ensures
        frames_wf(a + b),
{
    assert forall|i: int| 0 <= i < (a + b).len() implies (#[trigger] (a + b)[i]).feature.len()
        == MEL_BINS by {
        if i < a.len() {
            assert((a + b)[i] == a[i]);
        } else {
            assert((a + b)[i] == b[i - a.len()]);
        }
    }
}

/// A tail of well-formed frames is well formed.
pub proof fn lemma_frames_wf_skip<T>(a: Seq<FrameView<T>>, n: int)
    requires
        frames_wf(a),
        0 <= n <= a.len(),
    ensures
        frames_wf(a.skip(n)),
{
    assert forall|i: int| 0 <= i < a.skip(n).len() implies (#[trigger] a.skip(n)[i]).feature.len()
        == MEL_BINS by {
        assert(a.skip(n)[i] == a[i + n]);
    }
}

/// The state of the recognition loop.
#[derive(Debug)]
pub struct SpeechRecognition<T> {
    recorder_waveform: bool,
    last_300ms: Vec<Frame<T>>,
    remaining_waveform: Vec<T>,
    vad_remaining_frames: Vec<Frame<T>>,
    paraformer_frames: Vec<Frame<T>>,
    paraformer_remaining_frames: Vec<Frame<T>>,
    sense_voice_frames: Vec<Frame<T>>,
    /// The value that a fresh recognizer state is filled with.
    zero: T,
}

impl<T> View for SpeechRecognition<T> {
    type V = RecognitionView<T>;

    closed spec fn view(&self) -> RecognitionView<T> {
        RecognitionView {
            recording: self.recorder_waveform,
            last_300ms: frames_view(self.last_300ms@),
            remaining_waveform: self.remaining_waveform@,
            vad_remaining_frames: frames_view(self.vad_remaining_frames@),
            paraformer_frames: frames_view(self.paraformer_frames@),
            paraformer_remaining_frames: frames_view(self.paraformer_remaining_frames@),
            sense_voice_frames: frames_view(self.sense_voice_frames@),
        }
    }
}

/// Every frame held is well formed and no more frames are remembered than
/// an utterance may take.
pub open spec fn view_wf<T>(v: RecognitionView<T>) -> bool {
    &&& frames_wf(v.last_300ms)
    &&& v.last_300ms.len() <= LEAD_FRAMES
    &&& frames_wf(v.vad_remaining_frames)
    &&& frames_wf(v.paraformer_frames)
    &&& frames_wf(v.paraformer_remaining_frames)
    &&& frames_wf(v.sense_voice_frames)
}

impl<T: Copy> SpeechRecognition<T> {
    /// The value that a fresh recognizer state is filled with.
    pub closed spec fn spec_zero(&self) -> T {
        self.zero
    }

    /// The buffers are well formed.
    pub open spec fn wf(&self) -> bool {
        view_wf(self@)
    }

    /// The state before the first sample. `zero` is the value that fills
    /// the streaming recognizer's state at the start of every utterance.
    pub fn new(zero: T) -> (state: Self)
        ensures
            state.wf(),
            state@ == initial_view::<T>(),
            state.spec_zero() == zero,
    {
        let state = SpeechRecognition {
            recorder_waveform: false,
            last_300ms: Vec::new(),
            remaining_waveform: Vec::new(),
            vad_remaining_frames: Vec::new(),
            paraformer_frames: Vec::new(),
            paraformer_remaining_frames: Vec::new(),
            sense_voice_frames: Vec::new(),
            zero,
        };
        proof {
            assert(state@.last_300ms =~= Seq::empty());
            assert(state@.vad_remaining_frames =~= Seq::empty());
            assert(state@.paraformer_frames =~= Seq::empty());
            assert(state@.paraformer_remaining_frames =~= Seq::empty());
            assert(state@.sense_voice_frames =~= Seq::empty());
        }
        state
    }

    /// Whether an utterance is open.
    pub fn recording(&self) -> (open: bool)
        ensures
            open == self@.recording,
    {
        self.recorder_waveform
    }

    /// Takes freshly drained samples, already scaled for framing, and
    /// returns the analysis windows that they complete. The samples that no
    /// window has used up stay pending for the next call.
    pub fn feed_samples(&mut self, audio_data: Vec<T>) -> (windows: Vec<Vec<T>>)
        ensures
            rows_view(windows@) == frame_windows(old(self)@.remaining_waveform + audio_data@),
            final(self)@ == after_samples(old(self)@, audio_data@),
            final(self).spec_zero() == old(self).spec_zero(),
    {
        let mut pending: Vec<T> = Vec::new();
        core::mem::swap(&mut self.remaining_waveform, &mut pending);
        let (windows, remaining_waveform) = pretreatment(audio_data, pending);
        self.remaining_waveform = remaining_waveform;
        windows
    }

    /// Takes the frames made of new windows. Returns what the endpoint
    /// detector is to read: the rows stacked from its pending frames and the
    /// new ones, and the energy of the frame that each row starts at.
    pub fn feed_frames(&mut self, frames: Vec<Frame<T>>) -> (input: VadInput<T>)
        requires
            old(self).wf(),
            frames_wf(frames_view(frames@)),
        ensures
            final(self).wf(),
            rows_view(input.features@) == vad_features(old(self)@, frames_view(frames@)),
            rows_have_width(
                rows_view(input.features@),
                (MEL_BINS * ENDPOINT_DETECTION_LFR_M) as nat,
            ),
            input.decibels@ == vad_decibels(old(self)@, frames_view(frames@)),
            final(self)@ == after_frames(old(self)@, frames_view(frames@)),
            final(self).spec_zero() == old(self).spec_zero(),
    {
        let ghost new_frames = frames_view(frames@);
        let ghost before = self@;
        if self.recorder_waveform {
            extend_frames(&mut self.sense_voice_frames, &frames);
            extend_frames(&mut self.paraformer_frames, &frames);
            proof {
                lemma_frames_wf_concat(before.sense_voice_frames, new_frames);
                lemma_frames_wf_concat(before.paraformer_frames, new_frames);
            }
        }
        extend_frames(&mut self.vad_remaining_frames, &frames);
        proof {
            lemma_frames_wf_concat(before.vad_remaining_frames, new_frames);
        }
        let ghost all = frames_view(self.vad_remaining_frames@);
        let (features, vad_remaining_frames_tmp) = apply_lfr(
            &self.vad_remaining_frames,
            ENDPOINT_DETECTION_LFR_M,
            ENDPOINT_DETECTION_LFR_N,
        );
        let mut decibels: Vec<T> = Vec::new();
        let mut i: usize = 0;
        proof {
            assert(rows_view(features@).len() == features@.len());
            assert(features_of(all).len() == all.len());
            assert(all =~= vad_frames(before, new_frames));
            crate::frontend::lemma_lfr_bounds(
                all.len(),
                ENDPOINT_DETECTION_LFR_M as nat,
                ENDPOINT_DETECTION_LFR_N as nat,
                features@.len() as int,
            );
        }
        while i < features.len()
            invariant
                i <= features@.len(),
                features@.len() <= self.vad_remaining_frames@.len(),
                all == frames_view(self.vad_remaining_frames@),
                decibels@.len() == i,
                forall|k: int| 0 <= k < i ==> decibels@[k] == (#[trigger] all[k]).decibel,
            decreases features@.len() - i,
        {
            decibels.push(self.vad_remaining_frames[i].decibel());
            i = i + 1;
        }
        proof {
            assert(decibels@ =~= vad_decibels(before, new_frames));
            lemma_frames_wf_skip(
                all,
                (lfr_count(
                    all.len(),
                    ENDPOINT_DETECTION_LFR_M as nat,
                    ENDPOINT_DETECTION_LFR_N as nat,
                ) * ENDPOINT_DETECTION_LFR_N) as int,
            );
        }
        self.vad_remaining_frames = vad_remaining_frames_tmp;
        let mut frames = frames;
        let ghost remembered = frames_view(self.last_300ms@);
        self.last_300ms.append(&mut frames);
        proof {
            assert(frames_view(self.last_300ms@) =~= remembered + new_frames);
            lemma_frames_wf_concat(remembered, new_frames);
        }
        if self.last_300ms.len() > LEAD_FRAMES {
            let ghost joined = frames_view(self.last_300ms@);
            let surplus = self.last_300ms.len() - LEAD_FRAMES;
            let kept = self.last_300ms.split_off(surplus);
            self.last_300ms = kept;
            proof {
                assert(frames_view(self.last_300ms@) =~= joined.skip(surplus as int));
                lemma_frames_wf_skip(joined, surplus as int);
            }
        }
        VadInput { features, decibels }
    }

    /// Takes one boundary from the endpoint detector. At an end, returns
    /// the rows of the whole utterance for the offline recognizer, not yet
    /// normalized, and starts the streaming recognizer's state `cache`
    /// afresh; at a start, returns nothing and leaves `cache` as it is.
    pub fn on_segment(&mut self, segment: Segment, cache: &mut Cache<T>) -> (features: Option<
        Vec<Vec<T>>,
    >)
        requires
            old(self).wf(),
        ensures
            final(self).wf(),
            final(self)@ == after_segment(old(self)@, segment.segment_type),
            final(self).spec_zero() == old(self).spec_zero(),
            final(cache)@ == cache_after_segment(
                old(cache)@,
                segment.segment_type,
                old(self).spec_zero(),
            ),
            match features {
                Some(rows) => offline_features(old(self)@, segment.segment_type) == Some(
                    rows_view(rows@),
                ) && rows_have_width(
                    rows_view(rows@),
                    (MEL_BINS * SPEECH_RECOGNITION_LFR_M) as nat,
                ),
                None => offline_features(old(self)@, segment.segment_type) is None,
            },
    {
        match segment.segment_type {
            PointType::Start => {
                self.recorder_waveform = true;
                self.paraformer_frames = copy_frames(&self.last_300ms, 0, self.last_300ms.len());
                let mut taken: Vec<Frame<T>> = Vec::new();
                core::mem::swap(&mut self.last_300ms, &mut taken);
                self.sense_voice_frames = taken;
                proof {
                    assert(self@.paraformer_frames =~= old(self)@.last_300ms);
                    assert(self@.last_300ms =~= Seq::empty());
                }
                None
            },
            PointType::End => {
                self.recorder_waveform = false;
                let (features, _) = apply_lfr(
                    &self.sense_voice_frames,
                    SPEECH_RECOGNITION_LFR_M,
                    SPEECH_RECOGNITION_LFR_N,
                );
                self.paraformer_frames = Vec::new();
                self.paraformer_remaining_frames = Vec::new();
                self.sense_voice_frames = Vec::new();
                *cache = Cache::new(self.zero);
                proof {
                    assert(self@.paraformer_frames =~= Seq::empty());
                    assert(self@.paraformer_remaining_frames =~= Seq::empty());
                    assert(self@.sense_voice_frames =~= Seq::empty());
                }
                Some(features)
            },
        }
    }

    /// Asks whether the streaming recognizer is due. It is while an
    /// utterance is open and more than `ONLINE_BATCH_FRAMES` frames have
    /// gathered; the rows stacked from them are returned, not yet
    /// normalized, and gathering starts anew. Otherwise nothing is returned
    /// and nothing changes.
    pub fn next_online(&mut self) -> (features: Option<Vec<Vec<T>>>)
        requires
            old(self).wf(),
        ensures
            final(self).wf(),
            final(self)@ == after_online(old(self)@),
            final(self).spec_zero() == old(self).spec_zero(),
            features is Some <==> online_due(old(self)@),
            features is Some ==> rows_view(features->0@) == recognition_features(
                online_frames(old(self)@),
            ) && rows_have_width(
                rows_view(features->0@),
                (MEL_BINS * SPEECH_RECOGNITION_LFR_M) as nat,
            ),
    {
        if self.recorder_waveform && self.paraformer_frames.len() > ONLINE_BATCH_FRAMES {
            let ghost pending = frames_view(self.paraformer_remaining_frames@);
            let ghost gathered = frames_view(self.paraformer_frames@);
            let mut batch: Vec<Frame<T>> = Vec::new();
            core::mem::swap(&mut self.paraformer_frames, &mut batch);
            self.paraformer_remaining_frames.append(&mut batch);
            proof {
                assert(frames_view(self.paraformer_remaining_frames@) =~= pending + gathered);
                lemma_frames_wf_concat(pending, gathered);
            }
            let ghost all = frames_view(self.paraformer_remaining_frames@);
            let (features, paraformer_remaining_frames_tmp) = apply_lfr(
                &self.paraformer_remaining_frames,
                SPEECH_RECOGNITION_LFR_M,
                SPEECH_RECOGNITION_LFR_N,
            );
            proof {
                let count = lfr_count(
                    all.len(),
                    SPEECH_RECOGNITION_LFR_M as nat,
                    SPEECH_RECOGNITION_LFR_N as nat,
                );
                crate::frontend::lemma_lfr_bounds(
                    all.len(),
                    SPEECH_RECOGNITION_LFR_M as nat,
                    SPEECH_RECOGNITION_LFR_N as nat,
                    count as int,
                );
                lemma_frames_wf_skip(all, (count * SPEECH_RECOGNITION_LFR_N) as int);
            }
            self.paraformer_remaining_frames = paraformer_remaining_frames_tmp;
            proof {
                assert(self@.paraformer_frames =~= Seq::empty());
            }
            Some(features)
        } else {
            None
        }
    }
}

} // verus!
