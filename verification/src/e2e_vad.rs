//! The endpoint detector's state machine: a sliding window over per-frame
//! speech/silence labels that announces where an utterance starts and ends.

use crate::constant::{SIL_TO_SPEECH_FRMCNT_THRES, SPEECH_TO_SIL_FRMCNT_THRES, WIN_SIZE_FRAME};
use vstd::prelude::*;

verus! {

/// Label of one frame.
#[derive(Debug, Clone, Copy, PartialEq, Eq, Structural)]
pub enum FrameState {
    /// The frame holds speech.
    KFrameStateSpeech,
    /// The frame holds silence or background noise.
    KFrameStateSil,
}

/// What one more label did to the detector.
#[derive(Debug, Clone, Copy, PartialEq, Eq, Structural)]
pub enum AudioChangeState {
    /// Speech goes on.
    KChangeStateSpeech2Speech,
    /// Speech has ended.
    KChangeStateSpeech2Sil,
    /// Silence goes on.
    KChangeStateSil2Sil,
    /// Speech has started.
    KChangeStateSil2Speech,
    /// Never produced by the detector.
    KChangeStateInvalid,
}

/// Kind of a segment boundary.
#[derive(Debug, Clone, Copy, PartialEq, Eq, Structural)]
pub enum PointType {
    /// An utterance starts.
    Start,
    /// An utterance ends.
    End,
}

/// One boundary reported by the detector. It carries no time stamp: its
/// place in the output is its time.
#[derive(Debug, Clone, Copy, PartialEq, Eq, Structural)]
pub struct Segment {
    pub segment_type: PointType,
}

/// Mathematical state of the window detector.
pub struct DetectorModel {
    /// The last `WIN_SIZE_FRAME` labels, oldest first.
    pub window: Seq<FrameState>,
    /// Whether the detector currently is inside speech.
    pub previous: FrameState,
}

/// Number of speech labels in `labels`.
pub open spec fn speech_count(labels: Seq<FrameState>) -> nat
    decreases labels.len(),
{
    if labels.len() == 0 {
        0
    } else {
        speech_count(labels.drop_last()) + if labels.last() == FrameState::KFrameStateSpeech {
            1nat
        } else {
            0nat
        }
    }
}

/// The detector over an all-silent window, outside speech.
pub open spec fn silent_model() -> DetectorModel {
    DetectorModel {
        window: Seq::new(WIN_SIZE_FRAME as nat, |k: int| FrameState::KFrameStateSil),
        previous: FrameState::KFrameStateSil,
    }
}

/// The window after `label` has slid in and the oldest label has slid out.
pub open spec fn slide(window: Seq<FrameState>, label: FrameState) -> Seq<FrameState> {
    window.drop_first().push(label)
}

/// One step of the window detector: the label slides in, and the count of
/// speech labels in the window decides whether the state changes.
pub open spec fn window_step(m: DetectorModel, label: FrameState) -> (
    DetectorModel,
    AudioChangeState,
) {
    let window = slide(m.window, label);
    let sum = speech_count(window);
    if m.previous == FrameState::KFrameStateSil && sum >= SIL_TO_SPEECH_FRMCNT_THRES {
        (
            DetectorModel { window, previous: FrameState::KFrameStateSpeech },
            AudioChangeState::KChangeStateSil2Speech,
        )
    } else if m.previous == FrameState::KFrameStateSpeech && sum <= SPEECH_TO_SIL_FRMCNT_THRES {
        (
            DetectorModel { window, previous: FrameState::KFrameStateSil },
            AudioChangeState::KChangeStateSpeech2Sil,
        )
    } else if m.previous == FrameState::KFrameStateSil {
        (DetectorModel { window, previous: m.previous }, AudioChangeState::KChangeStateSil2Sil)
    } else {
        (DetectorModel { window, previous: m.previous }, AudioChangeState::KChangeStateSpeech2Speech)
    }
}

/// One step of the endpoint model: a window step, a boundary where the state
/// changed, and a cleared window after an end.
pub open spec fn vad_step(m: DetectorModel, label: FrameState) -> (DetectorModel, Option<Segment>) {
    let (next, change) = window_step(m, label);
    match change {
        AudioChangeState::KChangeStateSil2Speech => (
            next,
            Some(Segment { segment_type: PointType::Start }),
        ),
        AudioChangeState::KChangeStateSpeech2Sil => (
            silent_model(),
            Some(Segment { segment_type: PointType::End }),
        ),
        _ => (next, None),
    }
}

/// The endpoint model run over `labels` in order: the state it ends in and
/// the boundaries it reported on the way.
pub open spec fn vad_run(m: DetectorModel, labels: Seq<FrameState>) -> (
    DetectorModel,
    Seq<Segment>,
)
    decreases labels.len(),
{
    if labels.len() == 0 {
        (m, Seq::empty())
    } else {
        let (before, segments) = vad_run(m, labels.drop_last());
        let (after, point) = vad_step(before, labels.last());
        match point {
            Some(segment) => (after, segments.push(segment)),
            None => (after, segments),
        }
    }
}

/// Pushing a label raises the count by one exactly if it is speech.
pub proof fn lemma_speech_count_push(labels: Seq<FrameState>, label: FrameState)
    ensures
        speech_count(labels.push(label)) == speech_count(labels) + if label
            == FrameState::KFrameStateSpeech {
            1nat
        } else {
            0nat
        },
{
    assert(labels.push(label).drop_last() =~= labels);
}

/// Dropping the oldest label lowers the count by one exactly if it was speech.
pub proof fn lemma_speech_count_drop_first(labels: Seq<FrameState>)
    requires
        labels.len() > 0,
    ensures
        speech_count(labels) == speech_count(labels.drop_first()) + if labels.first()
            == FrameState::KFrameStateSpeech {
            1nat
        } else {
            0nat
        },
    decreases labels.len(),
{
    if labels.len() == 1 {
        assert(labels.drop_last() =~= Seq::<FrameState>::empty());
        assert(labels.drop_first() =~= Seq::<FrameState>::empty());
    } else {
        lemma_speech_count_drop_first(labels.drop_last());
        assert(labels.drop_last().drop_first() =~= labels.drop_first().drop_last());
    }
}

/// The count never exceeds the number of labels.
pub proof fn lemma_speech_count_bound(labels: Seq<FrameState>)
    ensures
        speech_count(labels) <= labels.len(),
    decreases labels.len(),
{
    if labels.len() > 0 {
        lemma_speech_count_bound(labels.drop_last());
    }
}

/// A sequence that is speech wherever another one is has at least its count.
pub proof fn lemma_speech_count_monotone(a: Seq<FrameState>, b: Seq<FrameState>)
    requires
        a.len() == b.len(),
        forall|k: int|
            0 <= k < a.len() && a[k] == FrameState::KFrameStateSpeech ==> b[k]
                == FrameState::KFrameStateSpeech,
    ensures
        speech_count(a) <= speech_count(b),
    decreases a.len(),
{
    if a.len() > 0 {
        lemma_speech_count_monotone(a.drop_last(), b.drop_last());
    }
}

/// Sliding window over the labels of the last `WIN_SIZE_FRAME` frames.
#[derive(Debug, Clone)]
pub struct WindowDetector {
    /// Speech labels in the window.
    win_sum: usize,
    /// The labels, as a ring.
    win_state: Vec<FrameState>,
    /// Where the next label goes: the place of the oldest one.
    cur_win_pos: usize,
    /// State before the current frame.
    pre_frame_state: FrameState,
}

impl View for WindowDetector {
    type V = DetectorModel;

    closed spec fn view(&self) -> DetectorModel {
        DetectorModel {
            window: Seq::new(
                WIN_SIZE_FRAME as nat,
                |k: int| self.win_state@[(self.cur_win_pos + k) % (WIN_SIZE_FRAME as int)],
            ),
            previous: self.pre_frame_state,
        }
    }
}

impl WindowDetector {
    /// The ring has its fixed size and the stored sum is the window's count.
    pub closed spec fn wf(&self) -> bool {
        &&& self.win_state@.len() == WIN_SIZE_FRAME
        &&& self.cur_win_pos < WIN_SIZE_FRAME
        &&& self.win_sum == speech_count(self@.window)
    }

    /// A detector over an all-silent window, outside speech.
    pub fn new() -> (detector: Self)
        ensures
            detector.wf(),
            detector@ == silent_model(),
    {
        let mut win_state: Vec<FrameState> = Vec::new();
        while win_state.len() < WIN_SIZE_FRAME
            invariant
                win_state@.len() <= WIN_SIZE_FRAME,
                forall|k: int| 0 <= k < win_state@.len() ==> win_state@[k] == FrameState::KFrameStateSil,
            decreases WIN_SIZE_FRAME - win_state@.len(),
        {
            win_state.push(FrameState::KFrameStateSil);
        }
        let detector = WindowDetector {
            win_sum: 0,
            win_state,
            cur_win_pos: 0,
            pre_frame_state: FrameState::KFrameStateSil,
        };
        proof {
            assert(detector@.window =~= silent_model().window);
            lemma_silent_window_count();
        }
        detector
    }

    /// Clears the window and leaves speech.
    pub fn reset(&mut self)
        ensures
            final(self).wf(),
            final(self)@ == silent_model(),
    {
        *self = WindowDetector::new();
    }

    /// Slides `frame_state` into the window and reports what changed.
    ///
    /// From silence the detector enters speech when at least
    /// `SIL_TO_SPEECH_FRMCNT_THRES` labels of the window are speech; from
    /// speech it returns to silence when at most `SPEECH_TO_SIL_FRMCNT_THRES`
    /// are.
    pub fn detect_one_frame(&mut self, frame_state: FrameState) -> (change: AudioChangeState)
        requires
            old(self).wf(),
        ensures
            final(self).wf(),
            (final(self)@, change) == window_step(old(self)@, frame_state),
    {
        let oldest = self.win_state[self.cur_win_pos];
        proof {
            let window = self@.window;
            assert(window.first() == oldest);
            lemma_speech_count_drop_first(window);
            lemma_speech_count_push(window.drop_first(), frame_state);
            lemma_speech_count_bound(window.drop_first());
        }
        let ghost before = *self;
        match oldest {
            FrameState::KFrameStateSpeech => {
                self.win_sum = self.win_sum - 1;
            },
            FrameState::KFrameStateSil => {},
        }
        match frame_state {
            FrameState::KFrameStateSpeech => {
                self.win_sum = self.win_sum + 1;
            },
            FrameState::KFrameStateSil => {},
        }
        self.win_state[self.cur_win_pos] = frame_state;
        self.cur_win_pos = (self.cur_win_pos + 1) % WIN_SIZE_FRAME;
        proof {
            assert(self@.window =~= slide(before@.window, frame_state));
        }
        match self.pre_frame_state {
            FrameState::KFrameStateSil => {
                if self.win_sum >= SIL_TO_SPEECH_FRMCNT_THRES {
                    self.pre_frame_state = FrameState::KFrameStateSpeech;
                    proof {
                        assert(self@.window =~= slide(before@.window, frame_state));
                    }
                    AudioChangeState::KChangeStateSil2Speech
                } else {
                    AudioChangeState::KChangeStateSil2Sil
                }
            },
            FrameState::KFrameStateSpeech => {
                if self.win_sum <= SPEECH_TO_SIL_FRMCNT_THRES {
                    self.pre_frame_state = FrameState::KFrameStateSil;
                    proof {
                        assert(self@.window =~= slide(before@.window, frame_state));
                    }
                    AudioChangeState::KChangeStateSpeech2Sil
                } else {
                    AudioChangeState::KChangeStateSpeech2Speech
                }
            },
        }
    }
}

impl Default for WindowDetector {
    fn default() -> (detector: Self)
        ensures
            detector.wf(),
            detector@ == silent_model(),
    {
        WindowDetector::new()
    }
}

/// An all-silent window counts no speech.
pub proof fn lemma_silent_window_count()
    ensures
        speech_count(silent_model().window) == 0,
{
    lemma_all_silent_count(silent_model().window);
}

/// A sequence without a speech label counts none.
pub proof fn lemma_all_silent_count(labels: Seq<FrameState>)
    requires
        forall|k: int| 0 <= k < labels.len() ==> labels[k] == FrameState::KFrameStateSil,
    ensures
        speech_count(labels) == 0,
    decreases labels.len(),
{
    if labels.len() > 0 {
        lemma_all_silent_count(labels.drop_last());
    }
}

/// What the labelling of one frame comes to.
#[derive(Debug, Clone, Copy, PartialEq, Eq, Structural)]
pub struct FrameDecision {
    /// The frame's label.
    pub state: FrameState,
    /// Whether the frame's energy goes into the running noise level.
    pub update_noise: bool,
}

/// The label of a frame, from the four comparisons that the scores and the
/// energy of the frame allow.
///
/// A frame whose energy is below the floor is silence. Else a frame in which
/// speech is likelier than silence by the margin is speech if both its
/// signal-to-noise ratio and its energy reach their thresholds, and silence
/// if not. Any other frame is silence, and its energy counts as noise.
pub open spec fn frame_decision(
    below_floor: bool,
    speech_likelier: bool,
    snr_reached: bool,
    decibel_reached: bool,
) -> FrameDecision {
    if below_floor {
        FrameDecision { state: FrameState::KFrameStateSil, update_noise: false }
    } else if speech_likelier {
        if snr_reached && decibel_reached {
            FrameDecision { state: FrameState::KFrameStateSpeech, update_noise: false }
        } else {
            FrameDecision { state: FrameState::KFrameStateSil, update_noise: false }
        }
    } else {
        FrameDecision { state: FrameState::KFrameStateSil, update_noise: true }
    }
}

/// Labels one frame. `below_floor` says that the frame's energy is below
/// the energy floor, `speech_likelier` that the score of speech is at least
/// the score of silence plus the margin, `snr_reached` and `decibel_reached`
/// that the signal-to-noise ratio and the energy are at least their
/// thresholds.
pub fn get_frame_state(
    below_floor: bool,
    speech_likelier: bool,
    snr_reached: bool,
    decibel_reached: bool,
) -> (decision: FrameDecision)
    ensures
        decision == frame_decision(below_floor, speech_likelier, snr_reached, decibel_reached),
{
    if below_floor {
        return FrameDecision { state: FrameState::KFrameStateSil, update_noise: false };
    }
    if speech_likelier {
        if snr_reached && decibel_reached {
            FrameDecision { state: FrameState::KFrameStateSpeech, update_noise: false }
        } else {
            FrameDecision { state: FrameState::KFrameStateSil, update_noise: false }
        }
    } else {
        FrameDecision { state: FrameState::KFrameStateSil, update_noise: true }
    }
}

/// The endpoint model: the window detector, cleared after every end.
#[derive(Debug, Clone)]
pub struct E2EVadModel {
    /// Smooths the per-frame labels.
    windows_detector: WindowDetector,
}

impl View for E2EVadModel {
    type V = DetectorModel;

    closed spec fn view(&self) -> DetectorModel {
        self.windows_detector@
    }
}

impl E2EVadModel {
    /// The window detector inside is well formed.
    pub closed spec fn wf(&self) -> bool {
        self.windows_detector.wf()
    }

    /// A model over an all-silent window, outside speech.
    pub fn new() -> (model: Self)
        ensures
            model.wf(),
            model@ == silent_model(),
    {
        E2EVadModel { windows_detector: WindowDetector::new() }
    }

    /// Clears the window and leaves speech.
    pub fn reset(&mut self)
        ensures
            final(self).wf(),
            final(self)@ == silent_model(),
    {
        self.windows_detector.reset();
    }

    /// Feeds the labels of consecutive frames, oldest first, and returns the
    /// boundaries found, in the order in which they occurred.
    pub fn call(&mut self, labels: &Vec<FrameState>) -> (segments: Vec<Segment>)
        requires
            old(self).wf(),
        ensures
            final(self).wf(),
            (final(self)@, segments@) == vad_run(old(self)@, labels@),
    {
        let mut segments: Vec<Segment> = Vec::new();
        let mut i: usize = 0;
        proof {
            assert(labels@.take(0) =~= Seq::<FrameState>::empty());
        }
        while i < labels.len()
            invariant
                i <= labels@.len(),
                self.wf(),
                (self@, segments@) == vad_run(old(self)@, labels@.take(i as int)),
            decreases labels@.len() - i,
        {
            proof {
                assert(labels@.take(i + 1).drop_last() =~= labels@.take(i as int));
            }
            if let Some(segment) = self.detect_one_frame(labels[i]) {
                segments.push(segment);
            }
            i = i + 1;
        }
        proof {
            assert(labels@.take(i as int) =~= labels@);
        }
        segments
    }

    /// Feeds one label. Reports `Start` when speech begins and `End` when it
    /// stops; after an `End` the window is cleared for the next utterance.
    pub fn detect_one_frame(&mut self, frame_state: FrameState) -> (point: Option<Segment>)
        requires
            old(self).wf(),
        ensures
            final(self).wf(),
            (final(self)@, point) == vad_step(old(self)@, frame_state),
    {
        let state_change = self.windows_detector.detect_one_frame(frame_state);
        match state_change {
            AudioChangeState::KChangeStateSpeech2Sil => {
                self.reset();
                Some(Segment { segment_type: PointType::End })
            },
            AudioChangeState::KChangeStateSil2Speech => {
                Some(Segment { segment_type: PointType::Start })
            },
            _ => None,
        }
    }
}

impl Default for E2EVadModel {
    fn default() -> (model: Self)
        ensures
            model.wf(),
            model@ == silent_model(),
    {
        E2EVadModel::new()
    }
}

/// The state in which a fresh endpoint model is after `labels`.
pub open spec fn vad_state_after(labels: Seq<FrameState>) -> DetectorModel {
    vad_run(silent_model(), labels).0
}

/// The last `n` items of `labels`, or all of them where there are fewer.
pub open spec fn recent(labels: Seq<FrameState>, n: int) -> Seq<FrameState> {
    if labels.len() <= n {
        labels
    } else {
        labels.subrange(labels.len() - n, labels.len() as int)
    }
}

/// Every speech label in the window is the label of the frame that many
/// places back in `labels`.
pub open spec fn window_reflects(m: DetectorModel, labels: Seq<FrameState>) -> bool {
    &&& m.window.len() == WIN_SIZE_FRAME
    &&& forall|k: int|
        0 <= k < WIN_SIZE_FRAME && #[trigger] m.window[k] == FrameState::KFrameStateSpeech ==> {
            &&& labels.len() - WIN_SIZE_FRAME + k >= 0
            &&& labels[labels.len() - WIN_SIZE_FRAME + k] == FrameState::KFrameStateSpeech
        }
}

/// The count of a concatenation is the sum of the counts.
pub proof fn lemma_speech_count_concat(a: Seq<FrameState>, b: Seq<FrameState>)
    ensures
        speech_count(a + b) == speech_count(a) + speech_count(b),
    decreases b.len(),
{
    if b.len() == 0 {
        assert(a + b =~= a);
    } else {
        lemma_speech_count_concat(a, b.drop_last());
        assert((a + b).drop_last() =~= a + b.drop_last());
    }
}

/// The window of a fresh model holds speech only where the frames fed last
/// were speech: a cleared place never counts.
pub proof fn lemma_window_reflects_labels(labels: Seq<FrameState>)
    ensures
        window_reflects(vad_state_after(labels), labels),
    decreases labels.len(),
{
    if labels.len() > 0 {
        lemma_window_reflects_labels(labels.drop_last());
    }
}

/// A window that reflects the labels counts no more speech than their last
/// `WIN_SIZE_FRAME` hold.
pub proof fn lemma_window_count_below_recent(m: DetectorModel, labels: Seq<FrameState>)
    requires
        window_reflects(m, labels),
    ensures
        speech_count(m.window) <= speech_count(recent(labels, WIN_SIZE_FRAME as int)),
{
    let tail = recent(labels, WIN_SIZE_FRAME as int);
    let pad = WIN_SIZE_FRAME - tail.len();
    let head = m.window.subrange(0, pad);
    let rest = m.window.subrange(pad, WIN_SIZE_FRAME as int);
    assert(m.window =~= head + rest);
    lemma_speech_count_concat(head, rest);
    assert forall|k: int| 0 <= k < head.len() implies head[k] == FrameState::KFrameStateSil by {
        if m.window[k] == FrameState::KFrameStateSpeech {
            assert(labels.len() - WIN_SIZE_FRAME + k >= 0);
        }
    }
    lemma_all_silent_count(head);
    assert forall|k: int|
        0 <= k < rest.len() && rest[k] == FrameState::KFrameStateSpeech implies tail[k]
        == FrameState::KFrameStateSpeech by {
        assert(m.window[pad + k] == FrameState::KFrameStateSpeech);
    }
    lemma_speech_count_monotone(rest, tail);
}

/// Inside an utterance the window stays above the closing threshold.
///
/// Take a fresh endpoint model and any labels. If the model is inside speech
/// both before and after frame `j`, so that `j` lies after the frame that
/// started the utterance and before the one that ends it, then more than
/// `SPEECH_TO_SIL_FRMCNT_THRES` labels of the window are speech after frame
/// `j`, and so are that many of the last `WIN_SIZE_FRAME` labels fed.
pub proof fn lemma_open_utterance_window_above_threshold(labels: Seq<FrameState>, j: int)
    requires
        0 <= j < labels.len(),
        vad_state_after(labels.take(j)).previous == FrameState::KFrameStateSpeech,
        vad_state_after(labels.take(j + 1)).previous == FrameState::KFrameStateSpeech,
    ensures
        speech_count(vad_state_after(labels.take(j + 1)).window) >= SPEECH_TO_SIL_FRMCNT_THRES
            + 1,
        speech_count(recent(labels.take(j + 1), WIN_SIZE_FRAME as int))
            >= SPEECH_TO_SIL_FRMCNT_THRES + 1,
{
    let fed = labels.take(j + 1);
    assert(fed.drop_last() =~= labels.take(j));
    lemma_window_reflects_labels(fed);
    lemma_window_count_below_recent(vad_state_after(fed), fed);
}

/// The frame that starts an utterance finds at least
/// `SIL_TO_SPEECH_FRMCNT_THRES` speech labels among the last `WIN_SIZE_FRAME`
/// fed, and the frame that ends one finds at most
/// `SPEECH_TO_SIL_FRMCNT_THRES` in the window.
pub proof fn lemma_boundary_thresholds(m: DetectorModel, label: FrameState)
    ensures
        vad_step(m, label).1 == Some(Segment { segment_type: PointType::Start }) ==> speech_count(
            slide(m.window, label),
        ) >= SIL_TO_SPEECH_FRMCNT_THRES && m.previous == FrameState::KFrameStateSil,
        vad_step(m, label).1 == Some(Segment { segment_type: PointType::End }) ==> speech_count(
            slide(m.window, label),
        ) <= SPEECH_TO_SIL_FRMCNT_THRES && m.previous == FrameState::KFrameStateSpeech,
{
}

/// The boundary that comes at place `i` of an alternating sequence that
/// begins with a start.
pub open spec fn alternating(i: int) -> Segment {
    if i % 2 == 0 {
        Segment { segment_type: PointType::Start }
    } else {
        Segment { segment_type: PointType::End }
    }
}

/// Starts and ends take turns. Whatever labels a fresh endpoint model is
/// fed, the boundaries it reports begin with a start and alternate from
/// there, and the model is inside speech exactly after an odd number of
/// them: every end has its start before it, and no utterance starts inside
/// another.
pub proof fn lemma_segments_alternate(labels: Seq<FrameState>)
    ensures
        forall|i: int|
            0 <= i < vad_run(silent_model(), labels).1.len() ==> #[trigger] vad_run(
                silent_model(),
                labels,
            ).1[i] == alternating(i),
        vad_state_after(labels).previous == FrameState::KFrameStateSpeech <==> vad_run(
            silent_model(),
            labels,
        ).1.len() % 2 == 1,
    decreases labels.len(),
{
    if labels.len() > 0 {
        lemma_segments_alternate(labels.drop_last());
    }
}

} // verus!
