use stream_asr::constant::{
    SIL_TO_SPEECH_FRMCNT_THRES, SPEECH_TO_SIL_FRMCNT_THRES, WIN_SIZE_FRAME,
};
use stream_asr::e2e_vad::{
    get_frame_state, AudioChangeState, E2EVadModel, FrameDecision, FrameState, PointType, Segment,
    WindowDetector,
};

const SPEECH: FrameState = FrameState::KFrameStateSpeech;
const SIL: FrameState = FrameState::KFrameStateSil;

fn labels(runs: &[(FrameState, usize)]) -> Vec<FrameState> {
    let mut out = Vec::new();
    for (label, count) in runs {
        for _ in 0..*count {
            out.push(*label);
        }
    }
    out
}

fn kinds(segments: &[Segment]) -> Vec<PointType> {
    segments.iter().map(|s| s.segment_type).collect()
}

#[test]
fn thresholds_have_their_values() {
    assert_eq!(WIN_SIZE_FRAME, 20);
    assert_eq!(SIL_TO_SPEECH_FRMCNT_THRES, 15);
    assert_eq!(SPEECH_TO_SIL_FRMCNT_THRES, 15);
}

#[test]
fn window_detector_starts_at_the_fifteenth_speech_frame() {
    let mut detector = WindowDetector::new();
    for _ in 0..14 {
        assert_eq!(detector.detect_one_frame(SPEECH), AudioChangeState::KChangeStateSil2Sil);
    }
    assert_eq!(detector.detect_one_frame(SPEECH), AudioChangeState::KChangeStateSil2Speech);
    assert_eq!(detector.detect_one_frame(SPEECH), AudioChangeState::KChangeStateSpeech2Speech);
}

#[test]
fn window_detector_default_is_silent() {
    let mut detector = WindowDetector::default();
    assert_eq!(detector.detect_one_frame(SIL), AudioChangeState::KChangeStateSil2Sil);
    let mut fresh = WindowDetector::new();
    for _ in 0..15 {
        detector.detect_one_frame(SPEECH);
        fresh.detect_one_frame(SPEECH);
    }
    // One silent frame went in before: the window holds 15 speech labels in both.
    assert_eq!(detector.detect_one_frame(SPEECH), fresh.detect_one_frame(SPEECH));
}

#[test]
fn window_detector_ends_when_the_sum_is_back_at_the_threshold() {
    let mut detector = WindowDetector::new();
    for _ in 0..16 {
        detector.detect_one_frame(SPEECH);
    }
    // Four silent frames push silent labels out: the sum stays at 16.
    for _ in 0..4 {
        assert_eq!(detector.detect_one_frame(SIL), AudioChangeState::KChangeStateSpeech2Speech);
    }
    // The fifth pushes a speech label out: 15 are left.
    assert_eq!(detector.detect_one_frame(SIL), AudioChangeState::KChangeStateSpeech2Sil);
    assert_eq!(detector.detect_one_frame(SIL), AudioChangeState::KChangeStateSil2Sil);
}

#[test]
fn window_detector_reset_forgets_the_window() {
    let mut detector = WindowDetector::new();
    for _ in 0..14 {
        detector.detect_one_frame(SPEECH);
    }
    detector.reset();
    for _ in 0..14 {
        assert_eq!(detector.detect_one_frame(SPEECH), AudioChangeState::KChangeStateSil2Sil);
    }
    assert_eq!(detector.detect_one_frame(SPEECH), AudioChangeState::KChangeStateSil2Speech);
}

#[test]
fn window_detector_never_reports_invalid() {
    let mut detector = WindowDetector::new();
    let input = labels(&[(SPEECH, 17), (SIL, 9), (SPEECH, 3), (SIL, 40), (SPEECH, 30)]);
    for label in input {
        assert_ne!(detector.detect_one_frame(label), AudioChangeState::KChangeStateInvalid);
    }
}

#[test]
fn silence_gives_no_segment() {
    let mut model = E2EVadModel::new();
    // Three seconds of frames, ten milliseconds each.
    let segments = model.call(&labels(&[(SIL, 300)]));
    assert!(segments.is_empty());
}

#[test]
fn one_burst_gives_one_start_and_one_end() {
    let mut model = E2EVadModel::default();
    let segments = model.call(&labels(&[(SIL, 50), (SPEECH, 80), (SIL, 50)]));
    assert_eq!(kinds(&segments), vec![PointType::Start, PointType::End]);
}

#[test]
fn two_bursts_give_two_utterances_in_order() {
    let mut model = E2EVadModel::new();
    let segments = model.call(&labels(&[
        (SIL, 30),
        (SPEECH, 40),
        (SIL, 100),
        (SPEECH, 40),
        (SIL, 100),
    ]));
    assert_eq!(
        kinds(&segments),
        vec![PointType::Start, PointType::End, PointType::Start, PointType::End]
    );
}

#[test]
fn call_in_pieces_is_call_at_once() {
    let input = labels(&[(SIL, 7), (SPEECH, 33), (SIL, 21), (SPEECH, 16), (SIL, 5)]);
    let mut whole = E2EVadModel::new();
    let at_once = whole.call(&input);
    let mut pieces = E2EVadModel::new();
    let mut in_pieces = Vec::new();
    for chunk in input.chunks(9) {
        in_pieces.extend(pieces.call(&chunk.to_vec()));
    }
    assert_eq!(at_once, in_pieces);
}

#[test]
fn exactly_fifteen_speech_frames_start_and_end_at_once() {
    let mut model = E2EVadModel::new();
    let mut points = Vec::new();
    for label in labels(&[(SPEECH, 15), (SIL, 1)]) {
        points.push(model.detect_one_frame(label));
    }
    assert_eq!(points[13], None);
    assert_eq!(points[14], Some(Segment { segment_type: PointType::Start }));
    assert_eq!(points[15], Some(Segment { segment_type: PointType::End }));
}

#[test]
fn end_clears_the_window() {
    let mut model = E2EVadModel::new();
    model.call(&labels(&[(SPEECH, 16), (SIL, 5)]));
    // After the end the window is empty again: fifteen speech frames are needed.
    for _ in 0..14 {
        assert_eq!(model.detect_one_frame(SPEECH), None);
    }
    assert_eq!(
        model.detect_one_frame(SPEECH),
        Some(Segment { segment_type: PointType::Start })
    );
}

#[test]
fn model_reset_leaves_speech() {
    let mut model = E2EVadModel::new();
    model.call(&labels(&[(SPEECH, 20)]));
    model.reset();
    assert_eq!(model.detect_one_frame(SIL), None);
    let segments = model.call(&labels(&[(SPEECH, 15)]));
    assert_eq!(kinds(&segments), vec![PointType::Start]);
}

#[test]
fn inside_an_utterance_the_last_twenty_labels_hold_more_than_the_threshold() {
    let input = labels(&[
        (SIL, 12),
        (SPEECH, 25),
        (SIL, 3),
        (SPEECH, 9),
        (SIL, 30),
        (SPEECH, 18),
        (SIL, 2),
        (SPEECH, 2),
        (SIL, 40),
    ]);
    let mut model = E2EVadModel::new();
    let mut open = false;
    for (j, label) in input.iter().enumerate() {
        let was_open = open;
        match model.detect_one_frame(*label) {
            Some(Segment { segment_type: PointType::Start }) => open = true,
            Some(Segment { segment_type: PointType::End }) => open = false,
            None => {}
        }
        if was_open && open {
            let from = if j + 1 > WIN_SIZE_FRAME { j + 1 - WIN_SIZE_FRAME } else { 0 };
            let speech = input[from..=j].iter().filter(|l| **l == SPEECH).count();
            assert!(speech >= SPEECH_TO_SIL_FRMCNT_THRES + 1);
        }
    }
    assert!(!open);
}

#[test]
fn frame_labelling_table() {
    let sil = |update_noise| FrameDecision { state: SIL, update_noise };
    let speech = FrameDecision { state: SPEECH, update_noise: false };
    // Below the energy floor nothing else is looked at.
    assert_eq!(get_frame_state(true, true, true, true), sil(false));
    assert_eq!(get_frame_state(true, false, false, false), sil(false));
    // Speech likelier: both thresholds are needed.
    assert_eq!(get_frame_state(false, true, true, true), speech);
    assert_eq!(get_frame_state(false, true, false, true), sil(false));
    assert_eq!(get_frame_state(false, true, true, false), sil(false));
    // Otherwise silence, and the energy counts as noise.
    assert_eq!(get_frame_state(false, false, true, true), sil(true));
    assert_eq!(get_frame_state(false, false, false, false), sil(true));
}
