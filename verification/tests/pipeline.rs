use stream_asr::command::{
    SpeechRecognition, Subtitles, SubtitlesType, CHUNK_SAMPLES, LEAD_FRAMES, ONLINE_BATCH_FRAMES,
};
use stream_asr::e2e_vad::{PointType, Segment};
use stream_asr::fbank::Frame;
use stream_asr::frontend::apply_lfr;
use stream_asr::paraformer::Cache;

const START: Segment = Segment { segment_type: PointType::Start };
const END: Segment = Segment { segment_type: PointType::End };

fn frame(tag: usize) -> Frame<f32> {
    Frame::new(vec![tag as f32; 80], tag as f32 + 0.5).unwrap()
}

fn frames(from: usize, to: usize) -> Vec<Frame<f32>> {
    (from..to).map(frame).collect()
}

fn stacked(from: usize, to: usize, m: usize, n: usize) -> Vec<Vec<f32>> {
    apply_lfr(&frames(from, to), m, n).0
}

#[test]
fn constants_of_the_loop() {
    assert_eq!(CHUNK_SAMPLES, 3200);
    assert_eq!(LEAD_FRAMES, 30);
    assert_eq!(ONLINE_BATCH_FRAMES, 60);
}

#[test]
fn subtitle_kinds_have_their_numbers() {
    assert_eq!(SubtitlesType::Online.code(), 1);
    assert_eq!(SubtitlesType::Offline.code(), 2);
    let s = Subtitles { type_: SubtitlesType::Offline, msg: "你好".to_string() };
    assert_eq!(s.type_, SubtitlesType::Offline);
    assert_eq!(s.msg, "你好");
}

#[test]
fn samples_become_windows_and_the_tail_waits() {
    let mut state: SpeechRecognition<f32> = SpeechRecognition::new(0.0);
    let data: Vec<f32> = (0..6400).map(|i| i as f32).collect();
    let first = state.feed_samples(data[..3200].to_vec());
    // 1 + (3200 - 400) / 160 windows; 320 samples wait.
    assert_eq!(first.len(), 18);
    let second = state.feed_samples(data[3200..].to_vec());
    // 320 + 3200 samples: 1 + (3520 - 400) / 160 windows.
    assert_eq!(second.len(), 20);
    assert_eq!(second[0][..], data[2880..3280]);
    assert_eq!(second[19][..], data[5920..6320]);
    assert!(state.feed_samples(Vec::new()).is_empty());
}

#[test]
fn endpoint_detector_reads_stacked_rows_with_the_energy_of_their_first_frame() {
    let mut state: SpeechRecognition<f32> = SpeechRecognition::new(0.0);
    let input = state.feed_frames(frames(0, 4));
    assert!(input.features.is_empty());
    assert!(input.decibels.is_empty());
    // Four frames wait; with eight more there are twelve: seven rows.
    let input = state.feed_frames(frames(4, 12));
    assert_eq!(input.features, stacked(0, 12, 5, 1));
    assert_eq!(input.features.len(), 7);
    assert_eq!(input.features[0].len(), 400);
    assert_eq!(input.decibels, vec![0.5, 1.5, 2.5, 3.5, 4.5, 5.5, 6.5]);
    // Frames 7 to 11 wait.
    let input = state.feed_frames(frames(12, 13));
    assert_eq!(input.features.len(), 1);
    assert_eq!(input.features[0][0], 7.0);
    assert_eq!(input.features[0][399], 11.0);
    assert_eq!(input.decibels, vec![7.5]);
}

#[test]
fn nothing_is_recognized_outside_an_utterance() {
    let mut state: SpeechRecognition<f32> = SpeechRecognition::new(0.0);
    assert!(!state.recording());
    for chunk in 0..20 {
        state.feed_frames(frames(chunk * 18, chunk * 18 + 18));
        assert_eq!(state.next_online(), None);
    }
    assert!(!state.recording());
}

#[test]
fn start_seeds_the_utterance_with_the_last_thirty_frames() {
    let mut state: SpeechRecognition<f32> = SpeechRecognition::new(0.0);
    let mut cache = Cache::new(0.0f32);
    state.feed_frames(frames(0, 18));
    state.feed_frames(frames(18, 36));
    assert_eq!(state.on_segment(START, &mut cache), None);
    assert!(state.recording());
    // The utterance holds frames 6 to 35. Ending it at once shows them.
    let rows = state.on_segment(END, &mut cache).unwrap();
    assert_eq!(rows, stacked(6, 36, 7, 6));
    assert_eq!(rows.len(), 3);
    assert!(!state.recording());
}

#[test]
fn start_takes_the_remembered_frames_away() {
    let mut state: SpeechRecognition<f32> = SpeechRecognition::new(0.0);
    let mut cache = Cache::new(0.0f32);
    state.feed_frames(frames(0, 30));
    state.on_segment(START, &mut cache);
    state.on_segment(END, &mut cache);
    // A second start right away finds nothing remembered.
    state.on_segment(START, &mut cache);
    let rows = state.on_segment(END, &mut cache).unwrap();
    assert!(rows.is_empty());
}

#[test]
fn streaming_recognizer_is_due_beyond_sixty_frames() {
    let mut state: SpeechRecognition<f32> = SpeechRecognition::new(0.0);
    let mut cache = Cache::new(0.0f32);
    state.feed_frames(frames(0, 30));
    state.on_segment(START, &mut cache);
    assert_eq!(state.next_online(), None);
    state.feed_frames(frames(30, 60));
    // Exactly sixty frames: not yet.
    assert_eq!(state.next_online(), None);
    state.feed_frames(frames(60, 61));
    let rows = state.next_online().unwrap();
    // (61 - 7) / 6 = 9 rows; frames 54 to 60 wait.
    assert_eq!(rows, stacked(0, 61, 7, 6));
    assert_eq!(rows.len(), 9);
    assert_eq!(rows[0].len(), 560);
    // Gathering starts anew.
    assert_eq!(state.next_online(), None);
    state.feed_frames(frames(61, 122));
    let rows = state.next_online().unwrap();
    // The seven waiting frames come first: rows of frames 54 to 121.
    assert_eq!(rows, stacked(54, 122, 7, 6));
    assert_eq!(rows[0][0], 54.0);
}

#[test]
fn streaming_rows_in_batches_are_the_rows_of_the_utterance() {
    let mut state: SpeechRecognition<f32> = SpeechRecognition::new(0.0);
    let mut cache = Cache::new(0.0f32);
    state.on_segment(START, &mut cache);
    let mut online = Vec::new();
    let mut fed = 0;
    while fed < 400 {
        state.feed_frames(frames(fed, fed + 18));
        fed += 18;
        if let Some(rows) = state.next_online() {
            online.extend(rows);
        }
    }
    let whole = stacked(0, fed, 7, 6);
    assert!(!online.is_empty());
    assert_eq!(online[..], whole[..online.len()]);
}

#[test]
fn end_hands_the_whole_utterance_to_the_offline_recognizer() {
    let mut state: SpeechRecognition<f32> = SpeechRecognition::new(0.0);
    let mut cache = Cache::new(0.0f32);
    state.feed_frames(frames(0, 40));
    state.on_segment(START, &mut cache);
    state.feed_frames(frames(40, 110));
    state.next_online().unwrap();
    state.feed_frames(frames(110, 120));
    let rows = state.on_segment(END, &mut cache).unwrap();
    // Frames 10 to 119, whether or not the streaming recognizer has seen them.
    assert_eq!(rows, stacked(10, 120, 7, 6));
    assert!(!state.recording());
    assert_eq!(state.next_online(), None);
}

#[test]
fn end_starts_the_streaming_state_afresh() {
    let mut state: SpeechRecognition<f32> = SpeechRecognition::new(0.0);
    let mut cache = Cache::new(0.0f32);
    state.on_segment(START, &mut cache);
    cache.advance(9);
    cache.set_cif(vec![1.0; 512], 0.5);
    cache.add_overlap_chunk(vec![vec![3.0; 560]; 10]);
    // A start leaves it alone.
    state.on_segment(START, &mut cache);
    assert_eq!(cache.start_idx(), 9);
    state.on_segment(END, &mut cache);
    assert_eq!(cache.start_idx(), 0);
    assert_eq!(cache.cif_alphas(), 0.0);
    assert_eq!(cache.cif_hidden(), &vec![0.0f32; 512]);
    assert_eq!(cache.feats(), &vec![vec![0.0f32; 560]; 10]);
}

#[test]
fn end_clears_what_the_streaming_recognizer_had_pending() {
    let mut state: SpeechRecognition<f32> = SpeechRecognition::new(0.0);
    let mut cache = Cache::new(0.0f32);
    state.on_segment(START, &mut cache);
    state.feed_frames(frames(0, 61));
    state.next_online().unwrap();
    state.on_segment(END, &mut cache);
    state.on_segment(START, &mut cache);
    state.feed_frames(frames(200, 261));
    // The new utterance starts with the thirty frames remembered, 31 to 60.
    // The frames that stacking had left pending in the first one, 54 to 60,
    // do not come before them.
    let mut expected = frames(31, 61);
    expected.extend(frames(200, 261));
    assert_eq!(state.next_online().unwrap(), apply_lfr(&expected, 7, 6).0);
}

#[test]
fn two_utterances_give_two_offline_requests_in_order() {
    let mut state: SpeechRecognition<f32> = SpeechRecognition::new(0.0);
    let mut cache = Cache::new(0.0f32);
    let mut offline = Vec::new();
    let script = [(0usize, None), (20, Some(START)), (60, None), (90, Some(END)), (150, None), (170, Some(START)), (200, Some(END))];
    let mut fed = 0;
    for (until, segment) in script {
        state.feed_frames(frames(fed, until));
        fed = until;
        if let Some(segment) = segment {
            if let Some(rows) = state.on_segment(segment, &mut cache) {
                offline.push(rows);
            }
        }
    }
    assert_eq!(offline.len(), 2);
    assert_eq!(offline[0], stacked(0, 90, 7, 6));
    // The second utterance starts with the thirty frames before frame 170.
    assert_eq!(offline[1], stacked(140, 200, 7, 6));
}
