use stream_asr::constant::{FRAME_LENGTH, FRAME_SHIFT, MEL_BINS};
use stream_asr::fbank::{copy_frames, fbank, pretreatment, Frame};
use stream_asr::frontend::{apply_lfr, WavFrontend, CMVN};

fn ramp(n: usize) -> Vec<f32> {
    (0..n).map(|i| i as f32).collect()
}

fn frame(tag: usize) -> Frame<f32> {
    let feature: Vec<f32> = (0..MEL_BINS).map(|b| (tag * 100 + b) as f32).collect();
    Frame::new(feature, -(tag as f32)).unwrap()
}

fn frames(from: usize, to: usize) -> Vec<Frame<f32>> {
    (from..to).map(frame).collect()
}

fn tags(frames: &[Frame<f32>]) -> Vec<f32> {
    frames.iter().map(|f| f.decibel()).collect()
}

#[test]
fn constants_of_framing() {
    assert_eq!(FRAME_LENGTH, 400);
    assert_eq!(FRAME_SHIFT, 160);
    assert_eq!(MEL_BINS, 80);
}

#[test]
fn short_buffer_gives_no_window() {
    let (windows, rest) = fbank(ramp(399));
    assert!(windows.is_empty());
    assert_eq!(rest, ramp(399));
    let (windows, rest) = fbank(Vec::<f32>::new());
    assert!(windows.is_empty());
    assert!(rest.is_empty());
}

#[test]
fn one_window_at_exactly_one_length() {
    let (windows, rest) = fbank(ramp(400));
    assert_eq!(windows.len(), 1);
    assert_eq!(windows[0], ramp(400));
    assert_eq!(rest, ramp(400)[160..].to_vec());
}

#[test]
fn window_count_and_tail() {
    // 1 + (3200 - 400) / 160 = 18 windows; the tail starts at 18 * 160.
    let data = ramp(3200);
    let (windows, rest) = fbank(data.clone());
    assert_eq!(windows.len(), 18);
    for (i, window) in windows.iter().enumerate() {
        assert_eq!(window.len(), 400);
        assert_eq!(window[..], data[i * 160..i * 160 + 400]);
    }
    assert_eq!(rest, data[2880..].to_vec());
    // One sample short of the next window.
    let (windows, rest) = fbank(ramp(559));
    assert_eq!(windows.len(), 1);
    assert_eq!(rest.len(), 399);
    let (windows, rest) = fbank(ramp(560));
    assert_eq!(windows.len(), 2);
    assert_eq!(rest.len(), 240);
}

#[test]
fn pretreatment_joins_the_pending_samples_first() {
    let data = ramp(1000);
    let (windows, rest) = pretreatment(data[300..].to_vec(), data[..300].to_vec());
    let (expected_windows, expected_rest) = fbank(data);
    assert_eq!(windows, expected_windows);
    assert_eq!(rest, expected_rest);
}

#[test]
fn framing_in_chunks_is_framing_at_once() {
    let data = ramp(5000);
    let (expected_windows, expected_rest) = fbank(data.clone());
    for chunk_size in [1usize, 7, 160, 399, 400, 401, 3200] {
        let mut windows = Vec::new();
        let mut rest = Vec::new();
        for chunk in data.chunks(chunk_size) {
            let (new_windows, new_rest) = pretreatment(chunk.to_vec(), rest);
            windows.extend(new_windows);
            rest = new_rest;
        }
        assert_eq!(windows, expected_windows);
        assert_eq!(rest, expected_rest);
    }
}

#[test]
fn frame_takes_eighty_features_only() {
    assert!(Frame::new(vec![0.5f32; 80], 1.0).is_some());
    assert!(Frame::new(vec![0.5f32; 79], 1.0).is_none());
    assert!(Frame::new(Vec::<f32>::new(), 1.0).is_none());
    let f = Frame::new(vec![0.25f32; 80], -3.0).unwrap();
    assert_eq!(f.feature(), &vec![0.25f32; 80]);
    assert_eq!(f.decibel(), -3.0);
    let g = f.clone();
    assert_eq!(g.feature(), f.feature());
    assert_eq!(g.decibel(), f.decibel());
}

#[test]
fn copy_frames_copies_a_range() {
    let all = frames(0, 10);
    let part = copy_frames(&all, 3, 7);
    assert_eq!(tags(&part), vec![-3.0, -4.0, -5.0, -6.0]);
    assert!(copy_frames(&all, 4, 4).is_empty());
}

#[test]
fn stacking_counts_rows_from_the_frames_beyond_the_first_row() {
    // (frames - 7) / 6, rounded down; none below 7 frames.
    for (count, rows) in [(0usize, 0usize), (6, 0), (7, 0), (12, 0), (13, 1), (18, 1), (19, 2), (61, 9)] {
        let (features, rest) = apply_lfr(&frames(0, count), 7, 6);
        assert_eq!(features.len(), rows);
        assert_eq!(rest.len(), count - rows * 6);
    }
    // The endpoint detector's stacking: (frames - 5) / 1.
    let (features, rest) = apply_lfr(&frames(0, 20), 5, 1);
    assert_eq!(features.len(), 15);
    assert_eq!(tags(&rest), vec![-15.0, -16.0, -17.0, -18.0, -19.0]);
}

#[test]
fn stacked_row_joins_the_features_of_consecutive_frames() {
    let input = frames(0, 20);
    let (features, rest) = apply_lfr(&input, 7, 6);
    assert_eq!(features.len(), 2);
    for (t, row) in features.iter().enumerate() {
        assert_eq!(row.len(), 560);
        for k in 0..7 {
            assert_eq!(row[k * 80..(k + 1) * 80], input[t * 6 + k].feature()[..]);
        }
    }
    assert_eq!(features[1][0], 600.0);
    assert_eq!(features[1][559], 1279.0);
    assert_eq!(tags(&rest), tags(&input[12..]));
}

#[test]
fn stacking_in_chunks_is_stacking_at_once() {
    let input = frames(0, 100);
    let (expected_rows, expected_rest) = apply_lfr(&input, 7, 6);
    for chunk_size in [1usize, 5, 6, 7, 13, 60] {
        let mut rows = Vec::new();
        let mut rest: Vec<Frame<f32>> = Vec::new();
        for chunk in input.chunks(chunk_size) {
            rest.extend(chunk.iter().cloned());
            let (new_rows, new_rest) = apply_lfr(&rest, 7, 6);
            rows.extend(new_rows);
            rest = new_rest;
        }
        assert_eq!(rows, expected_rows);
        assert_eq!(tags(&rest), tags(&expected_rest));
    }
}

#[test]
fn framing_then_stacking_in_chunks_is_both_at_once() {
    // The feature of a window: its first sample, eighty times.
    let feature = |window: &Vec<f32>| Frame::new(vec![window[0]; 80], window[399]).unwrap();
    let data = ramp(8000);
    let (windows, sample_rest) = fbank(data.clone());
    let all: Vec<Frame<f32>> = windows.iter().map(feature).collect();
    let (expected_rows, expected_frames) = apply_lfr(&all, 5, 1);
    let mut rows = Vec::new();
    let mut pending_samples = Vec::new();
    let mut pending_frames: Vec<Frame<f32>> = Vec::new();
    for chunk in data.chunks(777) {
        let (new_windows, rest) = pretreatment(chunk.to_vec(), pending_samples);
        pending_samples = rest;
        pending_frames.extend(new_windows.iter().map(feature));
        let (new_rows, rest) = apply_lfr(&pending_frames, 5, 1);
        rows.extend(new_rows);
        pending_frames = rest;
    }
    assert_eq!(rows, expected_rows);
    assert_eq!(tags(&pending_frames), tags(&expected_frames));
    assert_eq!(pending_samples, sample_rest);
}

fn frontend(m: usize, n: usize) -> WavFrontend<f32> {
    let means: Vec<f32> = (0..80 * m).map(|i| i as f32).collect();
    let vars: Vec<f32> = (0..80 * m).map(|i| 0.5 + (i % 4) as f32).collect();
    WavFrontend::new(CMVN { means, vars }, m, n)
}

#[test]
fn frontend_knows_its_parameters() {
    let f = frontend(7, 6);
    assert_eq!(f.lfr_m(), 7);
    assert_eq!(f.lfr_n(), 6);
}

#[test]
fn normalization_adds_the_mean_and_scales() {
    let f = frontend(5, 1);
    let rows = vec![vec![1.0f32; 400], vec![-2.0f32; 400]];
    let out = f.apply_cmvn(rows, &|x: f32, mean: f32, var: f32| (x + mean) * var);
    assert_eq!(out.len(), 2);
    assert_eq!(out[0].len(), 400);
    // Column 0: (1 + 0) * 0.5; column 3: (1 + 3) * 3.5; column 6: (-2 + 6) * 2.5.
    assert_eq!(out[0][0], 0.5);
    assert_eq!(out[0][3], 14.0);
    assert_eq!(out[1][6], 10.0);
    assert_eq!(out[1][399], (-2.0f32 + 399.0) * 3.5);
}

#[test]
fn normalization_and_its_inverse_give_the_input_back() {
    let means: Vec<f64> = (0..400).map(|i| (i as f64) * 0.37 - 11.0).collect();
    let vars: Vec<f64> = (0..400).map(|i| 0.05 + (i % 9) as f64 * 0.3).collect();
    let f = WavFrontend::new(CMVN { means: means.clone(), vars: vars.clone() }, 5, 1);
    let row: Vec<f64> = (0..400).map(|i| (i as f64) * 0.125 - 20.0).collect();
    let out = f.apply_cmvn(vec![row.clone()], &|x: f64, mean: f64, var: f64| (x + mean) * var);
    for i in 0..400 {
        let back = out[0][i] / vars[i] - means[i];
        assert!((back - row[i]).abs() <= 1e-6);
    }
}

#[test]
fn extract_features_stacks_then_normalizes() {
    let f = frontend(7, 6);
    let input = frames(0, 20);
    let affine = |x: f32, mean: f32, var: f32| (x + mean) * var;
    let (features, rest) = f.extract_features(&input, &affine);
    let (stacked, stacked_rest) = f.apply_lfr(&input);
    assert_eq!(features, f.apply_cmvn(stacked, &affine));
    assert_eq!(tags(&rest), tags(&stacked_rest));
    assert_eq!(features.len(), 2);
    // Row 1 starts with feature 0 of frame 6: (600 + 0) * 0.5.
    assert_eq!(features[1][0], 300.0);
    // Its column 81 is feature 1 of frame 7: (701 + 81) * 1.5.
    assert_eq!(features[1][81], 1173.0);
}
