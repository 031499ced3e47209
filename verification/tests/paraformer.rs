use stream_asr::paraformer::{
    mask_alphas, Cache, CHUNK_SIZE, CHUNK_SIZE_BACK, CHUNK_SIZE_PRE, FEATURE_WIDTH, FSMN_LAYER,
    FSMN_LORDER, OUTPUT_SIZE,
};

fn rows(from: usize, to: usize) -> Vec<Vec<f32>> {
    (from..to).map(|r| vec![r as f32; FEATURE_WIDTH]).collect()
}

#[test]
fn sizes_of_the_recognizer_state() {
    assert_eq!((CHUNK_SIZE_PRE, CHUNK_SIZE, CHUNK_SIZE_BACK), (5, 10, 5));
    assert_eq!(FEATURE_WIDTH, 80 * 7);
    assert_eq!((FSMN_LAYER, OUTPUT_SIZE, FSMN_LORDER), (16, 512, 10));
}

#[test]
fn fresh_state_is_all_zero() {
    let cache = Cache::new(0.0f32);
    assert_eq!(cache.start_idx(), 0);
    assert_eq!(cache.feats(), &vec![vec![0.0f32; 560]; 10]);
    assert_eq!(cache.cif_hidden(), &vec![0.0f32; 512]);
    assert_eq!(cache.cif_alphas(), 0.0);
    for layer in 0..16 {
        assert_eq!(cache.decoder_fsmn(layer), &vec![vec![0.0f32; 10]; 512]);
    }
}

#[test]
fn overlap_puts_the_kept_rows_first_and_keeps_the_last_ten() {
    let mut cache = Cache::new(0.0f32);
    let chunk = cache.add_overlap_chunk(rows(1, 11));
    assert_eq!(chunk.len(), 20);
    assert_eq!(chunk[..10], vec![vec![0.0f32; 560]; 10][..]);
    assert_eq!(chunk[10..], rows(1, 11)[..]);
    assert_eq!(cache.feats(), &rows(1, 11));
    // A short chunk: the kept rows are the last ten of old and new together.
    let chunk = cache.add_overlap_chunk(rows(11, 14));
    assert_eq!(chunk.len(), 13);
    assert_eq!(chunk, rows(1, 14));
    assert_eq!(cache.feats(), &rows(4, 14));
    // No rows at all: nothing changes.
    let chunk = cache.add_overlap_chunk(Vec::new());
    assert_eq!(chunk, rows(4, 14));
    assert_eq!(cache.feats(), &rows(4, 14));
    assert_eq!(cache.start_idx(), 0);
}

#[test]
fn advance_counts_the_rows_consumed() {
    let mut cache = Cache::new(0.0f32);
    cache.advance(10);
    cache.advance(7);
    assert_eq!(cache.start_idx(), 17);
    cache.advance(0);
    assert_eq!(cache.start_idx(), 17);
}

#[test]
fn integrator_state_is_stored_and_carried() {
    let mut cache = Cache::new(0.0f32);
    let hidden = vec![vec![1.0f32; 512], vec![2.0f32; 512]];
    let alphas = vec![0.25f32, 0.5];
    // Nothing left over: the chunk goes in as it is.
    let (h, a) = cache.with_carry(hidden.clone(), alphas.clone(), false);
    assert_eq!((h, a), (hidden.clone(), alphas.clone()));
    cache.set_cif(vec![9.0f32; 512], 0.75);
    assert_eq!(cache.cif_hidden(), &vec![9.0f32; 512]);
    assert_eq!(cache.cif_alphas(), 0.75);
    // Something left over: it comes first.
    let (h, a) = cache.with_carry(hidden.clone(), alphas.clone(), true);
    assert_eq!(h, vec![vec![9.0f32; 512], vec![1.0f32; 512], vec![2.0f32; 512]]);
    assert_eq!(a, vec![0.75, 0.25, 0.5]);
}

#[test]
fn decoder_memory_is_stored_by_layer() {
    let mut cache = Cache::new(0.0f32);
    let memory: Vec<Vec<f32>> = (0..512).map(|r| vec![r as f32; 10]).collect();
    cache.set_decoder_fsmn(3, memory.clone());
    assert_eq!(cache.decoder_fsmn(3), &memory);
    assert_eq!(cache.decoder_fsmn(2), &vec![vec![0.0f32; 10]; 512]);
    assert_eq!(cache.decoder_fsmn(4), &vec![vec![0.0f32; 10]; 512]);
}

#[test]
fn only_the_middle_of_a_chunk_may_emit() {
    let mut alphas: Vec<f32> = (1..=20).map(|i| i as f32).collect();
    mask_alphas(&mut alphas, 0.0);
    let mut expected = vec![0.0f32; 20];
    for i in 5..15 {
        expected[i] = (i + 1) as f32;
    }
    assert_eq!(alphas, expected);
    // Shorter than the lead-in: everything is silenced.
    let mut short = vec![1.0f32; 4];
    mask_alphas(&mut short, 0.0);
    assert_eq!(short, vec![0.0; 4]);
    // Ends inside the middle.
    let mut part = vec![1.0f32; 8];
    mask_alphas(&mut part, 0.0);
    assert_eq!(part, vec![0.0, 0.0, 0.0, 0.0, 0.0, 1.0, 1.0, 1.0]);
    let mut none: Vec<f32> = Vec::new();
    mask_alphas(&mut none, 0.0);
    assert!(none.is_empty());
}
