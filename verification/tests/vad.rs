use whisburn_engine::vad::speech_runs;

fn thresholds(probs: &[f32], onset: f32, offset: f32) -> (Vec<bool>, Vec<bool>) {
    (
        probs.iter().map(|&p| p >= onset).collect(),
        probs.iter().map(|&p| p >= offset).collect(),
    )
}

#[test]
fn merges_short_gaps() {
    let mut probs = vec![0.1f32; 40];
    for p in &mut probs[5..20] {
        *p = 0.9;
    }
    for p in &mut probs[21..30] {
        *p = 0.9;
    }
    let (on, off) = thresholds(&probs, 0.5, 0.35);
    // 0.10 s of silence at 0.032 s per frame: 4 frames
    let runs = speech_runs(&on, &off, 4);
    assert_eq!(runs, vec![(5, 30)]);
    let hop = 0.032f64;
    assert!((runs[0].0 as f64) * hop - 0.03 < 0.3);
    assert!((runs[0].1 as f64) * hop + 0.03 > 0.9);
}

#[test]
fn long_gap_splits_and_offset_keeps_a_run_open() {
    let mut probs = vec![0.0f32; 30];
    for p in &mut probs[2..6] {
        *p = 0.9;
    }
    // between the thresholds: keeps the run open, would not open one
    for p in &mut probs[6..9] {
        *p = 0.4;
    }
    for p in &mut probs[20..25] {
        *p = 0.4;
    }
    for p in &mut probs[25..28] {
        *p = 0.9;
    }
    let (on, off) = thresholds(&probs, 0.5, 0.35);
    assert_eq!(speech_runs(&on, &off, 4), vec![(2, 9), (25, 30)]);
    assert_eq!(speech_runs(&[], &[], 4), Vec::<(usize, usize)>::new());
}
