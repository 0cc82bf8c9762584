use whisburn_engine::audio_chunks::{padded_len, ChunkCursor, ChunkStep};

/// Drives the cursor the way the Qwen3 loader does: the quietest window of `win` samples in
/// the search range, then its quietest sample.
fn split(wav: &[f32], max_len: usize, expand: usize, win: usize) -> Vec<(usize, usize)> {
    let mut c = ChunkCursor::new(wav.len(), max_len, expand, win);
    let win = win.max(4);
    loop {
        assert!(c.can_step());
        match c.step() {
            ChunkStep::Done => return c.finish(),
            ChunkStep::Cut(_) => c.advance_cut(),
            ChunkStep::Search { left, right } => {
                let seg: Vec<f32> = wav[left..right].iter().map(|x| x.abs()).collect();
                let sums: Vec<f32> =
                    (0..seg.len() - win + 1).map(|i| seg[i..i + win].iter().sum()).collect();
                let mut min_pos = 0;
                for (i, s) in sums.iter().enumerate() {
                    if *s < sums[min_pos] {
                        min_pos = i;
                    }
                }
                let wend = (min_pos + win).min(seg.len());
                let mut inner = 0;
                for i in 0..wend - min_pos {
                    if seg[min_pos + i] < seg[min_pos + inner] {
                        inner = i;
                    }
                }
                c.advance_found(left + min_pos + inner);
            }
        }
    }
}

#[test]
fn long_audio_splits_losslessly() {
    let wav: Vec<f32> = (0..500_000).map(|i| (i as f32 * 0.001).sin()).collect();
    // 10 s chunks at 16 kHz, 0.5 s search, 100 ms window
    let ranges = split(&wav, 160_000, 8_000, 1_600);
    assert!(ranges.len() > 1);
    assert_eq!(ranges[0].0, 0);
    assert_eq!(ranges.last().unwrap().1, wav.len());
    for w in ranges.windows(2) {
        assert_eq!(w[0].1, w[1].0);
        assert!(w[0].0 < w[0].1);
    }
    let rebuilt: Vec<f32> = ranges.iter().flat_map(|&(a, b)| wav[a..b].to_vec()).collect();
    assert_eq!(rebuilt, wav);
}

#[test]
fn short_audio_single_chunk() {
    // 1 s at 16 kHz with 1200 s chunks: one chunk holding every sample
    let ranges = split(&vec![0.1f32; 16_000], 19_200_000, 80_000, 1_600);
    assert_eq!(ranges.len(), 1);
    assert_eq!(ranges[0].1 - ranges[0].0, 16_000);
}

#[test]
fn small_window_cuts_at_max_len() {
    // expand 0: the window is empty, so each chunk is exactly max_len long
    let ranges = split(&vec![0.0f32; 25], 10, 0, 4);
    assert_eq!(ranges, vec![(0, 10), (10, 20), (20, 25)]);
}

#[test]
fn padding_to_min_len() {
    assert_eq!(padded_len(3, 8000), 8000);
    assert_eq!(padded_len(9000, 8000), 9000);
}

#[test]
fn overflowing_search_reach_is_detected() {
    let c = ChunkCursor::new(20, 10, usize::MAX, 4);
    assert!(!c.can_step());
    let short = ChunkCursor::new(5, 10, usize::MAX, 4);
    assert!(short.can_step());
    assert_eq!(short.step(), ChunkStep::Done);
}
