use whisburn_engine::configs::Qwen3AudioTowerConfig;
use whisburn_engine::parakeet::{
    subsampling_conv, subsampling_kind, SubsamplingConv, SubsamplingKind, DEFAULT_KERNEL_SIZE,
    DEFAULT_N_MELS, JOINT_DIM,
};

#[test]
fn subsampling_stack_from_weight_shapes() {
    assert_eq!(subsampling_kind(1), SubsamplingKind::Strided);
    assert_eq!(subsampling_kind(4), SubsamplingKind::Depthwise);
    assert_eq!(subsampling_kind(5), SubsamplingKind::Plain);
    assert_eq!(
        subsampling_conv(SubsamplingKind::Strided, [256, 1, 3, 3]),
        SubsamplingConv { in_channels: 1, out_channels: 256, kernel_h: 3, kernel_w: 3, padding_h: 1, padding_w: 1, stride: 2, groups: 1 }
    );
    assert_eq!(
        subsampling_conv(SubsamplingKind::Depthwise, [256, 1, 3, 3]),
        SubsamplingConv { in_channels: 256, out_channels: 256, kernel_h: 3, kernel_w: 3, padding_h: 1, padding_w: 1, stride: 2, groups: 256 }
    );
    assert_eq!(
        subsampling_conv(SubsamplingKind::Plain, [256, 256, 1, 1]),
        SubsamplingConv { in_channels: 256, out_channels: 256, kernel_h: 1, kernel_w: 1, padding_h: 0, padding_w: 0, stride: 1, groups: 1 }
    );
    assert_eq!((DEFAULT_KERNEL_SIZE, DEFAULT_N_MELS, JOINT_DIM), (31, 128, 640));
}

#[test]
fn audio_tower_windows_cover_the_frames() {
    let t = Qwen3AudioTowerConfig {
        d_model: 896,
        output_dim: 1024,
        n_layers: 18,
        n_heads: 14,
        n_mels: 128,
        ffn_dim: 3584,
        downsample_hidden_size: 480,
        n_window: 50,
        n_window_infer: 800,
        conv_chunksize: 500,
        max_source_positions: 1500,
    };
    assert_eq!(t.window_lengths(250), vec![100, 100, 50]);
    assert_eq!(t.window_lengths(200), vec![100, 100]);
    assert_eq!(t.window_lengths(0), Vec::<usize>::new());
    assert_eq!(t.window_lengths(1), vec![1]);
    assert_eq!(t.window_lengths(1234).iter().sum::<usize>(), 1234);
}
