use whisburn_engine::configs::{speech_connectors, Qwen2DecoderShape};
use whisburn_engine::configs::{
    parse_encoder_depths, ConformerBlockConfig, ConformerEncoderConfig, ConvolutionModuleConfig,
    FeedForwardModuleConfig, MLPConfig, Qwen3AudioAttentionConfig, Qwen3AudioEncoderLayerConfig,
    Qwen3AudioTowerConfig, SpeechConnectorConfig, TokenizerEncoderShape,
};

fn tower(n_mels: usize) -> Qwen3AudioTowerConfig {
    Qwen3AudioTowerConfig {
        d_model: 896,
        output_dim: 1024,
        n_layers: 18,
        n_heads: 14,
        n_mels,
        ffn_dim: 3584,
        downsample_hidden_size: 480,
        n_window: 50,
        n_window_infer: 800,
        conv_chunksize: 500,
        max_source_positions: 1500,
    }
}

#[test]
fn mel_bins_after_three_halvings() {
    assert_eq!(tower(128).mel_after_conv(), 16);
    assert_eq!(tower(80).mel_after_conv(), 10);
    assert_eq!(tower(81).mel_after_conv(), 11);
    assert_eq!(tower(1).mel_after_conv(), 1);
    assert_eq!(tower(0).mel_after_conv(), 0);
    assert_eq!(tower(128).conv_out_input_dim(), 480 * 16);
    let layer = tower(128).layer_config();
    assert_eq!((layer.d_model, layer.n_heads, layer.ffn_dim), (896, 14, 3584));
    let attn = layer.attention();
    assert_eq!(attn.head_dim(), 64);
    let direct = Qwen3AudioEncoderLayerConfig::new(8, 2, 16);
    assert_eq!(direct.ffn_dim, 16);
    assert_eq!(Qwen3AudioAttentionConfig::new(10, 3).head_dim(), 3);
}

#[test]
fn conformer_blocks() {
    let enc = ConformerEncoderConfig::new(1024, 8, 3, 9);
    let layers = enc.layer_configs();
    assert_eq!(layers.len(), 3);
    assert!(layers.iter().all(|b| *b == ConformerBlockConfig::new(1024, 8, 9)));
    let block = enc.block_config();
    assert_eq!(block.feed_forward(), FeedForwardModuleConfig::new(1024));
    assert_eq!(block.convolution(), ConvolutionModuleConfig::new(1024, 9));
    assert_eq!(block.feed_forward().hidden_dim(), 4096);
    assert_eq!(block.convolution().gated_channels(), 2048);
    assert_eq!(block.convolution().depthwise_padding(), 4);
    assert_eq!(MLPConfig::new(384).hidden_dim(), 1536);
    let c = SpeechConnectorConfig::new(64, 3584);
    assert_eq!((c.input_dim, c.hidden_size), (64, 3584));
}

#[test]
fn original_config_reverses_encoder_ratios() {
    let enc = TokenizerEncoderShape::from_original(1, "3-3-3-3-3-3-8", 32, vec![8, 5, 5, 4, 2, 2], 64, 7, 4);
    assert_eq!(enc.downsampling_ratios, vec![2, 2, 4, 5, 5, 8]);
    assert_eq!(enc.downsampling_ratios.iter().product::<usize>(), 3200);
    assert_eq!(enc.depths, vec![3, 3, 3, 3, 3, 3, 8]);
    assert_eq!(enc.output_dim, 64);
    assert_eq!(enc.channels_at_level(0), 32);
    assert_eq!(enc.channels_at_level(6), 2048);
}

#[test]
fn depths_skip_fields_that_are_not_numbers() {
    assert_eq!(parse_encoder_depths("3-x-8"), vec![3, 8]);
    assert_eq!(parse_encoder_depths(""), Vec::<usize>::new());
    assert_eq!(parse_encoder_depths("-4--+5-"), vec![4, 5]);
    assert_eq!(parse_encoder_depths("99999999999999999999999-1"), vec![1]);
}

#[test]
fn decoder_shape_from_runtime() {
    let d = Qwen2DecoderShape::from_runtime_dims(3584, 28, 28, 4, 18_944, 152_064);
    assert_eq!((d.n_heads, d.head_dim, d.n_kv_heads, d.intermediate_size), (28, 128, 4, 18_944));
    let e = Qwen2DecoderShape::from_runtime_dims(1536, 28, 0, 0, 10, 151_936);
    assert_eq!((e.n_heads, e.head_dim, e.n_kv_heads, e.intermediate_size), (1, 1536, 1, 6144));
    let (a, s) = speech_connectors(64, 128, 3584);
    assert_eq!((a.input_dim, a.hidden_size, s.input_dim, s.hidden_size), (64, 3584, 128, 3584));
}
