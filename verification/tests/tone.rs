use whisburn_engine::tone::{
    chunk_mask_allowed, default_recompute, default_russian_vocab, greedy_ctc_text,
    pre_encode_feat_out, strip_prefix, TONEConfig, ToneDecoderParams, ToneEncoderParams,
    ToneFeatParams, ToneHfConfig, ToneRuntimeConfig,
};

fn empty_encoder() -> ToneEncoderParams {
    ToneEncoderParams {
        d_model: None,
        n_heads: None,
        n_layers: None,
        conv_kernel_size: None,
        ff_expansion_factor: None,
        rope_dim: None,
        chunk_size: None,
        reduction_position: None,
        upsample_position: None,
        reduction_factor: None,
        reduction_kernel_size: None,
        mhsa_state_size: None,
        mhsa_stateless_layers: None,
    }
}

#[test]
fn from_hf_fills_published_defaults() {
    let hf = ToneHfConfig {
        encoder_params: empty_encoder(),
        decoder_params: ToneDecoderParams { vocabulary: None },
        feature_extraction_params: None,
        pad_token_id: None,
    };
    let rt = ToneRuntimeConfig::from_hf(&hf);
    assert_eq!(rt.d_model, 384);
    assert_eq!(rt.n_heads, 8);
    assert_eq!(rt.n_layers, 16);
    assert_eq!(rt.n_mels, 64);
    assert_eq!(rt.conv_kernel, 31);
    assert_eq!(rt.ff_mult, 4);
    assert_eq!(rt.rope_dim, 32);
    assert_eq!(rt.chunk_size, 10);
    assert_eq!(rt.reduction_position, 6);
    assert_eq!(rt.upsample_position, 14);
    assert_eq!(rt.reduction_factor, 2);
    assert_eq!(rt.reduction_kernel, 3);
    assert_eq!(rt.mhsa_left, 30);
    assert_eq!(rt.mhsa_stateless, 14);
    assert_eq!(rt.sample_rate, 8000);
    assert_eq!(rt.vocab.len(), 34);
    assert_eq!(rt.n_vocab, 35);
    assert_eq!(rt.blank_id, 34);
    assert_eq!(rt.inference_status, "ready");
    assert_eq!(rt.vocab[0], "а");
    assert_eq!(rt.vocab[33], " ");
}

#[test]
fn from_hf_keeps_given_values() {
    let mut enc = empty_encoder();
    enc.d_model = Some(256);
    enc.n_layers = Some(4);
    let hf = ToneHfConfig {
        encoder_params: enc,
        decoder_params: ToneDecoderParams {
            vocabulary: Some(vec!["a".to_string(), "b".to_string()]),
        },
        feature_extraction_params: Some(ToneFeatParams { sample_rate: Some(16_000), n_mels: None }),
        pad_token_id: Some(0),
    };
    let rt = ToneRuntimeConfig::from_hf(&hf);
    assert_eq!(rt.d_model, 256);
    assert_eq!(rt.n_layers, 4);
    assert_eq!(rt.n_mels, 64);
    assert_eq!(rt.sample_rate, 16_000);
    assert_eq!(rt.vocab, vec!["a".to_string(), "b".to_string()]);
    assert_eq!(rt.n_vocab, 3);
    assert_eq!(rt.blank_id, 0);
    let cfg = TONEConfig::from_runtime(&rt);
    assert_eq!(cfg.d_model, 256);
    assert_eq!(cfg.n_vocab, 3);
    assert_eq!(cfg.n_layers, 4);
    assert_eq!(cfg.stateless_layers(), 4);
}

#[test]
fn published_runtime_when_none_parsed() {
    let rt = ToneRuntimeConfig::or_published(None);
    assert_eq!(rt.blank_id, 34);
    assert_eq!(rt.n_vocab, 35);
    assert_eq!(rt.vocab, default_russian_vocab());
}

#[test]
fn recompute_flags_and_feature_bins() {
    let v = default_recompute(16);
    let on: Vec<usize> = (0..16).filter(|&i| v[i]).collect();
    assert_eq!(on, vec![0, 7, 14, 15]);
    assert_eq!(default_recompute(8), vec![true, false, false, false, false, false, false, true]);
    assert_eq!(pre_encode_feat_out(64), 34);
    assert_eq!(pre_encode_feat_out(10), 1);
    assert_eq!(pre_encode_feat_out(31), 1);
    assert_eq!(pre_encode_feat_out(32), 2);
    assert_eq!(pre_encode_feat_out(usize::MAX), 1);
}

#[test]
fn strips_checkpoint_prefixes() {
    assert_eq!(strip_prefix("model.tone.encoder.layers.0.conv.weight"), "layers.0.conv.weight");
    assert_eq!(strip_prefix("encoder.pre_encode.out.weight"), "pre_encode.out.weight");
    assert_eq!(strip_prefix("tone.model.x"), "model.x");
    assert_eq!(strip_prefix("decoder.decoder_layers.0.weight"), "decoder.decoder_layers.0.weight");
}

#[test]
fn chunk_mask_rows() {
    // t = 4, chunk = 2, left = 1: rows 0,1 see [0,2); rows 2,3 see [1,4)
    let m = chunk_mask_allowed(4, 2, 1);
    let rows: Vec<Vec<bool>> = m.chunks(4).map(|r| r.to_vec()).collect();
    assert_eq!(rows[0], vec![true, true, false, false]);
    assert_eq!(rows[1], vec![true, true, false, false]);
    assert_eq!(rows[2], vec![false, true, true, true]);
    assert_eq!(rows[3], vec![false, true, true, true]);
}

#[test]
fn greedy_ctc_collapses_and_drops_blank() {
    let vocab: Vec<String> = ["a", "b", "c"].iter().map(|s| s.to_string()).collect();
    let (text, kept) = greedy_ctc_text(&[3, 0, 0, 3, 0, 1, 1, 3, 2, 7], &vocab, 3);
    assert_eq!(kept, vec![0, 0, 1, 2, 7]);
    assert_eq!(text, "aabc");
}
