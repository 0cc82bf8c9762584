use whisburn_engine::layout::{
    bias_key, detect_encoder_layout, level_prefixes, projection_quant, sconv_weight_key,
    stem_prefixes, vibevoice_load_plan, EncoderLayout, LinearQuant,
};
use whisburn_engine::store::VibeVoiceWeightStore;

fn store(keys: &[&str]) -> VibeVoiceWeightStore {
    VibeVoiceWeightStore::from_index_keys(keys.iter().map(|s| s.to_string()).collect())
}

#[test]
fn detects_hf_and_original_layouts() {
    let s = store(&[
        "acoustic_tokenizer_encoder.stem.conv.conv.weight",
        "model.semantic_tokenizer.encoder.downsample_layers.0.0.conv.conv.weight",
    ]);
    assert_eq!(
        detect_encoder_layout(&s, "acoustic"),
        Some(("acoustic_tokenizer_encoder".to_string(), EncoderLayout::Hf))
    );
    assert_eq!(
        detect_encoder_layout(&s, "semantic"),
        Some(("model.semantic_tokenizer.encoder".to_string(), EncoderLayout::Original))
    );
    // The stripped spelling is found through the `model.` alias, so the prefix keeps it.
    let t = store(&["semantic_tokenizer.encoder.downsample_layers.0.0.conv.conv.weight"]);
    assert_eq!(
        detect_encoder_layout(&t, "semantic"),
        Some(("model.semantic_tokenizer.encoder".to_string(), EncoderLayout::Original))
    );
    assert_eq!(detect_encoder_layout(&t, "acoustic"), None);
}

#[test]
fn sconv_weight_key_looks_through_wrappers() {
    let s = store(&["enc.head.conv.conv.weight", "enc.stem.conv.weight", "enc.x.weight"]);
    assert_eq!(sconv_weight_key(&s, "enc.head").unwrap(), "enc.head.conv.conv.weight");
    assert_eq!(sconv_weight_key(&s, "enc.stem").unwrap(), "enc.stem.conv.weight");
    assert_eq!(sconv_weight_key(&s, "enc.x").unwrap(), "enc.x.weight");
    assert_eq!(
        sconv_weight_key(&s, "enc.y").unwrap_err(),
        "enc.y.weight: conv weight not in index (tried nested conv wrappers)"
    );
}

#[test]
fn bias_key_follows_weight_key() {
    assert_eq!(bias_key("a.b.conv.weight", "a.b"), "a.b.conv.bias");
    assert_eq!(bias_key("odd_name", "a.b"), "a.b.bias");
}

#[test]
fn level_and_stem_prefixes() {
    assert_eq!(
        stem_prefixes("p", EncoderLayout::Hf),
        ("p.stem".to_string(), "p.stem.stage".to_string())
    );
    assert_eq!(
        stem_prefixes("p", EncoderLayout::Original),
        ("p.downsample_layers.0.0".to_string(), "p.stages.0".to_string())
    );
    assert_eq!(
        level_prefixes("p", EncoderLayout::Hf, 3),
        ("p.conv_layers.3".to_string(), "p.conv_layers.3.stage".to_string())
    );
    assert_eq!(
        level_prefixes("p", EncoderLayout::Original, 9),
        ("p.downsample_layers.10.0".to_string(), "p.stages.10".to_string())
    );
}

#[test]
fn load_plan_of_a_bitnet_checkpoint() {
    let s = store(&[
        "model.acoustic_connector.fc1.weight",
        "model.acoustic_tokenizer.encoder.downsample_layers.0.0.conv.conv.weight",
        "lm_head.weight",
    ]);
    let p = vibevoice_load_plan(&s, "bitnet-asr");
    assert!(p.connectors);
    assert_eq!(
        p.acoustic,
        Some(("model.acoustic_tokenizer.encoder".to_string(), EncoderLayout::Original))
    );
    assert_eq!(p.semantic, None);
    assert_eq!(p.language_model, Some(LinearQuant::Ternary));
    let q = vibevoice_load_plan(&store(&["x"]), "vibevoice-asr");
    assert!(!q.connectors);
    assert_eq!(q.language_model, None);
    assert_eq!(projection_quant("vibevoice-asr"), LinearQuant::Int8);
}
