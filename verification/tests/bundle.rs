use whisburn_engine::bundle::{config_candidates, npy_model_kind, record_path, weight_paths, NpyModelKind};

#[test]
fn bundle_config_and_weights() {
    assert_eq!(
        config_candidates("tiny_en"),
        vec!["models/tiny_en/tiny_en.cfg", "models/tiny_en/config.cfg"]
    );
    assert_eq!(
        weight_paths("tiny_en", true),
        ("models/tiny_en/tiny_en.mpk".to_string(), "models/tiny_en/tiny_en.mpk.gz".to_string())
    );
    assert_eq!(
        weight_paths("tiny_en", false),
        ("models/tiny_en/model.mpk".to_string(), "models/tiny_en/model.mpk.gz".to_string())
    );
    assert_eq!(record_path("models/tiny_en/model.mpk"), "models/tiny_en/model");
    assert_eq!(record_path("models/x/weights.bin"), "models/x/weights.bin");
}

#[test]
fn npy_model_kinds() {
    assert_eq!(npy_model_kind("models/t-one", false, false, false), NpyModelKind::Tone);
    assert_eq!(npy_model_kind("models/x", true, true, false), NpyModelKind::Tone);
    assert_eq!(npy_model_kind("models/parakeet", false, true, false), NpyModelKind::Parakeet);
    assert_eq!(npy_model_kind("models/moonshine-tiny", false, false, false), NpyModelKind::Moonshine);
    assert_eq!(npy_model_kind("models/voxtral", false, false, true), NpyModelKind::Unbuilt);
    assert_eq!(npy_model_kind("models/tiny_en", false, false, false), NpyModelKind::Whisper);
}
