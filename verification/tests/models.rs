use whisburn_engine::models::{
    is_diarize_model, is_vad_model, model_family, transcribe_route, wants_cpu, ModelCache,
    ModelFamily, TranscribeRoute, WarmStep,
};

#[test]
fn vad_and_diarize_names() {
    assert!(is_vad_model("silero-vad"));
    assert!(is_vad_model("ten-vad"));
    assert!(!is_vad_model("silero"));
    assert!(is_diarize_model("diarization-3.1"));
    assert!(is_diarize_model("nemo-diarization"));
    assert!(!is_diarize_model("ten-vad"));
}

#[test]
fn cpu_device_in_any_case() {
    assert!(wants_cpu(&Some("cpu".to_string())));
    assert!(wants_cpu(&Some("CpU".to_string())));
    assert!(!wants_cpu(&Some("0".to_string())));
    assert!(!wants_cpu(&Some("cpu0".to_string())));
    assert!(!wants_cpu(&None));
}

#[test]
fn loader_of_each_model_name() {
    assert_eq!(model_family("vibevoice-asr"), ModelFamily::VibeVoice);
    assert_eq!(model_family("bitnet-asr"), ModelFamily::VibeVoice);
    assert_eq!(model_family("moonshine-tiny"), ModelFamily::Moonshine);
    assert_eq!(model_family("t-one"), ModelFamily::Tone);
    assert_eq!(model_family("t-one-ru"), ModelFamily::Tone);
    assert_eq!(model_family("qwen3-asr-0.6b"), ModelFamily::Qwen3);
    assert_eq!(model_family("qwen3-asr"), ModelFamily::Bundle);
    assert_eq!(model_family("tiny_en"), ModelFamily::Bundle);
}

#[test]
fn requests_are_routed() {
    assert_eq!(transcribe_route("ten-vad", true), TranscribeRoute::Vad);
    assert_eq!(transcribe_route("nemo-diarization", true), TranscribeRoute::Diarize);
    assert_eq!(transcribe_route("base_en", true), TranscribeRoute::Orchestrated);
    assert_eq!(transcribe_route("base_en", false), TranscribeRoute::Direct);
}

#[test]
fn cache_keeps_one_model() {
    let mut c = ModelCache::new();
    assert_eq!(c.warm("tiny_en"), WarmStep::Load);
    assert_eq!(c.loaded.as_deref(), Some("tiny_en"));
    assert_eq!(c.warm("tiny_en"), WarmStep::Nothing);
    assert_eq!(c.warm("silero-vad"), WarmStep::Nothing);
    assert_eq!(c.loaded.as_deref(), Some("tiny_en"));
    assert_eq!(c.warm("base_en"), WarmStep::Load);
    assert_eq!(c.loaded.as_deref(), Some("base_en"));
    assert_eq!(c.warmed, vec!["tiny_en".to_string(), "silero-vad".to_string(), "base_en".to_string()]);
    assert_eq!(c.ensure_loaded("base_en"), WarmStep::Nothing);
    assert_eq!(c.ensure_loaded("tiny_en"), WarmStep::Load);
    assert_eq!(c.loaded_models(), vec!["tiny_en".to_string()]);
    c.clear();
    assert!(c.loaded_models().is_empty());
    assert!(c.warmed.is_empty());
    assert_eq!(c.loaded, None);
}
