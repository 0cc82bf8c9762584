use whisburn_engine::qwen3_keys::{canonicalize_qwen3_key, weights_present};

#[test]
fn remaps_hf_layout_to_thinker_keys() {
    assert_eq!(
        canonicalize_qwen3_key("model.audio_tower.conv2d1.weight"),
        "thinker.audio_tower.conv2d1.weight"
    );
    assert_eq!(
        canonicalize_qwen3_key("model.language_model.layers.0.self_attn.q_proj.weight"),
        "thinker.model.layers.0.self_attn.q_proj.weight"
    );
    assert_eq!(
        canonicalize_qwen3_key("model.multi_modal_projector.linear_1.weight"),
        "thinker.audio_tower.proj1.weight"
    );
    assert_eq!(
        canonicalize_qwen3_key("thinker.audio_tower.conv2d1.weight"),
        "thinker.audio_tower.conv2d1.weight"
    );
}

#[test]
fn canonical_names_are_fixed_points() {
    for k in [
        "model.multi_modal_projector.linear_2.bias",
        "model.audio_tower.layers.3.fc1.weight",
        "lm_head.weight",
    ] {
        let once = canonicalize_qwen3_key(k);
        assert_eq!(canonicalize_qwen3_key(&once), once);
    }
    assert_eq!(
        canonicalize_qwen3_key("model.multi_modal_projector.linear_2.bias"),
        "thinker.audio_tower.proj2.bias"
    );
}

fn safetensors_head(header: &str) -> Vec<u8> {
    let mut v = (header.len() as u64).to_le_bytes().to_vec();
    v.extend_from_slice(header.as_bytes());
    v
}

#[test]
fn weights_present_reads_header_keys() {
    let hf = safetensors_head(
        r#"{"__metadata__":{"format":"pt"},"model.audio_tower.conv2d1.weight":{"dtype":"F32","shape":[1],"data_offsets":[0,4]}}"#,
    );
    assert!(weights_present(&hf));
    let orig = safetensors_head(r#"{"thinker.audio_tower.conv2d1.weight":{}}"#);
    assert!(weights_present(&orig));
    let other = safetensors_head(r#"{"__metadata__":{},"thinker.model.embed_tokens.weight":{}}"#);
    assert!(!weights_present(&other));
    let not_object = safetensors_head("[1,2]");
    assert!(!weights_present(&not_object));
    let bad_json = safetensors_head("{oops");
    assert!(!weights_present(&bad_json));
    // header size larger than what is there
    let mut cut = safetensors_head(r#"{"thinker.audio_tower.conv2d1.weight":{}}"#);
    cut.truncate(cut.len() - 1);
    assert!(!weights_present(&cut));
    // zero-sized header, too short a file
    assert!(!weights_present(&[0u8; 8]));
    assert!(!weights_present(&[1u8, 0, 0]));
    // implausible size
    let mut huge = 60_000_000u64.to_le_bytes().to_vec();
    huge.extend_from_slice(b"{}");
    assert!(!weights_present(&huge));
}

#[test]
fn header_nested_too_deep_is_not_read() {
    let deep = format!(
        r#"{{"thinker.audio_tower.conv2d1.weight":{}{}}}"#,
        "[".repeat(200),
        "]".repeat(200)
    );
    assert!(!weights_present(&safetensors_head(&deep)));
    let shallow = format!(
        r#"{{"thinker.audio_tower.conv2d1.weight":{}{}}}"#,
        "[".repeat(10),
        "]".repeat(10)
    );
    assert!(weights_present(&safetensors_head(&shallow)));
}
