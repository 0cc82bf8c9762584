use whisburn_engine::store::{key_aliases, VibeVoiceWeightStore};

#[test]
fn aliases_bitnet_lm_keys() {
    let aliases = key_aliases("language_model.model.embed_tokens.weight");
    assert!(aliases.iter().any(|k| k == "model.language_model.embed_tokens.weight"));
    let head = key_aliases("language_model.lm_head.weight");
    assert!(head.iter().any(|k| k == "lm_head.weight"));
}

#[test]
fn aliases_are_unique_and_start_with_the_key() {
    let a = key_aliases("model.language_model.lm_head.weight");
    assert_eq!(a[0], "model.language_model.lm_head.weight");
    assert_eq!(a[1], "language_model.lm_head.weight");
    for i in 0..a.len() {
        for j in i + 1..a.len() {
            assert_ne!(a[i], a[j]);
        }
    }
    assert_eq!(key_aliases("x"), vec!["x".to_string(), "model.x".to_string()]);
}

#[test]
fn resolves_through_index_aliases() {
    let store = VibeVoiceWeightStore::from_index_keys(vec!["model.language_model.embed_tokens.weight".to_string()]);
    assert_eq!(
        store.resolve("language_model.model.embed_tokens.weight").as_deref(),
        Some("model.language_model.embed_tokens.weight")
    );
    assert!(store.has_key("language_model.embed_tokens.weight"));
    assert!(!store.has_key("lm_head.weight"));
}
