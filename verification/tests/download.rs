use whisburn_engine::download::{bundle_files, conversion_args, download_plan, get_hf_id};

#[test]
fn hf_ids() {
    assert_eq!(get_hf_id("tiny.en", None), "openai/whisper-tiny.en");
    assert_eq!(get_hf_id("turbo", None), "openai/whisper-large-v3-turbo");
    assert_eq!(get_hf_id("org/custom", None), "org/custom");
    assert_eq!(get_hf_id("tiny.en", Some("x/y")), "x/y");
}

#[test]
fn bundle_file_order() {
    assert_eq!(bundle_files(), vec!["config.cfg", "tokenizer.json", "model.mpk"]);
}

#[test]
fn plan_for_config_on_huggingface() {
    let p = download_plan("https://huggingface.co/org/repo", "tiny_en", "config.cfg");
    assert_eq!(
        p.urls,
        vec![
            "https://huggingface.co/org/repo/resolve/main/tiny_en/config.cfg",
            "https://huggingface.co/org/repo/resolve/main/tiny_en/tiny_en.cfg",
            "https://huggingface.co/org/repo/resolve/main/tiny_en/tiny_en.cfg.gz",
            "https://huggingface.co/org/repo/resolve/main/tiny_en.cfg",
            "https://huggingface.co/org/repo/resolve/main/tiny_en.cfg.gz",
        ]
    );
    assert!(p.report_failure);
}

#[test]
fn plan_for_tokenizer_and_mirror() {
    let p = download_plan("https://mirror.example/models", "tiny_en", "tokenizer.json");
    assert_eq!(p.urls, vec!["https://mirror.example/models/tiny_en/tokenizer.json"]);
    assert!(!p.report_failure);
    let q = download_plan("https://huggingface.co/org/repo/resolve/main", "model", "model.mpk");
    assert_eq!(
        q.urls,
        vec![
            "https://huggingface.co/org/repo/resolve/main/model/model.mpk",
            "https://huggingface.co/org/repo/resolve/main/model/model.mpk.gz",
        ]
    );
    assert!(!q.report_failure);
}

#[test]
fn conversion_arguments() {
    assert_eq!(
        conversion_args("openai/whisper-tiny.en", "tiny_en", Some("tok"), true),
        vec!["convert_whisper.py", "openai/whisper-tiny.en", "--name", "tiny_en", "--hf-token", "tok", "--verbose"]
    );
    assert_eq!(
        conversion_args("a/b", "b", None, false),
        vec!["convert_whisper.py", "a/b", "--name", "b"]
    );
}
