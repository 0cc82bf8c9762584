# whisburn_engine

Support library of a speech-recognition engine, written in Verus: the functions in `src/`
carry contracts that Verus proves. Three small wrappers call code that Verus does not read
(collecting characters into a `String`, `String::from_utf8_lossy`, and `serde_json` parsing);
their contracts are trusted.

- `src/gguf.rs` — GGUF files: header, metadata, tensor directory, tensor ranges, block
  decoding of the quantized types, GGUF tensor-name shortening.
- `src/store.rs`, `src/layout.rs` — VibeVoice weights: lookup under every spelling a
  checkpoint may use, encoder layouts, tensor prefixes, which parts a checkpoint holds.
- `src/qwen3_keys.rs` — Qwen3-ASR tensor names and the safetensors header test.
- `src/tone.rs`, `src/moonshine.rs`, `src/configs.rs` — model configurations and layer
  sizes, T-one's chunked attention mask and greedy CTC decoding.
- `src/repetition.rs`, `src/summarize.rs`, `src/text.rs` — transcript text: repetition repair,
  chunking for summarization, prompts, and the string operations they rest on.
- `src/pad.rs`, `src/audio_chunks.rs`, `src/tensor_ops.rs` — convolution padding and output
  lengths, lossless splitting of long audio, weight transposition and embedding gathers.
- `src/vad.rs`, `src/cluster.rs` — runs of speech in voice-activity scores, and the clusters
  and labels of speaker diarization.
- `src/parakeet.rs` — the subsampling convolutions of Parakeet checkpoints.
- `src/models.rs`, `src/download.rs`, `src/bundle.rs`, `src/cli.rs` — model names and routing,
  the runtime's model cache, bundle download plans and file names, device selection.

`app/` holds what is not verified: file and network I/O, the JSON and command-line forms of
the library's types, and the floating-point work on samples and tensor data.
