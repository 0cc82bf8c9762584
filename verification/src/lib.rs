//! Support library of a speech-recognition engine: the checkpoint formats and tensor names of
//! its models (GGUF, safetensors headers, VibeVoice, Qwen3-ASR, T-one), their configurations
//! and layer sizes, the text post-processing of transcripts (repetition repair, chunking and
//! summarization prompts), greedy CTC decoding, audio chunking, and the routing of requests.

pub mod text;
pub mod repetition;
pub mod summarize;
pub mod gguf;
pub mod store;
pub mod pad;
pub mod tone;
pub mod qwen3_keys;
pub mod layout;
pub mod models;
pub mod download;
pub mod configs;
pub mod cli;
pub mod moonshine;
pub mod audio_chunks;
pub mod bundle;
pub mod tensor_ops;
pub mod parakeet;
pub mod vad;
pub mod cluster;
