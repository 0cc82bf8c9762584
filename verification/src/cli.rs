//! Command-line settings shared by the transcription commands, and the device they ask for.
use vstd::prelude::*;

use crate::text::{chars_of, eq_ignore_ascii_case, parse_uint, parse_uint_spec, str_eq_ignore_ascii_case};

verus! {

/// Settings shared by the transcription commands.
pub struct CommonArgs {
    /// Name of the model to use (e.g., tiny_en, base_en).
    pub model: String,
    /// Language of the audio (e.g., en, fr); English by default.
    pub lang: String,
    /// Show detailed processing information.
    pub verbose: bool,
    /// Enable low-level debug output.
    pub debug: bool,
    /// Suppress real-time transcription output.
    pub quiet: bool,
    /// Verify the transcription against the expected test string.
    pub verify: bool,
    /// Hugging Face authentication token for gated models.
    pub hf_token: Option<String>,
    /// Beam size for search (higher = better quality, slower); 5 by default.
    pub beam_size: usize,
    /// Maximum tokens to generate per chunk; 448 by default.
    pub max_tokens: usize,
    /// Padding added to audio chunks, in frames; 200 by default.
    pub padding: usize,
    /// Backend device (0, 1, ... for a specific GPU, or `cpu`).
    pub device: Option<String>,
}

/// The device a `--device` argument selects.
#[derive(Clone, Copy, Debug, PartialEq, Eq, Structural)]
pub enum DeviceChoice {
    /// No argument: the backend's default device.
    Default,
    /// `cpu`, in any case.
    Cpu,
    /// A number: that discrete GPU.
    DiscreteGpu(u32),
    /// Anything else: reported as invalid, and the default device is used.
    Invalid,
}

/// The device that `arg` selects: `cpu` in any case (lowercasing can only give `cpu` from
/// ASCII letters), else a GPU index that parses as a `u32`, else an invalid argument.
pub open spec fn spec_device_choice(arg: Option<Seq<char>>) -> DeviceChoice {
    match arg {
        None => DeviceChoice::Default,
        Some(s) => if eq_ignore_ascii_case(s, "cpu"@) {
            DeviceChoice::Cpu
        } else {
            match parse_uint_spec(s, u32::MAX as nat) {
                Some(i) => DeviceChoice::DiscreteGpu(i as u32),
                None => DeviceChoice::Invalid,
            }
        },
    }
}

/// The device selected by a `--device` argument.
pub fn device_choice(arg: &Option<String>) -> (d: DeviceChoice)
    ensures
        d == spec_device_choice(match arg { Some(s) => Some(s@), None => None }),
{
    match arg {
        None => DeviceChoice::Default,
        Some(s) => {
            if str_eq_ignore_ascii_case(s.as_str(), "cpu") {
                DeviceChoice::Cpu
            } else {
                let c = chars_of(s.as_str());
                match parse_uint(c.as_slice(), 0xffff_ffff) {
                    Some(i) => DeviceChoice::DiscreteGpu(i as u32),
                    None => DeviceChoice::Invalid,
                }
            }
        },
    }
}

impl CommonArgs {
    /// The settings the orchestrator runs a model with for a server request: quiet, no
    /// verification, no token and the runtime's own device.
    pub fn for_orchestrator(
        model: String,
        lang: String,
        verbose: bool,
        debug: bool,
        beam_size: usize,
        max_tokens: usize,
        padding: usize,
    ) -> (a: Self)
        ensures
            a.model == model && a.lang == lang && a.verbose == verbose && a.debug == debug,
            a.quiet && !a.verify && a.hf_token is None && a.device is None,
            a.beam_size == beam_size && a.max_tokens == max_tokens && a.padding == padding,
    {
        CommonArgs {
            model,
            lang,
            verbose,
            debug,
            quiet: true,
            verify: false,
            hf_token: None,
            beam_size,
            max_tokens,
            padding,
            device: None,
        }
    }
}

/// The scout model of an orchestrated request: the one asked for, else `tiny_en`.
pub fn scout_model(requested: &Option<String>) -> (r: String)
    ensures
        r@ == match requested {
            Some(s) => s@,
            None => "tiny_en"@,
        },
{
    match requested {
        Some(s) => s.clone(),
        None => "tiny_en".to_owned(),
    }
}

} // verus!
