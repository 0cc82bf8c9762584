//! Model names: which models are voice-activity or diarization models, which loader a model
//! name goes to, how a transcription request is routed, and which backend a device asks for.
use vstd::prelude::*;

use crate::text::{chars_of, eq_ignore_ascii_case, starts_with, str_eq, str_eq_ignore_ascii_case};

verus! {

/// Whether `name` is one of the voice-activity models.
pub fn is_vad_model(name: &str) -> (r: bool)
    ensures
        r == (name@ == "silero-vad"@ || name@ == "ten-vad"@),
{
    str_eq(name, "silero-vad") || str_eq(name, "ten-vad")
}

/// Whether `name` is one of the speaker-diarization models.
pub fn is_diarize_model(name: &str) -> (r: bool)
    ensures
        r == (name@ == "diarization-3.1"@ || name@ == "nemo-diarization"@),
{
    str_eq(name, "diarization-3.1") || str_eq(name, "nemo-diarization")
}

/// Whether the device argument asks for the CPU backend (`cpu`, in any ASCII case).
pub fn wants_cpu(device: &Option<String>) -> (r: bool)
    ensures
        r == (device matches Some(s) && eq_ignore_ascii_case(s@, "cpu"@)),
{
    match device {
        Some(s) => str_eq_ignore_ascii_case(s.as_str(), "cpu"),
        None => false,
    }
}

/// The loader a model name goes to.
#[derive(Clone, Copy, Debug, PartialEq, Eq, Structural)]
pub enum ModelFamily {
    /// VibeVoice-ASR and its BitNet variant.
    VibeVoice,
    /// Moonshine.
    Moonshine,
    /// T-one.
    Tone,
    /// Qwen3-ASR.
    Qwen3,
    /// A Burn bundle (`.cfg` and `.mpk`): Whisper and Parakeet.
    Bundle,
}

/// `p` is a prefix of `s`.
pub open spec fn prefixed(s: Seq<char>, p: Seq<char>) -> bool {
    p.len() <= s.len() && s.subrange(0, p.len() as int) == p
}

/// The loader of model `name`: the two VibeVoice names, then the Moonshine, T-one and
/// Qwen3-ASR name prefixes, in that order; every other name is a Burn bundle.
pub open spec fn spec_model_family(name: Seq<char>) -> ModelFamily {
    if name == "vibevoice-asr"@ || name == "bitnet-asr"@ {
        ModelFamily::VibeVoice
    } else if prefixed(name, "moonshine"@) {
        ModelFamily::Moonshine
    } else if prefixed(name, "t-one"@) {
        ModelFamily::Tone
    } else if prefixed(name, "qwen3-asr-"@) {
        ModelFamily::Qwen3
    } else {
        ModelFamily::Bundle
    }
}

fn has_prefix_str(s: &str, p: &str) -> (r: bool)
    ensures
        r == prefixed(s@, p@),
{
    let a = chars_of(s);
    let b = chars_of(p);
    starts_with(a.as_slice(), b.as_slice())
}

/// The loader that model `name` goes to.
pub fn model_family(name: &str) -> (f: ModelFamily)
    ensures
        f == spec_model_family(name@),
{
    assert(name@ == "t-one"@ ==> prefixed(name@, "t-one"@)) by {
        assert(name@.subrange(0, name@.len() as int) =~= name@);
    }
    if str_eq(name, "vibevoice-asr") || str_eq(name, "bitnet-asr") {
        ModelFamily::VibeVoice
    } else if has_prefix_str(name, "moonshine") {
        ModelFamily::Moonshine
    } else if str_eq(name, "t-one") || has_prefix_str(name, "t-one") {
        ModelFamily::Tone
    } else if has_prefix_str(name, "qwen3-asr-") {
        ModelFamily::Qwen3
    } else {
        ModelFamily::Bundle
    }
}

/// How a transcription request is served.
#[derive(Clone, Copy, Debug, PartialEq, Eq, Structural)]
pub enum TranscribeRoute {
    /// Voice-activity detection.
    Vad,
    /// Speaker diarization.
    Diarize,
    /// The orchestrator, with a scout model.
    Orchestrated,
    /// The model itself.
    Direct,
}

/// The route of a request for model `name`: VAD and diarization models first, then the
/// orchestrator when asked for, else the model directly.
pub open spec fn spec_route(name: Seq<char>, orchestrate: bool) -> TranscribeRoute {
    if name == "silero-vad"@ || name == "ten-vad"@ {
        TranscribeRoute::Vad
    } else if name == "diarization-3.1"@ || name == "nemo-diarization"@ {
        TranscribeRoute::Diarize
    } else if orchestrate {
        TranscribeRoute::Orchestrated
    } else {
        TranscribeRoute::Direct
    }
}

/// The route of a transcription request.
pub fn transcribe_route(name: &str, orchestrate: bool) -> (r: TranscribeRoute)
    ensures
        r == spec_route(name@, orchestrate),
{
    if is_vad_model(name) {
        TranscribeRoute::Vad
    } else if is_diarize_model(name) {
        TranscribeRoute::Diarize
    } else if orchestrate {
        TranscribeRoute::Orchestrated
    } else {
        TranscribeRoute::Direct
    }
}

/// The models held by the inference runtime: the names already warmed up, and the one model
/// kept loaded (one at a time, so that a small GPU never holds two checkpoints).
pub struct ModelCache {
    pub warmed: Vec<String>,
    pub loaded: Option<String>,
}

/// What warming a model up asks the runtime to do.
#[derive(Clone, Copy, Debug, PartialEq, Eq, Structural)]
pub enum WarmStep {
    /// Nothing: the model is warm already, or is loaded.
    Nothing,
    /// Drop the loaded model and load this one.
    Load,
}

/// The names of `v`.
pub open spec fn names(v: Seq<String>) -> Seq<Seq<char>> {
    v.map_values(|s: String| s@)
}

impl ModelCache {
    /// A runtime that holds no model.
    pub fn new() -> (c: Self)
        ensures
            c.warmed@.len() == 0,
            c.loaded is None,
    {
        ModelCache { warmed: Vec::new(), loaded: None }
    }

    fn is_warm(&self, name: &str) -> (r: bool)
        ensures
            r == names(self.warmed@).contains(name@),
    {
        let mut i: usize = 0;
        while i < self.warmed.len()
            invariant
                i <= self.warmed@.len(),
                forall|j: int| 0 <= j < i ==> names(self.warmed@)[j] != name@,
            decreases self.warmed@.len() - i,
        {
            if str_eq(self.warmed[i].as_str(), name) {
                assert(names(self.warmed@)[i as int] == name@);
                return true;
            }
            i += 1;
        }
        false
    }

    fn is_loaded(&self, name: &str) -> (r: bool)
        ensures
            r == (self.loaded matches Some(l) && l@ == name@),
    {
        match &self.loaded {
            Some(l) => str_eq(l.as_str(), name),
            None => false,
        }
    }

    /// Warms model `name` up: a warm model, or a VAD or diarization model (which load per
    /// request), needs nothing; another model is loaded unless it is loaded already. The name
    /// is then warm; when a load is asked for, it becomes the loaded model.
    pub fn warm(&mut self, name: &str) -> (step: WarmStep)
        ensures
            names(old(self).warmed@).contains(name@) ==> step == WarmStep::Nothing && *final(self) == *old(self),
            !names(old(self).warmed@).contains(name@) ==> {
                &&& names(final(self).warmed@) == names(old(self).warmed@).push(name@)
                &&& if spec_route(name@, false) != TranscribeRoute::Direct
                        || (old(self).loaded matches Some(l) && l@ == name@) {
                        step == WarmStep::Nothing && final(self).loaded == old(self).loaded
                    } else {
                        step == WarmStep::Load && (final(self).loaded matches Some(l) && l@ == name@)
                    }
            },
    {
        if self.is_warm(name) {
            return WarmStep::Nothing;
        }
        let ghost before = names(self.warmed@);
        let step = if is_vad_model(name) || is_diarize_model(name) || self.is_loaded(name) {
            WarmStep::Nothing
        } else {
            self.loaded = Some(name.to_owned());
            WarmStep::Load
        };
        self.warmed.push(name.to_owned());
        assert(names(self.warmed@) =~= before.push(name@));
        step
    }

    /// Makes model `name` the loaded one for a direct transcription: nothing when it is
    /// loaded, else the loaded model is dropped and `name` loaded.
    pub fn ensure_loaded(&mut self, name: &str) -> (step: WarmStep)
        ensures
            final(self).warmed == old(self).warmed,
            final(self).loaded matches Some(l) && l@ == name@,
            step == (if old(self).loaded matches Some(l) && l@ == name@ { WarmStep::Nothing } else { WarmStep::Load }),
    {
        if self.is_loaded(name) {
            WarmStep::Nothing
        } else {
            self.loaded = Some(name.to_owned());
            WarmStep::Load
        }
    }

    /// The names of the loaded models, in order: the one loaded model, if any.
    pub fn loaded_models(&self) -> (v: Vec<String>)
        ensures
            names(v@) == match self.loaded {
                Some(l) => seq![l@],
                None => Seq::<Seq<char>>::empty(),
            },
    {
        let mut v: Vec<String> = Vec::new();
        if let Some(l) = &self.loaded {
            v.push(l.clone());
        }
        assert(names(v@) =~= match self.loaded {
            Some(l) => seq![l@],
            None => Seq::<Seq<char>>::empty(),
        });
        v
    }

    /// Forgets every warm model and the loaded one (before the summarizer takes the GPU).
    pub fn clear(&mut self)
        ensures
            final(self).warmed@.len() == 0,
            final(self).loaded is None,
    {
        self.warmed = Vec::new();
        self.loaded = None;
    }
}

} // verus!
