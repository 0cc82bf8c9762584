//! Where the parts of a VibeVoice checkpoint live: which tokenizer-encoder layout it uses, the
//! tensor names of each encoder level and convolution, and which parts are present at all.
use vstd::prelude::*;

use crate::store::VibeVoiceWeightStore;
use crate::text::{chars_of, decimal, ends_with, push_decimal, push_str_chars, str_cat, str_cat3, str_eq, string_from_chars, sub_chars};

verus! {

/// How a checkpoint names the tensors of a tokenizer encoder.
#[derive(Clone, Copy, Debug, PartialEq, Eq, Structural)]
pub enum EncoderLayout {
    /// `acoustic_tokenizer_encoder.{stem,conv_layers,head}` (VibeVoice-ASR-HF).
    Hf,
    /// `model.acoustic_tokenizer.encoder.{downsample_layers,stages,head}` (BitNet / original).
    Original,
}

/// How the projections of the language model are quantized.
#[derive(Clone, Copy, Debug, PartialEq, Eq, Structural)]
pub enum LinearQuant {
    /// Symmetric INT8 with a scale per output channel.
    Int8,
    /// BitNet I2_S: per-tensor absmean, values in `{-1,0,+1}`.
    Ternary,
}

/// The Transformers name of the stem convolution of encoder `kind`.
pub open spec fn hf_stem_key(kind: Seq<char>) -> Seq<char> {
    kind + "_tokenizer_encoder.stem.conv.conv.weight"@
}

/// The original name of the first downsampling convolution of encoder `kind`.
pub open spec fn original_stem_key(kind: Seq<char>) -> Seq<char> {
    "model."@ + kind + "_tokenizer.encoder.downsample_layers.0.0.conv.conv.weight"@
}

/// The original name without its `model.` prefix.
pub open spec fn stripped_stem_key(kind: Seq<char>) -> Seq<char> {
    kind + "_tokenizer.encoder.downsample_layers.0.0.conv.conv.weight"@
}

/// The prefix and layout of encoder `kind` (`acoustic` or `semantic`) in the store: the
/// Transformers layout when its stem is there, else the original layout with or without
/// the `model.` prefix, else none.
pub open spec fn spec_encoder_layout(store: VibeVoiceWeightStore, kind: Seq<char>) -> Option<(Seq<char>, EncoderLayout)> {
    if store.resolved(hf_stem_key(kind)) is Some {
        Some((kind + "_tokenizer_encoder"@, EncoderLayout::Hf))
    } else if store.resolved(original_stem_key(kind)) is Some {
        Some(("model."@ + kind + "_tokenizer.encoder"@, EncoderLayout::Original))
    } else if store.resolved(stripped_stem_key(kind)) is Some {
        Some((kind + "_tokenizer.encoder"@, EncoderLayout::Original))
    } else {
        None
    }
}

/// Finds the tensor prefix and layout of the tokenizer encoder `kind` in a checkpoint.
pub fn detect_encoder_layout(store: &VibeVoiceWeightStore, kind: &str) -> (r: Option<(String, EncoderLayout)>)
    ensures
        match spec_encoder_layout(*store, kind@) {
            Some((p, l)) => r matches Some((q, m)) && q@ == p && m == l,
            None => r is None,
        },
{
    let hf = str_cat(kind, "_tokenizer_encoder.stem.conv.conv.weight");
    if store.has_key(hf.as_str()) {
        return Some((str_cat(kind, "_tokenizer_encoder"), EncoderLayout::Hf));
    }
    let original = str_cat3("model.", kind, "_tokenizer.encoder.downsample_layers.0.0.conv.conv.weight");
    if store.has_key(original.as_str()) {
        return Some((str_cat3("model.", kind, "_tokenizer.encoder"), EncoderLayout::Original));
    }
    let stripped = str_cat(kind, "_tokenizer.encoder.downsample_layers.0.0.conv.conv.weight");
    if store.has_key(stripped.as_str()) {
        return Some((str_cat(kind, "_tokenizer.encoder"), EncoderLayout::Original));
    }
    None
}

/// The names tried, in turn, for the weight of the convolution at `prefix`: plain, then
/// wrapped once, then wrapped twice.
pub open spec fn sconv_candidates(prefix: Seq<char>) -> Seq<Seq<char>> {
    seq![prefix + ".weight"@, prefix + ".conv.weight"@, prefix + ".conv.conv.weight"@]
}

/// The error reported when none of the candidate names is stored.
pub open spec fn sconv_missing_message(prefix: Seq<char>) -> Seq<char> {
    prefix + ".weight: conv weight not in index (tried nested conv wrappers)"@
}

/// The first candidate weight name of the convolution at `prefix` that the store has.
pub open spec fn spec_sconv_weight_key(store: VibeVoiceWeightStore, prefix: Seq<char>) -> Result<Seq<char>, Seq<char>> {
    let c = sconv_candidates(prefix);
    if store.resolved(c[0]) is Some {
        Ok(c[0])
    } else if store.resolved(c[1]) is Some {
        Ok(c[1])
    } else if store.resolved(c[2]) is Some {
        Ok(c[2])
    } else {
        Err(sconv_missing_message(prefix))
    }
}

/// The weight name of the convolution at `prefix`, looking through the wrappers that
/// checkpoints nest convolutions in.
pub fn sconv_weight_key(store: &VibeVoiceWeightStore, prefix: &str) -> (r: Result<String, String>)
    ensures
        match spec_sconv_weight_key(*store, prefix@) {
            Ok(k) => r matches Ok(s) && s@ == k,
            Err(m) => r matches Err(e) && e@ == m,
        },
{
    let a = str_cat(prefix, ".weight");
    if store.has_key(a.as_str()) {
        return Ok(a);
    }
    let b = str_cat(prefix, ".conv.weight");
    if store.has_key(b.as_str()) {
        return Ok(b);
    }
    let c = str_cat(prefix, ".conv.conv.weight");
    if store.has_key(c.as_str()) {
        return Ok(c);
    }
    Err(str_cat(prefix, ".weight: conv weight not in index (tried nested conv wrappers)"))
}

/// The bias name that goes with a convolution weight name: `.weight` replaced by `.bias`,
/// or `prefix.bias` when the weight name does not end in `.weight`.
pub open spec fn spec_bias_key(weight_key: Seq<char>, prefix: Seq<char>) -> Seq<char> {
    let w = ".weight"@;
    if w.len() <= weight_key.len() && weight_key.subrange(weight_key.len() - w.len(), weight_key.len() as int) == w {
        weight_key.subrange(0, weight_key.len() - w.len()) + ".bias"@
    } else {
        prefix + ".bias"@
    }
}

/// The bias name of the convolution whose weight is `weight_key`.
pub fn bias_key(weight_key: &str, prefix: &str) -> (r: String)
    ensures
        r@ == spec_bias_key(weight_key@, prefix@),
{
    let k = chars_of(weight_key);
    let w = chars_of(".weight");
    if ends_with(k.as_slice(), w.as_slice()) {
        let mut out = sub_chars(k.as_slice(), 0, k.len() - w.len());
        push_str_chars(&mut out, ".bias");
        string_from_chars(out.as_slice())
    } else {
        str_cat(prefix, ".bias")
    }
}

/// The convolution and block prefixes of the stem of an encoder at `prefix`.
pub open spec fn spec_stem_prefixes(prefix: Seq<char>, layout: EncoderLayout) -> (Seq<char>, Seq<char>) {
    match layout {
        EncoderLayout::Hf => (prefix + ".stem"@, prefix + ".stem.stage"@),
        EncoderLayout::Original => (prefix + ".downsample_layers.0.0"@, prefix + ".stages.0"@),
    }
}

/// The convolution and block prefixes of downsampling level `i` (counted after the stem) of
/// an encoder at `prefix`: the original layout numbers the stem 0, so level `i` is `i + 1`.
pub open spec fn spec_level_prefixes(prefix: Seq<char>, layout: EncoderLayout, i: nat) -> (Seq<char>, Seq<char>) {
    match layout {
        EncoderLayout::Hf => (
            prefix + ".conv_layers."@ + decimal(i),
            prefix + ".conv_layers."@ + decimal(i) + ".stage"@,
        ),
        EncoderLayout::Original => (
            prefix + ".downsample_layers."@ + decimal(i + 1) + ".0"@,
            prefix + ".stages."@ + decimal(i + 1),
        ),
    }
}

/// The tensor prefixes of the stem's convolution and blocks.
pub fn stem_prefixes(prefix: &str, layout: EncoderLayout) -> (r: (String, String))
    ensures
        r.0@ == spec_stem_prefixes(prefix@, layout).0,
        r.1@ == spec_stem_prefixes(prefix@, layout).1,
{
    match layout {
        EncoderLayout::Hf => (str_cat(prefix, ".stem"), str_cat(prefix, ".stem.stage")),
        EncoderLayout::Original => (str_cat(prefix, ".downsample_layers.0.0"), str_cat(prefix, ".stages.0")),
    }
}

/// The tensor prefixes of the convolution and blocks of downsampling level `i`.
pub fn level_prefixes(prefix: &str, layout: EncoderLayout, i: usize) -> (r: (String, String))
    requires
        layout == EncoderLayout::Original ==> i < usize::MAX,
    ensures
        r.0@ == spec_level_prefixes(prefix@, layout, i as nat).0,
        r.1@ == spec_level_prefixes(prefix@, layout, i as nat).1,
{
    let mut conv: Vec<char> = chars_of(prefix);
    let mut block: Vec<char> = chars_of(prefix);
    match layout {
        EncoderLayout::Hf => {
            push_str_chars(&mut conv, ".conv_layers.");
            push_decimal(&mut conv, i);
            push_str_chars(&mut block, ".conv_layers.");
            push_decimal(&mut block, i);
            push_str_chars(&mut block, ".stage");
        },
        EncoderLayout::Original => {
            push_str_chars(&mut conv, ".downsample_layers.");
            push_decimal(&mut conv, i + 1);
            push_str_chars(&mut conv, ".0");
            push_str_chars(&mut block, ".stages.");
            push_decimal(&mut block, i + 1);
        },
    }
    (string_from_chars(conv.as_slice()), string_from_chars(block.as_slice()))
}

/// The checkpoint has speech connectors under one of their three spellings.
pub open spec fn spec_has_connectors(store: VibeVoiceWeightStore) -> bool {
    store.resolved("multi_modal_projector.acoustic_linear_1.weight"@) is Some
        || store.resolved("model.acoustic_connector.fc1.weight"@) is Some
        || store.resolved("acoustic_connector.fc1.weight"@) is Some
}

/// Whether the checkpoint holds the speech connectors.
pub fn has_connectors(store: &VibeVoiceWeightStore) -> (r: bool)
    ensures
        r == spec_has_connectors(*store),
{
    store.has_key("multi_modal_projector.acoustic_linear_1.weight")
        || store.has_key("model.acoustic_connector.fc1.weight")
        || store.has_key("acoustic_connector.fc1.weight")
}

/// The checkpoint has the language model under one of its four spellings.
pub open spec fn spec_has_language_model(store: VibeVoiceWeightStore) -> bool {
    store.resolved("language_model.model.embed_tokens.weight"@) is Some
        || store.resolved("language_model.lm_head.weight"@) is Some
        || store.resolved("model.language_model.embed_tokens.weight"@) is Some
        || store.resolved("lm_head.weight"@) is Some
}

/// Whether the checkpoint holds the language model.
pub fn has_language_model(store: &VibeVoiceWeightStore) -> (r: bool)
    ensures
        r == spec_has_language_model(*store),
{
    store.has_key("language_model.model.embed_tokens.weight")
        || store.has_key("language_model.lm_head.weight")
        || store.has_key("model.language_model.embed_tokens.weight")
        || store.has_key("lm_head.weight")
}

/// The quantization of the language-model projections: ternary for the BitNet model,
/// INT8 otherwise.
pub fn projection_quant(model_name: &str) -> (q: LinearQuant)
    ensures
        q == (if model_name@ == "bitnet-asr"@ { LinearQuant::Ternary } else { LinearQuant::Int8 }),
{
    if str_eq(model_name, "bitnet-asr") { LinearQuant::Ternary } else { LinearQuant::Int8 }
}

/// What loading the weights of a VibeVoice checkpoint does: which parts are loaded and how.
pub struct VibeVoiceLoadPlan {
    /// The speech connectors are loaded.
    pub connectors: bool,
    /// Prefix and layout of the acoustic encoder, when it is loaded.
    pub acoustic: Option<(String, EncoderLayout)>,
    /// Prefix and layout of the semantic encoder, when it is loaded.
    pub semantic: Option<(String, EncoderLayout)>,
    /// Quantization of the language model, when it is loaded.
    pub language_model: Option<LinearQuant>,
}

/// The loading plan of a VibeVoice checkpoint whose weights are in `store`.
pub fn vibevoice_load_plan(store: &VibeVoiceWeightStore, model_name: &str) -> (p: VibeVoiceLoadPlan)
    ensures
        p.connectors == spec_has_connectors(*store),
        match spec_encoder_layout(*store, "acoustic"@) {
            Some((x, l)) => p.acoustic matches Some((q, m)) && q@ == x && m == l,
            None => p.acoustic is None,
        },
        match spec_encoder_layout(*store, "semantic"@) {
            Some((x, l)) => p.semantic matches Some((q, m)) && q@ == x && m == l,
            None => p.semantic is None,
        },
        p.language_model == (if spec_has_language_model(*store) {
            Some(if model_name@ == "bitnet-asr"@ { LinearQuant::Ternary } else { LinearQuant::Int8 })
        } else {
            None
        }),
{
    let connectors = has_connectors(store);
    let acoustic = detect_encoder_layout(store, "acoustic");
    let semantic = detect_encoder_layout(store, "semantic");
    let language_model = if has_language_model(store) { Some(projection_quant(model_name)) } else { None };
    VibeVoiceLoadPlan { connectors, acoustic, semantic, language_model }
}

} // verus!
