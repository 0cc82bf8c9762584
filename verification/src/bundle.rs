//! Files of a converted Burn bundle (Whisper, Parakeet) under `models/<name>/`: where its
//! config and weights are looked for, in order.
use vstd::prelude::*;

use crate::text::{chars_of, contains_seq, contains_str, ends_with, str_cat, string_from_chars, sub_chars};
use crate::tone::strings_view;

verus! {

/// `models/<model>/<file>`.
pub open spec fn model_file(model: Seq<char>, file: Seq<char>) -> Seq<char> {
    "models/"@ + model + "/"@ + file
}

fn model_file_exec(model: &str, file: &str) -> (r: String)
    ensures
        r@ == model_file(model@, file@),
{
    let a = str_cat("models/", model);
    let b = str_cat(a.as_str(), "/");
    str_cat(b.as_str(), file)
}

/// The config files of a bundle, tried in order: the one named after the model, then
/// `config.cfg`.
pub fn config_candidates(model: &str) -> (v: Vec<String>)
    ensures
        strings_view(v@) == seq![model_file(model@, model@ + ".cfg"@), model_file(model@, "config.cfg"@)],
{
    let named = str_cat(model, ".cfg");
    let v = vec![model_file_exec(model, named.as_str()), model_file_exec(model, "config.cfg")];
    assert(strings_view(v@) =~= seq![model_file(model@, model@ + ".cfg"@), model_file(model@, "config.cfg"@)]);
    v
}

/// The weights of a bundle and their gzipped form: named after the model when either of
/// those is present, else `model.mpk`.
pub open spec fn spec_weight_paths(model: Seq<char>, named_present: bool) -> (Seq<char>, Seq<char>) {
    if named_present {
        (model_file(model, model + ".mpk"@), model_file(model, model + ".mpk.gz"@))
    } else {
        (model_file(model, "model.mpk"@), model_file(model, "model.mpk.gz"@))
    }
}

/// The weights file of a bundle and its gzipped form; `named_present` tells whether the
/// weights named after the model (plain or gzipped) exist.
pub fn weight_paths(model: &str, named_present: bool) -> (r: (String, String))
    ensures
        r.0@ == spec_weight_paths(model@, named_present).0,
        r.1@ == spec_weight_paths(model@, named_present).1,
{
    if named_present {
        let a = str_cat(model, ".mpk");
        let b = str_cat(model, ".mpk.gz");
        (model_file_exec(model, a.as_str()), model_file_exec(model, b.as_str()))
    } else {
        (model_file_exec(model, "model.mpk"), model_file_exec(model, "model.mpk.gz"))
    }
}

/// The path the recorder loads from: the weights path without its `.mpk` extension.
pub open spec fn spec_record_path(path: Seq<char>) -> Seq<char> {
    let e = ".mpk"@;
    if e.len() <= path.len() && path.subrange(path.len() - e.len(), path.len() as int) == e {
        path.subrange(0, path.len() - e.len())
    } else {
        path
    }
}

/// The path the recorder of a bundle is given.
pub fn record_path(path: &str) -> (r: String)
    ensures
        r@ == spec_record_path(path@),
{
    let p = chars_of(path);
    let e = chars_of(".mpk");
    if ends_with(p.as_slice(), e.as_slice()) {
        let s = sub_chars(p.as_slice(), 0, p.len() - e.len());
        string_from_chars(s.as_slice())
    } else {
        string_from_chars(p.as_slice())
    }
}

/// What a directory of NumPy weights holds.
#[derive(Clone, Copy, Debug, PartialEq, Eq, Structural)]
pub enum NpyModelKind {
    /// A T-one model, which is read from safetensors instead.
    Tone,
    /// A Parakeet model (it has a CTC head).
    Parakeet,
    /// A Moonshine model, which NumPy loading does not build.
    Moonshine,
    /// Another marked architecture that NumPy loading does not build.
    Unbuilt,
    /// A Whisper model.
    Whisper,
}

/// The kind of the NumPy model at `path`: T-one when it has a `tone.encoder` or its path
/// names `t-one`, then Parakeet when it has a `ctc_linear`, then Moonshine or another marked
/// architecture, else Whisper.
pub open spec fn spec_npy_model_kind(path: Seq<char>, has_tone_encoder: bool, has_ctc_linear: bool, has_generic_marker: bool) -> NpyModelKind {
    if has_tone_encoder || contains_seq(path, "t-one"@) {
        NpyModelKind::Tone
    } else if has_ctc_linear {
        NpyModelKind::Parakeet
    } else if has_generic_marker || contains_seq(path, "moonshine"@) {
        if contains_seq(path, "moonshine"@) { NpyModelKind::Moonshine } else { NpyModelKind::Unbuilt }
    } else {
        NpyModelKind::Whisper
    }
}

/// The kind of the NumPy model at `path`, given which marker files the directory has.
pub fn npy_model_kind(path: &str, has_tone_encoder: bool, has_ctc_linear: bool, has_generic_marker: bool) -> (k: NpyModelKind)
    ensures
        k == spec_npy_model_kind(path@, has_tone_encoder, has_ctc_linear, has_generic_marker),
{
    if has_tone_encoder || contains_str(path, "t-one") {
        NpyModelKind::Tone
    } else if has_ctc_linear {
        NpyModelKind::Parakeet
    } else if has_generic_marker || contains_str(path, "moonshine") {
        if contains_str(path, "moonshine") { NpyModelKind::Moonshine } else { NpyModelKind::Unbuilt }
    } else {
        NpyModelKind::Whisper
    }
}

} // verus!
