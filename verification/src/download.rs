//! Fetching a converted model bundle: the Hugging Face id of a model name, the URLs tried for
//! each file of the bundle, in order, and the arguments of the conversion script.
use vstd::prelude::*;

use crate::text::{chars_of, contains_seq, contains_str, ends_with, str_cat, str_eq, string_from_chars, push_str_chars};
use crate::tone::strings_view;

verus! {

/// The Hugging Face id of model `name`: the registered one, else the Whisper id of the
/// English-only and turbo names, else the name itself.
pub open spec fn spec_hf_id(name: Seq<char>, registered: Option<Seq<char>>) -> Seq<char> {
    match registered {
        Some(id) => id,
        None => if name == "tiny.en"@ {
            "openai/whisper-tiny.en"@
        } else if name == "base.en"@ {
            "openai/whisper-base.en"@
        } else if name == "small.en"@ {
            "openai/whisper-small.en"@
        } else if name == "medium.en"@ {
            "openai/whisper-medium.en"@
        } else if name == "turbo"@ {
            "openai/whisper-large-v3-turbo"@
        } else {
            name
        },
    }
}

/// The Hugging Face id of model `name`, given the id the model registry has for it.
pub fn get_hf_id(name: &str, registered: Option<&str>) -> (r: String)
    ensures
        r@ == spec_hf_id(name@, match registered { Some(id) => Some(id@), None => None }),
{
    if let Some(id) = registered {
        return id.to_owned();
    }
    if str_eq(name, "tiny.en") {
        "openai/whisper-tiny.en".to_owned()
    } else if str_eq(name, "base.en") {
        "openai/whisper-base.en".to_owned()
    } else if str_eq(name, "small.en") {
        "openai/whisper-small.en".to_owned()
    } else if str_eq(name, "medium.en") {
        "openai/whisper-medium.en".to_owned()
    } else if str_eq(name, "turbo") {
        "openai/whisper-large-v3-turbo".to_owned()
    } else {
        name.to_owned()
    }
}

/// A Hugging Face repository URL that does not yet point into a revision.
pub open spec fn hf_style(base: Seq<char>) -> bool {
    contains_seq(base, "huggingface.co"@) && !contains_seq(base, "/resolve/main"@)
}

/// The URL of `file` in the folder of `model`.
pub open spec fn model_url(base: Seq<char>, model: Seq<char>, file: Seq<char>) -> Seq<char> {
    if hf_style(base) {
        base + "/resolve/main/"@ + model + "/"@ + file
    } else {
        base + "/"@ + model + "/"@ + file
    }
}

/// The URL of `file` at the root of the repository.
pub open spec fn root_url(base: Seq<char>, file: Seq<char>) -> Seq<char> {
    if hf_style(base) {
        base + "/resolve/main/"@ + file
    } else {
        base + "/"@ + file
    }
}

/// The other name a bundle file may have: the config and the weights named after the model.
pub open spec fn alt_name(model: Seq<char>, file: Seq<char>) -> Seq<char> {
    if file == "config.cfg"@ {
        model + ".cfg"@
    } else if file == "model.mpk"@ {
        model + ".mpk"@
    } else {
        file
    }
}

/// `s` ends with `p`.
pub open spec fn suffixed(s: Seq<char>, p: Seq<char>) -> bool {
    p.len() <= s.len() && s.subrange(s.len() - p.len(), s.len() as int) == p
}

/// The URLs tried, in order, for bundle file `file`: its place in the model folder; when the
/// file has no other name, its gzipped form if it is `.mpk`; else the other name in the model
/// folder, gzipped, then at the repository root, gzipped.
pub open spec fn spec_candidates(base: Seq<char>, model: Seq<char>, file: Seq<char>) -> Seq<Seq<char>> {
    let url = model_url(base, model, file);
    let alt = alt_name(model, file);
    if alt == file {
        if suffixed(file, ".mpk"@) { seq![url, url + ".gz"@] } else { seq![url] }
    } else {
        let a = model_url(base, model, alt);
        let r = root_url(base, alt);
        seq![url, a, a + ".gz"@, r, r + ".gz"@]
    }
}

/// Where to fetch one file of a bundle from: the URLs to try in turn (the first that answers
/// is saved under the file's own name), and whether a miss on all of them is reported.
pub struct DownloadPlan {
    pub urls: Vec<String>,
    pub report_failure: bool,
}

/// The files of a converted model bundle, fetched in this order.
pub open spec fn spec_bundle_files() -> Seq<Seq<char>> {
    seq!["config.cfg"@, "tokenizer.json"@, "model.mpk"@]
}

/// The files of a converted model bundle.
pub fn bundle_files() -> (v: Vec<String>)
    ensures
        strings_view(v@) == spec_bundle_files(),
{
    let v = vec!["config.cfg".to_owned(), "tokenizer.json".to_owned(), "model.mpk".to_owned()];
    assert(strings_view(v@) =~= spec_bundle_files());
    v
}

fn url_in_model(base: &str, hf: bool, model: &str, file: &str) -> (r: Vec<char>)
    requires
        hf == hf_style(base@),
    ensures
        r@ == model_url(base@, model@, file@),
{
    let mut out = chars_of(base);
    if hf {
        push_str_chars(&mut out, "/resolve/main/");
    } else {
        push_str_chars(&mut out, "/");
    }
    push_str_chars(&mut out, model);
    push_str_chars(&mut out, "/");
    push_str_chars(&mut out, file);
    out
}

fn url_at_root(base: &str, hf: bool, file: &str) -> (r: Vec<char>)
    requires
        hf == hf_style(base@),
    ensures
        r@ == root_url(base@, file@),
{
    let mut out = chars_of(base);
    if hf {
        push_str_chars(&mut out, "/resolve/main/");
    } else {
        push_str_chars(&mut out, "/");
    }
    push_str_chars(&mut out, file);
    out
}

fn gz(u: &Vec<char>) -> (r: String)
    ensures
        r@ == u@ + ".gz"@,
{
    let mut out = u.clone();
    assert(out@ == u@);
    push_str_chars(&mut out, ".gz");
    string_from_chars(out.as_slice())
}

/// The download plan of bundle file `file` of `model` under `base_url`.
pub fn download_plan(base_url: &str, model: &str, file: &str) -> (p: DownloadPlan)
    ensures
        strings_view(p.urls@) == spec_candidates(base_url@, model@, file@),
        p.report_failure == (alt_name(model@, file@) != file@),
{
    let hf = contains_str(base_url, "huggingface.co") && !contains_str(base_url, "/resolve/main");
    let url = url_in_model(base_url, hf, model, file);
    let alt = if str_eq(file, "config.cfg") {
        str_cat(model, ".cfg")
    } else if str_eq(file, "model.mpk") {
        str_cat(model, ".mpk")
    } else {
        file.to_owned()
    };
    assert(alt@ == alt_name(model@, file@));
    let mut urls: Vec<String> = Vec::new();
    urls.push(string_from_chars(url.as_slice()));
    if str_eq(alt.as_str(), file) {
        let fc = chars_of(file);
        let mpk = chars_of(".mpk");
        if ends_with(fc.as_slice(), mpk.as_slice()) {
            urls.push(gz(&url));
        }
        assert(strings_view(urls@) =~= spec_candidates(base_url@, model@, file@));
        DownloadPlan { urls, report_failure: false }
    } else {
        let a = url_in_model(base_url, hf, model, alt.as_str());
        let r = url_at_root(base_url, hf, alt.as_str());
        urls.push(string_from_chars(a.as_slice()));
        urls.push(gz(&a));
        urls.push(string_from_chars(r.as_slice()));
        urls.push(gz(&r));
        assert(strings_view(urls@) =~= spec_candidates(base_url@, model@, file@));
        DownloadPlan { urls, report_failure: true }
    }
}

/// The arguments of the conversion script for `hf_id`, saved as `model`.
pub open spec fn spec_conversion_args(hf_id: Seq<char>, model: Seq<char>, hf_token: Option<Seq<char>>, verbose: bool) -> Seq<Seq<char>> {
    let base = seq!["convert_whisper.py"@, hf_id, "--name"@, model];
    let with_token = match hf_token {
        Some(t) => base + seq!["--hf-token"@, t],
        None => base,
    };
    if verbose { with_token.push("--verbose"@) } else { with_token }
}

/// The arguments passed to `python` to convert a model on the fly.
pub fn conversion_args(hf_id: &str, model: &str, hf_token: Option<&str>, verbose: bool) -> (v: Vec<String>)
    ensures
        strings_view(v@) == spec_conversion_args(hf_id@, model@, match hf_token { Some(t) => Some(t@), None => None }, verbose),
{
    let mut v: Vec<String> = Vec::new();
    v.push("convert_whisper.py".to_owned());
    v.push(hf_id.to_owned());
    v.push("--name".to_owned());
    v.push(model.to_owned());
    if let Some(t) = hf_token {
        v.push("--hf-token".to_owned());
        v.push(t.to_owned());
    }
    if verbose {
        v.push("--verbose".to_owned());
    }
    assert(strings_view(v@) =~= spec_conversion_args(hf_id@, model@, match hf_token { Some(t) => Some(t@), None => None }, verbose));
    v
}

} // verus!
