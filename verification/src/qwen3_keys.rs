//! Tensor names of Qwen3-ASR checkpoints, and the test of whether a checkpoint's safetensors
//! header holds the audio tower.
use vstd::prelude::*;

use crate::text::{chars_of, push_all, starts_with, str_eq, string_from_chars, sub_chars};
use crate::tone::strings_view;

verus! {

/// `p` is a prefix of `s`.
pub open spec fn has_prefix(s: Seq<char>, p: Seq<char>) -> bool {
    p.len() <= s.len() && s.subrange(0, p.len() as int) == p
}

/// `s` after its first `n` characters.
pub open spec fn after(s: Seq<char>, n: int) -> Seq<char> {
    s.subrange(n, s.len() as int)
}

/// The `thinker.*` name of a Qwen3-ASR tensor: the Hugging Face `model.*` layout
/// (projector, language model, audio tower) is mapped onto the original one; other names stay.
pub open spec fn canonical_key(key: Seq<char>) -> Seq<char> {
    if has_prefix(key, "model.multi_modal_projector.linear_1"@) {
        "thinker.audio_tower.proj1"@ + after(key, "model.multi_modal_projector.linear_1"@.len() as int)
    } else if has_prefix(key, "model.multi_modal_projector.linear_2"@) {
        "thinker.audio_tower.proj2"@ + after(key, "model.multi_modal_projector.linear_2"@.len() as int)
    } else if has_prefix(key, "model.language_model."@) {
        "thinker.model."@ + after(key, "model.language_model."@.len() as int)
    } else if has_prefix(key, "model.audio_tower."@) {
        "thinker.audio_tower."@ + after(key, "model.audio_tower."@.len() as int)
    } else {
        key
    }
}

fn replaced_prefix(k: &[char], from_len: usize, to: &str) -> (r: String)
    requires
        from_len <= k@.len(),
    ensures
        r@ == to@ + after(k@, from_len as int),
{
    let mut out = chars_of(to);
    let rest = sub_chars(k, from_len, k.len());
    push_all(&mut out, &rest);
    string_from_chars(out.as_slice())
}

/// Maps a Qwen3-ASR Hugging Face (`model.*`) tensor name onto the original `thinker.*` layout.
pub fn canonicalize_qwen3_key(key: &str) -> (r: String)
    ensures
        r@ == canonical_key(key@),
{
    let k = chars_of(key);
    let p1 = chars_of("model.multi_modal_projector.linear_1");
    if starts_with(k.as_slice(), p1.as_slice()) {
        return replaced_prefix(k.as_slice(), p1.len(), "thinker.audio_tower.proj1");
    }
    let p2 = chars_of("model.multi_modal_projector.linear_2");
    if starts_with(k.as_slice(), p2.as_slice()) {
        return replaced_prefix(k.as_slice(), p2.len(), "thinker.audio_tower.proj2");
    }
    let p3 = chars_of("model.language_model.");
    if starts_with(k.as_slice(), p3.as_slice()) {
        return replaced_prefix(k.as_slice(), p3.len(), "thinker.model.");
    }
    let p4 = chars_of("model.audio_tower.");
    if starts_with(k.as_slice(), p4.as_slice()) {
        return replaced_prefix(k.as_slice(), p4.len(), "thinker.audio_tower.");
    }
    string_from_chars(k.as_slice())
}

proof fn lemma_thinker_names_are_not_hf(s: Seq<char>, p: Seq<char>)
    requires
        s.len() > 0,
        s[0] == 't',
        p.len() > 0,
        p[0] == 'm',
    ensures
        !has_prefix(s, p),
{
    if has_prefix(s, p) {
        assert(s.subrange(0, p.len() as int)[0] == s[0]);
    }
}

/// Mapping a name onto the `thinker.*` layout twice maps it once: a mapped name starts with
/// `thinker.`, which none of the Hugging Face prefixes does.
pub proof fn lemma_canonical_key_idempotent(key: Seq<char>)
    ensures
        canonical_key(canonical_key(key)) == canonical_key(key),
{
    reveal_strlit("model.multi_modal_projector.linear_1");
    reveal_strlit("model.multi_modal_projector.linear_2");
    reveal_strlit("model.language_model.");
    reveal_strlit("model.audio_tower.");
    reveal_strlit("thinker.audio_tower.proj1");
    reveal_strlit("thinker.audio_tower.proj2");
    reveal_strlit("thinker.model.");
    reveal_strlit("thinker.audio_tower.");
    let c = canonical_key(key);
    if c != key {
        assert(c[0] == 't');
        lemma_thinker_names_are_not_hf(c, "model.multi_modal_projector.linear_1"@);
        lemma_thinker_names_are_not_hf(c, "model.multi_modal_projector.linear_2"@);
        lemma_thinker_names_are_not_hf(c, "model.language_model."@);
        lemma_thinker_names_are_not_hf(c, "model.audio_tower."@);
    }
}

/// What serde_json makes of `bytes` read as one JSON object: its keys, in the map's order,
/// or nothing when `bytes` is not one JSON object.
pub uninterp spec fn json_object_keys(bytes: Seq<u8>) -> Option<Seq<Seq<char>>>;

/// Calls `serde_json::from_slice` into a `serde_json::Value` and, for an object, lists its
/// keys: the contract says the result is `json_object_keys` of the bytes, `None` on a parse
/// error or a document that is not an object.
#[verifier::external_body]
fn parse_object_keys(bytes: &[u8]) -> (r: Option<Vec<String>>)
    ensures
        match r {
            Some(v) => json_object_keys(bytes@) == Some(strings_view(v@)),
            None => json_object_keys(bytes@) is None,
        },
{
    match serde_json::from_slice::<serde_json::Value>(bytes) {
        Ok(serde_json::Value::Object(map)) => Some(map.into_iter().map(|(k, _)| k).collect()),
        _ => None,
    }
}

/// Little-endian `u64` of the first eight bytes.
pub open spec fn le_u64_at0(d: Seq<u8>) -> int {
    crate::gguf::le_u64(d, 0)
}

/// The largest header size taken as plausible.
pub const MAX_HEADER_BYTES: u64 = 50_000_000;

/// The keys of the JSON header of a safetensors file that starts with `file`: the first eight
/// bytes give the header's size, which must be plausible (1 to 50 000 000 bytes), and the
/// header must be complete and one JSON object.
pub open spec fn header_keys(file: Seq<u8>) -> Option<Seq<Seq<char>>> {
    if file.len() < 8 {
        None
    } else {
        let n = le_u64_at0(file);
        if n == 0 || n > MAX_HEADER_BYTES || file.len() < 8 + n {
            None
        } else {
            json_object_keys(file.subrange(8, 8 + n))
        }
    }
}

/// The tensor name that marks a checkpoint with the Qwen3 audio tower.
pub open spec fn audio_tower_key() -> Seq<char> {
    "thinker.audio_tower.conv2d1.weight"@
}

/// Some key other than the `__metadata__` entry maps onto the audio tower's first conv.
pub open spec fn names_audio_tower(keys: Seq<Seq<char>>) -> bool {
    exists|i: int| 0 <= i < keys.len() && keys[i] != "__metadata__"@ && canonical_key(#[trigger] keys[i]) == audio_tower_key()
}

/// Whether the Qwen3-ASR weights are present: `file` is the start of `model.safetensors`
/// (empty when it cannot be read), and its header must name the audio tower's first conv.
pub fn weights_present(file: &[u8]) -> (r: bool)
    ensures
        r == match header_keys(file@) {
            Some(keys) => names_audio_tower(keys),
            None => false,
        },
{
    if file.len() < 8 {
        return false;
    }
    let n: u64 = file[0] as u64 + file[1] as u64 * 0x100 + file[2] as u64 * 0x1_0000
        + file[3] as u64 * 0x100_0000 + file[4] as u64 * 0x1_0000_0000
        + file[5] as u64 * 0x100_0000_0000 + file[6] as u64 * 0x1_0000_0000_0000
        + file[7] as u64 * 0x100_0000_0000_0000;
    assert(n == le_u64_at0(file@));
    if n == 0 || n > MAX_HEADER_BYTES {
        return false;
    }
    let n = n as usize;
    if file.len() - 8 < n {
        return false;
    }
    let header = &file[8..8 + n];
    assert(header@ == file@.subrange(8, 8 + n as int));
    let keys = match parse_object_keys(header) {
        Some(k) => k,
        None => return false,
    };
    let ghost kv = strings_view(keys@);
    assert(header_keys(file@) == Some(kv));
    let mut i: usize = 0;
    while i < keys.len()
        invariant
            i <= keys@.len(),
            kv == strings_view(keys@),
            header_keys(file@) == Some(kv),
            forall|j: int| 0 <= j < i ==> !(kv[j] != "__metadata__"@ && canonical_key(#[trigger] kv[j]) == audio_tower_key()),
        decreases keys@.len() - i,
    {
        let k = keys[i].as_str();
        if !str_eq(k, "__metadata__") {
            let c = canonicalize_qwen3_key(k);
            if str_eq(c.as_str(), "thinker.audio_tower.conv2d1.weight") {
                assert(kv[i as int] == k@);
                assert(canonical_key(kv[i as int]) == audio_tower_key());
                assert(kv[i as int] != "__metadata__"@);
                assert(names_audio_tower(kv));
                return true;
            }
        }
        i += 1;
    }
    false
}

} // verus!
