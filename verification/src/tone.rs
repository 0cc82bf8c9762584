//! T-one (streaming Conformer CTC): its configuration, the names of its checkpoint tensors,
//! the attention chunk mask and greedy CTC decoding.
use vstd::prelude::*;

use crate::text::{chars_of, push_all, strip_prefix_chars, string_from_chars, without_prefix};

verus! {

/// The value of `o`, or `d` when there is none.
pub open spec fn opt_or(o: Option<usize>, d: usize) -> usize {
    match o {
        Some(v) => v,
        None => d,
    }
}

/// The characters of each string.
pub open spec fn strings_view(v: Seq<String>) -> Seq<Seq<char>> {
    v.map_values(|s: String| s@)
}

/// Encoder parameters of a Hugging Face T-one `config.json`; each may be absent.
pub struct ToneEncoderParams {
    pub d_model: Option<usize>,
    pub n_heads: Option<usize>,
    pub n_layers: Option<usize>,
    pub conv_kernel_size: Option<usize>,
    pub ff_expansion_factor: Option<usize>,
    pub rope_dim: Option<usize>,
    pub chunk_size: Option<usize>,
    pub reduction_position: Option<usize>,
    pub upsample_position: Option<usize>,
    pub reduction_factor: Option<usize>,
    pub reduction_kernel_size: Option<usize>,
    pub mhsa_state_size: Option<usize>,
    pub mhsa_stateless_layers: Option<usize>,
}

/// Decoder parameters of a Hugging Face T-one `config.json`.
pub struct ToneDecoderParams {
    pub vocabulary: Option<Vec<String>>,
}

/// Feature-extraction parameters of a Hugging Face T-one `config.json`.
pub struct ToneFeatParams {
    pub sample_rate: Option<usize>,
    pub n_mels: Option<usize>,
}

/// A Hugging Face T-one `config.json`.
pub struct ToneHfConfig {
    pub encoder_params: ToneEncoderParams,
    pub decoder_params: ToneDecoderParams,
    pub feature_extraction_params: Option<ToneFeatParams>,
    pub pad_token_id: Option<usize>,
}

/// The resolved settings the T-one runtime works with (`tone_runtime.json`).
pub struct ToneRuntimeConfig {
    pub d_model: usize,
    pub n_heads: usize,
    pub n_layers: usize,
    pub n_mels: usize,
    pub n_vocab: usize,
    pub conv_kernel: usize,
    pub ff_mult: usize,
    pub rope_dim: usize,
    pub chunk_size: usize,
    pub reduction_position: usize,
    pub upsample_position: usize,
    pub reduction_factor: usize,
    pub reduction_kernel: usize,
    pub mhsa_left: usize,
    pub mhsa_stateless: usize,
    pub sample_rate: usize,
    pub blank_id: usize,
    pub vocab: Vec<String>,
    pub inference_status: String,
}

/// The Russian alphabet and the space: the CTC vocabulary used when a checkpoint has none.
pub open spec fn default_vocab_spec() -> Seq<Seq<char>> {
    seq![
        "а"@, "б"@, "в"@, "г"@, "д"@, "е"@, "ё"@, "ж"@, "з"@, "и"@, "й"@, "к"@, "л"@, "м"@,
        "н"@, "о"@, "п"@, "р"@, "с"@, "т"@, "у"@, "ф"@, "х"@, "ц"@, "ч"@, "ш"@, "щ"@, "ъ"@,
        "ы"@, "ь"@, "э"@, "ю"@, "я"@, " "@,
    ]
}

/// The default CTC vocabulary: the 33 letters of the Russian alphabet and the space.
pub fn default_russian_vocab() -> (v: Vec<String>)
    ensures
        strings_view(v@) == default_vocab_spec(),
{
    let letters: [&str; 34] = [
        "а", "б", "в", "г", "д", "е", "ё", "ж", "з", "и", "й", "к", "л", "м", "н", "о", "п", "р",
        "с", "т", "у", "ф", "х", "ц", "ч", "ш", "щ", "ъ", "ы", "ь", "э", "ю", "я", " ",
    ];
    let ghost spec_letters = default_vocab_spec();
    let mut v: Vec<String> = Vec::new();
    let mut i: usize = 0;
    while i < 34
        invariant
            i <= 34,
            letters@.map_values(|s: &str| s@) =~= spec_letters,
            v@.len() == i,
            forall|j: int| 0 <= j < i ==> v@[j]@ == spec_letters[j],
        decreases 34 - i,
    {
        let s = letters[i].to_owned();
        assert(letters@.map_values(|s: &str| s@)[i as int] == letters@[i as int]@);
        v.push(s);
        i += 1;
    }
    assert(strings_view(v@) =~= spec_letters);
    v
}

/// The vocabulary `from_hf` settles on.
pub open spec fn hf_vocab(hf: ToneHfConfig) -> Seq<Seq<char>> {
    match hf.decoder_params.vocabulary {
        Some(v) => strings_view(v@),
        None => default_vocab_spec(),
    }
}

/// A feature-extraction setting of the checkpoint, or `d` when absent.
pub open spec fn feat_or(f: Option<ToneFeatParams>, mels: bool, d: usize) -> usize {
    match f {
        Some(p) => if mels { opt_or(p.n_mels, d) } else { opt_or(p.sample_rate, d) },
        None => d,
    }
}

impl ToneRuntimeConfig {
    /// The runtime settings of a Hugging Face T-one configuration: each absent value takes
    /// the published T-one default, the vocabulary defaults to the Russian alphabet, one more
    /// class than letters is the CTC blank, and the blank id defaults to the vocabulary size.
    pub fn from_hf(hf: &ToneHfConfig) -> (r: Self)
        requires
            hf.decoder_params.vocabulary matches Some(v) ==> v.len() < usize::MAX,
        ensures
            r.d_model == opt_or(hf.encoder_params.d_model, 384),
            r.n_heads == opt_or(hf.encoder_params.n_heads, 8),
            r.n_layers == opt_or(hf.encoder_params.n_layers, 16),
            r.n_mels == feat_or(hf.feature_extraction_params, true, 64),
            r.n_vocab == hf_vocab(*hf).len() + 1,
            r.conv_kernel == opt_or(hf.encoder_params.conv_kernel_size, 31),
            r.ff_mult == opt_or(hf.encoder_params.ff_expansion_factor, 4),
            r.rope_dim == opt_or(hf.encoder_params.rope_dim, 32),
            r.chunk_size == opt_or(hf.encoder_params.chunk_size, 10),
            r.reduction_position == opt_or(hf.encoder_params.reduction_position, 6),
            r.upsample_position == opt_or(hf.encoder_params.upsample_position, 14),
            r.reduction_factor == opt_or(hf.encoder_params.reduction_factor, 2),
            r.reduction_kernel == opt_or(hf.encoder_params.reduction_kernel_size, 3),
            r.mhsa_left == opt_or(hf.encoder_params.mhsa_state_size, 30),
            r.mhsa_stateless == opt_or(hf.encoder_params.mhsa_stateless_layers, 14),
            r.sample_rate == feat_or(hf.feature_extraction_params, false, 8000),
            r.blank_id == opt_or(hf.pad_token_id, hf_vocab(*hf).len() as usize),
            strings_view(r.vocab@) == hf_vocab(*hf),
            r.inference_status@ == "ready"@,
    {
        let enc = &hf.encoder_params;
        let vocab: Vec<String> = match &hf.decoder_params.vocabulary {
            Some(v) => {
                let c = v.clone();
                assert(strings_view(c@) =~= strings_view(v@)) by {
                    assert forall|i: int| 0 <= i < c@.len() implies c@[i] == v@[i] by {
                        assert(vstd::pervasive::cloned(v[i], c[i]));
                    }
                }
                c
            },
            None => default_russian_vocab(),
        };
        assert(strings_view(vocab@) == hf_vocab(*hf));
        assert(vocab@.len() == strings_view(vocab@).len());
        let n_vocab = vocab.len() + 1;
        let (n_mels, sample_rate) = match &hf.feature_extraction_params {
            Some(f) => (f.n_mels.unwrap_or(64), f.sample_rate.unwrap_or(8_000)),
            None => (64, 8_000),
        };
        let blank_id = hf.pad_token_id.unwrap_or(vocab.len());
        ToneRuntimeConfig {
            d_model: enc.d_model.unwrap_or(384),
            n_heads: enc.n_heads.unwrap_or(8),
            n_layers: enc.n_layers.unwrap_or(16),
            n_mels,
            n_vocab,
            conv_kernel: enc.conv_kernel_size.unwrap_or(31),
            ff_mult: enc.ff_expansion_factor.unwrap_or(4),
            rope_dim: enc.rope_dim.unwrap_or(32),
            chunk_size: enc.chunk_size.unwrap_or(10),
            reduction_position: enc.reduction_position.unwrap_or(6),
            upsample_position: enc.upsample_position.unwrap_or(14),
            reduction_factor: enc.reduction_factor.unwrap_or(2),
            reduction_kernel: enc.reduction_kernel_size.unwrap_or(3),
            mhsa_left: enc.mhsa_state_size.unwrap_or(30),
            mhsa_stateless: enc.mhsa_stateless_layers.unwrap_or(14),
            sample_rate,
            blank_id,
            vocab,
            inference_status: "ready".to_owned(),
        }
    }

    /// The runtime settings read from `tone_runtime.json`, or, when there are none, those of
    /// the published T-one checkpoint (every default, the Russian alphabet, blank 34).
    pub fn or_published(parsed: Option<ToneRuntimeConfig>) -> (r: Self)
        ensures
            parsed matches Some(p) ==> r == p,
            parsed is None ==> {
                &&& r.d_model == 384 && r.n_heads == 8 && r.n_layers == 16 && r.n_mels == 64
                &&& r.n_vocab == 35 && r.conv_kernel == 31 && r.ff_mult == 4 && r.rope_dim == 32
                &&& r.chunk_size == 10 && r.reduction_position == 6 && r.upsample_position == 14
                &&& r.reduction_factor == 2 && r.reduction_kernel == 3 && r.mhsa_left == 30
                &&& r.mhsa_stateless == 14 && r.sample_rate == 8000 && r.blank_id == 34
                &&& strings_view(r.vocab@) == default_vocab_spec()
                &&& r.inference_status@ == "ready"@
            },
    {
        match parsed {
            Some(p) => p,
            None => {
                let dv = default_russian_vocab();
                assert(dv@.len() == strings_view(dv@).len());
                let hf = ToneHfConfig {
                    encoder_params: ToneEncoderParams {
                        d_model: Some(384),
                        n_heads: Some(8),
                        n_layers: Some(16),
                        conv_kernel_size: Some(31),
                        ff_expansion_factor: Some(4),
                        rope_dim: Some(32),
                        chunk_size: Some(10),
                        reduction_position: Some(6),
                        upsample_position: Some(14),
                        reduction_factor: Some(2),
                        reduction_kernel_size: Some(3),
                        mhsa_state_size: Some(30),
                        mhsa_stateless_layers: Some(14),
                    },
                    decoder_params: ToneDecoderParams { vocabulary: Some(dv) },
                    feature_extraction_params: Some(ToneFeatParams {
                        sample_rate: Some(8_000),
                        n_mels: Some(64),
                    }),
                    pad_token_id: Some(34),
                };
                Self::from_hf(&hf)
            },
        }
    }
}

/// The model configuration of T-one.
pub struct TONEConfig {
    pub d_model: usize,
    pub n_heads: usize,
    pub n_layers: usize,
    pub n_mels: usize,
    pub n_vocab: usize,
    pub conv_kernel: usize,
    pub ff_mult: usize,
    pub rope_dim: usize,
    pub chunk_size: usize,
    pub reduction_position: usize,
    pub upsample_position: usize,
    pub reduction_factor: usize,
    pub reduction_kernel: usize,
    pub mhsa_left: usize,
    pub mhsa_stateless: usize,
}

impl TONEConfig {
    /// The model configuration of the runtime settings: each model field is taken over.
    pub fn from_runtime(rt: &ToneRuntimeConfig) -> (r: Self)
        ensures
            r.d_model == rt.d_model && r.n_heads == rt.n_heads && r.n_layers == rt.n_layers,
            r.n_mels == rt.n_mels && r.n_vocab == rt.n_vocab && r.conv_kernel == rt.conv_kernel,
            r.ff_mult == rt.ff_mult && r.rope_dim == rt.rope_dim && r.chunk_size == rt.chunk_size,
            r.reduction_position == rt.reduction_position,
            r.upsample_position == rt.upsample_position,
            r.reduction_factor == rt.reduction_factor && r.reduction_kernel == rt.reduction_kernel,
            r.mhsa_left == rt.mhsa_left && r.mhsa_stateless == rt.mhsa_stateless,
    {
        TONEConfig {
            d_model: rt.d_model,
            n_heads: rt.n_heads,
            n_layers: rt.n_layers,
            n_mels: rt.n_mels,
            n_vocab: rt.n_vocab,
            conv_kernel: rt.conv_kernel,
            ff_mult: rt.ff_mult,
            rope_dim: rt.rope_dim,
            chunk_size: rt.chunk_size,
            reduction_position: rt.reduction_position,
            upsample_position: rt.upsample_position,
            reduction_factor: rt.reduction_factor,
            reduction_kernel: rt.reduction_kernel,
            mhsa_left: rt.mhsa_left,
            mhsa_stateless: rt.mhsa_stateless,
        }
    }

    /// Number of leading layers that attend without carried state: the configured number,
    /// capped by the number of layers.
    pub fn stateless_layers(&self) -> (r: usize)
        ensures
            r == if self.mhsa_stateless < self.n_layers { self.mhsa_stateless } else { self.n_layers },
    {
        if self.mhsa_stateless < self.n_layers { self.mhsa_stateless } else { self.n_layers }
    }
}

/// Whether layer `i` of T-one recomputes its activations: layers 0, 7, 14 and 15.
pub open spec fn recomputes(i: int) -> bool {
    i == 0 || i == 7 || i == 14 || i == 15
}

/// The recompute flag of each of `n` layers.
pub fn default_recompute(n: usize) -> (v: Vec<bool>)
    ensures
        v@.len() == n,
        forall|i: int| 0 <= i < n ==> v@[i] == recomputes(i),
{
    let mut v: Vec<bool> = Vec::new();
    let mut i: usize = 0;
    while i < n
        invariant
            i <= n,
            v@.len() == i,
            forall|j: int| 0 <= j < i ==> v@[j] == recomputes(j),
        decreases n - i,
    {
        v.push(i == 0 || i == 7 || i == 14 || i == 15);
        i += 1;
    }
    v
}

/// Frequency bins left after the two unpadded convolutions of the pre-encoder (kernels 21
/// and 11 along frequency, stride 1): `n_mels - 30`, and at least one. The count goes through
/// an `i64`: a count above `i64::MAX` wraps to a negative number, which gives one bin.
pub fn pre_encode_feat_out(n_mels: usize) -> (r: usize)
    requires
        !(0x8000_0000_0000_0000 <= n_mels < 0x8000_0000_0000_0000 + 31),
    ensures
        r == if 31 < n_mels <= i64::MAX { n_mels - 30 } else { 1 },
{
    if n_mels > 31 && n_mels as u64 <= 0x7fff_ffff_ffff_ffff { n_mels - 30 } else { 1 }
}

/// A checkpoint tensor name without its `model.`, `tone.` and `encoder.` prefixes, each
/// removed when present, in that order.
pub open spec fn spec_strip_prefix(key: Seq<char>) -> Seq<char> {
    without_prefix(without_prefix(without_prefix(key, "model."@), "tone."@), "encoder."@)
}

/// The tensor name T-one's loader looks a checkpoint tensor up by.
pub fn strip_prefix(key: &str) -> (r: String)
    ensures
        r@ == spec_strip_prefix(key@),
{
    let k = chars_of(key);
    let k = strip_prefix_chars(k.as_slice(), "model.");
    let k = strip_prefix_chars(k.as_slice(), "tone.");
    let k = strip_prefix_chars(k.as_slice(), "encoder.");
    string_from_chars(k.as_slice())
}

/// Whether, in the chunked attention of T-one, step `i` of `t` may attend to step `j`: `j`
/// lies from `left` steps before the start of `i`'s chunk to the end of that chunk.
pub open spec fn chunk_allows(t: int, chunk: int, left: int, i: int, j: int) -> bool {
    let start = (i / chunk) * chunk;
    let lo = if start >= left { start - left } else { 0 };
    let hi = if start + chunk < t { start + chunk } else { t };
    lo <= j < hi
}

/// The attention mask of T-one's chunked attention, row by row: entry `i * t + j` says
/// whether step `i` may attend to step `j` (the masked entries get a large negative bias).
pub fn chunk_mask_allowed(t: usize, chunk: usize, left: usize) -> (m: Vec<bool>)
    requires
        chunk >= 1,
        t * t <= usize::MAX,
        t == 0 || ((t - 1) as int / chunk as int) * chunk + chunk <= usize::MAX,
    ensures
        m@.len() == t * t,
        forall|i: int, j: int| 0 <= i < t && 0 <= j < t ==>
            m@[i * t + j] == chunk_allows(t as int, chunk as int, left as int, i, j),
{
    let mut m: Vec<bool> = Vec::new();
    let mut i: usize = 0;
    while i < t
        invariant
            i <= t,
            chunk >= 1,
            t * t <= usize::MAX,
            t == 0 || ((t - 1) as int / chunk as int) * chunk + chunk <= usize::MAX,
            m@.len() == i * t,
            forall|a: int, b: int| 0 <= a < i && 0 <= b < t ==>
                m@[a * t + b] == chunk_allows(t as int, chunk as int, left as int, a, b),
        decreases t - i,
    {
        proof {
            vstd::arithmetic::div_mod::lemma_div_is_ordered(i as int, (t - 1) as int, chunk as int);
            vstd::arithmetic::mul::lemma_mul_inequality(i as int / chunk as int, (t - 1) as int / chunk as int, chunk as int);
            vstd::arithmetic::div_mod::lemma_fundamental_div_mod(i as int, chunk as int);
            assert((i + 1) * t <= t * t) by (nonlinear_arith)
                requires i < t;
            assert((i + 1) * t == i * t + t) by (nonlinear_arith);
        }
        let start = (i / chunk) * chunk;
        let lo = if start >= left { start - left } else { 0 };
        let hi = if start + chunk < t { start + chunk } else { t };
        let mut j: usize = 0;
        let ghost base = m@.len();
        let ghost prefix = m@;
        while j < t
            invariant
                j <= t,
                i < t,
                base == i * t,
                prefix.len() == base,
                m@.len() == base + j,
                m@.subrange(0, base as int) == prefix,
                forall|b: int| 0 <= b < j ==>
                    m@[base + b] == chunk_allows(t as int, chunk as int, left as int, i as int, b),
                start == (i as int / chunk as int) * chunk,
                lo == (if start >= left { start - left } else { 0 }),
                hi == (if start + chunk < t { start + chunk } else { t as int }),
            decreases t - j,
        {
            m.push(lo <= j && j < hi);
            assert(m@.subrange(0, base as int) =~= prefix);
            j += 1;
        }
        proof {
            assert forall|a: int, b: int| 0 <= a < i + 1 && 0 <= b < t implies
                m@[a * t + b] == chunk_allows(t as int, chunk as int, left as int, a, b) by {
                if a == i {
                    assert(a * t + b == base + b);
                } else {
                    lemma_row_index(a, b, i as int, t as int);
                    assert(m@[a * t + b] == prefix[a * t + b]);
                }
            }
        }
        i += 1;
    }
    m
}

proof fn lemma_row_index(a: int, b: int, i: int, t: int)
    requires
        0 <= a < i,
        0 <= b < t,
    ensures
        0 <= a * t + b < i * t,
{
    assert(0 <= a * t + b < i * t) by (nonlinear_arith)
        requires
            0 <= a < i,
            0 <= b < t,
    ;
}

/// The tokens greedy CTC keeps from `ids[i..]` when the token before was `prev`: a token
/// repeating its predecessor is dropped, and so is the blank.
pub open spec fn ctc_kept_from(ids: Seq<usize>, blank: usize, prev: Option<usize>, i: int) -> Seq<usize>
    decreases ids.len() - i,
{
    if i < 0 || i >= ids.len() {
        Seq::empty()
    } else {
        let t = ids[i];
        if prev == Some(t) {
            ctc_kept_from(ids, blank, prev, i + 1)
        } else if t != blank {
            seq![t] + ctc_kept_from(ids, blank, Some(t), i + 1)
        } else {
            ctc_kept_from(ids, blank, Some(t), i + 1)
        }
    }
}

/// The tokens greedy CTC keeps of the frame-wise best tokens `ids`.
pub open spec fn ctc_kept(ids: Seq<usize>, blank: usize) -> Seq<usize> {
    ctc_kept_from(ids, blank, None, 0)
}

/// The text of `kept`: each token's vocabulary entry, where it has one.
pub open spec fn vocab_text(kept: Seq<usize>, vocab: Seq<Seq<char>>) -> Seq<char>
    decreases kept.len(),
{
    if kept.len() == 0 {
        Seq::empty()
    } else {
        let t = kept.last();
        vocab_text(kept.drop_last(), vocab) + if t < vocab.len() { vocab[t as int] } else { Seq::empty() }
    }
}

/// Greedy CTC decoding of the frame-wise best tokens: repeats collapse, blanks drop, and the
/// kept tokens are spelled with the vocabulary. Returns the text and the kept tokens.
pub fn greedy_ctc_text(ids: &[usize], vocab: &[String], blank: usize) -> (r: (String, Vec<usize>))
    ensures
        r.1@ == ctc_kept(ids@, blank),
        r.0@ == vocab_text(ctc_kept(ids@, blank), strings_view(vocab@)),
{
    let mut out: Vec<char> = Vec::new();
    let mut kept: Vec<usize> = Vec::new();
    let mut prev: Option<usize> = None;
    let mut i: usize = 0;
    while i < ids.len()
        invariant
            i <= ids@.len(),
            kept@ + ctc_kept_from(ids@, blank, prev, i as int) == ctc_kept(ids@, blank),
            out@ == vocab_text(kept@, strings_view(vocab@)),
        decreases ids@.len() - i,
    {
        let t = ids[i];
        if prev == Some(t) {
            i += 1;
            continue;
        }
        prev = Some(t);
        if t != blank {
            let ghost before = kept@;
            kept.push(t);
            assert(kept@.drop_last() == before);
            if t < vocab.len() {
                let cs = chars_of(vocab[t].as_str());
                push_all(&mut out, &cs);
            } else {
                assert(out@ + Seq::<char>::empty() == out@);
            }
            assert(kept@ + ctc_kept_from(ids@, blank, prev, i + 1) =~= before + (seq![t] + ctc_kept_from(ids@, blank, prev, i + 1)));
        }
        i += 1;
    }
    assert(kept@ + Seq::<usize>::empty() == kept@);
    (string_from_chars(out.as_slice()), kept)
}

/// Every step of the chunked attention may attend to itself, so no row of the mask is
/// masked out entirely.
pub proof fn lemma_chunk_mask_allows_diagonal(t: int, chunk: int, left: int, i: int)
    requires
        chunk >= 1,
        left >= 0,
        0 <= i < t,
    ensures
        chunk_allows(t, chunk, left, i, i),
{
    vstd::arithmetic::div_mod::lemma_fundamental_div_mod(i, chunk);
    let start = (i / chunk) * chunk;
    assert(start == chunk * (i / chunk)) by {
        vstd::arithmetic::mul::lemma_mul_is_commutative(i / chunk, chunk);
    }
    assert(0 <= i % chunk < chunk) by {
        vstd::arithmetic::div_mod::lemma_mod_bound(i, chunk);
    }
    assert(start <= i < start + chunk);
}

proof fn lemma_ctc_kept_from_no_blank(ids: Seq<usize>, blank: usize, prev: Option<usize>, i: int)
    ensures
        forall|k: int| 0 <= k < ctc_kept_from(ids, blank, prev, i).len() ==> #[trigger] ctc_kept_from(ids, blank, prev, i)[k] != blank,
    decreases ids.len() - i,
{
    if 0 <= i < ids.len() {
        let t = ids[i];
        if prev == Some(t) {
            lemma_ctc_kept_from_no_blank(ids, blank, prev, i + 1);
        } else {
            lemma_ctc_kept_from_no_blank(ids, blank, Some(t), i + 1);
            let rest = ctc_kept_from(ids, blank, Some(t), i + 1);
            if t != blank {
                assert(ctc_kept_from(ids, blank, prev, i) == seq![t] + rest);
                assert forall|k: int| 0 <= k < (seq![t] + rest).len() implies #[trigger] (seq![t] + rest)[k] != blank by {
                    if k > 0 {
                        assert((seq![t] + rest)[k] == rest[k - 1]);
                    } else {
                        assert((seq![t] + rest)[k] == t);
                    }
                }
            }
        }
    }
}

/// Greedy CTC never keeps the blank.
pub proof fn lemma_ctc_kept_has_no_blank(ids: Seq<usize>, blank: usize)
    ensures
        forall|k: int| 0 <= k < ctc_kept(ids, blank).len() ==> #[trigger] ctc_kept(ids, blank)[k] != blank,
{
    lemma_ctc_kept_from_no_blank(ids, blank, None, 0);
}

} // verus!
