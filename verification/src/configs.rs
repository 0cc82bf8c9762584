//! Layer configurations of the encoders: the Conformer of Parakeet, the MLP of Whisper, the
//! speech connector and tokenizer encoder of VibeVoice, and the audio tower of Qwen3-ASR,
//! with the sizes their layers are built with.
use vstd::prelude::*;

use crate::text::{chars_of, parse_uint, parse_uint_spec, sub_chars};

verus! {

/// The MLP of a Whisper block: `n_state` → `4 n_state` → `n_state`.
pub struct MLPConfig {
    pub n_state: usize,
}

impl MLPConfig {
    pub fn new(n_state: usize) -> (c: Self)
        ensures
            c.n_state == n_state,
    {
        MLPConfig { n_state }
    }

    /// Width of the hidden layer: four times the state.
    pub fn hidden_dim(&self) -> (r: usize)
        requires
            4 * self.n_state <= usize::MAX,
        ensures
            r == 4 * self.n_state,
    {
        4 * self.n_state
    }
}

/// A Conformer encoder: `n_layers` identical blocks.
pub struct ConformerEncoderConfig {
    pub d_model: usize,
    pub n_head: usize,
    pub n_layers: usize,
    pub kernel_size: usize,
}

/// One Conformer block: two half-step feed-forward modules around attention and convolution.
#[derive(Clone, Copy, Debug, PartialEq, Eq, Structural)]
pub struct ConformerBlockConfig {
    pub d_model: usize,
    pub n_head: usize,
    pub kernel_size: usize,
}

/// The feed-forward module of a Conformer block: `d_model` → `4 d_model` → `d_model`.
#[derive(Clone, Copy, Debug, PartialEq, Eq, Structural)]
pub struct FeedForwardModuleConfig {
    pub d_model: usize,
}

/// The convolution module of a Conformer block: a pointwise convolution to twice the width
/// (halved again by the gated linear unit), a depthwise one, and a pointwise one back.
#[derive(Clone, Copy, Debug, PartialEq, Eq, Structural)]
pub struct ConvolutionModuleConfig {
    pub d_model: usize,
    pub kernel_size: usize,
}

impl ConformerEncoderConfig {
    pub fn new(d_model: usize, n_head: usize, n_layers: usize, kernel_size: usize) -> (c: Self)
        ensures
            c.d_model == d_model && c.n_head == n_head && c.n_layers == n_layers && c.kernel_size == kernel_size,
    {
        ConformerEncoderConfig { d_model, n_head, n_layers, kernel_size }
    }

    /// The configuration of each block.
    pub fn block_config(&self) -> (b: ConformerBlockConfig)
        ensures
            b == (ConformerBlockConfig { d_model: self.d_model, n_head: self.n_head, kernel_size: self.kernel_size }),
    {
        ConformerBlockConfig::new(self.d_model, self.n_head, self.kernel_size)
    }

    /// The configurations of the blocks, in order.
    pub fn layer_configs(&self) -> (v: Vec<ConformerBlockConfig>)
        ensures
            v@.len() == self.n_layers,
            forall|i: int| 0 <= i < v@.len() ==> v@[i] == (ConformerBlockConfig {
                d_model: self.d_model,
                n_head: self.n_head,
                kernel_size: self.kernel_size,
            }),
    {
        let mut v: Vec<ConformerBlockConfig> = Vec::new();
        let mut i: usize = 0;
        while i < self.n_layers
            invariant
                i <= self.n_layers,
                v@.len() == i,
                forall|j: int| 0 <= j < i ==> v@[j] == (ConformerBlockConfig {
                    d_model: self.d_model,
                    n_head: self.n_head,
                    kernel_size: self.kernel_size,
                }),
            decreases self.n_layers - i,
        {
            v.push(self.block_config());
            i += 1;
        }
        v
    }
}

impl ConformerBlockConfig {
    pub fn new(d_model: usize, n_head: usize, kernel_size: usize) -> (c: Self)
        ensures
            c.d_model == d_model && c.n_head == n_head && c.kernel_size == kernel_size,
    {
        ConformerBlockConfig { d_model, n_head, kernel_size }
    }

    /// The feed-forward modules of the block.
    pub fn feed_forward(&self) -> (f: FeedForwardModuleConfig)
        ensures
            f.d_model == self.d_model,
    {
        FeedForwardModuleConfig::new(self.d_model)
    }

    /// The convolution module of the block.
    pub fn convolution(&self) -> (c: ConvolutionModuleConfig)
        ensures
            c.d_model == self.d_model && c.kernel_size == self.kernel_size,
    {
        ConvolutionModuleConfig::new(self.d_model, self.kernel_size)
    }
}

impl FeedForwardModuleConfig {
    pub fn new(d_model: usize) -> (c: Self)
        ensures
            c.d_model == d_model,
    {
        FeedForwardModuleConfig { d_model }
    }

    /// Width of the hidden layer: four times the model width.
    pub fn hidden_dim(&self) -> (r: usize)
        requires
            4 * self.d_model <= usize::MAX,
        ensures
            r == 4 * self.d_model,
    {
        self.d_model * 4
    }
}

impl ConvolutionModuleConfig {
    pub fn new(d_model: usize, kernel_size: usize) -> (c: Self)
        ensures
            c.d_model == d_model && c.kernel_size == kernel_size,
    {
        ConvolutionModuleConfig { d_model, kernel_size }
    }

    /// Output channels of the first pointwise convolution: twice the width, for the gated linear unit.
    pub fn gated_channels(&self) -> (r: usize)
        requires
            2 * self.d_model <= usize::MAX,
        ensures
            r == 2 * self.d_model,
    {
        self.d_model * 2
    }

    /// Padding on each side of the depthwise convolution, which keeps the length for an odd
    /// kernel: half the kernel, rounded down.
    pub fn depthwise_padding(&self) -> (r: usize)
        ensures
            r == self.kernel_size / 2,
    {
        self.kernel_size / 2
    }
}

/// The speech connector of VibeVoice: `input_dim` → `hidden_size` → `hidden_size`.
pub struct SpeechConnectorConfig {
    pub input_dim: usize,
    pub hidden_size: usize,
}

impl SpeechConnectorConfig {
    pub fn new(input_dim: usize, hidden_size: usize) -> (c: Self)
        ensures
            c.input_dim == input_dim && c.hidden_size == hidden_size,
    {
        SpeechConnectorConfig { input_dim, hidden_size }
    }
}

/// The audio tower of Qwen3-ASR: three stride-2 convolutions over the mel spectrogram, then
/// `n_layers` encoder layers and a projection to `output_dim`.
pub struct Qwen3AudioTowerConfig {
    pub d_model: usize,
    pub output_dim: usize,
    pub n_layers: usize,
    pub n_heads: usize,
    pub n_mels: usize,
    pub ffn_dim: usize,
    pub downsample_hidden_size: usize,
    pub n_window: usize,
    pub n_window_infer: usize,
    pub conv_chunksize: usize,
    pub max_source_positions: usize,
}

/// One encoder layer of the Qwen3 audio tower.
pub struct Qwen3AudioEncoderLayerConfig {
    pub d_model: usize,
    pub n_heads: usize,
    pub ffn_dim: usize,
}

/// The self-attention of an encoder layer of the Qwen3 audio tower.
pub struct Qwen3AudioAttentionConfig {
    pub d_model: usize,
    pub n_heads: usize,
}

/// `a / b` rounded up, for `b > 0`.
pub open spec fn div_ceil(a: int, b: int) -> int {
    (a + b - 1) / b
}

impl Qwen3AudioTowerConfig {
    /// Mel bins left after the three stride-2, padding-1, kernel-3 convolutions: the count
    /// halved and rounded up three times, which is the count divided by 8 rounded up.
    pub fn mel_after_conv(&self) -> (r: usize)
        requires
            self.n_mels < usize::MAX,
        ensures
            r == div_ceil(div_ceil(div_ceil(self.n_mels as int, 2), 2), 2),
            r == div_ceil(self.n_mels as int, 8),
    {
        let m = self.n_mels;
        let r = (((m + 1) / 2 + 1) / 2 + 1) / 2;
        proof {
            lemma_halving_thrice(m as int);
        }
        r
    }

    /// Input width of the linear layer after the convolutions: the channels times the mel
    /// bins that are left.
    pub fn conv_out_input_dim(&self) -> (r: usize)
        requires
            self.n_mels < usize::MAX,
            self.downsample_hidden_size * div_ceil(self.n_mels as int, 8) <= usize::MAX,
        ensures
            r == self.downsample_hidden_size * div_ceil(self.n_mels as int, 8),
    {
        self.downsample_hidden_size * self.mel_after_conv()
    }

    /// The configuration of each encoder layer.
    pub fn layer_config(&self) -> (c: Qwen3AudioEncoderLayerConfig)
        ensures
            c.d_model == self.d_model && c.n_heads == self.n_heads && c.ffn_dim == self.ffn_dim,
    {
        Qwen3AudioEncoderLayerConfig::new(self.d_model, self.n_heads, self.ffn_dim)
    }
}

proof fn lemma_halving_thrice(m: int)
    requires
        m >= 0,
    ensures
        ((m + 1) / 2 + 1) / 2 == (m + 3) / 4,
        (((m + 1) / 2 + 1) / 2 + 1) / 2 == (m + 7) / 8,
{
    let a = (m + 1) / 2;
    let b = (a + 1) / 2;
    let c = (b + 1) / 2;
    assert(2 * a <= m + 1 < 2 * a + 2);
    assert(2 * b <= a + 1 < 2 * b + 2);
    assert(2 * c <= b + 1 < 2 * c + 2);
    assert(4 * b <= m + 3 < 4 * b + 4);
    assert(8 * c <= m + 7 < 8 * c + 8);
    assert((m + 3) / 4 == b) by {
        vstd::arithmetic::div_mod::lemma_fundamental_div_mod(m + 3, 4);
    }
    assert((m + 7) / 8 == c) by {
        vstd::arithmetic::div_mod::lemma_fundamental_div_mod(m + 7, 8);
    }
}

impl Qwen3AudioEncoderLayerConfig {
    pub fn new(d_model: usize, n_heads: usize, ffn_dim: usize) -> (c: Self)
        ensures
            c.d_model == d_model && c.n_heads == n_heads && c.ffn_dim == ffn_dim,
    {
        Qwen3AudioEncoderLayerConfig { d_model, n_heads, ffn_dim }
    }

    /// The self-attention of the layer.
    pub fn attention(&self) -> (c: Qwen3AudioAttentionConfig)
        ensures
            c.d_model == self.d_model && c.n_heads == self.n_heads,
    {
        Qwen3AudioAttentionConfig::new(self.d_model, self.n_heads)
    }
}

impl Qwen3AudioAttentionConfig {
    pub fn new(d_model: usize, n_heads: usize) -> (c: Self)
        ensures
            c.d_model == d_model && c.n_heads == n_heads,
    {
        Qwen3AudioAttentionConfig { d_model, n_heads }
    }

    /// Width of one attention head.
    pub fn head_dim(&self) -> (r: usize)
        requires
            self.n_heads >= 1,
        ensures
            r == self.d_model / self.n_heads,
    {
        self.d_model / self.n_heads
    }
}

/// End (exclusive) of the `-`-separated field of `s` that starts at `i`.
pub open spec fn field_end(s: Seq<char>, i: int) -> int
    decreases s.len() - i,
{
    if i < 0 || i >= s.len() || s[i] == '-' {
        i
    } else {
        field_end(s, i + 1)
    }
}

/// The `-`-separated fields of `s[i..]` (std's `split('-')`: every field, empty ones too).
pub open spec fn fields_from(s: Seq<char>, i: int) -> Seq<Seq<char>>
    decreases s.len() + 1 - i,
{
    if i < 0 || i > s.len() {
        Seq::empty()
    } else {
        let e = field_end(s, i);
        if e < i || e > s.len() {
            Seq::empty()
        } else {
            seq![s.subrange(i, e)] + fields_from(s, e + 1)
        }
    }
}

/// The fields of `fields` that parse as a `usize`, parsed, in order.
pub open spec fn parsed_fields(fields: Seq<Seq<char>>) -> Seq<usize>
    decreases fields.len(),
{
    if fields.len() == 0 {
        Seq::empty()
    } else {
        let rest = parsed_fields(fields.drop_last());
        match parse_uint_spec(fields.last(), usize::MAX as nat) {
            Some(v) => rest.push(v as usize),
            None => rest,
        }
    }
}

/// The stage depths written as `"3-3-3-3-3-3-8"`: the fields that are numbers.
pub open spec fn spec_parse_depths(s: Seq<char>) -> Seq<usize> {
    parsed_fields(fields_from(s, 0))
}

proof fn lemma_field_end(s: Seq<char>, i: int)
    requires
        0 <= i <= s.len(),
    ensures
        i <= field_end(s, i) <= s.len(),
        field_end(s, i) < s.len() ==> s[field_end(s, i)] == '-',
        forall|k: int| i <= k < field_end(s, i) ==> s[k] != '-',
    decreases s.len() - i,
{
    if i < s.len() && s[i] != '-' {
        lemma_field_end(s, i + 1);
    }
}

proof fn lemma_field_end_is(s: Seq<char>, i: int, j: int)
    requires
        0 <= i <= j <= s.len(),
        forall|k: int| i <= k < j ==> s[k] != '-',
        j == s.len() || s[j] == '-',
    ensures
        field_end(s, i) == j,
    decreases j - i,
{
    if i < j {
        lemma_field_end_is(s, i + 1, j);
    }
}

proof fn lemma_fields_prefix(s: Seq<char>, i: int)
    requires
        0 <= i <= s.len(),
    ensures
        fields_from(s, i) == seq![s.subrange(i, field_end(s, i))] + fields_from(s, field_end(s, i) + 1),
{
    lemma_field_end(s, i);
}

proof fn lemma_parsed_fields_append(a: Seq<Seq<char>>, b: Seq<Seq<char>>)
    ensures
        parsed_fields(a + b) == parsed_fields(a) + parsed_fields(b),
    decreases b.len(),
{
    if b.len() == 0 {
        assert(a + b =~= a);
    } else {
        lemma_parsed_fields_append(a, b.drop_last());
        assert((a + b).drop_last() =~= a + b.drop_last());
        assert((a + b).last() == b.last());
    }
}

/// Parses stage depths written as numbers joined by `-`; fields that are not numbers are
/// skipped.
pub fn parse_encoder_depths(s: &str) -> (v: Vec<usize>)
    ensures
        v@ == spec_parse_depths(s@),
{
    let c = chars_of(s);
    let n = c.len();
    let mut out: Vec<usize> = Vec::new();
    let mut start: usize = 0;
    let mut j: usize = 0;
    proof {
        lemma_field_end(c@, 0);
    }
    while j <= n
        invariant
            c@ == s@,
            n == c@.len(),
            start <= j,
            j <= n,
            start <= n,
            forall|k: int| start <= k < j && k < n ==> c@[k] != '-',
            out@ + parsed_fields(fields_from(c@, start as int)) == spec_parse_depths(s@),
        decreases n + 1 - j,
    {
        if j == n || c[j] == '-' {
            proof {
                lemma_field_end_is(c@, start as int, j as int);
                lemma_fields_prefix(c@, start as int);
                lemma_parsed_fields_append(seq![c@.subrange(start as int, j as int)], fields_from(c@, j + 1));
                assert(parsed_fields(seq![c@.subrange(start as int, j as int)]) == parsed_fields(Seq::<Seq<char>>::empty()) + parsed_fields(seq![c@.subrange(start as int, j as int)]));
            }
            let field = sub_chars(c.as_slice(), start, j);
            let ghost before = out@;
            match parse_uint(field.as_slice(), usize::MAX as u64) {
                Some(v) => {
                    out.push(v as usize);
                    assert(parsed_fields(seq![field@]) =~= seq![v as usize]) by {
                        assert(seq![field@].drop_last() =~= Seq::<Seq<char>>::empty());
                    }
                    assert(out@ =~= before + parsed_fields(seq![field@]));
                },
                None => {
                    assert(parsed_fields(seq![field@]) =~= Seq::<usize>::empty()) by {
                        assert(seq![field@].drop_last() =~= Seq::<Seq<char>>::empty());
                    }
                    assert(out@ =~= before + parsed_fields(seq![field@]));
                },
            }
            if j == n {
                assert(fields_from(c@, n + 1) == Seq::<Seq<char>>::empty());
                assert(out@ + Seq::<usize>::empty() =~= out@);
                return out;
            }
            start = j + 1;
        }
        j += 1;
    }
    out
}

/// The integer settings of a VibeVoice tokenizer encoder: input channels, latent width, the
/// filters of the stem, the depth of each stage, the downsampling ratio of each level, the
/// kernel and the feed-forward expansion.
pub struct TokenizerEncoderShape {
    pub channels: usize,
    pub output_dim: usize,
    pub num_filters: usize,
    pub depths: Vec<usize>,
    pub downsampling_ratios: Vec<usize>,
    pub kernel_size: usize,
    pub ffn_expansion: usize,
}

impl TokenizerEncoderShape {
    /// The shape of an original VibeVoice (`acoustic_tokenizer_config`) encoder section: the
    /// depths are parsed from their `-`-joined form, and the ratios, which that section lists
    /// from the latent side, are reversed into downsampling order.
    pub fn from_original(
        channels: usize,
        encoder_depths: &str,
        encoder_n_filters: usize,
        encoder_ratios: Vec<usize>,
        vae_dim: usize,
        kernel_size: usize,
        ffn_expansion: usize,
    ) -> (r: Self)
        ensures
            r.channels == channels,
            r.output_dim == vae_dim,
            r.num_filters == encoder_n_filters,
            r.depths@ == spec_parse_depths(encoder_depths@),
            r.downsampling_ratios@ == encoder_ratios@.reverse(),
            r.kernel_size == kernel_size,
            r.ffn_expansion == ffn_expansion,
    {
        let depths = parse_encoder_depths(encoder_depths);
        let mut ratios: Vec<usize> = Vec::new();
        let mut i = encoder_ratios.len();
        while i > 0
            invariant
                i <= encoder_ratios@.len(),
                ratios@ == encoder_ratios@.subrange(i as int, encoder_ratios@.len() as int).reverse(),
            decreases i,
        {
            i -= 1;
            ratios.push(encoder_ratios[i]);
            assert(ratios@ =~= encoder_ratios@.subrange(i as int, encoder_ratios@.len() as int).reverse());
        }
        assert(encoder_ratios@.subrange(0, encoder_ratios@.len() as int) == encoder_ratios@);
        TokenizerEncoderShape {
            channels,
            output_dim: vae_dim,
            num_filters: encoder_n_filters,
            depths,
            downsampling_ratios: ratios,
            kernel_size,
            ffn_expansion,
        }
    }

    /// Channels at level `level`: the stem's filters, doubled at each level.
    pub fn channels_at_level(&self, level: usize) -> (r: usize)
        requires
            vstd::arithmetic::power2::pow2(level as nat) <= usize::MAX,
            self.num_filters * vstd::arithmetic::power2::pow2(level as nat) <= usize::MAX,
        ensures
            r == self.num_filters * vstd::arithmetic::power2::pow2(level as nat),
    {
        let mut p: usize = 1;
        let mut i: usize = 0;
        proof {
            vstd::arithmetic::power2::lemma2_to64();
        }
        while i < level
            invariant
                i <= level,
                p == vstd::arithmetic::power2::pow2(i as nat),
                vstd::arithmetic::power2::pow2(level as nat) <= usize::MAX,
            decreases level - i,
        {
            proof {
                vstd::arithmetic::power2::lemma_pow2_unfold((i + 1) as nat);
                if i + 1 < level {
                    vstd::arithmetic::power2::lemma_pow2_strictly_increases((i + 1) as nat, level as nat);
                }
            }
            p = p * 2;
            i += 1;
        }
        self.num_filters * p
    }
}

/// The speech connectors of VibeVoice: the acoustic latent and the semantic latent are each
/// projected to the hidden size of the language model.
pub fn speech_connectors(acoustic_vae_dim: usize, semantic_vae_dim: usize, hidden_size: usize) -> (r: (SpeechConnectorConfig, SpeechConnectorConfig))
    ensures
        r.0.input_dim == acoustic_vae_dim && r.0.hidden_size == hidden_size,
        r.1.input_dim == semantic_vae_dim && r.1.hidden_size == hidden_size,
{
    (SpeechConnectorConfig::new(acoustic_vae_dim, hidden_size), SpeechConnectorConfig::new(semantic_vae_dim, hidden_size))
}

/// The integer sizes of the Qwen2 language model of VibeVoice.
pub struct Qwen2DecoderShape {
    pub hidden_size: usize,
    pub n_layers: usize,
    pub n_heads: usize,
    pub n_kv_heads: usize,
    pub head_dim: usize,
    pub intermediate_size: usize,
    pub vocab_size: usize,
}

impl Qwen2DecoderShape {
    /// The sizes of the language model from its runtime settings: at least one attention
    /// head and one key-value head, the hidden size split over the heads, and a feed-forward
    /// width of at least four times the hidden size.
    pub fn from_runtime_dims(
        hidden_size: usize,
        num_hidden_layers: usize,
        num_attention_heads: usize,
        num_key_value_heads: usize,
        intermediate_size: usize,
        vocab_size: usize,
    ) -> (r: Self)
        requires
            4 * hidden_size <= usize::MAX,
        ensures
            r.hidden_size == hidden_size,
            r.n_layers == num_hidden_layers,
            r.n_heads == (if num_attention_heads >= 1 { num_attention_heads } else { 1 }),
            r.head_dim == hidden_size / r.n_heads,
            r.n_kv_heads == (if num_key_value_heads >= 1 { num_key_value_heads } else { 1 }),
            r.intermediate_size == (if intermediate_size >= 4 * hidden_size { intermediate_size as int } else { 4 * hidden_size }),
            r.vocab_size == vocab_size,
    {
        let n_heads = if num_attention_heads >= 1 { num_attention_heads } else { 1 };
        let n_kv_heads = if num_key_value_heads >= 1 { num_key_value_heads } else { 1 };
        let wide = hidden_size * 4;
        Qwen2DecoderShape {
            hidden_size,
            n_layers: num_hidden_layers,
            n_heads,
            n_kv_heads,
            head_dim: hidden_size / n_heads,
            intermediate_size: if intermediate_size >= wide { intermediate_size } else { wide },
            vocab_size,
        }
    }
}

/// The sum of `s`.
pub open spec fn total(s: Seq<usize>) -> int
    decreases s.len(),
{
    if s.len() == 0 { 0 } else { total(s.drop_last()) + s.last() }
}

/// The lengths of the attention windows that `frames` mel frames are cut into: windows of
/// `chunk` frames, the last one holding what is left.
pub open spec fn window_lengths(frames: nat, chunk: nat) -> Seq<usize>
    decreases frames,
{
    if chunk == 0 || frames == 0 {
        Seq::empty()
    } else if frames <= chunk {
        seq![frames as usize]
    } else {
        seq![chunk as usize] + window_lengths((frames - chunk) as nat, chunk)
    }
}

proof fn lemma_total_push(s: Seq<usize>, x: usize)
    ensures
        total(s.push(x)) == total(s) + x,
{
    assert(s.push(x).drop_last() =~= s);
}

proof fn lemma_total_prepend(x: usize, s: Seq<usize>)
    ensures
        total(seq![x] + s) == x + total(s),
    decreases s.len(),
{
    if s.len() == 0 {
        assert(seq![x] + s =~= seq![x]);
        assert(seq![x].drop_last() =~= Seq::<usize>::empty());
        assert(seq![x].last() == x);
        assert(total(Seq::<usize>::empty()) == 0);
        assert(total(seq![x]) == total(seq![x].drop_last()) + x);
    } else {
        lemma_total_prepend(x, s.drop_last());
        assert((seq![x] + s).drop_last() =~= seq![x] + s.drop_last());
        assert((seq![x] + s).last() == s.last());
    }
}

/// The windows of a cut cover the frames exactly, each holding at least one frame and at
/// most a window's worth.
pub proof fn lemma_window_lengths_cover(frames: nat, chunk: nat)
    requires
        chunk >= 1,
        frames <= usize::MAX,
        chunk <= usize::MAX,
    ensures
        total(window_lengths(frames, chunk)) == frames,
        forall|i: int| 0 <= i < window_lengths(frames, chunk).len() ==>
            1 <= #[trigger] window_lengths(frames, chunk)[i] <= chunk,
    decreases frames,
{
    if frames == 0 {
    } else if frames <= chunk {
        lemma_total_push(Seq::<usize>::empty(), frames as usize);
        assert(seq![frames as usize] =~= Seq::<usize>::empty().push(frames as usize));
    } else {
        let rest = window_lengths((frames - chunk) as nat, chunk);
        lemma_window_lengths_cover((frames - chunk) as nat, chunk);
        lemma_total_prepend(chunk as usize, rest);
        assert forall|i: int| 0 <= i < (seq![chunk as usize] + rest).len() implies
            1 <= #[trigger] (seq![chunk as usize] + rest)[i] <= chunk by {
            if i > 0 {
                assert((seq![chunk as usize] + rest)[i] == rest[i - 1]);
            }
        }
    }
}

impl Qwen3AudioTowerConfig {
    /// The lengths of the windows the audio tower runs its convolutions on: windows of
    /// `2 n_window` frames, the last one shorter when the frames do not fill it.
    pub fn window_lengths(&self, frames: usize) -> (v: Vec<usize>)
        requires
            self.n_window >= 1,
            2 * self.n_window <= usize::MAX,
        ensures
            v@ == window_lengths(frames as nat, (2 * self.n_window) as nat),
            total(v@) == frames,
    {
        let chunk = self.n_window * 2;
        let mut v: Vec<usize> = Vec::new();
        let mut left = frames;
        proof {
            lemma_window_lengths_cover(frames as nat, chunk as nat);
        }
        while left > 0
            invariant
                chunk >= 1,
                left <= frames,
                v@ + window_lengths(left as nat, chunk as nat) == window_lengths(frames as nat, chunk as nat),
            decreases left,
        {
            let ghost before = v@;
            if left <= chunk {
                v.push(left);
                assert(window_lengths(0, chunk as nat) =~= Seq::<usize>::empty());
                assert(v@ + window_lengths(0, chunk as nat) =~= before + window_lengths(left as nat, chunk as nat));
                left = 0;
            } else {
                v.push(chunk);
                assert(v@ + window_lengths((left - chunk) as nat, chunk as nat) =~= before + window_lengths(left as nat, chunk as nat));
                left = left - chunk;
            }
        }
        assert(window_lengths(0, chunk as nat) =~= Seq::<usize>::empty());
        assert(v@ =~= v@ + window_lengths(0, chunk as nat));
        v
    }
}

} // verus!
