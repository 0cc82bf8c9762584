//! Moonshine's generated tokens.
use vstd::prelude::*;

verus! {

/// The tokens of a Moonshine generation that carry text: every token but the start and end
/// markers, in order.
pub open spec fn content_tokens(tokens: Seq<usize>, eos: usize, bos: usize) -> Seq<usize> {
    tokens.filter(|t: usize| t != eos && t != bos)
}

/// The tokens of a Moonshine generation that are handed to the BPE decoder.
pub fn moonshine_content_tokens(tokens: &[usize], eos: usize, bos: usize) -> (v: Vec<usize>)
    ensures
        v@ == content_tokens(tokens@, eos, bos),
{
    let mut v: Vec<usize> = Vec::new();
    let mut i: usize = 0;
    while i < tokens.len()
        invariant
            i <= tokens@.len(),
            v@ == content_tokens(tokens@.subrange(0, i as int), eos, bos),
        decreases tokens@.len() - i,
    {
        let t = tokens[i];
        proof {
            reveal(Seq::filter);
            assert(tokens@.subrange(0, i + 1).drop_last() == tokens@.subrange(0, i as int));
            assert(tokens@.subrange(0, i + 1).last() == t);
        }
        if t != eos && t != bos {
            v.push(t);
        }
        i += 1;
    }
    assert(tokens@.subrange(0, tokens@.len() as int) == tokens@);
    v
}

/// Width of one attention head: the hidden size split over the heads (one head at least).
pub fn moonshine_head_dim(hidden_size: usize, n_heads: usize) -> (r: usize)
    ensures
        r == hidden_size / (if n_heads >= 1 { n_heads } else { 1 }),
{
    let h = if n_heads >= 1 { n_heads } else { 1 };
    hidden_size / h
}

/// Zeros appended to each head so that its width is a multiple of `multiple` (none when
/// `multiple` is zero).
pub fn moonshine_head_pad(head_dim: usize, multiple: usize) -> (r: usize)
    ensures
        multiple == 0 ==> r == 0,
        multiple > 0 ==> r == (multiple - head_dim % multiple) % (multiple as int),
        multiple > 0 ==> r < multiple && (head_dim + r) % (multiple as int) == 0,
{
    if multiple > 0 {
        let m = multiple;
        let r = (m - (head_dim % m)) % m;
        proof {
            lemma_pad_to_multiple(head_dim as int, m as int);
        }
        r
    } else {
        0
    }
}

proof fn lemma_pad_to_multiple(d: int, m: int)
    requires
        d >= 0,
        m > 0,
    ensures
        0 <= (m - d % m) % m < m,
        (d + (m - d % m) % m) % m == 0,
{
    vstd::arithmetic::div_mod::lemma_mod_bound(d, m);
    let r = d % m;
    let p = (m - r) % m;
    vstd::arithmetic::div_mod::lemma_mod_bound(m - r, m);
    if r == 0 {
        vstd::arithmetic::div_mod::lemma_mod_self_0(m);
        assert(p == 0);
        assert(d + p == d);
    } else {
        vstd::arithmetic::div_mod::lemma_small_mod((m - r) as nat, m as nat);
        assert(p == m - r);
        vstd::arithmetic::div_mod::lemma_fundamental_div_mod(d, m);
        let q = d / m;
        assert(d + p == m * q + m);
        assert(d + p == m * (q + 1)) by (nonlinear_arith)
            requires d + p == m * q + m;
        vstd::arithmetic::div_mod::lemma_mod_multiples_basic(q + 1, m);
        assert((q + 1) * m == m * (q + 1)) by (nonlinear_arith);
    }
}

} // verus!
