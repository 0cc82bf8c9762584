use vstd::prelude::*;

verus! {

/// `a / b` rounded up, for `b > 0`.
pub open spec fn ceil_div(a: int, b: int) -> int {
    if a >= 0 {
        (a + b - 1) / b
    } else {
        -((-a) / b)
    }
}

/// Total padding of a causal convolution: `(kernel - 1) * dilation - (stride - 1)`.
pub open spec fn spec_padding_total(kernel_size: int, stride: int, dilation: int) -> int {
    (kernel_size - 1) * dilation - (stride - 1)
}

/// The length that the last full window reaches: the number of windows, rounded up, times
/// the stride, plus the part of the kernel that the padding does not cover.
pub open spec fn ideal_length(length: int, kernel_size: int, stride: int, padding_total: int) -> int {
    if stride == 0 {
        kernel_size - padding_total
    } else {
        ceil_div(length + padding_total - kernel_size, stride) * stride + kernel_size - padding_total
    }
}

/// The right padding that lets the last window of a strided convolution be complete.
pub open spec fn spec_extra_padding(length: int, kernel_size: int, stride: int, padding_total: int) -> int {
    let ideal = ideal_length(length, kernel_size, stride, padding_total);
    if ideal > length { ideal - length } else { 0 }
}

/// The inputs on which the padding is computed without a panic: the padding does not exceed
/// the kernel, at least one window starts, and the ideal length fits in a `usize`.
pub open spec fn extra_padding_defined(length: int, kernel_size: int, stride: int, padding_total: int) -> bool {
    &&& padding_total <= kernel_size
    &&& if stride == 0 { length + padding_total > kernel_size } else { length + padding_total + stride > kernel_size }
    &&& ideal_length(length, kernel_size, stride, padding_total) <= usize::MAX
}

/// Output length of a causal strided convolution: the input padded by the total padding on
/// the left and the extra padding on the right, then cut into windows.
pub open spec fn spec_conv_out_len(length: int, kernel_size: int, stride: int) -> int {
    let pad = spec_padding_total(kernel_size, stride, 1);
    let padded = length + pad + spec_extra_padding(length, kernel_size, stride, pad);
    if padded < kernel_size { 0 } else { (padded - kernel_size) / stride + 1 }
}

/// The inputs on which the output length is computed without a panic.
pub open spec fn conv_out_len_defined(length: int, kernel_size: int, stride: int) -> bool {
    let pad = spec_padding_total(kernel_size, stride, 1);
    &&& 1 <= stride <= kernel_size
    &&& extra_padding_defined(length, kernel_size, stride, pad)
    &&& length + pad + spec_extra_padding(length, kernel_size, stride, pad) <= usize::MAX
}

/// Total padding of a causal convolution.
pub fn padding_total(kernel_size: usize, stride: usize, dilation: usize) -> (r: usize)
    requires
        kernel_size >= 1,
        stride >= 1,
        (kernel_size - 1) * dilation <= usize::MAX,
        (kernel_size - 1) * dilation >= stride - 1,
    ensures
        r == spec_padding_total(kernel_size as int, stride as int, dilation as int),
{
    (kernel_size - 1) * dilation - (stride - 1)
}

proof fn lemma_ceil_div_nonneg(a: int, b: int)
    requires
        a >= 0,
        b > 0,
    ensures
        ceil_div(a, b) >= 0,
        ceil_div(a, b) * b >= a,
        ceil_div(a, b) * b < a + b,
{
    let q = (a + b - 1) / b;
    let r = (a + b - 1) % b;
    vstd::arithmetic::div_mod::lemma_fundamental_div_mod(a + b - 1, b);
    assert(0 <= r < b);
    assert(q * b == a + b - 1 - r) by (nonlinear_arith)
        requires
            a + b - 1 == b * q + r,
    ;
    assert(q >= 0) by (nonlinear_arith)
        requires
            q * b == a + b - 1 - r,
            0 <= r < b,
            a >= 0,
            b > 0,
    ;
}

proof fn lemma_small_div(m: int, b: int)
    requires
        0 < m < b,
    ensures
        m / b == 0,
{
    vstd::arithmetic::div_mod::lemma_basic_div(m, b);
}

/// The right padding that completes the last window of a strided convolution.
pub fn extra_padding_for_conv1d(length: usize, kernel_size: usize, stride: usize, padding_total: usize) -> (r: usize)
    requires
        extra_padding_defined(length as int, kernel_size as int, stride as int, padding_total as int),
    ensures
        r == spec_extra_padding(length as int, kernel_size as int, stride as int, padding_total as int),
{
    let l = length as u128;
    let k = kernel_size as u128;
    let s = stride as u128;
    let pt = padding_total as u128;
    let ideal: u128;
    if s == 0 {
        ideal = k - pt;
    } else if l + pt >= k {
        let num = l + pt - k;
        proof {
            lemma_ceil_div_nonneg(num as int, s as int);
        }
        let q = (num + s - 1) / s;
        assert(q == ceil_div(length + padding_total - kernel_size, stride as int));
        assert(q * s <= usize::MAX);
        ideal = q * s + (k - pt);
        assert(ideal == q * stride + kernel_size - padding_total);
    } else {
        proof {
            lemma_small_div(k - l - pt, s as int);
        }
        assert(ceil_div(length + padding_total - kernel_size, stride as int) == 0);
        ideal = k - pt;
        assert(ideal == 0 * stride + kernel_size - padding_total);
    }
    assert(ideal == ideal_length(length as int, kernel_size as int, stride as int, padding_total as int));
    if ideal > l {
        (ideal - l) as usize
    } else {
        0
    }
}

/// Output length of a causal strided convolution over `length` samples.
pub fn conv_out_len(length: usize, kernel_size: usize, stride: usize) -> (r: usize)
    requires
        conv_out_len_defined(length as int, kernel_size as int, stride as int),
    ensures
        r == spec_conv_out_len(length as int, kernel_size as int, stride as int),
        length >= 1 ==> r == ceil_div(length as int, stride as int),
{
    let pad = padding_total(kernel_size, stride, 1);
    let extra = extra_padding_for_conv1d(length, kernel_size, stride, pad);
    let padded = length + pad + extra;
    proof {
        lemma_conv_out_len_is_ceil(length as int, kernel_size as int, stride as int);
    }
    if padded < kernel_size {
        0
    } else {
        (padded - kernel_size) / stride + 1
    }
}

/// For a stride no longer than the kernel, the causal convolution keeps one frame per
/// started stride: its output length is the input length divided by the stride, rounded up.
pub proof fn lemma_conv_out_len_is_ceil(length: int, kernel_size: int, stride: int)
    requires
        1 <= stride <= kernel_size,
        length >= 1,
    ensures
        spec_conv_out_len(length, kernel_size, stride) == ceil_div(length, stride),
{
    let pad = spec_padding_total(kernel_size, stride, 1);
    assert(pad == kernel_size - stride);
    let c = ceil_div(length, stride);
    lemma_ceil_div_nonneg(length, stride);
    let c1 = ceil_div(length - stride, stride);
    if length >= stride {
        lemma_ceil_div_nonneg(length - stride, stride);
        lemma_ceil_shift(length, stride);
        assert(c1 == c - 1);
    } else {
        lemma_small_div(stride - length, stride);
        assert(c1 == 0);
        lemma_ceil_small(length, stride);
        assert(c == 1);
    }
    let ideal = ideal_length(length, kernel_size, stride, pad);
    assert(ideal == c1 * stride + stride);
    assert(ideal == c * stride) by (nonlinear_arith)
        requires
            ideal == c1 * stride + stride,
            c1 == c - 1,
    ;
    assert(c >= 1);
    assert(c * stride >= length);
    let padded = length + pad + spec_extra_padding(length, kernel_size, stride, pad);
    assert(padded == c * stride + kernel_size - stride);
    assert(c * stride >= stride) by (nonlinear_arith)
        requires
            c >= 1,
            stride >= 1,
    ;
    assert(padded - kernel_size == (c - 1) * stride) by (nonlinear_arith)
        requires
            padded == c * stride + kernel_size - stride,
    ;
    assert(((c - 1) * stride) / stride == c - 1) by (nonlinear_arith)
        requires
            stride >= 1,
    ;
}

proof fn lemma_ceil_shift(a: int, b: int)
    requires
        a >= b,
        b >= 1,
    ensures
        ceil_div(a - b, b) == ceil_div(a, b) - 1,
{
    vstd::arithmetic::div_mod::lemma_div_plus_one(a - 1, b);
    assert(a - b + b - 1 == a - 1);
    assert(a + b - 1 == b + (a - 1));
}

proof fn lemma_ceil_small(a: int, b: int)
    requires
        1 <= a < b,
    ensures
        ceil_div(a, b) == 1,
{
    vstd::arithmetic::div_mod::lemma_div_plus_one(a - 1, b);
    vstd::arithmetic::div_mod::lemma_basic_div(a - 1, b);
    assert(a + b - 1 == b + (a - 1));
}

} // verus!
