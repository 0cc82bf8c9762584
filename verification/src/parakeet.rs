//! Parakeet's NumPy checkpoint: the convolutions of the subsampling stack as their weights'
//! shapes define them, and the sizes taken when the checkpoint does not give them.
use vstd::prelude::*;

verus! {

/// Conformer depthwise kernel when the checkpoint has no depthwise weight to read it from.
pub const DEFAULT_KERNEL_SIZE: usize = 31;

/// Mel bins when the checkpoint does not record them (Parakeet-TDT v3).
pub const DEFAULT_N_MELS: usize = 128;

/// Width of the joint space that the final projection maps to when the checkpoint has none.
pub const JOINT_DIM: usize = 640;

/// The kinds of convolution in the subsampling stack.
#[derive(Clone, Copy, Debug, PartialEq, Eq, Structural)]
pub enum SubsamplingKind {
    /// A full convolution with stride 2 (the first layer).
    Strided,
    /// A depthwise convolution with stride 2 (layers two and four).
    Depthwise,
    /// A full convolution with stride 1 and no padding (layers three and five).
    Plain,
}

/// A 2-D convolution of the subsampling stack.
#[derive(Clone, Copy, Debug, PartialEq, Eq, Structural)]
pub struct SubsamplingConv {
    pub in_channels: usize,
    pub out_channels: usize,
    pub kernel_h: usize,
    pub kernel_w: usize,
    pub padding_h: usize,
    pub padding_w: usize,
    pub stride: usize,
    pub groups: usize,
}

/// The convolution of kind `kind` whose weight has shape `[out, in, k1, k2]` (for a
/// depthwise convolution, `in` counts the channels of one group, and there is one group per
/// output channel). The strided ones pad by half the kernel.
pub open spec fn spec_subsampling_conv(kind: SubsamplingKind, dims: [usize; 4]) -> SubsamplingConv {
    let (out_ch, in_ch, k1, k2) = (dims[0], dims[1], dims[2], dims[3]);
    match kind {
        SubsamplingKind::Strided => SubsamplingConv {
            in_channels: in_ch, out_channels: out_ch, kernel_h: k1, kernel_w: k2,
            padding_h: (k1 / 2) as usize, padding_w: (k2 / 2) as usize, stride: 2, groups: 1,
        },
        SubsamplingKind::Depthwise => SubsamplingConv {
            in_channels: (in_ch * out_ch) as usize, out_channels: out_ch, kernel_h: k1, kernel_w: k2,
            padding_h: (k1 / 2) as usize, padding_w: (k2 / 2) as usize, stride: 2, groups: out_ch,
        },
        SubsamplingKind::Plain => SubsamplingConv {
            in_channels: in_ch, out_channels: out_ch, kernel_h: k1, kernel_w: k2,
            padding_h: 0, padding_w: 0, stride: 1, groups: 1,
        },
    }
}

/// The convolution of kind `kind` read from the shape of its weight.
pub fn subsampling_conv(kind: SubsamplingKind, dims: [usize; 4]) -> (c: SubsamplingConv)
    requires
        kind == SubsamplingKind::Depthwise ==> dims[1] * dims[0] <= usize::MAX,
    ensures
        c == spec_subsampling_conv(kind, dims),
{
    let out_ch = dims[0];
    let in_ch = dims[1];
    let k1 = dims[2];
    let k2 = dims[3];
    match kind {
        SubsamplingKind::Strided => SubsamplingConv {
            in_channels: in_ch,
            out_channels: out_ch,
            kernel_h: k1,
            kernel_w: k2,
            padding_h: k1 / 2,
            padding_w: k2 / 2,
            stride: 2,
            groups: 1,
        },
        SubsamplingKind::Depthwise => SubsamplingConv {
            in_channels: in_ch * out_ch,
            out_channels: out_ch,
            kernel_h: k1,
            kernel_w: k2,
            padding_h: k1 / 2,
            padding_w: k2 / 2,
            stride: 2,
            groups: out_ch,
        },
        SubsamplingKind::Plain => SubsamplingConv {
            in_channels: in_ch,
            out_channels: out_ch,
            kernel_h: k1,
            kernel_w: k2,
            padding_h: 0,
            padding_w: 0,
            stride: 1,
            groups: 1,
        },
    }
}

/// The kind of layer `i` (one to five) of the subsampling stack: strided, then depthwise and
/// plain in turn.
pub fn subsampling_kind(i: usize) -> (k: SubsamplingKind)
    requires
        1 <= i <= 5,
    ensures
        i == 1 ==> k == SubsamplingKind::Strided,
        (i == 2 || i == 4) ==> k == SubsamplingKind::Depthwise,
        (i == 3 || i == 5) ==> k == SubsamplingKind::Plain,
{
    if i == 1 {
        SubsamplingKind::Strided
    } else if i == 2 || i == 4 {
        SubsamplingKind::Depthwise
    } else {
        SubsamplingKind::Plain
    }
}

} // verus!
