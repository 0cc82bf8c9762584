//! Reading of the tensor directory of GGUF files (the llama.cpp container).
//!
//! The header is parsed from the bytes of the file: version, key/value metadata (only
//! `general.alignment` is kept), then one record per tensor (name, dimensions, element type,
//! offset). Tensor data starts at the first multiple of the alignment after the records.
use vstd::prelude::*;

use crate::text::{chars_of, replace_all, replace_str, str_eq, strip_prefix_chars, string_from_chars, without_prefix};

verus! {

/// Element types of GGUF tensors that can be read.
#[allow(non_camel_case_types)]
#[derive(Clone, Copy, Debug, PartialEq, Eq, Structural)]
pub enum GgmlType {
    F32,
    F16,
    Bf16,
    Q4_0,
    Q8_0,
    Q4K,
    Q6K,
}

/// Why a GGUF file or one of its tensors could not be read.
#[derive(Clone, Copy, Debug, PartialEq, Eq, Structural)]
pub enum GgufError {
    /// Shorter than a header, or without the `GGUF` magic.
    NotGguf,
    /// A format version other than 2 or 3.
    UnsupportedVersion(u32),
    /// A number runs past the end of the data.
    Truncated,
    /// A string runs past the end of the data.
    TruncatedString,
    /// A metadata value of an unknown type.
    UnknownValueType(u32),
    /// A tensor element type that cannot be read.
    UnsupportedGgmlType(u32),
    /// A position, size or offset beyond what the machine can count.
    Overflow,
    /// A tensor's data would end beyond the largest offset.
    OffsetOverflow,
    /// No tensor of that name.
    TensorNotFound,
    /// The tensor's data range ends past the end of the file.
    TensorOutOfRange,
    /// The tensor's data is shorter than its element count needs.
    BlobShort(GgmlType),
}

/// Number of the `ggml` type in a GGUF tensor record.
pub open spec fn ggml_type_of(v: u32) -> Option<GgmlType> {
    if v == 0 {
        Some(GgmlType::F32)
    } else if v == 1 {
        Some(GgmlType::F16)
    } else if v == 2 {
        Some(GgmlType::Q4_0)
    } else if v == 8 {
        Some(GgmlType::Q8_0)
    } else if v == 12 {
        Some(GgmlType::Q4K)
    } else if v == 14 {
        Some(GgmlType::Q6K)
    } else if v == 30 {
        Some(GgmlType::Bf16)
    } else {
        None
    }
}

/// Elements per block of a type.
pub open spec fn spec_block_size(t: GgmlType) -> nat {
    match t {
        GgmlType::F32 | GgmlType::F16 | GgmlType::Bf16 => 1,
        GgmlType::Q4_0 | GgmlType::Q8_0 => 32,
        GgmlType::Q4K | GgmlType::Q6K => 256,
    }
}

/// Bytes per block of a type.
pub open spec fn spec_block_bytes(t: GgmlType) -> nat {
    match t {
        GgmlType::F32 => 4,
        GgmlType::F16 | GgmlType::Bf16 => 2,
        GgmlType::Q4_0 => 18,
        GgmlType::Q8_0 => 34,
        GgmlType::Q4K => 144,
        GgmlType::Q6K => 210,
    }
}

impl GgmlType {
    /// The type numbered `v` in a tensor record.
    pub fn from_u32(v: u32) -> (r: Result<GgmlType, GgufError>)
        ensures
            ggml_type_of(v) matches Some(t) ==> r == Ok::<GgmlType, GgufError>(t),
            ggml_type_of(v) is None ==> r == Err::<GgmlType, GgufError>(GgufError::UnsupportedGgmlType(v)),
    {
        if v == 0 {
            Ok(GgmlType::F32)
        } else if v == 1 {
            Ok(GgmlType::F16)
        } else if v == 2 {
            Ok(GgmlType::Q4_0)
        } else if v == 8 {
            Ok(GgmlType::Q8_0)
        } else if v == 12 {
            Ok(GgmlType::Q4K)
        } else if v == 14 {
            Ok(GgmlType::Q6K)
        } else if v == 30 {
            Ok(GgmlType::Bf16)
        } else {
            Err(GgufError::UnsupportedGgmlType(v))
        }
    }

    /// Elements per block.
    pub fn block_size(self) -> (r: usize)
        ensures
            r == spec_block_size(self),
    {
        match self {
            GgmlType::F32 | GgmlType::F16 | GgmlType::Bf16 => 1,
            GgmlType::Q4_0 | GgmlType::Q8_0 => 32,
            GgmlType::Q4K | GgmlType::Q6K => 256,
        }
    }

    /// Bytes per block.
    pub fn block_bytes(self) -> (r: usize)
        ensures
            r == spec_block_bytes(self),
    {
        match self {
            GgmlType::F32 => 4,
            GgmlType::F16 | GgmlType::Bf16 => 2,
            GgmlType::Q4_0 => 18,
            GgmlType::Q8_0 => 34,
            GgmlType::Q4K => 144,
            GgmlType::Q6K => 210,
        }
    }
}

/// The smallest multiple of `max(align, 1)` that is at least `n`.
pub open spec fn spec_align_up(n: int, align: int) -> int {
    let a = if align < 1 { 1 } else { align };
    (n + a - 1) / a * a
}

/// Rounds `n` up to a multiple of `max(align, 1)`.
pub fn align_up(n: u64, align: u64) -> (r: u64)
    requires
        n + (if align < 1 { 1 } else { align }) - 1 <= u64::MAX,
    ensures
        r == spec_align_up(n as int, align as int),
{
    let a = if align < 1 { 1 } else { align };
    let q = (n + (a - 1)) / a;
    proof {
        let ni = n as int;
        let ai = a as int;
        let qi = q as int;
        assert(qi == (ni + ai - 1) / ai);
        assert(qi * ai <= ni + ai - 1) by (nonlinear_arith)
            requires qi == (ni + ai - 1) / ai, ai >= 1, ni + ai - 1 >= 0;
    }
    q * a
}

/// Rounding up to the alignment gives the least multiple of the alignment at or above `n`.
pub proof fn lemma_align_up(n: int, align: int)
    requires
        n >= 0,
    ensures
        ({
            let a = if align < 1 { 1 } else { align };
            let r = spec_align_up(n, align);
            &&& n <= r < n + a
            &&& r % a == 0
        }),
{
    let a = if align < 1 { 1 } else { align };
    let r = spec_align_up(n, align);
    let q = (n + (a - 1)) / a;
    assert(q * a <= n + a - 1 && n + a - 1 < q * a + a) by (nonlinear_arith)
        requires q == (n + a - 1) / a, a >= 1, n + a - 1 >= 0;
    assert((q * a) % a == 0) by (nonlinear_arith)
        requires a >= 1;
}

/// Little-endian `u32` at `p`.
pub open spec fn le_u32(d: Seq<u8>, p: int) -> int {
    d[p] + d[p + 1] * 0x100 + d[p + 2] * 0x1_0000 + d[p + 3] * 0x100_0000
}

/// Little-endian `u64` at `p`.
pub open spec fn le_u64(d: Seq<u8>, p: int) -> int {
    le_u32(d, p) + le_u32(d, p + 4) * 0x1_0000_0000
}

/// Reading a `u32` at `p`: its value and the position after it.
pub open spec fn spec_read_u32(d: Seq<u8>, p: int) -> Result<(u32, int), GgufError> {
    if p < 0 || p + 4 > d.len() {
        Err(GgufError::Truncated)
    } else {
        Ok((le_u32(d, p) as u32, p + 4))
    }
}

/// Reading a `u64` at `p`.
pub open spec fn spec_read_u64(d: Seq<u8>, p: int) -> Result<(u64, int), GgufError> {
    if p < 0 || p + 8 > d.len() {
        Err(GgufError::Truncated)
    } else {
        Ok((le_u64(d, p) as u64, p + 8))
    }
}

/// What std's `String::from_utf8_lossy` makes of `bytes`.
pub uninterp spec fn utf8_lossy(bytes: Seq<u8>) -> Seq<char>;

/// Reading a length-prefixed string at `p`.
pub open spec fn spec_read_string(d: Seq<u8>, p: int) -> Result<(Seq<char>, int), GgufError> {
    match spec_read_u64(d, p) {
        Err(e) => Err(e),
        Ok((n, q)) => {
            let len = (n as usize) as int;
            if q + len > d.len() {
                Err(GgufError::TruncatedString)
            } else {
                Ok((utf8_lossy(d.subrange(q, q + len)), q + len))
            }
        },
    }
}

/// Bytes taken by a metadata value of a fixed-size type, if it is one.
pub open spec fn fixed_value_size(ty: u32) -> Option<int> {
    if ty == 0 || ty == 1 || ty == 7 {
        Some(1)
    } else if ty == 2 || ty == 3 {
        Some(2)
    } else if ty == 4 || ty == 5 || ty == 6 {
        Some(4)
    } else if ty == 10 || ty == 11 || ty == 12 {
        Some(8)
    } else {
        None
    }
}

/// Skipping a metadata value of type `ty` at `p`; `depth` bounds the nesting of arrays.
pub open spec fn spec_skip(d: Seq<u8>, p: int, ty: u32, depth: nat) -> Result<int, GgufError>
    decreases depth, 0nat,
{
    match fixed_value_size(ty) {
        Some(k) => if p + k > usize::MAX {
            Err(GgufError::Overflow)
        } else {
            Ok(p + k)
        },
        None => if ty == 8 {
            match spec_read_string(d, p) {
                Err(e) => Err(e),
                Ok((_, q)) => Ok(q),
            }
        } else if ty == 9 {
            match spec_read_u32(d, p) {
                Err(e) => Err(e),
                Ok((elem, q)) => match spec_read_u64(d, q) {
                    Err(e) => Err(e),
                    Ok((n, r)) => if depth == 0 {
                        Err(GgufError::Overflow)
                    } else {
                        spec_skip_n(d, r, elem, (n as usize) as nat, (depth - 1) as nat)
                    },
                },
            }
        } else {
            Err(GgufError::UnknownValueType(ty))
        },
    }
}

/// Skipping a metadata value of a fixed-size type reads nothing and moves past its GGUF size:
/// one byte for the 8-bit integers and bool (types 0, 1, 7), two for the 16-bit integers
/// (2, 3), four for `u32`, `i32` and `f32` (4, 5, 6), eight for `u64`, `i64` and `f64`
/// (10, 11, 12).
pub proof fn lemma_skip_fixed_size(d: Seq<u8>, p: int, ty: u32, depth: nat)
    requires
        0 <= p,
        p + 8 <= usize::MAX,
    ensures
        ty == 0 || ty == 1 || ty == 7 ==> spec_skip(d, p, ty, depth) == Ok::<int, GgufError>(p + 1),
        ty == 2 || ty == 3 ==> spec_skip(d, p, ty, depth) == Ok::<int, GgufError>(p + 2),
        ty == 4 || ty == 5 || ty == 6 ==> spec_skip(d, p, ty, depth) == Ok::<int, GgufError>(p + 4),
        ty == 10 || ty == 11 || ty == 12 ==> spec_skip(d, p, ty, depth) == Ok::<int, GgufError>(p + 8),
{
}

/// Skipping `n` values of type `elem` from `p`.
pub open spec fn spec_skip_n(d: Seq<u8>, p: int, elem: u32, n: nat, depth: nat) -> Result<
    int,
    GgufError,
>
    decreases depth, n + 1,
{
    if n == 0 {
        Ok(p)
    } else {
        match spec_skip(d, p, elem, depth) {
            Err(e) => Err(e),
            Ok(q) => spec_skip_n(d, q, elem, (n - 1) as nat, depth),
        }
    }
}

/// A metadata value: the two unsigned types whose value is kept, or any other.
#[derive(Clone, Copy, Debug, PartialEq, Eq, Structural)]
pub enum GgufVal {
    U32(u64),
    U64(u64),
    Other,
}

/// Reading a typed metadata value at `p`.
pub open spec fn spec_read_value(d: Seq<u8>, p: int) -> Result<(GgufVal, int), GgufError> {
    match spec_read_u32(d, p) {
        Err(e) => Err(e),
        Ok((ty, q)) => if ty == 4 {
            match spec_read_u32(d, q) {
                Err(e) => Err(e),
                Ok((v, r)) => Ok((GgufVal::U32(v as u64), r)),
            }
        } else if ty == 10 {
            match spec_read_u64(d, q) {
                Err(e) => Err(e),
                Ok((v, r)) => Ok((GgufVal::U64(v), r)),
            }
        } else {
            match spec_skip(d, q, ty, d.len()) {
                Err(e) => Err(e),
                Ok(r) => Ok((GgufVal::Other, r)),
            }
        },
    }
}

/// An exec result with a position next to the spec result with an `int` position.
pub open spec fn agrees<T>(r: Result<(T, usize), GgufError>, s: Result<(T, int), GgufError>) -> bool {
    match r {
        Ok((v, q)) => s == Ok::<(T, int), GgufError>((v, q as int)),
        Err(e) => s == Err::<(T, int), GgufError>(e),
    }
}

fn read_u32(data: &[u8], p: usize) -> (r: Result<(u32, usize), GgufError>)
    ensures
        agrees(r, spec_read_u32(data@, p as int)),
{
    let n = data.len();
    if p > n || n - p < 4 {
        return Err(GgufError::Truncated);
    }
    let v = data[p] as u32 + data[p + 1] as u32 * 0x100 + data[p + 2] as u32 * 0x1_0000
        + data[p + 3] as u32 * 0x100_0000;
    Ok((v, p + 4))
}

fn read_u64(data: &[u8], p: usize) -> (r: Result<(u64, usize), GgufError>)
    ensures
        agrees(r, spec_read_u64(data@, p as int)),
{
    let n = data.len();
    if p > n || n - p < 8 {
        return Err(GgufError::Truncated);
    }
    let lo = data[p] as u64 + data[p + 1] as u64 * 0x100 + data[p + 2] as u64 * 0x1_0000
        + data[p + 3] as u64 * 0x100_0000;
    let hi = data[p + 4] as u64 + data[p + 5] as u64 * 0x100 + data[p + 6] as u64 * 0x1_0000
        + data[p + 7] as u64 * 0x100_0000;
    Ok((lo + hi * 0x1_0000_0000, p + 8))
}

/// std's `String::from_utf8_lossy`: the bytes decoded as UTF-8, with each invalid sequence
/// replaced by U+FFFD. Claimed: the result depends on the bytes alone, and valid UTF-8 is
/// decoded as such.
#[verifier::external_body]
fn string_from_utf8_lossy(bytes: &[u8]) -> (s: String)
    ensures
        s@ == utf8_lossy(bytes@),
        vstd::utf8::valid_utf8(bytes@) ==> s@ == vstd::utf8::decode_utf8(bytes@),
{
    String::from_utf8_lossy(bytes).into_owned()
}

fn byte_range(data: &[u8], a: usize, b: usize) -> (out: Vec<u8>)
    requires
        a <= b <= data@.len(),
    ensures
        out@ == data@.subrange(a as int, b as int),
{
    let mut out: Vec<u8> = Vec::new();
    let mut j = a;
    while j < b
        invariant
            a <= j <= b <= data@.len(),
            out@ == data@.subrange(a as int, j as int),
        decreases b - j,
    {
        out.push(data[j]);
        assert(data@.subrange(a as int, j + 1) == data@.subrange(a as int, j as int).push(data@[j as int]));
        j += 1;
    }
    out
}

fn read_string(data: &[u8], p: usize) -> (r: Result<(String, usize), GgufError>)
    ensures
        match r {
            Ok((s, q)) => spec_read_string(data@, p as int) == Ok::<(Seq<char>, int), GgufError>((s@, q as int)),
            Err(e) => spec_read_string(data@, p as int) == Err::<(Seq<char>, int), GgufError>(e),
        },
{
    let (n, q) = read_u64(data, p)?;
    let len = n as usize;
    let total = data.len();
    if len > total - q {
        return Err(GgufError::TruncatedString);
    }
    let bytes = byte_range(data, q, q + len);
    Ok((string_from_utf8_lossy(bytes.as_slice()), q + len))
}


fn skip_value(data: &[u8], p: usize, ty: u32, Ghost(depth): Ghost<nat>) -> (r: Result<usize, GgufError>)
    requires
        depth >= data@.len() - p,
    ensures
        match r {
            Ok(q) => spec_skip(data@, p as int, ty, depth) == Ok::<int, GgufError>(q as int) && q >= p,
            Err(e) => spec_skip(data@, p as int, ty, depth) == Err::<int, GgufError>(e),
        },
    decreases depth, 0nat,
{
    let k: usize = if ty == 0 || ty == 1 || ty == 7 {
        1
    } else if ty == 2 || ty == 3 {
        2
    } else if ty == 4 || ty == 5 || ty == 6 {
        4
    } else if ty == 10 || ty == 11 || ty == 12 {
        8
    } else {
        0
    };
    if k > 0 {
        if p > usize::MAX - k {
            return Err(GgufError::Overflow);
        }
        return Ok(p + k);
    }
    if ty == 8 {
        let (_, q) = read_string(data, p)?;
        return Ok(q);
    }
    if ty != 9 {
        return Err(GgufError::UnknownValueType(ty));
    }
    let (elem, q) = read_u32(data, p)?;
    let (n, r) = read_u64(data, q)?;
    let count = #[verifier::truncate] (n as usize);
    let ghost inner = (depth - 1) as nat;
    assert(spec_skip(data@, p as int, ty, depth) == spec_skip_n(data@, r as int, elem, count as nat, inner));
    let mut pos = r;
    let mut i: usize = 0;
    while i < count
        invariant
            spec_skip(data@, p as int, ty, depth) == spec_skip_n(data@, r as int, elem, count as nat, inner),
            depth >= 12,
            inner == depth - 1,
            r == p + 12,
            pos >= r,
            i <= count,
            spec_skip_n(data@, pos as int, elem, (count - i) as nat, inner) == spec_skip_n(
                data@,
                r as int,
                elem,
                count as nat,
                inner,
            ),
            depth >= data@.len() - p,
        decreases count - i,
    {
        let next = skip_value(data, pos, elem, Ghost(inner));
        match next {
            Err(e) => {
                assert(spec_skip_n(data@, pos as int, elem, (count - i) as nat, inner) == Err::<int, GgufError>(e));
                return Err(e);
            },
            Ok(q2) => {
                pos = q2;
            },
        }
        i += 1;
    }
    Ok(pos)
}

fn read_value(data: &[u8], p: usize) -> (r: Result<(GgufVal, usize), GgufError>)
    ensures
        agrees(r, spec_read_value(data@, p as int)),
{
    let (ty, q) = read_u32(data, p)?;
    if ty == 4 {
        let (v, r) = read_u32(data, q)?;
        Ok((GgufVal::U32(v as u64), r))
    } else if ty == 10 {
        let (v, r) = read_u64(data, q)?;
        Ok((GgufVal::U64(v), r))
    } else {
        let r = skip_value(data, q, ty, Ghost(data@.len()))?;
        Ok((GgufVal::Other, r))
    }
}

/// The alignment in force after `k` metadata entries from `p`, and the position after them.
pub open spec fn spec_metadata(d: Seq<u8>, p: int, k: nat, align: u64) -> Result<(u64, int), GgufError>
    decreases k,
{
    if k == 0 {
        Ok((align, p))
    } else {
        match spec_read_string(d, p) {
            Err(e) => Err(e),
            Ok((key, q)) => match spec_read_value(d, q) {
                Err(e) => Err(e),
                Ok((v, r)) => {
                    let a2 = if key == "general.alignment"@ {
                        match v {
                            GgufVal::U32(x) => x,
                            GgufVal::U64(x) => x,
                            GgufVal::Other => align,
                        }
                    } else {
                        align
                    };
                    spec_metadata(d, r, (k - 1) as nat, a2)
                },
            },
        }
    }
}

/// `k` dimensions from `p`, as stored (innermost first).
pub open spec fn spec_dims(d: Seq<u8>, p: int, k: nat) -> Result<(Seq<usize>, int), GgufError>
    decreases k,
{
    if k == 0 {
        Ok((Seq::empty(), p))
    } else {
        match spec_read_u64(d, p) {
            Err(e) => Err(e),
            Ok((v, q)) => match spec_dims(d, q, (k - 1) as nat) {
                Err(e) => Err(e),
                Ok((rest, r)) => Ok((seq![v as usize] + rest, r)),
            },
        }
    }
}

/// A tensor of the directory: name, element type, shape (outermost first) and offset.
pub type TensorEntry = (Seq<char>, GgmlType, Seq<usize>, u64);

/// `k` tensor records from `p`, with offsets relative to the start of the tensor data.
pub open spec fn spec_records(d: Seq<u8>, p: int, k: nat) -> Result<(Seq<TensorEntry>, int), GgufError>
    decreases k,
{
    if k == 0 {
        Ok((Seq::empty(), p))
    } else {
        match spec_read_string(d, p) {
            Err(e) => Err(e),
            Ok((name, q1)) => match spec_read_u32(d, q1) {
                Err(e) => Err(e),
                Ok((nd, q2)) => match spec_dims(d, q2, (nd as usize) as nat) {
                    Err(e) => Err(e),
                    Ok((dims, q3)) => match spec_read_u32(d, q3) {
                        Err(e) => Err(e),
                        Ok((ty, q4)) => match ggml_type_of(ty) {
                            None => Err(GgufError::UnsupportedGgmlType(ty)),
                            Some(dtype) => match spec_read_u64(d, q4) {
                                Err(e) => Err(e),
                                Ok((off, q5)) => match spec_records(d, q5, (k - 1) as nat) {
                                    Err(e) => Err(e),
                                    Ok((rest, r)) => Ok(
                                        (seq![(name, dtype, dims.reverse(), off)] + rest, r),
                                    ),
                                },
                            },
                        },
                    },
                },
            },
        }
    }
}

/// The bytes `G`, `G`, `U`, `F`.
pub open spec fn gguf_magic() -> Seq<u8> {
    seq![0x47u8, 0x47u8, 0x55u8, 0x46u8]
}

/// The tensor directory of a GGUF file, offsets made absolute: the header must be at least 24
/// bytes with the magic, version 2 or 3, then tensor count, metadata count, the metadata, the
/// records; tensor data starts at the position after the records rounded up to the alignment
/// (32 unless `general.alignment` says otherwise).
pub open spec fn spec_parse(d: Seq<u8>) -> Result<Seq<TensorEntry>, GgufError> {
    if d.len() < 24 || d.subrange(0, 4) != gguf_magic() {
        Err(GgufError::NotGguf)
    } else {
        let version = le_u32(d, 4) as u32;
        if version < 2 || version > 3 {
            Err(GgufError::UnsupportedVersion(version))
        } else {
            let n_tensors = (le_u64(d, 8) as u64 as usize) as nat;
            let n_kv = (le_u64(d, 16) as u64 as usize) as nat;
            match spec_metadata(d, 24, n_kv, 32) {
                Err(e) => Err(e),
                Ok((align, p)) => match spec_records(d, p, n_tensors) {
                    Err(e) => Err(e),
                    Ok((recs, q)) => {
                        let a = if align < 1 { 1 } else { align as int };
                        if q + a - 1 > u64::MAX {
                            Err(GgufError::Overflow)
                        } else {
                            let base = spec_align_up(q, align as int);
                            if exists|i: int| 0 <= i < recs.len() && #[trigger] recs[i].3 + base > u64::MAX {
                                Err(GgufError::Overflow)
                            } else {
                                Ok(recs.map_values(|e: TensorEntry| (e.0, e.1, e.2, (e.3 + base) as u64)))
                            }
                        }
                    },
                },
            }
        }
    }
}


/// A tensor record of a GGUF directory.
pub struct TensorRecord {
    pub name: String,
    pub dtype: GgmlType,
    /// Dimensions, outermost first.
    pub shape: Vec<usize>,
    /// Absolute offset of the tensor's data in the file.
    pub offset: u64,
}

impl TensorRecord {
    /// The record as a directory entry.
    pub open spec fn entry(&self) -> TensorEntry {
        (self.name@, self.dtype, self.shape@, self.offset)
    }
}

/// The entries of a list of records.
pub open spec fn entries_of(recs: Seq<TensorRecord>) -> Seq<TensorEntry> {
    recs.map_values(|r: TensorRecord| r.entry())
}

/// A GGUF file held in memory with its tensor directory.
pub struct GgufFile {
    data: Vec<u8>,
    /// Records with offsets relative to `base`.
    tensors: Vec<TensorRecord>,
    /// Start of the tensor data.
    base: u64,
}

impl GgufFile {
    #[verifier::type_invariant]
    spec fn offsets_fit(self) -> bool {
        forall|i: int| 0 <= i < self.tensors@.len() ==> #[trigger] self.tensors@[i].offset + self.base <= u64::MAX
    }

    /// The bytes of the file.
    pub closed spec fn bytes(self) -> Seq<u8> {
        self.data@
    }

    /// The tensor directory, in file order, with absolute offsets.
    pub closed spec fn entries(self) -> Seq<TensorEntry> {
        self.tensors@.map_values(|r: TensorRecord| (r.name@, r.dtype, r.shape@, (r.offset + self.base) as u64))
    }
}

fn read_metadata(data: &[u8], p0: usize, k0: usize) -> (r: Result<(u64, usize), GgufError>)
    ensures
        agrees(r, spec_metadata(data@, p0 as int, k0 as nat, 32)),
{
    let mut alignment: u64 = 32;
    let mut p = p0;
    let mut k = k0;
    let mut key_name: Vec<char> = Vec::new();
    crate::text::push_str_chars(&mut key_name, "general.alignment");
    while k > 0
        invariant
            key_name@ == "general.alignment"@,
            spec_metadata(data@, p as int, k as nat, alignment) == spec_metadata(data@, p0 as int, k0 as nat, 32),
        decreases k,
    {
        let (key, q) = read_string(data, p)?;
        let (val, r) = read_value(data, q)?;
        let kc = chars_of(key.as_str());
        let is_align = kc.len() == key_name.len() && crate::text::matches_at(kc.as_slice(), key_name.as_slice(), 0);
        proof {
            if kc@.len() == key_name@.len() {
                assert(kc@.subrange(0, key_name@.len() as int) == kc@);
            }
        }
        if is_align {
            match val {
                GgufVal::U32(v) => {
                    alignment = v;
                },
                GgufVal::U64(v) => {
                    alignment = v;
                },
                GgufVal::Other => {},
            }
        }
        p = r;
        k -= 1;
    }
    Ok((alignment, p))
}

/// `r` with `front` put before its sequence.
pub open spec fn prepend<T>(front: Seq<T>, r: Result<(Seq<T>, int), GgufError>) -> Result<(Seq<T>, int), GgufError> {
    match r {
        Ok((rest, e)) => Ok((front + rest, e)),
        Err(e) => Err(e),
    }
}

fn read_dims(data: &[u8], p0: usize, k0: usize) -> (r: Result<(Vec<usize>, usize), GgufError>)
    ensures
        match r {
            Ok((v, q)) => spec_dims(data@, p0 as int, k0 as nat) == Ok::<(Seq<usize>, int), GgufError>((v@, q as int)),
            Err(e) => spec_dims(data@, p0 as int, k0 as nat) == Err::<(Seq<usize>, int), GgufError>(e),
        },
{
    let mut dims: Vec<usize> = Vec::new();
    let mut p = p0;
    let mut k: usize = 0;
    assert(dims@ + Seq::<usize>::empty() =~= dims@);
    while k < k0
        invariant
            k <= k0,
            spec_dims(data@, p0 as int, k0 as nat) == prepend(dims@, spec_dims(data@, p as int, (k0 - k) as nat)),
        decreases k0 - k,
    {
        let ghost before = dims@;
        match read_u64(data, p) {
            Err(e) => {
                return Err(e);
            },
            Ok((v, q)) => {
                dims.push(#[verifier::truncate] (v as usize));
                proof {
                    match spec_dims(data@, q as int, (k0 - k - 1) as nat) {
                        Ok((r2, e2)) => {
                            assert(before + (seq![v as usize] + r2) =~= dims@ + r2);
                        },
                        Err(_) => {},
                    }
                }
                p = q;
            },
        }
        k += 1;
    }
    assert(dims@ + Seq::<usize>::empty() =~= dims@);
    Ok((dims, p))
}


fn reversed(v: Vec<usize>) -> (out: Vec<usize>)
    ensures
        out@ == v@.reverse(),
{
    let mut out: Vec<usize> = Vec::new();
    let mut j = v.len();
    while j > 0
        invariant
            j <= v@.len(),
            out@ == v@.subrange(j as int, v@.len() as int).reverse(),
        decreases j,
    {
        out.push(v[j - 1]);
        assert(v@.subrange(j - 1, v@.len() as int).reverse() =~= v@.subrange(j as int, v@.len() as int).reverse().push(v@[j - 1]));
        j -= 1;
    }
    assert(v@.subrange(0, v@.len() as int) == v@);
    out
}

fn read_records(data: &[u8], p0: usize, k0: usize) -> (r: Result<(Vec<TensorRecord>, usize), GgufError>)
    ensures
        match r {
            Ok((v, q)) => spec_records(data@, p0 as int, k0 as nat) == Ok::<(Seq<TensorEntry>, int), GgufError>((entries_of(v@), q as int)),
            Err(e) => spec_records(data@, p0 as int, k0 as nat) == Err::<(Seq<TensorEntry>, int), GgufError>(e),
        },
{
    let mut recs: Vec<TensorRecord> = Vec::new();
    let mut p = p0;
    let mut k: usize = 0;
    assert(entries_of(recs@) + Seq::<TensorEntry>::empty() =~= entries_of(recs@));
    while k < k0
        invariant
            k <= k0,
            spec_records(data@, p0 as int, k0 as nat) == prepend(entries_of(recs@), spec_records(data@, p as int, (k0 - k) as nat)),
        decreases k0 - k,
    {
        let ghost before = entries_of(recs@);
        let (name, q1) = read_string(data, p)?;
        let (nd, q2) = read_u32(data, q1)?;
        let (dims, q3) = read_dims(data, q2, nd as usize)?;
        let (ty, q4) = read_u32(data, q3)?;
        let dtype = GgmlType::from_u32(ty)?;
        let (off, q5) = read_u64(data, q4)?;
        let shape = reversed(dims);
        let rec = TensorRecord { name, dtype, shape, offset: off };
        let ghost e = rec.entry();
        recs.push(rec);
        proof {
            assert(entries_of(recs@) =~= before.push(e));
            match spec_records(data@, q5 as int, (k0 - k - 1) as nat) {
                Ok((r2, e2)) => {
                    assert(before + (seq![e] + r2) =~= entries_of(recs@) + r2);
                },
                Err(_) => {},
            }
        }
        p = q5;
        k += 1;
    }
    assert(entries_of(recs@) + Seq::<TensorEntry>::empty() =~= entries_of(recs@));
    Ok((recs, p))
}

impl GgufFile {
    /// Parses the tensor directory of the GGUF file whose bytes are `data`.
    pub fn from_bytes(data: Vec<u8>) -> (r: Result<GgufFile, GgufError>)
        ensures
            match r {
                Ok(f) => spec_parse(data@) == Ok::<Seq<TensorEntry>, GgufError>(f.entries()) && f.bytes() == data@,
                Err(e) => spec_parse(data@) == Err::<Seq<TensorEntry>, GgufError>(e),
            },
    {
        if data.len() < 24 || !(data[0] == 0x47 && data[1] == 0x47 && data[2] == 0x55 && data[3] == 0x46) {
            proof {
                if data@.len() >= 24 {
                    assert(data@.subrange(0, 4)[0] == data@[0]);
                    assert(data@.subrange(0, 4)[1] == data@[1]);
                    assert(data@.subrange(0, 4)[2] == data@[2]);
                    assert(data@.subrange(0, 4)[3] == data@[3]);
                }
            }
            return Err(GgufError::NotGguf);
        }
        assert(data@.subrange(0, 4) =~= gguf_magic());
        let (version, _) = read_u32(data.as_slice(), 4)?;
        if version < 2 || version > 3 {
            return Err(GgufError::UnsupportedVersion(version));
        }
        let (nt, _) = read_u64(data.as_slice(), 8)?;
        let (nkv, _) = read_u64(data.as_slice(), 16)?;
        let n_tensors = #[verifier::truncate] (nt as usize);
        let n_kv = #[verifier::truncate] (nkv as usize);
        let (alignment, p) = read_metadata(data.as_slice(), 24, n_kv)?;
        let (tensors, q) = read_records(data.as_slice(), p, n_tensors)?;
        let a = if alignment < 1 { 1 } else { alignment };
        let qu = q as u64;
        if qu > u64::MAX - (a - 1) {
            return Err(GgufError::Overflow);
        }
        let base = align_up(qu, alignment);
        let mut i: usize = 0;
        #[verifier::loop_isolation(false)]
        while i < tensors.len()
            invariant
                i <= tensors@.len(),
                forall|j: int| 0 <= j < i ==> #[trigger] tensors@[j].offset + base <= u64::MAX,
            decreases tensors@.len() - i,
        {
            if tensors[i].offset > u64::MAX - base {
                assert(entries_of(tensors@)[i as int].3 + base > u64::MAX);
                return Err(GgufError::Overflow);
            }
            i += 1;
        }
        let f = GgufFile { data, tensors, base };
        proof {
            let recs = entries_of(f.tensors@);
            assert(!exists|i: int| 0 <= i < recs.len() && #[trigger] recs[i].3 + base > u64::MAX) by {
                assert forall|i: int| 0 <= i < recs.len() implies !(#[trigger] recs[i].3 + base > u64::MAX) by {
                    assert(recs[i].3 == f.tensors@[i].offset);
                }
            }
            assert(recs.map_values(|e: TensorEntry| (e.0, e.1, e.2, (e.3 + base) as u64)) =~= f.entries());
        }
        Ok(f)
    }
}


/// Index of the last entry named `name` (the one a lookup by name finds).
pub open spec fn last_index_named(es: Seq<TensorEntry>, name: Seq<char>) -> Option<int>
    decreases es.len(),
{
    if es.len() == 0 {
        None
    } else if es.last().0 == name {
        Some(es.len() - 1)
    } else {
        last_index_named(es.drop_last(), name)
    }
}

/// Product of `s`, or `None` when a partial product, from the left, exceeds `usize::MAX`.
pub open spec fn checked_product(s: Seq<usize>) -> Option<nat>
    decreases s.len(),
{
    if s.len() == 0 {
        Some(1)
    } else {
        match checked_product(s.drop_last()) {
            None => None,
            Some(p) => if p * s.last() > usize::MAX {
                None
            } else {
                Some(p * (s.last() as nat))
            },
        }
    }
}

/// Where the data of a tensor lies in the file.
pub struct TensorSpan {
    pub dtype: GgmlType,
    pub shape: Vec<usize>,
    /// Number of elements.
    pub n: usize,
    /// First byte of the data.
    pub start: usize,
    /// End (exclusive) of the data.
    pub end: usize,
}

/// The data range of the tensor named `name` in a file of `len` bytes with directory `es`:
/// `n` elements, whole blocks of the type only, starting at the tensor's offset.
pub open spec fn spec_tensor_span(es: Seq<TensorEntry>, len: int, name: Seq<char>) -> Result<
    (GgmlType, Seq<usize>, int, int, int),
    GgufError,
> {
    match last_index_named(es, name) {
        None => Err(GgufError::TensorNotFound),
        Some(i) => {
            let (_, dtype, shape, off) = es[i];
            match checked_product(shape) {
                None => Err(GgufError::Overflow),
                Some(n) => {
                    let nbytes = if n == 0 {
                        0
                    } else {
                        (n / spec_block_size(dtype)) * spec_block_bytes(dtype)
                    };
                    let start = (off as usize) as int;
                    if nbytes > usize::MAX {
                        Err(GgufError::Overflow)
                    } else if start + nbytes > usize::MAX {
                        Err(GgufError::OffsetOverflow)
                    } else if start + nbytes > len {
                        Err(GgufError::TensorOutOfRange)
                    } else {
                        Ok((dtype, shape, n as int, start, start + nbytes))
                    }
                },
            }
        },
    }
}

impl GgufFile {
    /// The bytes of the file.
    pub fn raw(&self) -> (r: &[u8])
        ensures
            r@ == self.bytes(),
    {
        self.data.as_slice()
    }

    /// Whether the directory holds a tensor named `name`.
    pub fn has_name(&self, name: &str) -> (r: bool)
        ensures
            r == exists|i: int| 0 <= i < self.entries().len() && #[trigger] self.entries()[i].0 == name@,
    {
        let mut i: usize = 0;
        while i < self.tensors.len()
            invariant
                i <= self.tensors@.len(),
                forall|j: int| 0 <= j < i ==> #[trigger] self.entries()[j].0 != name@,
            decreases self.tensors@.len() - i,
        {
            if str_eq(self.tensors[i].name.as_str(), name) {
                assert(self.entries()[i as int].0 == name@);
                return true;
            }
            i += 1;
        }
        false
    }

    /// Index of the record that a lookup of `name` finds.
    fn find_record(&self, name: &str) -> (r: Option<usize>)
        ensures
            match r {
                Some(i) => last_index_named(self.entries(), name@) == Some(i as int) && i < self.tensors@.len(),
                None => last_index_named(self.entries(), name@) is None,
            },
    {
        let mut i = self.tensors.len();
        assert(self.entries().subrange(0, i as int) =~= self.entries());
        while i > 0
            invariant
                i <= self.tensors@.len(),
                last_index_named(self.entries(), name@) == last_index_named(self.entries().subrange(0, i as int), name@),
            decreases i,
        {
            let ghost pre = self.entries().subrange(0, i as int);
            assert(pre.drop_last() =~= self.entries().subrange(0, i - 1));
            if str_eq(self.tensors[i - 1].name.as_str(), name) {
                return Some(i - 1);
            }
            i -= 1;
        }
        None
    }

    /// Where the data of the tensor named `name` lies, and its type, shape and element count.
    pub fn tensor_span(&self, name: &str) -> (r: Result<TensorSpan, GgufError>)
        ensures
            match r {
                Ok(sp) => spec_tensor_span(self.entries(), self.bytes().len() as int, name@) == Ok::<
                    (GgmlType, Seq<usize>, int, int, int),
                    GgufError,
                >((sp.dtype, sp.shape@, sp.n as int, sp.start as int, sp.end as int)),
                Err(e) => spec_tensor_span(self.entries(), self.bytes().len() as int, name@) == Err::<
                    (GgmlType, Seq<usize>, int, int, int),
                    GgufError,
                >(e),
            },
    {
        proof {
            use_type_invariant(self);
        }
        let idx = match self.find_record(name) {
            None => {
                return Err(GgufError::TensorNotFound);
            },
            Some(i) => i,
        };
        let rec = &self.tensors[idx];
        assert(self.tensors@[idx as int].offset + self.base <= u64::MAX);
        let ghost e = self.entries()[idx as int];
        assert(e.2 == rec.shape@ && e.1 == rec.dtype);
        assert(rec.shape@.subrange(0, 0) =~= Seq::<usize>::empty());
        let mut n: usize = 1;
        let mut k: usize = 0;
        #[verifier::loop_isolation(false)]
        while k < rec.shape.len()
            invariant
                k <= rec.shape@.len(),
                checked_product(rec.shape@.subrange(0, k as int)) == Some(n as nat),
            decreases rec.shape@.len() - k,
        {
            let ghost pre = rec.shape@.subrange(0, k + 1);
            assert(pre.drop_last() =~= rec.shape@.subrange(0, k as int));
            match n.checked_mul(rec.shape[k]) {
                None => {
                    assert(checked_product(pre) is None);
                    assert(checked_product(rec.shape@) is None) by {
                        lemma_checked_product_prefix(rec.shape@, k + 1);
                    }
                    return Err(GgufError::Overflow);
                },
                Some(m) => {
                    n = m;
                },
            }
            k += 1;
        }
        assert(rec.shape@.subrange(0, rec.shape@.len() as int) == rec.shape@);
        let bs = rec.dtype.block_size();
        let bb = rec.dtype.block_bytes();
        let nbytes = if n == 0 {
            0
        } else {
            match (n / bs).checked_mul(bb) {
                None => {
                    return Err(GgufError::Overflow);
                },
                Some(b) => b,
            }
        };
        let abs = rec.offset + self.base;
        let start = #[verifier::truncate] (abs as usize);
        if start > usize::MAX - nbytes {
            return Err(GgufError::OffsetOverflow);
        }
        let end = start + nbytes;
        if end > self.data.len() {
            return Err(GgufError::TensorOutOfRange);
        }
        Ok(TensorSpan { dtype: rec.dtype, shape: rec.shape.clone(), n, start, end })
    }
}

proof fn lemma_checked_product_prefix(s: Seq<usize>, k: int)
    requires
        0 <= k <= s.len(),
        checked_product(s.subrange(0, k)) is None,
    ensures
        checked_product(s) is None,
    decreases s.len() - k,
{
    if k < s.len() {
        let pre = s.subrange(0, k + 1);
        assert(pre.drop_last() =~= s.subrange(0, k));
        lemma_checked_product_prefix(s, k + 1);
    } else {
        assert(s.subrange(0, k) == s);
    }
}


/// The 6-bit scale and minimum of sub-block `j` packed in the 12 scale bytes `q` of a Q4_K
/// block (llama.cpp's `get_scale_min_k4`).
pub open spec fn spec_scale_min_k4(j: int, q: Seq<u8>) -> (u8, u8) {
    if j < 4 {
        (q[j] & 63u8, q[j + 4] & 63u8)
    } else {
        ((q[j + 4] & 0xFu8) | ((q[j - 4] >> 6u8) << 4u8), (q[j + 4] >> 4u8) | ((q[j] >> 6u8) << 4u8))
    }
}

/// Scale and minimum of sub-block `j` from the 12 scale bytes `q` of a Q4_K block (the bytes
/// it reads, up to `q[j + 4]`, must be there).
pub fn get_scale_min_k4(j: usize, q: &[u8]) -> (r: (u8, u8))
    requires
        j + 4 < q@.len(),
    ensures
        r == spec_scale_min_k4(j as int, q@),
{
    let ql = q.len();
    assert(j + 4 < ql);
    if j < 4 {
        (q[j] & 63, q[j + 4] & 63)
    } else {
        ((q[j + 4] & 0xF) | ((q[j - 4] >> 6) << 4), (q[j + 4] >> 4) | ((q[j] >> 6) << 4))
    }
}

/// How many units the raw data of `n` elements of type `t` holds: elements for the plain
/// float types, whole blocks for the quantized ones; an error when the data is too short.
pub open spec fn spec_blob_units(t: GgmlType, raw_len: int, n: int) -> Result<int, GgufError> {
    match t {
        GgmlType::F32 => if raw_len < n * 4 { Err(GgufError::BlobShort(t)) } else { Ok(n) },
        GgmlType::F16 | GgmlType::Bf16 => if raw_len < n * 2 {
            Err(GgufError::BlobShort(t))
        } else {
            Ok(n)
        },
        _ => {
            let nb = n / spec_block_size(t) as int;
            if raw_len < nb * spec_block_bytes(t) {
                Err(GgufError::BlobShort(t))
            } else {
                Ok(nb)
            }
        },
    }
}

/// Checks that `raw_len` bytes can hold `n` elements of type `t` and returns how many
/// elements (plain float types) or whole blocks (quantized types) are decoded.
pub fn blob_units(t: GgmlType, raw_len: usize, n: usize) -> (r: Result<usize, GgufError>)
    ensures
        match r {
            Ok(u) => spec_blob_units(t, raw_len as int, n as int) == Ok::<int, GgufError>(u as int),
            Err(e) => spec_blob_units(t, raw_len as int, n as int) == Err::<int, GgufError>(e),
        },
{
    match t {
        GgmlType::F32 => {
            if raw_len / 4 < n {
                Err(GgufError::BlobShort(t))
            } else {
                Ok(n)
            }
        },
        GgmlType::F16 | GgmlType::Bf16 => {
            if raw_len / 2 < n {
                Err(GgufError::BlobShort(t))
            } else {
                Ok(n)
            }
        },
        _ => {
            let nb = n / t.block_size();
            let bb = t.block_bytes();
            if raw_len / bb < nb {
                proof {
                    let q = raw_len as int / bb as int;
                    assert(raw_len < nb * bb) by (nonlinear_arith)
                        requires q == raw_len as int / bb as int, q < nb, bb > 0, raw_len >= 0;
                }
                Err(GgufError::BlobShort(t))
            } else {
                proof {
                    let q = raw_len as int / bb as int;
                    assert(raw_len >= nb * bb) by (nonlinear_arith)
                        requires q == raw_len as int / bb as int, q >= nb, bb > 0, raw_len >= 0;
                }
                Ok(nb)
            }
        },
    }
}

/// Little-endian `u16` at `p`.
pub open spec fn le_u16(d: Seq<u8>, p: int) -> u16 {
    (d[p] + d[p + 1] * 0x100) as u16
}

fn read_u16_at(raw: &[u8], p: usize) -> (r: u16)
    requires
        p + 2 <= raw@.len(),
    ensures
        r == le_u16(raw@, p as int),
{
    raw[p] as u16 + raw[p + 1] as u16 * 0x100
}

/// Element `j` (of 32) of a Q8_0 block starting at `b`: a signed byte.
pub open spec fn q8_0_quant(raw: Seq<u8>, b: int, j: int) -> i8 {
    raw[b + 2 + j] as i8
}

/// Element `j` (of 32) of a Q4_0 block starting at `b`: a nibble minus 8, low nibbles first.
pub open spec fn q4_0_quant(raw: Seq<u8>, b: int, j: int) -> i8 {
    if j < 16 {
        ((raw[b + 2 + j] & 0x0Fu8) as i8 - 8) as i8
    } else {
        ((raw[b + 2 + (j - 16)] >> 4u8) as i8 - 8) as i8
    }
}

/// A decoded block of a 32-element type: the f16 bits of its scale and its quants, so that
/// element `j` is `scale * quants[j]`.
pub struct ScaledBlock {
    pub d_bits: u16,
    pub quants: Vec<i8>,
}

/// Decodes Q8_0 block `i` of `raw`.
pub fn q8_0_block(raw: &[u8], i: usize) -> (r: ScaledBlock)
    requires
        (i + 1) * 34 <= raw@.len(),
    ensures
        r.d_bits == le_u16(raw@, i * 34),
        r.quants@.len() == 32,
        forall|j: int| 0 <= j < 32 ==> #[trigger] r.quants@[j] == q8_0_quant(raw@, i * 34, j),
{
    let rl = raw.len();
    assert(i * 34 + 34 <= rl);
    let b = i * 34;
    let d_bits = read_u16_at(raw, b);
    let mut quants: Vec<i8> = Vec::new();
    let mut j: usize = 0;
    while j < 32
        invariant
            rl == raw@.len(),
            b == i * 34,
            b + 34 <= raw@.len(),
            j <= 32,
            quants@.len() == j,
            forall|x: int| 0 <= x < j ==> #[trigger] quants@[x] == q8_0_quant(raw@, b as int, x),
        decreases 32 - j,
    {
        quants.push(raw[b + 2 + j] as i8);
        j += 1;
    }
    ScaledBlock { d_bits, quants }
}

/// Decodes Q4_0 block `i` of `raw`.
pub fn q4_0_block(raw: &[u8], i: usize) -> (r: ScaledBlock)
    requires
        (i + 1) * 18 <= raw@.len(),
    ensures
        r.d_bits == le_u16(raw@, i * 18),
        r.quants@.len() == 32,
        forall|j: int| 0 <= j < 32 ==> #[trigger] r.quants@[j] == q4_0_quant(raw@, i * 18, j),
{
    let rl = raw.len();
    assert(i * 18 + 18 <= rl);
    let b = i * 18;
    let d_bits = read_u16_at(raw, b);
    let mut quants: Vec<i8> = Vec::new();
    let mut j: usize = 0;
    while j < 32
        invariant
            rl == raw@.len(),
            b == i * 18,
            b + 18 <= raw@.len(),
            j <= 32,
            quants@.len() == j,
            forall|x: int| 0 <= x < j ==> #[trigger] quants@[x] == q4_0_quant(raw@, b as int, x),
        decreases 32 - j,
    {
        if j < 16 {
            let q = raw[b + 2 + j];
            assert((q & 0x0F) < 16) by (bit_vector);
            quants.push((q & 0x0F) as i8 - 8);
        } else {
            let q = raw[b + 2 + (j - 16)];
            assert((q >> 4) < 16) by (bit_vector);
            quants.push((q >> 4) as i8 - 8);
        }
        j += 1;
    }
    ScaledBlock { d_bits, quants }
}

/// A decoded Q4_K block: f16 bits of the super-block scale and minimum, the 6-bit scale and
/// minimum of each of the 8 sub-blocks of 32, and the 256 nibbles, so that element `j` is
/// `d * scales[j / 32] * q[j] - min * mins[j / 32]`.
pub struct Q4KBlock {
    pub d_bits: u16,
    pub min_bits: u16,
    pub scales: Vec<u8>,
    pub mins: Vec<u8>,
    pub q: Vec<u8>,
}

/// Nibble `j` (of 256) of a Q4_K block starting at `b`: chunks of 64 take the low then the
/// high nibbles of 32 bytes.
pub open spec fn q4_k_nibble(raw: Seq<u8>, b: int, j: int) -> u8 {
    let c = j / 64;
    let l = j % 64;
    if l < 32 {
        raw[b + 16 + 32 * c + l] & 0xFu8
    } else {
        raw[b + 16 + 32 * c + (l - 32)] >> 4u8
    }
}

/// Position among the 256 nibbles of a Q4_K block that the low nibble of quant byte `o` (of
/// 128) fills: each run of 32 bytes feeds 64 nibbles, the low nibbles first.
pub open spec fn q4_k_low_slot(o: int) -> int {
    64 * (o / 32) + o % 32
}

/// Position that the high nibble of quant byte `o` fills: 32 after its low nibble.
pub open spec fn q4_k_high_slot(o: int) -> int {
    64 * (o / 32) + 32 + o % 32
}

/// Nibble `j` of the Q4_K block at `b` is the low or the high half of a quant byte whose
/// low or high slot, respectively, is `j`.
pub open spec fn q4_k_filled_from_quant_byte(raw: Seq<u8>, b: int, j: int) -> bool {
    exists|o: int| 0 <= o < 128
        && ((#[trigger] q4_k_low_slot(o) == j && q4_k_nibble(raw, b, j) == raw[b + 16 + o] & 0xFu8)
            || (q4_k_high_slot(o) == j && q4_k_nibble(raw, b, j) == raw[b + 16 + o] >> 4u8))
}

/// Each of the 128 quant bytes of a Q4_K block (bytes 16 to 143) gives its low nibble to one
/// position and its high nibble to another, and every one of the 256 positions is filled by
/// one of them: the low nibbles of bytes `32 * g .. 32 * g + 32` make positions
/// `64 * g .. 64 * g + 32`, their high nibbles the 32 positions after.
pub proof fn lemma_q4_k_uses_each_quant_byte(raw: Seq<u8>, b: int)
    requires
        0 <= b,
        b + 144 <= raw.len(),
    ensures
        forall|o: int| 0 <= o < 128 ==> 0 <= #[trigger] q4_k_low_slot(o) < 256
            && q4_k_nibble(raw, b, q4_k_low_slot(o)) == raw[b + 16 + o] & 0xFu8,
        forall|o: int| 0 <= o < 128 ==> 0 <= #[trigger] q4_k_high_slot(o) < 256
            && q4_k_nibble(raw, b, q4_k_high_slot(o)) == raw[b + 16 + o] >> 4u8,
        forall|j: int| 0 <= j < 256 ==> #[trigger] q4_k_filled_from_quant_byte(raw, b, j),
{
    assert forall|o: int| 0 <= o < 128 implies 0 <= #[trigger] q4_k_low_slot(o) < 256
        && q4_k_nibble(raw, b, q4_k_low_slot(o)) == raw[b + 16 + o] & 0xFu8 by {
        let g = o / 32;
        let y = o % 32;
        vstd::arithmetic::div_mod::lemma_fundamental_div_mod(o, 32);
        assert(0 <= g < 4 && 0 <= y < 32);
        vstd::arithmetic::div_mod::lemma_fundamental_div_mod_converse(64 * g + y, 64, g, y);
    }
    assert forall|o: int| 0 <= o < 128 implies 0 <= #[trigger] q4_k_high_slot(o) < 256
        && q4_k_nibble(raw, b, q4_k_high_slot(o)) == raw[b + 16 + o] >> 4u8 by {
        let g = o / 32;
        let y = o % 32;
        vstd::arithmetic::div_mod::lemma_fundamental_div_mod(o, 32);
        assert(0 <= g < 4 && 0 <= y < 32);
        vstd::arithmetic::div_mod::lemma_fundamental_div_mod_converse(64 * g + 32 + y, 64, g, 32 + y);
    }
    assert forall|j: int| 0 <= j < 256 implies #[trigger] q4_k_filled_from_quant_byte(raw, b, j) by {
        let g = j / 64;
        let l = j % 64;
        vstd::arithmetic::div_mod::lemma_fundamental_div_mod(j, 64);
        assert(0 <= g < 4 && 0 <= l < 64);
        let y = if l < 32 { l } else { l - 32 };
        let o = 32 * g + y;
        vstd::arithmetic::div_mod::lemma_fundamental_div_mod_converse(o, 32, g, y);
        assert(q4_k_low_slot(o) == j || q4_k_high_slot(o) == j);
        assert(0 <= q4_k_low_slot(o) < 256);
        assert(0 <= q4_k_high_slot(o) < 256);
        assert((q4_k_low_slot(o) == j && q4_k_nibble(raw, b, j) == raw[b + 16 + o] & 0xFu8)
            || (q4_k_high_slot(o) == j && q4_k_nibble(raw, b, j) == raw[b + 16 + o] >> 4u8));
        assert(0 <= o < 128);
    }
}

/// Decodes Q4_K block `i` of `raw`.
pub fn q4_k_block(raw: &[u8], i: usize) -> (r: Q4KBlock)
    requires
        (i + 1) * 144 <= raw@.len(),
    ensures
        r.d_bits == le_u16(raw@, i * 144),
        r.min_bits == le_u16(raw@, i * 144 + 2),
        r.scales@.len() == 8,
        r.mins@.len() == 8,
        forall|s: int| 0 <= s < 8 ==> (#[trigger] r.scales@[s], r.mins@[s]) == spec_scale_min_k4(
            s,
            raw@.subrange(i * 144 + 4, i * 144 + 16),
        ),
        r.q@.len() == 256,
        forall|j: int| 0 <= j < 256 ==> #[trigger] r.q@[j] == q4_k_nibble(raw@, i * 144, j),
        forall|o: int| 0 <= o < 128 ==> r.q@[#[trigger] q4_k_low_slot(o)] == raw@[i * 144 + 16 + o] & 0xFu8
            && r.q@[q4_k_high_slot(o)] == raw@[i * 144 + 16 + o] >> 4u8,
{
    let rl = raw.len();
    assert(i * 144 + 144 <= rl);
    let b = i * 144;
    let d_bits = read_u16_at(raw, b);
    let min_bits = read_u16_at(raw, b + 2);
    let mut sc: Vec<u8> = Vec::new();
    let mut k: usize = 0;
    while k < 12
        invariant
            rl == raw@.len(),
            b == i * 144,
            b + 144 <= raw@.len(),
            k <= 12,
            sc@ == raw@.subrange(b + 4, b + 4 + k),
        decreases 12 - k,
    {
        sc.push(raw[b + 4 + k]);
        assert(raw@.subrange(b + 4, b + 4 + k + 1) == raw@.subrange(b + 4, b + 4 + k).push(raw@[b + 4 + k]));
        k += 1;
    }
    let mut scales: Vec<u8> = Vec::new();
    let mut mins: Vec<u8> = Vec::new();
    let mut s: usize = 0;
    while s < 8
        invariant
            sc@ == raw@.subrange(b + 4, b + 16),
            b + 144 <= raw@.len(),
            b == i * 144,
            s <= 8,
            scales@.len() == s,
            mins@.len() == s,
            forall|x: int| 0 <= x < s ==> (#[trigger] scales@[x], mins@[x]) == spec_scale_min_k4(x, sc@),
        decreases 8 - s,
    {
        let (a, m) = get_scale_min_k4(s, sc.as_slice());
        scales.push(a);
        mins.push(m);
        s += 1;
    }
    let mut q: Vec<u8> = Vec::new();
    let mut j: usize = 0;
    while j < 256
        invariant
            rl == raw@.len(),
            b == i * 144,
            b + 144 <= raw@.len(),
            j <= 256,
            q@.len() == j,
            forall|x: int| 0 <= x < j ==> #[trigger] q@[x] == q4_k_nibble(raw@, b as int, x),
        decreases 256 - j,
    {
        let c = j / 64;
        let l = j % 64;
        if l < 32 {
            q.push(raw[b + 16 + 32 * c + l] & 0xF);
        } else {
            q.push(raw[b + 16 + 32 * c + (l - 32)] >> 4);
        }
        j += 1;
    }
    proof {
        lemma_q4_k_uses_each_quant_byte(raw@, b as int);
    }
    Q4KBlock { d_bits, min_bits, scales, mins, q }
}

/// Quant `j` (of 256) of a Q6_K block starting at `b`: 4 low bits from `ql`, 2 high bits
/// from `qh`, minus 32.
pub open spec fn q6_k_quant(raw: Seq<u8>, b: int, j: int) -> i8 {
    let nblk = j / 128;
    let g = (j % 128) / 32;
    let l = j % 32;
    let ql0 = raw[b + nblk * 64 + l];
    let ql1 = raw[b + nblk * 64 + l + 32];
    let qh = raw[b + 128 + nblk * 32 + l];
    let low = if g == 0 { ql0 & 0xFu8 } else if g == 1 { ql1 & 0xFu8 } else if g == 2 { ql0 >> 4u8 } else { ql1 >> 4u8 };
    let high = if g == 0 { qh & 3u8 } else if g == 1 { (qh >> 2u8) & 3u8 } else if g == 2 { (qh >> 4u8) & 3u8 } else { (qh >> 6u8) & 3u8 };
    ((low | (high << 4u8)) as i8 - 32) as i8
}

/// Position `32 * g + l` of half `n` among the 256 quants of a Q6_K block.
pub open spec fn q6_k_pos(n: int, g: int, l: int) -> int {
    128 * n + 32 * g + l
}

proof fn lemma_q6_k_pos_parts(n: int, g: int, l: int)
    requires
        0 <= n < 2,
        0 <= g < 4,
        0 <= l < 32,
    ensures
        q6_k_pos(n, g, l) / 128 == n,
        (q6_k_pos(n, g, l) % 128) / 32 == g,
        q6_k_pos(n, g, l) % 32 == l,
{
    let j = q6_k_pos(n, g, l);
    vstd::arithmetic::div_mod::lemma_fundamental_div_mod_converse(j, 128, n, 32 * g + l);
    vstd::arithmetic::div_mod::lemma_fundamental_div_mod_converse(32 * g + l, 32, g, l);
    vstd::arithmetic::div_mod::lemma_fundamental_div_mod_converse(j, 32, 4 * n + g, l);
}

proof fn lemma_six_bits(low: u8, high: u8)
    requires
        low < 16,
        high < 4,
    ensures
        (low | (high << 4u8)) == low + 16 * high,
        low + 16 * high < 64,
{
    assert((low | (high << 4u8)) == low + 16 * high && low + 16 * high < 64) by (bit_vector)
        requires low < 16u8, high < 4u8;
}

/// In each half `n` of a Q6_K block (128 quants), the 64 `ql` bytes at `64 * n` and the 32
/// `qh` bytes at `128 + 32 * n` make the quants as follows, for `l < 32`: quant `l` is the low
/// nibble of `ql[l]` with bits 0-1 of `qh[l]` above it; quant `32 + l` the low nibble of
/// `ql[32 + l]` with bits 2-3; quant `64 + l` the high nibble of `ql[l]` with bits 4-5; quant
/// `96 + l` the high nibble of `ql[32 + l]` with bits 6-7; each minus 32.
pub proof fn lemma_q6_k_bit_layout(raw: Seq<u8>, b: int)
    requires
        0 <= b,
        b + 210 <= raw.len(),
    ensures
        forall|n: int, l: int| 0 <= n < 2 && 0 <= l < 32 ==> {
            let ql0 = raw[b + 64 * n + l];
            let ql1 = raw[b + 64 * n + 32 + l];
            let qh = raw[b + 128 + 32 * n + l];
            &&& #[trigger] q6_k_quant(raw, b, q6_k_pos(n, 0, l)) == (ql0 & 0xFu8) + 16 * (qh & 3u8) - 32
            &&& q6_k_quant(raw, b, q6_k_pos(n, 1, l)) == (ql1 & 0xFu8) + 16 * ((qh >> 2u8) & 3u8) - 32
            &&& q6_k_quant(raw, b, q6_k_pos(n, 2, l)) == (ql0 >> 4u8) + 16 * ((qh >> 4u8) & 3u8) - 32
            &&& q6_k_quant(raw, b, q6_k_pos(n, 3, l)) == (ql1 >> 4u8) + 16 * ((qh >> 6u8) & 3u8) - 32
        },
{
    assert forall|n: int, l: int| 0 <= n < 2 && 0 <= l < 32 implies {
        let ql0 = raw[b + 64 * n + l];
        let ql1 = raw[b + 64 * n + 32 + l];
        let qh = raw[b + 128 + 32 * n + l];
        &&& #[trigger] q6_k_quant(raw, b, q6_k_pos(n, 0, l)) == (ql0 & 0xFu8) + 16 * (qh & 3u8) - 32
        &&& q6_k_quant(raw, b, q6_k_pos(n, 1, l)) == (ql1 & 0xFu8) + 16 * ((qh >> 2u8) & 3u8) - 32
        &&& q6_k_quant(raw, b, q6_k_pos(n, 2, l)) == (ql0 >> 4u8) + 16 * ((qh >> 4u8) & 3u8) - 32
        &&& q6_k_quant(raw, b, q6_k_pos(n, 3, l)) == (ql1 >> 4u8) + 16 * ((qh >> 6u8) & 3u8) - 32
    } by {
        let ql0 = raw[b + 64 * n + l];
        let ql1 = raw[b + 64 * n + 32 + l];
        let qh = raw[b + 128 + 32 * n + l];
        assert(ql0 & 0xFu8 < 16 && ql1 & 0xFu8 < 16 && ql0 >> 4u8 < 16 && ql1 >> 4u8 < 16) by (bit_vector);
        assert(qh & 3u8 < 4 && (qh >> 2u8) & 3u8 < 4 && (qh >> 4u8) & 3u8 < 4 && (qh >> 6u8) & 3u8 < 4) by (bit_vector);
        lemma_six_bits(ql0 & 0xFu8, qh & 3u8);
        lemma_six_bits(ql1 & 0xFu8, (qh >> 2u8) & 3u8);
        lemma_six_bits(ql0 >> 4u8, (qh >> 4u8) & 3u8);
        lemma_six_bits(ql1 >> 4u8, (qh >> 6u8) & 3u8);
        lemma_q6_k_pos_parts(n, 0, l);
        lemma_q6_k_pos_parts(n, 1, l);
        lemma_q6_k_pos_parts(n, 2, l);
        lemma_q6_k_pos_parts(n, 3, l);
        assert(q6_k_quant(raw, b, q6_k_pos(n, 0, l)) == (ql0 & 0xFu8) + 16 * (qh & 3u8) - 32);
        assert(q6_k_quant(raw, b, q6_k_pos(n, 1, l)) == (ql1 & 0xFu8) + 16 * ((qh >> 2u8) & 3u8) - 32);
        assert(q6_k_quant(raw, b, q6_k_pos(n, 2, l)) == (ql0 >> 4u8) + 16 * ((qh >> 4u8) & 3u8) - 32);
        assert(q6_k_quant(raw, b, q6_k_pos(n, 3, l)) == (ql1 >> 4u8) + 16 * ((qh >> 6u8) & 3u8) - 32);
    }
}

/// A decoded Q6_K block: f16 bits of the super-block scale, the signed scale of each of the
/// 16 sub-blocks of 16, and the 256 quants, so that element `j` is
/// `d * scales[j / 16] * quants[j]`.
pub struct Q6KBlock {
    pub d_bits: u16,
    pub scales: Vec<i8>,
    pub quants: Vec<i8>,
}

/// Decodes Q6_K block `i` of `raw`.
pub fn q6_k_block(raw: &[u8], i: usize) -> (r: Q6KBlock)
    requires
        (i + 1) * 210 <= raw@.len(),
    ensures
        r.d_bits == le_u16(raw@, i * 210 + 208),
        r.scales@.len() == 16,
        forall|s: int| 0 <= s < 16 ==> #[trigger] r.scales@[s] == raw@[i * 210 + 192 + s] as i8,
        r.quants@.len() == 256,
        forall|j: int| 0 <= j < 256 ==> #[trigger] r.quants@[j] == q6_k_quant(raw@, i * 210, j),
{
    let rl = raw.len();
    assert(i * 210 + 210 <= rl);
    let b = i * 210;
    let d_bits = read_u16_at(raw, b + 208);
    let mut scales: Vec<i8> = Vec::new();
    let mut s: usize = 0;
    while s < 16
        invariant
            rl == raw@.len(),
            b == i * 210,
            b + 210 <= raw@.len(),
            s <= 16,
            scales@.len() == s,
            forall|x: int| 0 <= x < s ==> #[trigger] scales@[x] == raw@[b + 192 + x] as i8,
        decreases 16 - s,
    {
        scales.push(raw[b + 192 + s] as i8);
        s += 1;
    }
    let mut quants: Vec<i8> = Vec::new();
    let mut j: usize = 0;
    while j < 256
        invariant
            rl == raw@.len(),
            b == i * 210,
            b + 210 <= raw@.len(),
            j <= 256,
            quants@.len() == j,
            forall|x: int| 0 <= x < j ==> #[trigger] quants@[x] == q6_k_quant(raw@, b as int, x),
        decreases 256 - j,
    {
        let nblk = j / 128;
        let g = (j % 128) / 32;
        let l = j % 32;
        let ql0 = raw[b + nblk * 64 + l];
        let ql1 = raw[b + nblk * 64 + l + 32];
        let qh = raw[b + 128 + nblk * 32 + l];
        let low = if g == 0 { ql0 & 0xF } else if g == 1 { ql1 & 0xF } else if g == 2 { ql0 >> 4 } else { ql1 >> 4 };
        let high = if g == 0 { qh & 3 } else if g == 1 { (qh >> 2) & 3 } else if g == 2 { (qh >> 4) & 3 } else { (qh >> 6) & 3 };
        assert(low < 16 && high < 4 ==> (low | (high << 4u8)) < 64) by (bit_vector);
        assert(low < 16 && high < 4) by (bit_vector)
            requires
                low == (if g == 0 { ql0 & 0xF } else if g == 1 { ql1 & 0xF } else if g == 2 { ql0 >> 4 } else { ql1 >> 4 }),
                high == (if g == 0 { qh & 3 } else if g == 1 { (qh >> 2) & 3 } else if g == 2 { (qh >> 4) & 3 } else { (qh >> 6) & 3 });
        quants.push((low | (high << 4)) as i8 - 32);
        j += 1;
    }
    Q6KBlock { d_bits, scales, quants }
}


/// The renamings that shorten tensor names in converted GGUF files, applied in this order.
pub open spec fn shorten_rules() -> Seq<(Seq<char>, Seq<char>)> {
    seq![
        ("tts_eos_classifier."@, "tts_eos."@),
        ("acoustic_tokenizer.encoder."@, "at_enc."@),
        ("acoustic_tokenizer.decoder."@, "at_dec."@),
        ("semantic_tokenizer.encoder."@, "st_enc."@),
        ("semantic_tokenizer.decoder."@, "st_dec."@),
        ("upsample_layers."@, "us."@),
        ("convtr.convtr."@, "convtr."@),
        ("acoustic_connector."@, "at_conn."@),
        ("semantic_connector."@, "se_conn."@),
        ("language_model."@, "lm."@),
        ("prediction_head."@, "pred."@),
        ("downsample_layers."@, "ds."@),
        ("stages."@, "s."@),
        ("mixer.conv.conv.conv."@, "dw_conv."@),
        ("ffn.linear1."@, "ffn.up."@),
        ("ffn.linear2."@, "ffn.down."@),
        ("ffn_norm."@, "ffn_ln."@),
        ("input_layernorm."@, "attn_ln."@),
        ("post_attention_layernorm."@, "ffn_ln."@),
        ("self_attn."@, "attn."@),
        ("mlp.gate_proj."@, "ffn.gate."@),
        ("mlp.up_proj."@, "ffn.up."@),
        ("mlp.down_proj."@, "ffn.down."@),
        ("embed_tokens."@, "tok_emb."@),
        ("head.conv.conv."@, "head."@),
        ("conv.conv."@, "conv."@)
    ]
}

/// `s` after each of `rules`, in order, replaced every occurrence of its first part by its
/// second.
pub open spec fn apply_rules(s: Seq<char>, rules: Seq<(Seq<char>, Seq<char>)>) -> Seq<char>
    decreases rules.len(),
{
    if rules.len() == 0 {
        s
    } else {
        apply_rules(replace_str(s, rules[0].0, rules[0].1), rules.drop_first())
    }
}

/// The GGUF spelling of a tensor name: without a leading `model.`, then shortened by
/// `shorten_rules`.
pub open spec fn shortened_name(name: Seq<char>) -> Seq<char> {
    apply_rules(without_prefix(name, "model."@), shorten_rules())
}

/// The GGUF spelling of a checkpoint tensor name (the shortening done when such files are
/// converted).
pub fn gguf_shorten(name: &str) -> (res: String)
    ensures
        res@ == shortened_name(name@),
{
    let all = chars_of(name);
    let s = strip_prefix_chars(all.as_slice(), "model.");
    let ghost s0 = s@;
    proof {
        reveal_strlit("tts_eos_classifier.");
        reveal_strlit("acoustic_tokenizer.encoder.");
        reveal_strlit("acoustic_tokenizer.decoder.");
        reveal_strlit("semantic_tokenizer.encoder.");
        reveal_strlit("semantic_tokenizer.decoder.");
        reveal_strlit("upsample_layers.");
        reveal_strlit("convtr.convtr.");
        reveal_strlit("acoustic_connector.");
        reveal_strlit("semantic_connector.");
        reveal_strlit("language_model.");
        reveal_strlit("prediction_head.");
        reveal_strlit("downsample_layers.");
        reveal_strlit("stages.");
        reveal_strlit("mixer.conv.conv.conv.");
        reveal_strlit("ffn.linear1.");
        reveal_strlit("ffn.linear2.");
        reveal_strlit("ffn_norm.");
        reveal_strlit("input_layernorm.");
        reveal_strlit("post_attention_layernorm.");
        reveal_strlit("self_attn.");
        reveal_strlit("mlp.gate_proj.");
        reveal_strlit("mlp.up_proj.");
        reveal_strlit("mlp.down_proj.");
        reveal_strlit("embed_tokens.");
        reveal_strlit("head.conv.conv.");
        reveal_strlit("conv.conv.");
    }
    let s = replace_all(s.as_slice(), "tts_eos_classifier.", "tts_eos.");
    let s = replace_all(s.as_slice(), "acoustic_tokenizer.encoder.", "at_enc.");
    let s = replace_all(s.as_slice(), "acoustic_tokenizer.decoder.", "at_dec.");
    let s = replace_all(s.as_slice(), "semantic_tokenizer.encoder.", "st_enc.");
    let s = replace_all(s.as_slice(), "semantic_tokenizer.decoder.", "st_dec.");
    let s = replace_all(s.as_slice(), "upsample_layers.", "us.");
    let s = replace_all(s.as_slice(), "convtr.convtr.", "convtr.");
    let s = replace_all(s.as_slice(), "acoustic_connector.", "at_conn.");
    let s = replace_all(s.as_slice(), "semantic_connector.", "se_conn.");
    let s = replace_all(s.as_slice(), "language_model.", "lm.");
    let s = replace_all(s.as_slice(), "prediction_head.", "pred.");
    let s = replace_all(s.as_slice(), "downsample_layers.", "ds.");
    let s = replace_all(s.as_slice(), "stages.", "s.");
    let s = replace_all(s.as_slice(), "mixer.conv.conv.conv.", "dw_conv.");
    let s = replace_all(s.as_slice(), "ffn.linear1.", "ffn.up.");
    let s = replace_all(s.as_slice(), "ffn.linear2.", "ffn.down.");
    let s = replace_all(s.as_slice(), "ffn_norm.", "ffn_ln.");
    let s = replace_all(s.as_slice(), "input_layernorm.", "attn_ln.");
    let s = replace_all(s.as_slice(), "post_attention_layernorm.", "ffn_ln.");
    let s = replace_all(s.as_slice(), "self_attn.", "attn.");
    let s = replace_all(s.as_slice(), "mlp.gate_proj.", "ffn.gate.");
    let s = replace_all(s.as_slice(), "mlp.up_proj.", "ffn.up.");
    let s = replace_all(s.as_slice(), "mlp.down_proj.", "ffn.down.");
    let s = replace_all(s.as_slice(), "embed_tokens.", "tok_emb.");
    let s = replace_all(s.as_slice(), "head.conv.conv.", "head.");
    let s = replace_all(s.as_slice(), "conv.conv.", "conv.");
    proof {
        reveal_with_fuel(apply_rules, 27);
    }
    string_from_chars(s.as_slice())
}

proof fn lemma_last_index_named(es: Seq<TensorEntry>, name: Seq<char>)
    ensures
        last_index_named(es, name) is None <==> !(exists|i: int| 0 <= i < es.len() && #[trigger] es[i].0 == name),
        last_index_named(es, name) matches Some(i) ==> 0 <= i < es.len() && es[i].0 == name,
    decreases es.len(),
{
    if es.len() > 0 && es.last().0 != name {
        lemma_last_index_named(es.drop_last(), name);
        if exists|i: int| 0 <= i < es.len() && #[trigger] es[i].0 == name {
            let i = choose|i: int| 0 <= i < es.len() && #[trigger] es[i].0 == name;
            assert(i != es.len() - 1);
            assert(es.drop_last()[i].0 == name);
        }
        if exists|i: int| 0 <= i < es.drop_last().len() && #[trigger] es.drop_last()[i].0 == name {
            let i = choose|i: int| 0 <= i < es.drop_last().len() && #[trigger] es.drop_last()[i].0 == name;
            assert(es[i].0 == name);
        }
    }
}

/// A tensor is found by name exactly when the directory lists that name: the lookup of a
/// listed tensor never fails with `TensorNotFound`, and that of an unlisted one always does.
pub proof fn lemma_listed_tensor_is_found(es: Seq<TensorEntry>, len: int, name: Seq<char>)
    ensures
        (spec_tensor_span(es, len, name) == Err::<(GgmlType, Seq<usize>, int, int, int), GgufError>(GgufError::TensorNotFound))
            <==> !(exists|i: int| 0 <= i < es.len() && #[trigger] es[i].0 == name),
{
    lemma_last_index_named(es, name);
}

} // verus!
