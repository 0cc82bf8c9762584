//! Host-side rearrangements of weight tables: transposing a linear weight into the
//! `[in, out]` layout the linear layers use, and gathering embedding rows for token ids.
use vstd::prelude::*;

verus! {

/// The transpose of a `rows x cols` row-major table: its element `(c, r)` is element `(r, c)`.
pub open spec fn is_transpose<T>(out: Seq<T>, data: Seq<T>, rows: int, cols: int) -> bool {
    &&& out.len() == rows * cols
    &&& forall|c: int, r: int| 0 <= c < cols && 0 <= r < rows ==> #[trigger] out[c * rows + r] == data[r * cols + c]
}

proof fn lemma_index_bound(a: int, b: int, n: int, m: int)
    requires
        0 <= a < n,
        0 <= b < m,
    ensures
        0 <= a * m + b < n * m,
        a * m + b + 1 <= n * m,
{
    assert(a * m + b < n * m) by (nonlinear_arith)
        requires 0 <= a < n, 0 <= b < m;
    assert(0 <= a * m) by (nonlinear_arith)
        requires 0 <= a, 0 <= m;
}

/// Transposes a linear weight stored `[out, in]` (shape `[rows, cols]`) into `[in, out]`,
/// returning the data and the new shape `[cols, rows]`.
pub fn transpose_linear_weight<T: Copy>(data: &[T], shape: &[usize]) -> (r: (Vec<T>, [usize; 2]))
    requires
        shape@.len() >= 2,
        shape@[0] * shape@[1] <= data@.len(),
    ensures
        r.1@ == seq![shape@[1], shape@[0]],
        is_transpose(r.0@, data@, shape@[0] as int, shape@[1] as int),
{
    let rows = shape[0];
    let cols = shape[1];
    let dl = data.len();
    let mut out: Vec<T> = Vec::new();
    let mut c: usize = 0;
    while c < cols
        invariant
            shape@.len() >= 2,
            rows == shape@[0],
            cols == shape@[1],
            rows * cols <= data@.len(),
            dl == data@.len(),
            c <= cols,
            out@.len() == c * rows,
            forall|c2: int, r2: int| 0 <= c2 < c && 0 <= r2 < rows ==> #[trigger] out@[c2 * rows + r2] == data@[r2 * cols + c2],
        decreases cols - c,
    {
        let mut r: usize = 0;
        let ghost base = out@.len();
        let ghost prefix = out@;
        proof {
            assert((c + 1) * rows == c * rows + rows) by (nonlinear_arith);
        }
        while r < rows
            invariant
                shape@.len() >= 2,
                rows == shape@[0],
                cols == shape@[1],
                rows * cols <= data@.len(),
                dl == data@.len(),
                c < cols,
                r <= rows,
                base == c * rows,
                out@.len() == base + r,
                out@.subrange(0, base as int) == prefix,
                forall|r2: int| 0 <= r2 < r ==> #[trigger] out@[base + r2] == data@[r2 * cols + c],
            decreases rows - r,
        {
            proof {
                lemma_index_bound(r as int, c as int, rows as int, cols as int);
            }
            out.push(data[r * cols + c]);
            assert(out@.subrange(0, base as int) =~= prefix);
            r += 1;
        }
        proof {
            assert forall|c2: int, r2: int| 0 <= c2 < c + 1 && 0 <= r2 < rows implies #[trigger] out@[c2 * rows + r2] == data@[r2 * cols + c2] by {
                if c2 == c {
                    assert(c2 * rows + r2 == base + r2);
                } else {
                    lemma_index_bound(c2, r2, c as int, rows as int);
                    assert(out@[c2 * rows + r2] == prefix[c2 * rows + r2]);
                }
            }
            assert((c + 1) * rows == c * rows + rows) by (nonlinear_arith);
        }
        c += 1;
    }
    assert(cols * rows == rows * cols) by (nonlinear_arith);
    (out, [cols, rows])
}

/// The table row that token `id` reads: the id clamped to `[0, vocab - 1]`, with a vocabulary
/// of at least one row.
pub open spec fn embedding_row(id: i64, vocab: usize) -> int {
    let v = if vocab >= 1 { vocab as int } else { 1 };
    if id < 0 { 0 } else if id >= v { v - 1 } else { id as int }
}

/// Element `k` of the embedding of token `id`: from the table when the table holds that row,
/// else `zero`.
pub open spec fn embedding_value<T>(table: Seq<T>, vocab: usize, hidden: usize, id: i64, k: int, zero: T) -> T {
    let src = embedding_row(id, vocab) * hidden;
    if table.len() > 0 && src + hidden <= table.len() { table[src + k] } else { zero }
}

/// The embeddings of `ids`, one row of `hidden` values each, gathered from a `vocab x hidden`
/// table kept on the host; ids outside the vocabulary are clamped into it.
pub fn gather_rows<T: Copy>(table: &[T], vocab: usize, hidden: usize, ids: &[i64], zero: T) -> (out: Vec<T>)
    requires
        ids@.len() * hidden <= usize::MAX,
        table@.len() > 0 ==> forall|i: int| 0 <= i < ids@.len() ==>
            embedding_row(#[trigger] ids@[i], vocab) * hidden + hidden <= usize::MAX,
    ensures
        out@.len() == ids@.len() * hidden,
        forall|i: int, k: int| 0 <= i < ids@.len() && 0 <= k < hidden ==>
            #[trigger] out@[i * hidden + k] == embedding_value(table@, vocab, hidden, ids@[i], k, zero),
{
    let v = if vocab >= 1 { vocab } else { 1 };
    let mut out: Vec<T> = Vec::new();
    let mut i: usize = 0;
    while i < ids.len()
        invariant
            v == (if vocab >= 1 { vocab as int } else { 1int }),
            table@.len() > 0 ==> forall|i: int| 0 <= i < ids@.len() ==>
                embedding_row(#[trigger] ids@[i], vocab) * hidden + hidden <= usize::MAX,
            ids@.len() * hidden <= usize::MAX,
            i <= ids@.len(),
            out@.len() == i * hidden,
            forall|i2: int, k: int| 0 <= i2 < i && 0 <= k < hidden ==>
                #[trigger] out@[i2 * hidden + k] == embedding_value(table@, vocab, hidden, ids@[i2], k, zero),
        decreases ids@.len() - i,
    {
        let id = ids[i];
        let row: usize = if id < 0 { 0 } else if id as u64 >= v as u64 { v - 1 } else { id as usize };
        assert(row == embedding_row(id, vocab));
        proof {
            assert((i + 1) * hidden == i * hidden + hidden) by (nonlinear_arith);
            assert((i + 1) * hidden <= ids@.len() * hidden) by (nonlinear_arith)
                requires i < ids@.len(), hidden >= 0;
        }
        let (src, copy) = if table.len() > 0 {
            let src = row * hidden;
            (src, src + hidden <= table.len())
        } else {
            (0, false)
        };
        let ghost base = out@.len();
        let ghost prefix = out@;
        let tl = table.len();
        let mut k: usize = 0;
        while k < hidden
            invariant
                k <= hidden,
                base == i * hidden,
                out@.len() == base + k,
                out@.subrange(0, base as int) == prefix,
                copy ==> src == embedding_row(id, vocab) * hidden,
                tl == table@.len(),
                copy == (table@.len() > 0 && embedding_row(id, vocab) * hidden + hidden <= table@.len()),
                id == ids@[i as int],
                forall|k2: int| 0 <= k2 < k ==> #[trigger] out@[base + k2] == embedding_value(table@, vocab, hidden, id, k2, zero),
            decreases hidden - k,
        {
            if copy {
                out.push(table[src + k]);
            } else {
                out.push(zero);
            }
            assert(out@.subrange(0, base as int) =~= prefix);
            k += 1;
        }
        proof {
            assert forall|i2: int, k2: int| 0 <= i2 < i + 1 && 0 <= k2 < hidden implies
                #[trigger] out@[i2 * hidden + k2] == embedding_value(table@, vocab, hidden, ids@[i2], k2, zero) by {
                if i2 == i {
                    assert(i2 * hidden + k2 == base + k2);
                } else {
                    lemma_index_bound(i2, k2, i as int, hidden as int);
                    assert(out@[i2 * hidden + k2] == prefix[i2 * hidden + k2]);
                }
            }
            assert((i + 1) * hidden == i * hidden + hidden) by (nonlinear_arith);
        }
        i += 1;
    }
    out
}

} // verus!
