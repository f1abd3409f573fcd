//! Where tiles lie: lemmas on the rectangles a product reads and writes.
use crate::device::{
    after, after_all, after_steps, is_safe, project, project_back, runs, runs_to, weight_gradient,
    Buffer, Memory, Step, Tile,
};
use vstd::prelude::*;

verus! {

/// A rectangle that is a run of whole rows.
pub proof fn lemma_dense(t: Tile, rows: int, cols: int, len: int)
    requires
        t.stride == cols,
        rows >= 0,
        t.offset + rows * cols <= len,
    ensures
        t.stays_within(1, 1, 1, rows, cols, len),
        t.offset == 0 && len == rows * cols ==> t.fills(1, 1, 1, rows, cols, len),
{
    assert forall|h: int, s: int, r: int, c: int|
        0 <= h < 1 && 0 <= s < 1 && 0 <= r < rows && 0 <= c < cols implies 0 <= #[trigger] t.at(
        1,
        h,
        s,
        r,
        c,
    ) < len by {
        lemma_dense_at(t, r, c);
        assert(0 <= r * cols && r * cols + cols <= rows * cols) by (nonlinear_arith)
            requires
                0 <= r < rows,
                0 <= cols,
        ;
    }
    if t.offset == 0 && len == rows * cols {
        assert forall|i: int| 0 <= i < len implies #[trigger] t.reaches(1, 1, 1, rows, cols, i) by {
            assert(cols > 0) by (nonlinear_arith)
                requires
                    0 <= i < rows * cols,
                    rows >= 0,
            ;
            lemma_split(i, cols, rows);
            lemma_dense_at(t, i / cols, i % cols);
        }
    }
}

proof fn lemma_dense_at(t: Tile, r: int, c: int)
    ensures
        t.at(1, 0, 0, r, c) == t.offset + r * t.stride + c,
{
    assert((if t.shared {
        0int / 1
    } else {
        0
    }) * t.shift == 0 && 0 * t.step == 0) by (nonlinear_arith);
}

/// A number below a product, split into its quotient and its remainder.
pub proof fn lemma_split(i: int, d: int, n: int)
    requires
        0 <= i < n * d,
        d > 0,
    ensures
        0 <= i / d < n,
        0 <= i % d < d,
        i == (i / d) * d + i % d,
{
    vstd::arithmetic::div_mod::lemma_fundamental_div_mod(i, d);
    let (q, r) = (i / d, i % d);
    assert(0 <= q < n && 0 <= r < d && i == q * d + r) by (nonlinear_arith)
        requires
            q == i / d,
            r == i % d,
            i == d * q + r,
            0 <= i < n * d,
            d > 0,
    ;
}

/// One block of `rows * cols` per sequence and head, head after head.
pub proof fn lemma_blocks(
    t: Tile,
    heads: int,
    group: int,
    sequences: int,
    rows: int,
    cols: int,
    len: int,
)
    requires
        !t.shared,
        t.offset == 0,
        t.stride == cols,
        t.step == rows * cols,
        t.shift == sequences * (rows * cols),
        len == heads * (sequences * (rows * cols)),
        heads >= 0,
        sequences >= 0,
        rows >= 0,
    ensures
        t.stays_within(heads, group, sequences, rows, cols, len),
        t.fills(heads, group, sequences, rows, cols, len),
{
    let block = rows * cols;
    let slab = sequences * block;
    assert forall|h: int, s: int, r: int, c: int|
        0 <= h < heads && 0 <= s < sequences && 0 <= r < rows && 0 <= c < cols implies 0
        <= #[trigger] t.at(group, h, s, r, c) < len by {
        lemma_step_below(r, rows, cols);
        lemma_step_below(s, sequences, block);
        lemma_step_below(h, heads, slab);
    }
    assert forall|i: int| 0 <= i < len implies #[trigger] t.reaches(
        heads,
        group,
        sequences,
        rows,
        cols,
        i,
    ) by {
        lemma_positive(heads, slab, i);
        lemma_split(i, slab, heads);
        let (h, j) = (i / slab, i % slab);
        lemma_positive(sequences, block, j);
        lemma_split(j, block, sequences);
        let (s, k) = (j / block, j % block);
        lemma_positive(rows, cols, k);
        lemma_split(k, cols, rows);
        assert(t.at(group, h, s, k / cols, k % cols) == i);
    }
}

proof fn lemma_positive(n: int, d: int, i: int)
    requires
        0 <= i < n * d,
        n >= 0,
    ensures
        d > 0,
{
    assert(d > 0) by (nonlinear_arith)
        requires
            0 <= i < n * d,
            n >= 0,
    ;
}

proof fn lemma_step_below(i: int, n: int, d: int)
    requires
        0 <= i < n,
        0 <= d,
    ensures
        0 <= i * d,
        i * d + d <= n * d,
{
    assert(0 <= i * d && i * d + d <= n * d) by (nonlinear_arith)
        requires
            0 <= i < n,
            0 <= d,
    ;
}

/// The columns of a head in rows of `width` entries, `columns` of them for
/// each head, or for each group of heads.
pub proof fn lemma_columns(
    t: Tile,
    heads: int,
    group: int,
    sequences: int,
    rows: int,
    cols: int,
    width: int,
    len: int,
)
    requires
        t.stride == width,
        t.shift == cols,
        t.step == rows * width,
        len == sequences * (rows * width),
        group > 0,
        heads >= 0,
        rows >= 0,
        cols >= 0,
        sequences >= 0,
        t.shared ==> t.offset + (heads / group) * cols <= width && heads % group == 0,
        !t.shared ==> t.offset + heads * cols <= width,
    ensures
        t.stays_within(heads, group, sequences, rows, cols, len),
        !t.shared && t.offset == 0 && heads * cols == width ==> t.fills(
            heads,
            group,
            sequences,
            rows,
            cols,
            len,
        ),
{
    let slab = rows * width;
    assert forall|h: int, s: int, r: int, c: int|
        0 <= h < heads && 0 <= s < sequences && 0 <= r < rows && 0 <= c < cols implies 0
        <= #[trigger] t.at(group, h, s, r, c) < len by {
        if t.shared {
            lemma_group(h, heads, group);
            lemma_step_below(h / group, heads / group, cols);
        } else {
            lemma_step_below(h, heads, cols);
        }
        lemma_step_below(r, rows, width);
        lemma_step_below(s, sequences, slab);
    }
    if !t.shared && t.offset == 0 && heads * cols == width {
        assert forall|i: int| 0 <= i < len implies #[trigger] t.reaches(
            heads,
            group,
            sequences,
            rows,
            cols,
            i,
        ) by {
            lemma_positive(sequences, slab, i);
            lemma_split(i, slab, sequences);
            let (s, j) = (i / slab, i % slab);
            lemma_positive(rows, width, j);
            lemma_split(j, width, rows);
            let (r, k) = (j / width, j % width);
            lemma_positive(heads, cols, k);
            lemma_split(k, cols, heads);
            assert(t.at(group, k / cols, s, r, k % cols) == i);
        }
    }
}

proof fn lemma_group(h: int, heads: int, group: int)
    requires
        0 <= h < heads,
        group > 0,
        heads % group == 0,
    ensures
        0 <= h / group < heads / group,
{
    let k = heads / group;
    vstd::arithmetic::div_mod::lemma_fundamental_div_mod(heads, group);
    vstd::arithmetic::div_mod::lemma_fundamental_div_mod(h, group);
    let q = h / group;
    let r = h % group;
    assert(0 <= q < k) by (nonlinear_arith)
        requires
            h == group * q + r,
            0 <= r < group,
            heads == group * k + 0,
            0 <= h < heads,
    ;
}

/// A projection of whole rows is safe.
pub proof fn lemma_project(
    memory: Memory,
    a: Tile,
    b: Tile,
    out: Tile,
    m: usize,
    n: usize,
    k: usize,
    accumulate: bool,
)
    requires
        a.stride == k,
        b.stride == k,
        out.stride == n,
        there(memory, a, m * k),
        there(memory, b, n * k),
        target(memory, out, m * n, accumulate),
        out.buffer != a.buffer,
        out.buffer != b.buffer,
    ensures
        is_safe(memory, project(a, b, out, m, n, k, accumulate)),
{
    lemma_dense(a, m as int, k as int, memory.lens[a.buffer]);
    lemma_dense(b, n as int, k as int, memory.lens[b.buffer]);
    lemma_dense(out, m as int, n as int, memory.lens[out.buffer]);
}

/// The input gradient of a projection of whole rows is safe.
pub proof fn lemma_project_back(
    memory: Memory,
    a: Tile,
    b: Tile,
    out: Tile,
    m: usize,
    n: usize,
    k: usize,
    accumulate: bool,
)
    requires
        a.stride == k,
        b.stride == n,
        out.stride == n,
        there(memory, a, m * k),
        there(memory, b, k * n),
        target(memory, out, m * n, accumulate),
        out.buffer != a.buffer,
        out.buffer != b.buffer,
    ensures
        is_safe(memory, project_back(a, b, out, m, n, k, accumulate)),
{
    lemma_dense(a, m as int, k as int, memory.lens[a.buffer]);
    lemma_dense(b, k as int, n as int, memory.lens[b.buffer]);
    lemma_dense(out, m as int, n as int, memory.lens[out.buffer]);
}

/// The weight gradient of a projection of whole rows is safe.
pub proof fn lemma_weight_gradient(
    memory: Memory,
    a: Tile,
    b: Tile,
    out: Tile,
    m: usize,
    n: usize,
    k: usize,
    accumulate: bool,
)
    requires
        a.stride == m,
        b.stride == n,
        out.stride == n,
        there(memory, a, k * m),
        there(memory, b, k * n),
        target(memory, out, m * n, accumulate),
        out.buffer != a.buffer,
        out.buffer != b.buffer,
    ensures
        is_safe(memory, weight_gradient(a, b, out, m, n, k, accumulate)),
{
    lemma_dense(a, k as int, m as int, memory.lens[a.buffer]);
    lemma_dense(b, k as int, n as int, memory.lens[b.buffer]);
    lemma_dense(out, m as int, n as int, memory.lens[out.buffer]);
}

/// Whether so many entries from a tile's start on are there to be read.
pub open spec fn there(memory: Memory, t: Tile, len: int) -> bool {
    memory.lens.dom().contains(t.buffer) && memory.full.contains(t.buffer) && t.offset + len
        <= memory.lens[t.buffer]
}

/// Whether writing so many entries from a tile's start on leaves its buffer
/// written in full.
pub open spec fn target(memory: Memory, t: Tile, len: int, accumulate: bool) -> bool {
    memory.lens.dom().contains(t.buffer) && t.offset + len <= memory.lens[t.buffer] && (
    memory.full.contains(t.buffer) || (!accumulate && t.offset == 0 && memory.lens[t.buffer]
        == len))
}

/// One more step that is safe.
pub proof fn lemma_one_more(memory: Memory, steps: Seq<Step>, k: int, now: Memory)
    requires
        0 <= k < steps.len(),
        now == after_steps(memory, steps, k),
        runs_to(memory, steps, k),
        is_safe(now, steps[k]),
    ensures
        after_steps(memory, steps, k + 1) == after(now, steps[k]),
        runs_to(memory, steps, k + 1),
{
}

/// A step keeps every buffer but the one it reserves.
pub proof fn lemma_kept(memory: Memory, step: Step)
    ensures
        forall|buffer: Buffer, len: int|
            memory.holds(buffer, len) && !(step is Reserve && step->Reserve_0 == buffer)
                ==> #[trigger] after(memory, step).holds(buffer, len),
{
}

/// Two lists, one after the other.
pub proof fn lemma_concat(memory: Memory, first: Seq<Step>, second: Seq<Step>)
    requires
        runs(memory, first),
        runs(after_all(memory, first), second),
    ensures
        runs(memory, first + second),
        after_all(memory, first + second) == after_all(after_all(memory, first), second),
{
    lemma_prefix(memory, first, second, first.len() as int);
    lemma_suffix(memory, first, second, second.len() as int);
}

proof fn lemma_prefix(memory: Memory, first: Seq<Step>, second: Seq<Step>, k: int)
    requires
        0 <= k <= first.len(),
        runs_to(memory, first, k),
    ensures
        runs_to(memory, first + second, k),
        after_steps(memory, first + second, k) == after_steps(memory, first, k),
    decreases k,
{
    if k > 0 {
        lemma_prefix(memory, first, second, k - 1);
    }
}

proof fn lemma_suffix(memory: Memory, first: Seq<Step>, second: Seq<Step>, k: int)
    requires
        0 <= k <= second.len(),
        runs(memory, first),
        runs_to(after_all(memory, first), second, k),
        runs_to(memory, first + second, first.len() as int),
        after_steps(memory, first + second, first.len() as int) == after_all(memory, first),
    ensures
        runs_to(memory, first + second, first.len() + k),
        after_steps(memory, first + second, first.len() + k) == after_steps(
            after_all(memory, first),
            second,
            k,
        ),
    decreases k,
{
    if k > 0 {
        lemma_suffix(memory, first, second, k - 1);
        assert((first + second)[first.len() + k - 1] == second[k - 1]);
    }
}

} // verus!
