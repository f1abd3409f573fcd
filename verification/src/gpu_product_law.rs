//! What the products of an attention multiply: which rows and columns their
//! tiles are, and what they add up to in exact numbers.
use crate::device::{Buffer, Kind, Product, Tile};
use crate::gpu_attention::AttentionPlan;
use crate::gpu_cross::Plan;
use crate::matrix::entry;
use vstd::prelude::*;

verus! {

/// Term `l` of entry `(i, j)` of a product, for one head and sequence.
pub open spec fn term(
    p: Product,
    a: Seq<int>,
    b: Seq<int>,
    group: int,
    h: int,
    s: int,
    i: int,
    j: int,
    l: int,
) -> int {
    match p.kind {
        Kind::RhsTransposed => a[p.a.at(group, h, s, i, l)] * b[p.b.at(group, h, s, j, l)],
        Kind::Plain => a[p.a.at(group, h, s, i, l)] * b[p.b.at(group, h, s, l, j)],
        Kind::LhsTransposed => a[p.a.at(group, h, s, l, i)] * b[p.b.at(group, h, s, l, j)],
    }
}

/// The first `k` terms of an entry of a product, added up.
pub open spec fn product_entry(
    p: Product,
    a: Seq<int>,
    b: Seq<int>,
    group: int,
    h: int,
    s: int,
    i: int,
    j: int,
    k: int,
) -> int
    decreases k,
{
    if k <= 0 {
        0
    } else {
        product_entry(p, a, b, group, h, s, i, j, k - 1) + term(p, a, b, group, h, s, i, j, k - 1)
    }
}

/// The first `k` terms of a list, added up.
pub open spec fn added(terms: spec_fn(int) -> int, k: int) -> int
    decreases k,
{
    if k <= 0 {
        0
    } else {
        added(terms, k - 1) + terms(k - 1)
    }
}

proof fn lemma_added(
    p: Product,
    a: Seq<int>,
    b: Seq<int>,
    group: int,
    h: int,
    s: int,
    i: int,
    j: int,
    k: int,
    terms: spec_fn(int) -> int,
)
    requires
        forall|l: int| 0 <= l < k ==> term(p, a, b, group, h, s, i, j, l) == #[trigger] terms(l),
    ensures
        product_entry(p, a, b, group, h, s, i, j, k) == added(terms, k),
    decreases k,
{
    if k > 0 {
        lemma_added(p, a, b, group, h, s, i, j, k - 1, terms);
        assert(term(p, a, b, group, h, s, i, j, k - 1) == terms(k - 1));
    }
}

/// A tile whose rows are those of a matrix: row `r` of sequence `s` is the
/// matrix's row `s * length + r`, and the head's columns start at `from`.
proof fn lemma_rows(tile: Tile, group: int, h: int, s: int, r: int, c: int, length: int, from: int)
    requires
        tile.step == length * tile.stride,
        tile.offset + (if tile.shared { h / group } else { h }) * tile.shift == from,
    ensures
        tile.at(group, h, s, r, c) == entry(tile.stride as int, s * length + r, from + c),
{
    let w = tile.stride as int;
    assert(s * (length * w) + r * w == (s * length + r) * w) by (nonlinear_arith);
}

/// A tile of blocks: head after head, sequence after sequence, each a matrix
/// of so many rows.
proof fn lemma_blocks(tile: Tile, group: int, h: int, s: int, r: int, c: int, sequences: int, rows: int)
    requires
        !tile.shared,
        tile.offset == 0,
        tile.step == rows * tile.stride,
        tile.shift == sequences * tile.step,
    ensures
        tile.at(group, h, s, r, c) == entry(
            tile.stride as int,
            (h * sequences + s) * rows + r,
            c,
        ),
{
    let (w, n) = (tile.stride as int, rows);
    assert(h * (sequences * (n * w)) + s * (n * w) + r * w == ((h * sequences + s) * n + r) * w)
        by (nonlinear_arith);
}

// -- Cross-attention -------------------------------------------------------------

/// Where head `h` of query `i` of sequence `s` has its entry `c`.
pub open spec fn query_at(plan: Plan, h: int, s: int, i: int, c: int) -> int {
    entry(plan.query_width as int, s * plan.q_len + i, h * plan.head_dim + c)
}

/// Where key `j` of sequence `s` has entry `c` of the head that query head `h`
/// reads, or the value behind it when `base` says so.
pub open spec fn key_at(plan: Plan, base: int, h: int, s: int, j: int, c: int) -> int {
    entry(
        plan.kv_stride as int,
        s * plan.kv_len + j,
        base + h / (plan.group as int) * plan.head_dim + c,
    )
}

/// Where the score of query `i` and key `j` stands, for one head and sequence.
pub open spec fn score_at(plan: Plan, h: int, s: int, i: int, j: int) -> int {
    entry(plan.kv_len as int, (h * plan.sequences + s) * plan.q_len + i, j)
}

/// The tiles of a cross-attention are the rows and columns that its heads
/// mean: a query head reads its own columns, and the heads of a group all read
/// those of one key head.
pub proof fn law_cross_tiles(
    plan: Plan,
    buffer: Buffer,
    base: usize,
    h: int,
    s: int,
    r: int,
    c: int,
)
    requires
        plan.wf(),
    ensures
        plan.columns(buffer).at(plan.group as int, h, s, r, c) == query_at(plan, h, s, r, c),
        plan.keys(buffer, base).at(plan.group as int, h, s, r, c) == key_at(
            plan,
            base as int,
            h,
            s,
            r,
            c,
        ),
        plan.blocks(buffer).at(plan.group as int, h, s, r, c) == score_at(plan, h, s, r, c),
{
    let g = plan.group as int;
    lemma_rows(
        plan.columns(buffer),
        g,
        h,
        s,
        r,
        c,
        plan.q_len as int,
        h * plan.head_dim,
    );
    lemma_rows(
        plan.keys(buffer, base),
        g,
        h,
        s,
        r,
        c,
        plan.kv_len as int,
        base + h / g * plan.head_dim,
    );
    lemma_blocks(
        plan.blocks(buffer),
        g,
        h,
        s,
        r,
        c,
        plan.sequences as int,
        plan.q_len as int,
    );
}

/// What a cross-attention multiplies, forwards: a score is the product of a
/// query and a key of the same sequence, and a merged entry is what the values
/// of the sequence add up to, each weighed by its probability.
pub proof fn law_cross_forward(
    plan: Plan,
    queries: Seq<int>,
    keys_values: Seq<int>,
    probabilities: Seq<int>,
    h: int,
    s: int,
    i: int,
    j: int,
    c: int,
)
    requires
        plan.wf(),
    ensures
        product_entry(
            plan.score_product(),
            queries,
            keys_values,
            plan.group as int,
            h,
            s,
            i,
            j,
            plan.head_dim as int,
        ) == added(
            |l: int|
                queries[query_at(plan, h, s, i, l)] * keys_values[key_at(
                    plan,
                    plan.key_base as int,
                    h,
                    s,
                    j,
                    l,
                )],
            plan.head_dim as int,
        ),
        product_entry(
            plan.value_product(),
            probabilities,
            keys_values,
            plan.group as int,
            h,
            s,
            i,
            c,
            plan.kv_len as int,
        ) == added(
            |l: int|
                probabilities[score_at(plan, h, s, i, l)] * keys_values[key_at(
                    plan,
                    plan.value_base as int,
                    h,
                    s,
                    l,
                    c,
                )],
            plan.kv_len as int,
        ),
{
    let g = plan.group as int;
    let (p, q) = (plan.score_product(), plan.value_product());
    let scores = |l: int|
        queries[query_at(plan, h, s, i, l)] * keys_values[key_at(
            plan,
            plan.key_base as int,
            h,
            s,
            j,
            l,
        )];
    assert forall|l: int| 0 <= l < plan.head_dim implies term(
        p,
        queries,
        keys_values,
        g,
        h,
        s,
        i,
        j,
        l,
    ) == #[trigger] scores(l) by {
        law_cross_tiles(plan, Buffer::Query, plan.key_base, h, s, i, l);
        law_cross_tiles(plan, Buffer::KeysValues, plan.key_base, h, s, j, l);
    }
    lemma_added(p, queries, keys_values, g, h, s, i, j, plan.head_dim as int, scores);
    let values = |l: int|
        probabilities[score_at(plan, h, s, i, l)] * keys_values[key_at(
            plan,
            plan.value_base as int,
            h,
            s,
            l,
            c,
        )];
    assert forall|l: int| 0 <= l < plan.kv_len implies term(
        q,
        probabilities,
        keys_values,
        g,
        h,
        s,
        i,
        c,
        l,
    ) == #[trigger] values(l) by {
        law_cross_tiles(plan, Buffer::Probabilities, plan.value_base, h, s, i, l);
        law_cross_tiles(plan, Buffer::KeysValues, plan.value_base, h, s, l, c);
    }
    lemma_added(q, probabilities, keys_values, g, h, s, i, c, plan.kv_len as int, values);
}

// -- Self-attention ----------------------------------------------------------------

/// Where head `h` of row `r` of sequence `s` has its merged entry `c`.
pub open spec fn merged_at(plan: AttentionPlan, h: int, s: int, r: int, c: int) -> int {
    entry(plan.query_width as int, s * plan.seq_len + r, h * plan.head_dim + c)
}

/// Where row `r` of sequence `s` of the packed projections has entry `c` of
/// head `h`, from column `base` on; the heads of a group share theirs where
/// `shared` says so.
pub open spec fn packed_at(
    plan: AttentionPlan,
    base: int,
    shared: bool,
    h: int,
    s: int,
    r: int,
    c: int,
) -> int {
    entry(
        plan.qkv_width as int,
        s * plan.seq_len + r,
        base + (if shared { h / (plan.group as int) } else { h }) * plan.head_dim + c,
    )
}

/// Where the score of two rows stands, for one head and sequence.
pub open spec fn self_score_at(plan: AttentionPlan, h: int, s: int, i: int, j: int) -> int {
    entry(plan.seq_len as int, (h * plan.sequences + s) * plan.seq_len + i, j)
}

/// The tiles of a self-attention are the rows and columns that its heads mean.
pub proof fn law_self_tiles(
    plan: AttentionPlan,
    buffer: Buffer,
    base: usize,
    shared: bool,
    h: int,
    s: int,
    r: int,
    c: int,
)
    requires
        plan.wf(),
    ensures
        plan.columns(buffer).at(plan.group as int, h, s, r, c) == merged_at(plan, h, s, r, c),
        plan.packed(buffer, base, shared).at(plan.group as int, h, s, r, c) == packed_at(
            plan,
            base as int,
            shared,
            h,
            s,
            r,
            c,
        ),
        plan.blocks(buffer).at(plan.group as int, h, s, r, c) == self_score_at(plan, h, s, r, c),
{
    let g = plan.group as int;
    lemma_rows(
        plan.columns(buffer),
        g,
        h,
        s,
        r,
        c,
        plan.seq_len as int,
        h * plan.head_dim,
    );
    lemma_rows(
        plan.packed(buffer, base, shared),
        g,
        h,
        s,
        r,
        c,
        plan.seq_len as int,
        base + (if shared { h / g } else { h }) * plan.head_dim,
    );
    lemma_blocks(
        plan.blocks(buffer),
        g,
        h,
        s,
        r,
        c,
        plan.sequences as int,
        plan.seq_len as int,
    );
}

/// What a self-attention multiplies, forwards: a score is the product of the
/// query of one row and the key of another of the same sequence, and a merged
/// entry is what the values of the sequence add up to, each weighed by its
/// probability.
pub proof fn law_self_forward(
    plan: AttentionPlan,
    projections: Seq<int>,
    probabilities: Seq<int>,
    h: int,
    s: int,
    i: int,
    j: int,
    c: int,
)
    requires
        plan.wf(),
    ensures
        product_entry(
            plan.score_product(),
            projections,
            projections,
            plan.group as int,
            h,
            s,
            i,
            j,
            plan.head_dim as int,
        ) == added(
            |l: int|
                projections[packed_at(plan, 0, false, h, s, i, l)] * projections[packed_at(
                    plan,
                    plan.key_base as int,
                    true,
                    h,
                    s,
                    j,
                    l,
                )],
            plan.head_dim as int,
        ),
        product_entry(
            plan.value_product(),
            probabilities,
            projections,
            plan.group as int,
            h,
            s,
            i,
            c,
            plan.seq_len as int,
        ) == added(
            |l: int|
                probabilities[self_score_at(plan, h, s, i, l)] * projections[packed_at(
                    plan,
                    plan.value_base as int,
                    true,
                    h,
                    s,
                    l,
                    c,
                )],
            plan.seq_len as int,
        ),
{
    let g = plan.group as int;
    let (p, q) = (plan.score_product(), plan.value_product());
    let scores = |l: int|
        projections[packed_at(plan, 0, false, h, s, i, l)] * projections[packed_at(
            plan,
            plan.key_base as int,
            true,
            h,
            s,
            j,
            l,
        )];
    assert forall|l: int| 0 <= l < plan.head_dim implies term(
        p,
        projections,
        projections,
        g,
        h,
        s,
        i,
        j,
        l,
    ) == #[trigger] scores(l) by {
        law_self_tiles(plan, Buffer::Projections, 0, false, h, s, i, l);
        law_self_tiles(plan, Buffer::Projections, plan.key_base, true, h, s, j, l);
    }
    lemma_added(p, projections, projections, g, h, s, i, j, plan.head_dim as int, scores);
    let values = |l: int|
        probabilities[self_score_at(plan, h, s, i, l)] * projections[packed_at(
            plan,
            plan.value_base as int,
            true,
            h,
            s,
            l,
            c,
        )];
    assert forall|l: int| 0 <= l < plan.seq_len implies term(
        q,
        probabilities,
        projections,
        g,
        h,
        s,
        i,
        c,
        l,
    ) == #[trigger] values(l) by {
        law_self_tiles(plan, Buffer::Probabilities, plan.value_base, true, h, s, i, l);
        law_self_tiles(plan, Buffer::Projections, plan.value_base, true, h, s, l, c);
    }
    lemma_added(q, probabilities, projections, g, h, s, i, c, plan.seq_len as int, values);
}

} // verus!
