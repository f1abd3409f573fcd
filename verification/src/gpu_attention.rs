//! The attention half of a decoder block on the device: normalization, one
//! packed projection for query, key and value, rotary positions, causal
//! attention, and the residual.
//!
//! The three projections are slices of one row, so their readers step by the
//! width of the packed row. Attention runs either fused, with the scores never
//! written out, or as three kernels over a score matrix.
use crate::device::{
    add_span, after, after_all, clear, copy, launch, pack, project, project_back, reads1, reads2,
    reads3, reads4, reserve, rmsnorm, runs, sized, start_of, tile, warp_per_row_grid,
    weight_gradient, writes1, writes2, Buffer, Factor, Grid, Kernel, Kind, Memory, Product, Sizes,
    Step, Tile,
};
use crate::tiles::{
    lemma_blocks, lemma_columns, lemma_concat, lemma_kept, lemma_one_more, lemma_project,
    lemma_project_back, lemma_weight_gradient,
};
use vstd::prelude::*;

verus! {

/// The queries a tile of the fused kernel covers.
pub const FUSED_TILE: usize = 64;

/// What a pass reads of an attention layer and of the batch it runs on.
#[derive(Clone, Copy, Debug, PartialEq, Eq, Structural)]
pub struct AttentionShape {
    pub seq_len: usize,
    pub sequences: usize,
    pub d_model: usize,
    pub heads: usize,
    pub kv_heads: usize,
    pub head_dim: usize,
    /// Whether the fused kernel can run.
    pub fused: bool,
}

impl AttentionShape {
    /// Whether the query heads come in groups of one size.
    pub open spec fn wf(&self) -> bool {
        self.kv_heads > 0 && self.heads > 0 && self.heads % self.kv_heads == 0
    }

    /// The width of the packed row.
    pub open spec fn packed_width(&self) -> int {
        self.heads * self.head_dim + 2 * (self.kv_heads * self.head_dim)
    }

    /// Whether every buffer of a pass is short enough to be counted.
    pub open spec fn fits(&self) -> bool {
        let rows = self.seq_len * self.sequences;
        let block = self.seq_len * self.seq_len;
        &&& rows <= usize::MAX
        &&& self.packed_width() <= usize::MAX
        &&& rows * self.d_model <= usize::MAX
        &&& rows * self.packed_width() <= usize::MAX
        &&& self.seq_len * self.packed_width() <= usize::MAX
        &&& self.packed_width() * self.d_model <= usize::MAX
        &&& block <= usize::MAX
        &&& self.sequences * block <= usize::MAX
        &&& self.heads * (self.sequences * block) <= usize::MAX
        &&& self.heads * self.sequences <= usize::MAX
        &&& self.heads * self.sequences * self.seq_len <= usize::MAX
    }
}

/// The widths, offsets and lengths of a pass.
#[derive(Clone, Copy, Debug, PartialEq, Eq, Structural)]
pub struct AttentionPlan {
    pub rows: usize,
    pub seq_len: usize,
    pub sequences: usize,
    pub d_model: usize,
    pub heads: usize,
    pub kv_heads: usize,
    pub head_dim: usize,
    pub group: usize,
    pub query_width: usize,
    pub kv_width: usize,
    pub qkv_width: usize,
    pub key_base: usize,
    pub value_base: usize,
    pub block_size: usize,
    /// From one head's scores to the next head's.
    pub head_scores: usize,
    /// From one sequence's rows to the next sequence's.
    pub query_step: usize,
    pub qkv_step: usize,
    /// How long the buffers are.
    pub hidden: usize,
    pub merged: usize,
    pub projections: usize,
    pub scores: usize,
    pub score_rows: usize,
    pub query_weight: usize,
    pub key_weight: usize,
    pub value_weight_base: usize,
    pub packed_weights: usize,
    /// The pairs of entries a rotation turns.
    pub query_pairs: usize,
    pub key_pairs: usize,
    /// The tiles of the fused kernel.
    pub query_tiles: usize,
    pub fused: bool,
}

impl AttentionPlan {
    /// Whether the plan is that of a shape.
    pub open spec fn is_of(&self, shape: AttentionShape) -> bool {
        &&& self.seq_len == shape.seq_len
        &&& self.sequences == shape.sequences
        &&& self.d_model == shape.d_model
        &&& self.heads == shape.heads
        &&& self.kv_heads == shape.kv_heads
        &&& self.head_dim == shape.head_dim
        &&& self.fused == shape.fused
    }

    /// Whether the widths and lengths go together.
    pub open spec fn wf(&self) -> bool {
        &&& self.heads > 0
        &&& self.group > 0
        &&& self.heads % self.group == 0
        &&& self.heads as int / self.group as int == self.kv_heads
        &&& self.rows == self.seq_len * self.sequences
        &&& self.query_width == self.heads * self.head_dim
        &&& self.kv_width == self.kv_heads * self.head_dim
        &&& self.qkv_width == self.query_width + 2 * self.kv_width
        &&& self.key_base == self.query_width
        &&& self.value_base == self.query_width + self.kv_width
        &&& self.block_size == self.seq_len * self.seq_len
        &&& self.head_scores == self.sequences * self.block_size
        &&& self.query_step == self.seq_len * self.query_width
        &&& self.qkv_step == self.seq_len * self.qkv_width
        &&& self.hidden == self.rows * self.d_model
        &&& self.merged == self.rows * self.query_width
        &&& self.projections == self.rows * self.qkv_width
        &&& self.scores == self.heads * self.head_scores
        &&& self.score_rows == self.heads * self.sequences * self.seq_len
        &&& self.query_weight == self.query_width * self.d_model
        &&& self.key_weight == self.kv_width * self.d_model
        &&& self.value_weight_base == self.query_weight + self.key_weight
        &&& self.packed_weights == self.qkv_width * self.d_model
        &&& self.query_pairs == self.rows * self.heads * self.head_dim / 2
        &&& self.key_pairs == self.rows * self.kv_heads * self.head_dim / 2
        &&& self.query_tiles == (self.seq_len + 63) / 64
    }

    /// The plan of a shape.
    pub fn new(shape: AttentionShape) -> (plan: AttentionPlan)
        requires
            shape.wf(),
            shape.fits(),
        ensures
            plan.wf(),
            plan.is_of(shape),
    {
        proof {
            lemma_groups(shape.heads as int, shape.kv_heads as int);
            lemma_widths(shape);
        }
        let rows: usize = shape.seq_len * shape.sequences;
        let query_width: usize = shape.heads * shape.head_dim;
        let kv_width: usize = shape.kv_heads * shape.head_dim;
        let qkv_width: usize = query_width + 2 * kv_width;
        let block_size: usize = shape.seq_len * shape.seq_len;
        let head_scores: usize = shape.sequences * block_size;
        let query_weight: usize = query_width * shape.d_model;
        let key_weight: usize = kv_width * shape.d_model;
        let tiles: usize = shape.seq_len / FUSED_TILE;
        AttentionPlan {
            rows,
            seq_len: shape.seq_len,
            sequences: shape.sequences,
            d_model: shape.d_model,
            heads: shape.heads,
            kv_heads: shape.kv_heads,
            head_dim: shape.head_dim,
            group: shape.heads / shape.kv_heads,
            query_width,
            kv_width,
            qkv_width,
            key_base: query_width,
            value_base: query_width + kv_width,
            block_size,
            head_scores,
            query_step: shape.seq_len * query_width,
            qkv_step: shape.seq_len * qkv_width,
            hidden: rows * shape.d_model,
            merged: rows * query_width,
            projections: rows * qkv_width,
            scores: shape.heads * head_scores,
            score_rows: shape.heads * shape.sequences * shape.seq_len,
            query_weight,
            key_weight,
            value_weight_base: query_weight + key_weight,
            packed_weights: qkv_width * shape.d_model,
            query_pairs: rows * query_width / 2,
            key_pairs: rows * kv_width / 2,
            query_tiles: if shape.seq_len % FUSED_TILE == 0 {
                tiles
            } else {
                tiles + 1
            },
            fused: shape.fused,
        }
    }

    /// The columns of each head in rows of all heads.
    #[verifier::allow_in_spec]
    pub fn columns(&self, buffer: Buffer) -> Tile
        returns
            (Tile {
                buffer,
                offset: 0,
                shift: self.head_dim,
                shared: false,
                stride: self.query_width,
                step: self.query_step,
            }),
    {
        Tile {
            buffer,
            offset: 0,
            shift: self.head_dim,
            shared: false,
            stride: self.query_width,
            step: self.query_step,
        }
    }

    /// The columns of each head, or of each group, in the packed rows.
    #[verifier::allow_in_spec]
    pub fn packed(&self, buffer: Buffer, base: usize, shared: bool) -> Tile
        returns
            (Tile {
                buffer,
                offset: base,
                shift: self.head_dim,
                shared,
                stride: self.qkv_width,
                step: self.qkv_step,
            }),
    {
        Tile {
            buffer,
            offset: base,
            shift: self.head_dim,
            shared,
            stride: self.qkv_width,
            step: self.qkv_step,
        }
    }

    /// The scores of each head: a block per sequence.
    #[verifier::allow_in_spec]
    pub fn blocks(&self, buffer: Buffer) -> Tile
        returns
            (Tile {
                buffer,
                offset: 0,
                shift: self.head_scores,
                shared: false,
                stride: self.seq_len,
                step: self.block_size,
            }),
    {
        Tile {
            buffer,
            offset: 0,
            shift: self.head_scores,
            shared: false,
            stride: self.seq_len,
            step: self.block_size,
        }
    }

    /// The scores of a head: its queries against the keys its group shares.
    #[verifier::allow_in_spec]
    pub fn score_product(&self) -> Product
        returns
            (Product {
                kind: Kind::RhsTransposed,
                factor: Factor::Scale,
                accumulate: false,
                m: self.seq_len,
                n: self.seq_len,
                k: self.head_dim,
                a: self.packed(Buffer::Projections, 0, false),
                b: self.packed(Buffer::Projections, self.key_base, true),
                out: self.blocks(Buffer::Probabilities),
            }),
    {
        Product {
            kind: Kind::RhsTransposed,
            factor: Factor::Scale,
            accumulate: false,
            m: self.seq_len,
            n: self.seq_len,
            k: self.head_dim,
            a: self.packed(Buffer::Projections, 0, false),
            b: self.packed(Buffer::Projections, self.key_base, true),
            out: self.blocks(Buffer::Probabilities),
        }
    }

    /// What a head merges: its probabilities against the values its group shares.
    #[verifier::allow_in_spec]
    pub fn value_product(&self) -> Product
        returns
            (Product {
                kind: Kind::Plain,
                factor: Factor::One,
                accumulate: false,
                m: self.seq_len,
                n: self.head_dim,
                k: self.seq_len,
                a: self.blocks(Buffer::Probabilities),
                b: self.packed(Buffer::Projections, self.value_base, true),
                out: self.columns(Buffer::Merged),
            }),
    {
        Product {
            kind: Kind::Plain,
            factor: Factor::One,
            accumulate: false,
            m: self.seq_len,
            n: self.head_dim,
            k: self.seq_len,
            a: self.blocks(Buffer::Probabilities),
            b: self.packed(Buffer::Projections, self.value_base, true),
            out: self.columns(Buffer::Merged),
        }
    }

    /// The gradient of the probabilities of a head.
    #[verifier::allow_in_spec]
    pub fn grad_score_product(&self) -> Product
        returns
            (Product {
                kind: Kind::RhsTransposed,
                factor: Factor::One,
                accumulate: false,
                m: self.seq_len,
                n: self.seq_len,
                k: self.head_dim,
                a: self.columns(Buffer::GradMerged),
                b: self.packed(Buffer::Projections, self.value_base, true),
                out: self.blocks(Buffer::GradScores),
            }),
    {
        Product {
            kind: Kind::RhsTransposed,
            factor: Factor::One,
            accumulate: false,
            m: self.seq_len,
            n: self.seq_len,
            k: self.head_dim,
            a: self.columns(Buffer::GradMerged),
            b: self.packed(Buffer::Projections, self.value_base, true),
            out: self.blocks(Buffer::GradScores),
        }
    }

    /// The gradient of the values of a group, added up over its heads.
    #[verifier::allow_in_spec]
    pub fn grad_value_product(&self) -> Product
        returns
            (Product {
                kind: Kind::LhsTransposed,
                factor: Factor::One,
                accumulate: true,
                m: self.seq_len,
                n: self.head_dim,
                k: self.seq_len,
                a: self.blocks(Buffer::Probabilities),
                b: self.columns(Buffer::GradMerged),
                out: self.packed(Buffer::GradProjections, self.value_base, true),
            }),
    {
        Product {
            kind: Kind::LhsTransposed,
            factor: Factor::One,
            accumulate: true,
            m: self.seq_len,
            n: self.head_dim,
            k: self.seq_len,
            a: self.blocks(Buffer::Probabilities),
            b: self.columns(Buffer::GradMerged),
            out: self.packed(Buffer::GradProjections, self.value_base, true),
        }
    }

    /// The gradient of the queries of a head.
    #[verifier::allow_in_spec]
    pub fn grad_query_product(&self) -> Product
        returns
            (Product {
                kind: Kind::Plain,
                factor: Factor::Scale,
                accumulate: false,
                m: self.seq_len,
                n: self.head_dim,
                k: self.seq_len,
                a: self.blocks(Buffer::GradScores),
                b: self.packed(Buffer::Projections, self.key_base, true),
                out: self.packed(Buffer::GradProjections, 0, false),
            }),
    {
        Product {
            kind: Kind::Plain,
            factor: Factor::Scale,
            accumulate: false,
            m: self.seq_len,
            n: self.head_dim,
            k: self.seq_len,
            a: self.blocks(Buffer::GradScores),
            b: self.packed(Buffer::Projections, self.key_base, true),
            out: self.packed(Buffer::GradProjections, 0, false),
        }
    }

    /// The gradient of the keys of a group, added up over its heads.
    #[verifier::allow_in_spec]
    pub fn grad_key_product(&self) -> Product
        returns
            (Product {
                kind: Kind::LhsTransposed,
                factor: Factor::Scale,
                accumulate: true,
                m: self.seq_len,
                n: self.head_dim,
                k: self.seq_len,
                a: self.blocks(Buffer::GradScores),
                b: self.packed(Buffer::Projections, 0, false),
                out: self.packed(Buffer::GradProjections, self.key_base, true),
            }),
    {
        Product {
            kind: Kind::LhsTransposed,
            factor: Factor::Scale,
            accumulate: true,
            m: self.seq_len,
            n: self.head_dim,
            k: self.seq_len,
            a: self.blocks(Buffer::GradScores),
            b: self.packed(Buffer::Projections, 0, false),
            out: self.packed(Buffer::GradProjections, self.key_base, true),
        }
    }

    /// A product for every head and sequence.
    #[verifier::allow_in_spec]
    pub fn heads_step(&self, product: Product) -> Step
        returns
            (Step::Heads {
                heads: self.heads,
                group: self.group,
                sequences: self.sequences,
                product,
            }),
    {
        Step::Heads { heads: self.heads, group: self.group, sequences: self.sequences, product }
    }

    /// Two products for every head and sequence.
    #[verifier::allow_in_spec]
    pub fn pairs_step(&self, first: Product, second: Product) -> Step
        returns
            (Step::HeadPairs {
                heads: self.heads,
                group: self.group,
                sequences: self.sequences,
                first,
                second,
            }),
    {
        Step::HeadPairs {
            heads: self.heads,
            group: self.group,
            sequences: self.sequences,
            first,
            second,
        }
    }

    /// The sizes the fused kernels are told.
    #[verifier::allow_in_spec]
    pub fn sizes(&self) -> Sizes
        returns
            (Sizes {
                rows: self.rows,
                cols: self.query_width,
                heads: self.heads,
                head_dim: self.head_dim,
                length: self.seq_len,
                width: self.qkv_width,
                base: self.group,
            }),
    {
        Sizes {
            rows: self.rows,
            cols: self.query_width,
            heads: self.heads,
            head_dim: self.head_dim,
            length: self.seq_len,
            width: self.qkv_width,
            base: self.group,
        }
    }

    /// The rotation of some heads of the packed rows by their positions.
    #[verifier::allow_in_spec]
    pub fn rotate(
        &self,
        kernel: Kernel,
        buffer: Buffer,
        heads: usize,
        base: usize,
        pairs: usize,
    ) -> Step
        returns
            (launch(
                kernel,
                Grid::Elements(pairs),
                Sizes {
                    rows: self.rows,
                    cols: 0,
                    heads,
                    head_dim: self.head_dim,
                    length: self.seq_len,
                    width: self.qkv_width,
                    base,
                },
                reads1(start_of(buffer, self.projections)),
                writes1(start_of(buffer, self.projections)),
            )),
    {
        launch(
            kernel,
            Grid::Elements(pairs),
            Sizes {
                rows: self.rows,
                cols: 0,
                heads,
                head_dim: self.head_dim,
                length: self.seq_len,
                width: self.qkv_width,
                base,
            },
            reads1(start_of(buffer, self.projections)),
            writes1(start_of(buffer, self.projections)),
        )
    }
}

proof fn lemma_groups(heads: int, kv_heads: int)
    requires
        heads > 0,
        kv_heads > 0,
        heads % kv_heads == 0,
    ensures
        heads / kv_heads > 0,
        heads % (heads / kv_heads) == 0,
        heads / (heads / kv_heads) == kv_heads,
{
    let g = heads / kv_heads;
    vstd::arithmetic::div_mod::lemma_fundamental_div_mod(heads, kv_heads);
    assert(g > 0) by (nonlinear_arith)
        requires
            heads == kv_heads * g + 0,
            heads > 0,
            kv_heads > 0,
    ;
    vstd::arithmetic::div_mod::lemma_fundamental_div_mod_converse(heads, g, kv_heads, 0);
}

proof fn lemma_widths(shape: AttentionShape)
    requires
        shape.fits(),
    ensures
        ({
            let rows = shape.seq_len * shape.sequences;
            let query_width = shape.heads * shape.head_dim;
            let kv_width = shape.kv_heads * shape.head_dim;
            &&& 0 <= query_width <= usize::MAX
            &&& 0 <= kv_width <= usize::MAX
            &&& rows * query_width <= rows * shape.packed_width()
            &&& rows * kv_width <= rows * shape.packed_width()
            &&& shape.seq_len * query_width <= shape.seq_len * shape.packed_width()
            &&& query_width * shape.d_model + kv_width * shape.d_model <= shape.packed_width()
                * shape.d_model
            &&& 0 <= query_width * shape.d_model
            &&& 0 <= kv_width * shape.d_model
            &&& rows * query_width == rows * shape.heads * shape.head_dim
            &&& rows * kv_width == rows * shape.kv_heads * shape.head_dim
        }),
{
    let rows = shape.seq_len * shape.sequences;
    let (n, k, d, w) = (
        shape.heads as int,
        shape.kv_heads as int,
        shape.head_dim as int,
        shape.d_model as int,
    );
    let (q, v, l) = (n * d, k * d, shape.seq_len as int);
    let p = q + 2 * v;
    assert(0 <= n * d && 0 <= k * d && 0 <= rows) by (nonlinear_arith)
        requires
            n >= 0,
            k >= 0,
            d >= 0,
            rows == shape.seq_len * shape.sequences,
    ;
    assert(rows * q <= rows * p && rows * v <= rows * p && l * q <= l * p) by (nonlinear_arith)
        requires
            0 <= rows,
            0 <= l,
            0 <= q <= p,
            0 <= v <= p,
    ;
    assert(q * w + v * w <= p * w && 0 <= q * w && 0 <= v * w) by (nonlinear_arith)
        requires
            0 <= q,
            0 <= v,
            0 <= w,
            p == q + 2 * v,
    ;
    assert(rows * (n * d) == rows * n * d && rows * (k * d) == rows * k * d) by (nonlinear_arith);
}

/// The normalization and the packed projection.
pub open spec fn projection_steps(plan: AttentionPlan) -> Seq<Step> {
    seq![
        reserve(Buffer::Normed, plan.hidden),
        reserve(Buffer::InverseNorm, plan.rows),
        rmsnorm(
            Buffer::Input,
            Buffer::NormWeight,
            Buffer::Normed,
            Buffer::InverseNorm,
            plan.rows,
            plan.d_model,
            plan.hidden,
        ),
        reserve(Buffer::PackedWeights, plan.packed_weights),
        pack(
            reads3(
                start_of(Buffer::QueryWeight, plan.query_weight),
                start_of(Buffer::KeyWeight, plan.key_weight),
                start_of(Buffer::ValueWeight, plan.key_weight),
            ),
            Buffer::PackedWeights,
            plan.packed_weights,
        ),
        reserve(Buffer::Projections, plan.projections),
        project(
            tile(Buffer::Normed, 0, plan.d_model),
            tile(Buffer::PackedWeights, 0, plan.d_model),
            tile(Buffer::Projections, 0, plan.qkv_width),
            plan.rows,
            plan.qkv_width,
            plan.d_model,
            false,
        ),
    ]
}

fn projection(plan: &AttentionPlan) -> (steps: Vec<Step>)
    ensures
        steps@ == projection_steps(*plan),
{
    let steps: Vec<Step> = vec![
        reserve(Buffer::Normed, plan.hidden),
        reserve(Buffer::InverseNorm, plan.rows),
        rmsnorm(
            Buffer::Input,
            Buffer::NormWeight,
            Buffer::Normed,
            Buffer::InverseNorm,
            plan.rows,
            plan.d_model,
            plan.hidden,
        ),
        reserve(Buffer::PackedWeights, plan.packed_weights),
        pack(
            reads3(
                start_of(Buffer::QueryWeight, plan.query_weight),
                start_of(Buffer::KeyWeight, plan.key_weight),
                start_of(Buffer::ValueWeight, plan.key_weight),
            ),
            Buffer::PackedWeights,
            plan.packed_weights,
        ),
        reserve(Buffer::Projections, plan.projections),
        project(
            tile(Buffer::Normed, 0, plan.d_model),
            tile(Buffer::PackedWeights, 0, plan.d_model),
            tile(Buffer::Projections, 0, plan.qkv_width),
            plan.rows,
            plan.qkv_width,
            plan.d_model,
            false,
        ),
    ];
    assert(steps@ =~= projection_steps(*plan));
    steps
}

/// Rotations, and attention over a score matrix.
pub open spec fn scores_steps(plan: AttentionPlan) -> Seq<Step> {
    seq![
        plan.rotate(Kernel::Rope, Buffer::Projections, plan.heads, 0, plan.query_pairs),
        plan.rotate(
            Kernel::Rope,
            Buffer::Projections,
            plan.kv_heads,
            plan.key_base,
            plan.key_pairs,
        ),
        reserve(Buffer::LogSumExp, plan.score_rows),
        reserve(Buffer::Merged, plan.merged),
        reserve(Buffer::Probabilities, plan.scores),
        plan.heads_step(plan.score_product()),
        launch(
            Kernel::CausalSoftmaxLse,
            warp_per_row_grid(plan.score_rows),
            sized(plan.score_rows, plan.seq_len),
            reads1(start_of(Buffer::Probabilities, plan.scores)),
            writes2(
                start_of(Buffer::Probabilities, plan.scores),
                start_of(Buffer::LogSumExp, plan.score_rows),
            ),
        ),
        plan.heads_step(plan.value_product()),
    ]
}

fn scores(plan: &AttentionPlan) -> (steps: Vec<Step>)
    ensures
        steps@ == scores_steps(*plan),
{
    let steps: Vec<Step> = vec![
        plan.rotate(Kernel::Rope, Buffer::Projections, plan.heads, 0, plan.query_pairs),
        plan.rotate(
            Kernel::Rope,
            Buffer::Projections,
            plan.kv_heads,
            plan.key_base,
            plan.key_pairs,
        ),
        reserve(Buffer::LogSumExp, plan.score_rows),
        reserve(Buffer::Merged, plan.merged),
        reserve(Buffer::Probabilities, plan.scores),
        plan.heads_step(plan.score_product()),
        launch(
            Kernel::CausalSoftmaxLse,
            warp_per_row_grid(plan.score_rows),
            sized(plan.score_rows, plan.seq_len),
            reads1(start_of(Buffer::Probabilities, plan.scores)),
            writes2(
                start_of(Buffer::Probabilities, plan.scores),
                start_of(Buffer::LogSumExp, plan.score_rows),
            ),
        ),
        plan.heads_step(plan.value_product()),
    ];
    assert(steps@ =~= scores_steps(*plan));
    steps
}

/// Rotations, and attention in one kernel.
pub open spec fn fused_steps(plan: AttentionPlan) -> Seq<Step> {
    seq![
        plan.rotate(Kernel::Rope, Buffer::Projections, plan.heads, 0, plan.query_pairs),
        plan.rotate(
            Kernel::Rope,
            Buffer::Projections,
            plan.kv_heads,
            plan.key_base,
            plan.key_pairs,
        ),
        reserve(Buffer::LogSumExp, plan.score_rows),
        reserve(Buffer::Merged, plan.merged),
        launch(
            Kernel::FusedAttention,
            Grid::Tiles(plan.query_tiles, plan.heads, plan.sequences),
            plan.sizes(),
            reads1(start_of(Buffer::Projections, plan.projections)),
            writes2(
                start_of(Buffer::Merged, plan.merged),
                start_of(Buffer::LogSumExp, plan.score_rows),
            ),
        ),
    ]
}

fn fused(plan: &AttentionPlan) -> (steps: Vec<Step>)
    ensures
        steps@ == fused_steps(*plan),
{
    let steps: Vec<Step> = vec![
        plan.rotate(Kernel::Rope, Buffer::Projections, plan.heads, 0, plan.query_pairs),
        plan.rotate(
            Kernel::Rope,
            Buffer::Projections,
            plan.kv_heads,
            plan.key_base,
            plan.key_pairs,
        ),
        reserve(Buffer::LogSumExp, plan.score_rows),
        reserve(Buffer::Merged, plan.merged),
        launch(
            Kernel::FusedAttention,
            Grid::Tiles(plan.query_tiles, plan.heads, plan.sequences),
            plan.sizes(),
            reads1(start_of(Buffer::Projections, plan.projections)),
            writes2(
                start_of(Buffer::Merged, plan.merged),
                start_of(Buffer::LogSumExp, plan.score_rows),
            ),
        ),
    ];
    assert(steps@ =~= fused_steps(*plan));
    steps
}

/// The residual, normalized for the feed-forward, and its copy.
pub open spec fn residual_steps(plan: AttentionPlan) -> Seq<Step> {
    seq![
        reserve(Buffer::Residual, plan.hidden),
        copy(Buffer::Input, Buffer::Residual, plan.hidden),
        project(
            tile(Buffer::Merged, 0, plan.query_width),
            tile(Buffer::OutputWeight, 0, plan.query_width),
            tile(Buffer::Residual, 0, plan.d_model),
            plan.rows,
            plan.d_model,
            plan.query_width,
            true,
        ),
        reserve(Buffer::FeedForwardNormed, plan.hidden),
        reserve(Buffer::FeedForwardInverse, plan.rows),
        rmsnorm(
            Buffer::Residual,
            Buffer::FeedForwardWeight,
            Buffer::FeedForwardNormed,
            Buffer::FeedForwardInverse,
            plan.rows,
            plan.d_model,
            plan.hidden,
        ),
        reserve(Buffer::Output, plan.hidden),
        copy(Buffer::Residual, Buffer::Output, plan.hidden),
    ]
}

fn residual(plan: &AttentionPlan) -> (steps: Vec<Step>)
    ensures
        steps@ == residual_steps(*plan),
{
    let steps: Vec<Step> = vec![
        reserve(Buffer::Residual, plan.hidden),
        copy(Buffer::Input, Buffer::Residual, plan.hidden),
        project(
            tile(Buffer::Merged, 0, plan.query_width),
            tile(Buffer::OutputWeight, 0, plan.query_width),
            tile(Buffer::Residual, 0, plan.d_model),
            plan.rows,
            plan.d_model,
            plan.query_width,
            true,
        ),
        reserve(Buffer::FeedForwardNormed, plan.hidden),
        reserve(Buffer::FeedForwardInverse, plan.rows),
        rmsnorm(
            Buffer::Residual,
            Buffer::FeedForwardWeight,
            Buffer::FeedForwardNormed,
            Buffer::FeedForwardInverse,
            plan.rows,
            plan.d_model,
            plan.hidden,
        ),
        reserve(Buffer::Output, plan.hidden),
        copy(Buffer::Residual, Buffer::Output, plan.hidden),
    ];
    assert(steps@ =~= residual_steps(*plan));
    steps
}

/// The gradient of the merged heads, and of the output projection.
pub open spec fn merged_gradient_steps(plan: AttentionPlan) -> Seq<Step> {
    seq![
        reserve(Buffer::GradMerged, plan.merged),
        project_back(
            tile(Buffer::GradResidual, 0, plan.d_model),
            tile(Buffer::OutputWeight, 0, plan.query_width),
            tile(Buffer::GradMerged, 0, plan.query_width),
            plan.rows,
            plan.query_width,
            plan.d_model,
            false,
        ),
        weight_gradient(
            tile(Buffer::GradResidual, 0, plan.d_model),
            tile(Buffer::Merged, 0, plan.query_width),
            tile(Buffer::OutputGrad, 0, plan.query_width),
            plan.d_model,
            plan.query_width,
            plan.rows,
            true,
        ),
    ]
}

fn merged_gradient(plan: &AttentionPlan) -> (steps: Vec<Step>)
    ensures
        steps@ == merged_gradient_steps(*plan),
{
    let steps: Vec<Step> = vec![
        reserve(Buffer::GradMerged, plan.merged),
        project_back(
            tile(Buffer::GradResidual, 0, plan.d_model),
            tile(Buffer::OutputWeight, 0, plan.query_width),
            tile(Buffer::GradMerged, 0, plan.query_width),
            plan.rows,
            plan.query_width,
            plan.d_model,
            false,
        ),
        weight_gradient(
            tile(Buffer::GradResidual, 0, plan.d_model),
            tile(Buffer::Merged, 0, plan.query_width),
            tile(Buffer::OutputGrad, 0, plan.query_width),
            plan.d_model,
            plan.query_width,
            plan.rows,
            true,
        ),
    ];
    assert(steps@ =~= merged_gradient_steps(*plan));
    steps
}

/// The gradient of the packed projection over a score matrix.
pub open spec fn scores_gradient_steps(plan: AttentionPlan) -> Seq<Step> {
    seq![
        reserve(Buffer::Probabilities, plan.scores),
        plan.heads_step(plan.score_product()),
        launch(
            Kernel::CausalProbsFromLse,
            Grid::Elements(plan.scores),
            sized(plan.score_rows, plan.seq_len),
            reads2(
                start_of(Buffer::Probabilities, plan.scores),
                start_of(Buffer::LogSumExp, plan.score_rows),
            ),
            writes1(start_of(Buffer::Probabilities, plan.scores)),
        ),
        reserve(Buffer::GradScores, plan.scores),
        reserve(Buffer::GradProjections, plan.projections),
        clear(Buffer::GradProjections, plan.projections),
        plan.pairs_step(plan.grad_score_product(), plan.grad_value_product()),
        launch(
            Kernel::CausalSoftmaxBackward,
            warp_per_row_grid(plan.score_rows),
            sized(plan.score_rows, plan.seq_len),
            reads2(
                start_of(Buffer::GradScores, plan.scores),
                start_of(Buffer::Probabilities, plan.scores),
            ),
            writes1(start_of(Buffer::GradScores, plan.scores)),
        ),
        plan.pairs_step(plan.grad_query_product(), plan.grad_key_product()),
    ]
}

fn scores_gradient(plan: &AttentionPlan) -> (steps: Vec<Step>)
    ensures
        steps@ == scores_gradient_steps(*plan),
{
    let steps: Vec<Step> = vec![
        reserve(Buffer::Probabilities, plan.scores),
        plan.heads_step(plan.score_product()),
        launch(
            Kernel::CausalProbsFromLse,
            Grid::Elements(plan.scores),
            sized(plan.score_rows, plan.seq_len),
            reads2(
                start_of(Buffer::Probabilities, plan.scores),
                start_of(Buffer::LogSumExp, plan.score_rows),
            ),
            writes1(start_of(Buffer::Probabilities, plan.scores)),
        ),
        reserve(Buffer::GradScores, plan.scores),
        reserve(Buffer::GradProjections, plan.projections),
        clear(Buffer::GradProjections, plan.projections),
        plan.pairs_step(plan.grad_score_product(), plan.grad_value_product()),
        launch(
            Kernel::CausalSoftmaxBackward,
            warp_per_row_grid(plan.score_rows),
            sized(plan.score_rows, plan.seq_len),
            reads2(
                start_of(Buffer::GradScores, plan.scores),
                start_of(Buffer::Probabilities, plan.scores),
            ),
            writes1(start_of(Buffer::GradScores, plan.scores)),
        ),
        plan.pairs_step(plan.grad_query_product(), plan.grad_key_product()),
    ];
    assert(steps@ =~= scores_gradient_steps(*plan));
    steps
}

/// The gradient of the packed projection in fused kernels.
pub open spec fn fused_gradient_steps(plan: AttentionPlan) -> Seq<Step> {
    seq![
        reserve(Buffer::Delta, plan.score_rows),
        reserve(Buffer::GradProjections, plan.projections),
        launch(
            Kernel::FusedDelta,
            warp_per_row_grid(plan.score_rows),
            plan.sizes(),
            reads2(
                start_of(Buffer::Merged, plan.merged),
                start_of(Buffer::GradMerged, plan.merged),
            ),
            writes1(start_of(Buffer::Delta, plan.score_rows)),
        ),
        launch(
            Kernel::FusedGradients,
            Grid::Tiles(plan.query_tiles, plan.heads, plan.sequences),
            plan.sizes(),
            reads4(
                start_of(Buffer::Projections, plan.projections),
                start_of(Buffer::GradMerged, plan.merged),
                start_of(Buffer::LogSumExp, plan.score_rows),
                start_of(Buffer::Delta, plan.score_rows),
            ),
            writes1(start_of(Buffer::GradProjections, plan.projections)),
        ),
    ]
}

fn fused_gradient(plan: &AttentionPlan) -> (steps: Vec<Step>)
    ensures
        steps@ == fused_gradient_steps(*plan),
{
    let steps: Vec<Step> = vec![
        reserve(Buffer::Delta, plan.score_rows),
        reserve(Buffer::GradProjections, plan.projections),
        launch(
            Kernel::FusedDelta,
            warp_per_row_grid(plan.score_rows),
            plan.sizes(),
            reads2(
                start_of(Buffer::Merged, plan.merged),
                start_of(Buffer::GradMerged, plan.merged),
            ),
            writes1(start_of(Buffer::Delta, plan.score_rows)),
        ),
        launch(
            Kernel::FusedGradients,
            Grid::Tiles(plan.query_tiles, plan.heads, plan.sequences),
            plan.sizes(),
            reads4(
                start_of(Buffer::Projections, plan.projections),
                start_of(Buffer::GradMerged, plan.merged),
                start_of(Buffer::LogSumExp, plan.score_rows),
                start_of(Buffer::Delta, plan.score_rows),
            ),
            writes1(start_of(Buffer::GradProjections, plan.projections)),
        ),
    ];
    assert(steps@ =~= fused_gradient_steps(*plan));
    steps
}

/// Rotations undone, and the gradients of the packed projection.
pub open spec fn projection_gradient_steps(plan: AttentionPlan) -> Seq<Step> {
    seq![
        plan.rotate(Kernel::RopeBackward, Buffer::GradProjections, plan.heads, 0, plan.query_pairs),
        plan.rotate(
            Kernel::RopeBackward,
            Buffer::GradProjections,
            plan.kv_heads,
            plan.key_base,
            plan.key_pairs,
        ),
        reserve(Buffer::GradNormed, plan.hidden),
        project_back(
            tile(Buffer::GradProjections, 0, plan.qkv_width),
            tile(Buffer::PackedWeights, 0, plan.d_model),
            tile(Buffer::GradNormed, 0, plan.d_model),
            plan.rows,
            plan.d_model,
            plan.qkv_width,
            false,
        ),
        reserve(Buffer::Scratch, plan.packed_weights),
        weight_gradient(
            tile(Buffer::GradProjections, 0, plan.qkv_width),
            tile(Buffer::Normed, 0, plan.d_model),
            tile(Buffer::Scratch, 0, plan.d_model),
            plan.qkv_width,
            plan.d_model,
            plan.rows,
            false,
        ),
        add_span(Buffer::QueryGrad, Buffer::Scratch, 0, plan.query_weight),
        add_span(Buffer::KeyGrad, Buffer::Scratch, plan.query_weight, plan.key_weight),
        add_span(Buffer::ValueGrad, Buffer::Scratch, plan.value_weight_base, plan.key_weight),
    ]
}

fn projection_gradient(plan: &AttentionPlan) -> (steps: Vec<Step>)
    ensures
        steps@ == projection_gradient_steps(*plan),
{
    let steps: Vec<Step> = vec![
        plan.rotate(Kernel::RopeBackward, Buffer::GradProjections, plan.heads, 0, plan.query_pairs),
        plan.rotate(
            Kernel::RopeBackward,
            Buffer::GradProjections,
            plan.kv_heads,
            plan.key_base,
            plan.key_pairs,
        ),
        reserve(Buffer::GradNormed, plan.hidden),
        project_back(
            tile(Buffer::GradProjections, 0, plan.qkv_width),
            tile(Buffer::PackedWeights, 0, plan.d_model),
            tile(Buffer::GradNormed, 0, plan.d_model),
            plan.rows,
            plan.d_model,
            plan.qkv_width,
            false,
        ),
        reserve(Buffer::Scratch, plan.packed_weights),
        weight_gradient(
            tile(Buffer::GradProjections, 0, plan.qkv_width),
            tile(Buffer::Normed, 0, plan.d_model),
            tile(Buffer::Scratch, 0, plan.d_model),
            plan.qkv_width,
            plan.d_model,
            plan.rows,
            false,
        ),
        add_span(Buffer::QueryGrad, Buffer::Scratch, 0, plan.query_weight),
        add_span(Buffer::KeyGrad, Buffer::Scratch, plan.query_weight, plan.key_weight),
        add_span(Buffer::ValueGrad, Buffer::Scratch, plan.value_weight_base, plan.key_weight),
    ];
    assert(steps@ =~= projection_gradient_steps(*plan));
    steps
}

/// The forward pass, step by step: the residual stream after the attention,
/// normalized for the feed-forward, and a copy of it for the output.
pub open spec fn forward_steps(plan: AttentionPlan) -> Seq<Step> {
    projection_steps(plan) + (if plan.fused {
        fused_steps(plan)
    } else {
        scores_steps(plan)
    }) + residual_steps(plan)
}

/// The forward pass.
pub fn forward(plan: &AttentionPlan) -> (steps: Vec<Step>)
    ensures
        steps@ == forward_steps(*plan),
{
    let mut steps = projection(plan);
    let mut next = if plan.fused {
        fused(plan)
    } else {
        scores(plan)
    };
    steps.append(&mut next);
    let mut last = residual(plan);
    steps.append(&mut last);
    steps
}

/// The backward pass, step by step, from the gradient of the residual stream
/// to that of the normalized input. Rotations are undone by rotating the other
/// way, and the scale of the scores is the factor of the two products that
/// read their gradient.
pub open spec fn backward_steps(plan: AttentionPlan) -> Seq<Step> {
    merged_gradient_steps(plan) + (if plan.fused {
        fused_gradient_steps(plan)
    } else {
        scores_gradient_steps(plan)
    }) + projection_gradient_steps(plan)
}

/// The backward pass.
pub fn backward_attention(plan: &AttentionPlan) -> (steps: Vec<Step>)
    ensures
        steps@ == backward_steps(*plan),
{
    let mut steps = merged_gradient(plan);
    let mut next = if plan.fused {
        fused_gradient(plan)
    } else {
        scores_gradient(plan)
    };
    steps.append(&mut next);
    let mut last = projection_gradient(plan);
    steps.append(&mut last);
    steps
}

// -- Laws ----------------------------------------------------------------------

/// Whether what the forward pass reads is there.
pub open spec fn forward_ready(plan: AttentionPlan, memory: Memory) -> bool {
    &&& memory.holds(Buffer::Input, plan.hidden as int)
    &&& memory.holds(Buffer::NormWeight, plan.d_model as int)
    &&& memory.holds(Buffer::FeedForwardWeight, plan.d_model as int)
    &&& memory.holds(Buffer::QueryWeight, plan.query_weight as int)
    &&& memory.holds(Buffer::KeyWeight, plan.key_weight as int)
    &&& memory.holds(Buffer::ValueWeight, plan.key_weight as int)
    &&& memory.holds(Buffer::OutputWeight, plan.query_weight as int)
}

/// Whether what the projection makes is there.
pub open spec fn is_projected(plan: AttentionPlan, memory: Memory) -> bool {
    &&& memory.holds(Buffer::Normed, plan.hidden as int)
    &&& memory.holds(Buffer::InverseNorm, plan.rows as int)
    &&& memory.holds(Buffer::PackedWeights, plan.packed_weights as int)
    &&& memory.holds(Buffer::Projections, plan.projections as int)
}

/// Whether what the backward pass reads of the forward pass is there.
pub open spec fn is_cached(plan: AttentionPlan, memory: Memory) -> bool {
    &&& is_projected(plan, memory)
    &&& memory.holds(Buffer::LogSumExp, plan.score_rows as int)
    &&& memory.holds(Buffer::Merged, plan.merged as int)
    &&& memory.holds(Buffer::OutputWeight, plan.query_weight as int)
}

/// Whether the gradients the backward pass adds to are there.
pub open spec fn has_gradients(plan: AttentionPlan, memory: Memory) -> bool {
    &&& memory.holds(Buffer::QueryGrad, plan.query_weight as int)
    &&& memory.holds(Buffer::KeyGrad, plan.key_weight as int)
    &&& memory.holds(Buffer::ValueGrad, plan.key_weight as int)
    &&& memory.holds(Buffer::OutputGrad, plan.query_weight as int)
}

/// Whether the forward pass reserves a buffer.
pub open spec fn reserved_forward(buffer: Buffer) -> bool {
    match buffer {
        Buffer::Normed
        | Buffer::InverseNorm
        | Buffer::PackedWeights
        | Buffer::Projections
        | Buffer::LogSumExp
        | Buffer::Merged
        | Buffer::Probabilities
        | Buffer::Residual
        | Buffer::FeedForwardNormed
        | Buffer::FeedForwardInverse
        | Buffer::Output => true,
        _ => false,
    }
}

/// Whether the backward pass reserves a buffer.
pub open spec fn reserved_backward(buffer: Buffer) -> bool {
    match buffer {
        Buffer::GradMerged
        | Buffer::Delta
        | Buffer::GradProjections
        | Buffer::Probabilities
        | Buffer::GradScores
        | Buffer::GradNormed
        | Buffer::Scratch => true,
        _ => false,
    }
}

/// Whether what was there still is, but for the forward pass's own buffers.
pub open spec fn keeps_forward(before: Memory, end: Memory) -> bool {
    forall|buffer: Buffer, len: int|
        !reserved_forward(buffer) && before.holds(buffer, len) ==> #[trigger] end.holds(
            buffer,
            len,
        )
}

/// Whether what was there still is, but for the backward pass's own buffers.
pub open spec fn keeps_backward(before: Memory, end: Memory) -> bool {
    forall|buffer: Buffer, len: int|
        !reserved_backward(buffer) && before.holds(buffer, len) ==> #[trigger] end.holds(
            buffer,
            len,
        )
}

/// The tiles of a plan lie inside their buffers, and those that a pass writes
/// without clearing fill them.
proof fn lemma_tiles(plan: AttentionPlan)
    requires
        plan.wf(),
    ensures
        forall|buffer: Buffer|
            (#[trigger] plan.columns(buffer)).stays_within(
                plan.heads as int,
                plan.group as int,
                plan.sequences as int,
                plan.seq_len as int,
                plan.head_dim as int,
                plan.merged as int,
            ) && plan.columns(buffer).fills(
                plan.heads as int,
                plan.group as int,
                plan.sequences as int,
                plan.seq_len as int,
                plan.head_dim as int,
                plan.merged as int,
            ),
        forall|buffer: Buffer|
            (#[trigger] plan.blocks(buffer)).stays_within(
                plan.heads as int,
                plan.group as int,
                plan.sequences as int,
                plan.seq_len as int,
                plan.seq_len as int,
                plan.scores as int,
            ) && plan.blocks(buffer).fills(
                plan.heads as int,
                plan.group as int,
                plan.sequences as int,
                plan.seq_len as int,
                plan.seq_len as int,
                plan.scores as int,
            ),
        forall|buffer: Buffer, base: usize, shared: bool|
            base + (if shared {
                plan.kv_width
            } else {
                plan.query_width
            }) <= plan.qkv_width ==> (#[trigger] plan.packed(buffer, base, shared)).stays_within(
                plan.heads as int,
                plan.group as int,
                plan.sequences as int,
                plan.seq_len as int,
                plan.head_dim as int,
                plan.projections as int,
            ),
{
    let (h, g, s) = (plan.heads as int, plan.group as int, plan.sequences as int);
    let (l, d) = (plan.seq_len as int, plan.head_dim as int);
    lemma_regroup(l, s, plan.query_width as int);
    lemma_regroup(l, s, plan.qkv_width as int);
    assert forall|buffer: Buffer|
        (#[trigger] plan.columns(buffer)).stays_within(h, g, s, l, d, plan.merged as int)
            && plan.columns(buffer).fills(h, g, s, l, d, plan.merged as int) by {
        lemma_columns(
            plan.columns(buffer),
            h,
            g,
            s,
            l,
            d,
            plan.query_width as int,
            plan.merged as int,
        );
    }
    assert forall|buffer: Buffer|
        (#[trigger] plan.blocks(buffer)).stays_within(h, g, s, l, l, plan.scores as int)
            && plan.blocks(buffer).fills(h, g, s, l, l, plan.scores as int) by {
        lemma_blocks(plan.blocks(buffer), h, g, s, l, l, plan.scores as int);
    }
    assert forall|buffer: Buffer, base: usize, shared: bool|
        base + (if shared {
            plan.kv_width
        } else {
            plan.query_width
        }) <= plan.qkv_width implies (#[trigger] plan.packed(buffer, base, shared)).stays_within(
        h,
        g,
        s,
        l,
        d,
        plan.projections as int,
    ) by {
        lemma_columns(
            plan.packed(buffer, base, shared),
            h,
            g,
            s,
            l,
            d,
            plan.qkv_width as int,
            plan.projections as int,
        );
    }
}

proof fn lemma_regroup(rows: int, sequences: int, width: int)
    ensures
        rows * sequences * width == sequences * (rows * width),
{
    assert(rows * sequences * width == sequences * (rows * width)) by (nonlinear_arith);
}

proof fn lemma_swap(a: int, b: int)
    ensures
        a * b == b * a,
{
    assert(a * b == b * a) by (nonlinear_arith);
}

proof fn lemma_three(q: int, v: int, w: int)
    ensures
        (q + 2 * v) * w == q * w + v * w + v * w,
{
    assert((q + 2 * v) * w == q * w + v * w + v * w) by (nonlinear_arith);
}

/// What the forward pass leaves: what the backward pass reads, and what the
/// feed-forward goes on with.
pub open spec fn forward_left(plan: AttentionPlan, memory: Memory) -> bool {
    &&& is_cached(plan, memory)
    &&& memory.holds(Buffer::Residual, plan.hidden as int)
    &&& memory.holds(Buffer::FeedForwardNormed, plan.hidden as int)
    &&& memory.holds(Buffer::FeedForwardInverse, plan.rows as int)
    &&& memory.holds(Buffer::Output, plan.hidden as int)
}

proof fn lemma_projection(plan: AttentionPlan, memory: Memory)
    requires
        plan.wf(),
        forward_ready(plan, memory),
    ensures
        runs(memory, projection_steps(plan)),
        forward_ready(plan, after_all(memory, projection_steps(plan))),
        is_projected(plan, after_all(memory, projection_steps(plan))),
        keeps_forward(memory, after_all(memory, projection_steps(plan))),
{
    let steps = projection_steps(plan);
    let m0 = memory;
    lemma_one_more(m0, steps, 0, m0);
    lemma_kept(m0, steps[0]);
    let m1 = after(m0, steps[0]);
    lemma_one_more(m0, steps, 1, m1);
    lemma_kept(m1, steps[1]);
    let m2 = after(m1, steps[1]);
    lemma_one_more(m0, steps, 2, m2);
    lemma_kept(m2, steps[2]);
    let m3 = after(m2, steps[2]);
    lemma_one_more(m0, steps, 3, m3);
    lemma_kept(m3, steps[3]);
    let m4 = after(m3, steps[3]);
    lemma_one_more(m0, steps, 4, m4);
    lemma_kept(m4, steps[4]);
    let m5 = after(m4, steps[4]);
    lemma_one_more(m0, steps, 5, m5);
    lemma_kept(m5, steps[5]);
    let m6 = after(m5, steps[5]);
    lemma_project(
        m6,
        tile(Buffer::Normed, 0, plan.d_model),
        tile(Buffer::PackedWeights, 0, plan.d_model),
        tile(Buffer::Projections, 0, plan.qkv_width),
        plan.rows,
        plan.qkv_width,
        plan.d_model,
        false,
    );
    lemma_one_more(m0, steps, 6, m6);
    lemma_kept(m6, steps[6]);
    let m7 = after(m6, steps[6]);
}

proof fn lemma_scores(plan: AttentionPlan, memory: Memory)
    requires
        plan.wf(),
        forward_ready(plan, memory),
        is_projected(plan, memory),
    ensures
        runs(memory, scores_steps(plan)),
        forward_ready(plan, after_all(memory, scores_steps(plan))),
        is_cached(plan, after_all(memory, scores_steps(plan))),
        keeps_forward(memory, after_all(memory, scores_steps(plan))),
{
    let steps = scores_steps(plan);
    let m0 = memory;
    lemma_one_more(m0, steps, 0, m0);
    lemma_kept(m0, steps[0]);
    let m1 = after(m0, steps[0]);
    lemma_one_more(m0, steps, 1, m1);
    lemma_kept(m1, steps[1]);
    let m2 = after(m1, steps[1]);
    lemma_one_more(m0, steps, 2, m2);
    lemma_kept(m2, steps[2]);
    let m3 = after(m2, steps[2]);
    lemma_one_more(m0, steps, 3, m3);
    lemma_kept(m3, steps[3]);
    let m4 = after(m3, steps[3]);
    lemma_one_more(m0, steps, 4, m4);
    lemma_kept(m4, steps[4]);
    let m5 = after(m4, steps[4]);
    lemma_tiles(plan);
    lemma_one_more(m0, steps, 5, m5);
    lemma_kept(m5, steps[5]);
    let m6 = after(m5, steps[5]);
    lemma_one_more(m0, steps, 6, m6);
    lemma_kept(m6, steps[6]);
    let m7 = after(m6, steps[6]);
    lemma_one_more(m0, steps, 7, m7);
    lemma_kept(m7, steps[7]);
    let m8 = after(m7, steps[7]);
}

proof fn lemma_fused(plan: AttentionPlan, memory: Memory)
    requires
        plan.wf(),
        forward_ready(plan, memory),
        is_projected(plan, memory),
    ensures
        runs(memory, fused_steps(plan)),
        forward_ready(plan, after_all(memory, fused_steps(plan))),
        is_cached(plan, after_all(memory, fused_steps(plan))),
        keeps_forward(memory, after_all(memory, fused_steps(plan))),
{
    let steps = fused_steps(plan);
    let m0 = memory;
    lemma_one_more(m0, steps, 0, m0);
    lemma_kept(m0, steps[0]);
    let m1 = after(m0, steps[0]);
    lemma_one_more(m0, steps, 1, m1);
    lemma_kept(m1, steps[1]);
    let m2 = after(m1, steps[1]);
    lemma_one_more(m0, steps, 2, m2);
    lemma_kept(m2, steps[2]);
    let m3 = after(m2, steps[2]);
    lemma_one_more(m0, steps, 3, m3);
    lemma_kept(m3, steps[3]);
    let m4 = after(m3, steps[3]);
    lemma_one_more(m0, steps, 4, m4);
    lemma_kept(m4, steps[4]);
    let m5 = after(m4, steps[4]);
}

proof fn lemma_residual(plan: AttentionPlan, memory: Memory)
    requires
        plan.wf(),
        forward_ready(plan, memory),
        is_cached(plan, memory),
    ensures
        runs(memory, residual_steps(plan)),
        forward_left(plan, after_all(memory, residual_steps(plan))),
        keeps_forward(memory, after_all(memory, residual_steps(plan))),
{
    let steps = residual_steps(plan);
    let m0 = memory;
    lemma_swap(plan.query_width as int, plan.d_model as int);
    lemma_one_more(m0, steps, 0, m0);
    lemma_kept(m0, steps[0]);
    let m1 = after(m0, steps[0]);
    lemma_one_more(m0, steps, 1, m1);
    lemma_kept(m1, steps[1]);
    let m2 = after(m1, steps[1]);
    lemma_project(
        m2,
        tile(Buffer::Merged, 0, plan.query_width),
        tile(Buffer::OutputWeight, 0, plan.query_width),
        tile(Buffer::Residual, 0, plan.d_model),
        plan.rows,
        plan.d_model,
        plan.query_width,
        true,
    );
    lemma_one_more(m0, steps, 2, m2);
    lemma_kept(m2, steps[2]);
    let m3 = after(m2, steps[2]);
    lemma_one_more(m0, steps, 3, m3);
    lemma_kept(m3, steps[3]);
    let m4 = after(m3, steps[3]);
    lemma_one_more(m0, steps, 4, m4);
    lemma_kept(m4, steps[4]);
    let m5 = after(m4, steps[4]);
    lemma_one_more(m0, steps, 5, m5);
    lemma_kept(m5, steps[5]);
    let m6 = after(m5, steps[5]);
    lemma_one_more(m0, steps, 6, m6);
    lemma_kept(m6, steps[6]);
    let m7 = after(m6, steps[6]);
    lemma_one_more(m0, steps, 7, m7);
    lemma_kept(m7, steps[7]);
    let m8 = after(m7, steps[7]);
}

proof fn lemma_merged_gradient(plan: AttentionPlan, memory: Memory)
    requires
        plan.wf(),
        is_cached(plan, memory),
        has_gradients(plan, memory),
        memory.holds(Buffer::GradResidual, plan.hidden as int),
    ensures
        runs(memory, merged_gradient_steps(plan)),
        is_cached(plan, after_all(memory, merged_gradient_steps(plan))),
        has_gradients(plan, after_all(memory, merged_gradient_steps(plan))),
        after_all(memory, merged_gradient_steps(plan)).holds(Buffer::GradMerged, plan.merged as int),
        keeps_backward(memory, after_all(memory, merged_gradient_steps(plan))),
{
    let steps = merged_gradient_steps(plan);
    let m0 = memory;
    lemma_swap(plan.query_width as int, plan.d_model as int);
    lemma_one_more(m0, steps, 0, m0);
    lemma_kept(m0, steps[0]);
    let m1 = after(m0, steps[0]);
    lemma_project_back(
        m1,
        tile(Buffer::GradResidual, 0, plan.d_model),
        tile(Buffer::OutputWeight, 0, plan.query_width),
        tile(Buffer::GradMerged, 0, plan.query_width),
        plan.rows,
        plan.query_width,
        plan.d_model,
        false,
    );
    lemma_one_more(m0, steps, 1, m1);
    lemma_kept(m1, steps[1]);
    let m2 = after(m1, steps[1]);
    lemma_weight_gradient(
        m2,
        tile(Buffer::GradResidual, 0, plan.d_model),
        tile(Buffer::Merged, 0, plan.query_width),
        tile(Buffer::OutputGrad, 0, plan.query_width),
        plan.d_model,
        plan.query_width,
        plan.rows,
        true,
    );
    lemma_one_more(m0, steps, 2, m2);
    lemma_kept(m2, steps[2]);
    let m3 = after(m2, steps[2]);
}

proof fn lemma_scores_gradient(plan: AttentionPlan, memory: Memory)
    requires
        plan.wf(),
        is_cached(plan, memory),
        has_gradients(plan, memory),
        memory.holds(Buffer::GradMerged, plan.merged as int),
    ensures
        runs(memory, scores_gradient_steps(plan)),
        is_cached(plan, after_all(memory, scores_gradient_steps(plan))),
        has_gradients(plan, after_all(memory, scores_gradient_steps(plan))),
        after_all(memory, scores_gradient_steps(plan)).holds(Buffer::GradProjections, plan.projections as int),
        keeps_backward(memory, after_all(memory, scores_gradient_steps(plan))),
{
    let steps = scores_gradient_steps(plan);
    let m0 = memory;
    lemma_one_more(m0, steps, 0, m0);
    lemma_kept(m0, steps[0]);
    let m1 = after(m0, steps[0]);
    lemma_tiles(plan);
    lemma_one_more(m0, steps, 1, m1);
    lemma_kept(m1, steps[1]);
    let m2 = after(m1, steps[1]);
    lemma_one_more(m0, steps, 2, m2);
    lemma_kept(m2, steps[2]);
    let m3 = after(m2, steps[2]);
    lemma_one_more(m0, steps, 3, m3);
    lemma_kept(m3, steps[3]);
    let m4 = after(m3, steps[3]);
    lemma_one_more(m0, steps, 4, m4);
    lemma_kept(m4, steps[4]);
    let m5 = after(m4, steps[4]);
    lemma_one_more(m0, steps, 5, m5);
    lemma_kept(m5, steps[5]);
    let m6 = after(m5, steps[5]);
    lemma_one_more(m0, steps, 6, m6);
    lemma_kept(m6, steps[6]);
    let m7 = after(m6, steps[6]);
    lemma_one_more(m0, steps, 7, m7);
    lemma_kept(m7, steps[7]);
    let m8 = after(m7, steps[7]);
    lemma_one_more(m0, steps, 8, m8);
    lemma_kept(m8, steps[8]);
    let m9 = after(m8, steps[8]);
}

proof fn lemma_fused_gradient(plan: AttentionPlan, memory: Memory)
    requires
        plan.wf(),
        is_cached(plan, memory),
        has_gradients(plan, memory),
        memory.holds(Buffer::GradMerged, plan.merged as int),
    ensures
        runs(memory, fused_gradient_steps(plan)),
        is_cached(plan, after_all(memory, fused_gradient_steps(plan))),
        has_gradients(plan, after_all(memory, fused_gradient_steps(plan))),
        after_all(memory, fused_gradient_steps(plan)).holds(Buffer::GradProjections, plan.projections as int),
        keeps_backward(memory, after_all(memory, fused_gradient_steps(plan))),
{
    let steps = fused_gradient_steps(plan);
    let m0 = memory;
    lemma_one_more(m0, steps, 0, m0);
    lemma_kept(m0, steps[0]);
    let m1 = after(m0, steps[0]);
    lemma_one_more(m0, steps, 1, m1);
    lemma_kept(m1, steps[1]);
    let m2 = after(m1, steps[1]);
    lemma_one_more(m0, steps, 2, m2);
    lemma_kept(m2, steps[2]);
    let m3 = after(m2, steps[2]);
    lemma_one_more(m0, steps, 3, m3);
    lemma_kept(m3, steps[3]);
    let m4 = after(m3, steps[3]);
}

proof fn lemma_projection_gradient(plan: AttentionPlan, memory: Memory)
    requires
        plan.wf(),
        is_cached(plan, memory),
        has_gradients(plan, memory),
        memory.holds(Buffer::GradProjections, plan.projections as int),
    ensures
        runs(memory, projection_gradient_steps(plan)),
        after_all(memory, projection_gradient_steps(plan)).holds(Buffer::GradNormed, plan.hidden as int),
        keeps_backward(memory, after_all(memory, projection_gradient_steps(plan))),
{
    let steps = projection_gradient_steps(plan);
    let m0 = memory;
    lemma_swap(plan.query_width as int, plan.d_model as int);
    lemma_three(plan.query_width as int, plan.kv_width as int, plan.d_model as int);
    lemma_one_more(m0, steps, 0, m0);
    lemma_kept(m0, steps[0]);
    let m1 = after(m0, steps[0]);
    lemma_one_more(m0, steps, 1, m1);
    lemma_kept(m1, steps[1]);
    let m2 = after(m1, steps[1]);
    lemma_one_more(m0, steps, 2, m2);
    lemma_kept(m2, steps[2]);
    let m3 = after(m2, steps[2]);
    lemma_project_back(
        m3,
        tile(Buffer::GradProjections, 0, plan.qkv_width),
        tile(Buffer::PackedWeights, 0, plan.d_model),
        tile(Buffer::GradNormed, 0, plan.d_model),
        plan.rows,
        plan.d_model,
        plan.qkv_width,
        false,
    );
    lemma_one_more(m0, steps, 3, m3);
    lemma_kept(m3, steps[3]);
    let m4 = after(m3, steps[3]);
    lemma_one_more(m0, steps, 4, m4);
    lemma_kept(m4, steps[4]);
    let m5 = after(m4, steps[4]);
    lemma_weight_gradient(
        m5,
        tile(Buffer::GradProjections, 0, plan.qkv_width),
        tile(Buffer::Normed, 0, plan.d_model),
        tile(Buffer::Scratch, 0, plan.d_model),
        plan.qkv_width,
        plan.d_model,
        plan.rows,
        false,
    );
    lemma_one_more(m0, steps, 5, m5);
    lemma_kept(m5, steps[5]);
    let m6 = after(m5, steps[5]);
    lemma_one_more(m0, steps, 6, m6);
    lemma_kept(m6, steps[6]);
    let m7 = after(m6, steps[6]);
    lemma_one_more(m0, steps, 7, m7);
    lemma_kept(m7, steps[7]);
    let m8 = after(m7, steps[7]);
    lemma_one_more(m0, steps, 8, m8);
    lemma_kept(m8, steps[8]);
    let m9 = after(m8, steps[8]);
}

/// The forward pass never leaves its buffers, and every buffer is written in
/// full before it is read, although none is cleared. Fused or not, it leaves
/// the same buffers, and those it did not reserve as they were.
pub proof fn law_forward_runs(plan: AttentionPlan, memory: Memory)
    requires
        plan.wf(),
        forward_ready(plan, memory),
    ensures
        runs(memory, forward_steps(plan)),
        forward_left(plan, after_all(memory, forward_steps(plan))),
        keeps_forward(memory, after_all(memory, forward_steps(plan))),
{
    lemma_projection(plan, memory);
    let projected = after_all(memory, projection_steps(plan));
    let middle = if plan.fused {
        lemma_fused(plan, projected);
        fused_steps(plan)
    } else {
        lemma_scores(plan, projected);
        scores_steps(plan)
    };
    lemma_concat(memory, projection_steps(plan), middle);
    lemma_residual(plan, after_all(projected, middle));
    lemma_concat(memory, projection_steps(plan) + middle, residual_steps(plan));
}

/// The backward pass never leaves its buffers, and every buffer is written in
/// full before it is read; only the packed gradient that the heads of a group
/// share is cleared, and only where it is added to.
pub proof fn law_backward_runs(plan: AttentionPlan, memory: Memory)
    requires
        plan.wf(),
        is_cached(plan, memory),
        has_gradients(plan, memory),
        memory.holds(Buffer::GradResidual, plan.hidden as int),
    ensures
        runs(memory, backward_steps(plan)),
        after_all(memory, backward_steps(plan)).holds(Buffer::GradNormed, plan.hidden as int),
        keeps_backward(memory, after_all(memory, backward_steps(plan))),
{
    lemma_merged_gradient(plan, memory);
    let merged = after_all(memory, merged_gradient_steps(plan));
    let middle = if plan.fused {
        lemma_fused_gradient(plan, merged);
        fused_gradient_steps(plan)
    } else {
        lemma_scores_gradient(plan, merged);
        scores_gradient_steps(plan)
    };
    lemma_concat(memory, merged_gradient_steps(plan), middle);
    lemma_projection_gradient(plan, after_all(merged, middle));
    lemma_concat(memory, merged_gradient_steps(plan) + middle, projection_gradient_steps(plan));
}

} // verus!
