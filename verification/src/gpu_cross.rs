//! Cross-attention on the device: one token set attending to another.
//!
//! Queries and keys come from different buffers with different widths, and
//! there are two lengths: the queries of a sequence attend to all keys of the
//! same sequence. There are no rotary positions and no mask.
use crate::device::{
    add_span, after, after_all, clear, copy, launch, pack, project, project_back, reads1, reads2, reserve,
    runs, sized, start_of, tile, warp_per_row_grid, weight_gradient, writes1, writes2, Buffer,
    Factor, Grid, Kernel, Kind, Memory, Product, Step, Tile,
};
use crate::error::{invalid_config, Fault, NetworkError};
use crate::text::{decimal, with_number, with_text, with_two_numbers};
use crate::tiles::{
    lemma_blocks, lemma_columns, lemma_one_more, lemma_project, lemma_project_back,
    lemma_weight_gradient,
};
use vstd::prelude::*;

verus! {

/// Where one cross-attention's queries, keys and values live, and how they are
/// grouped into sequences.
#[derive(Clone, Copy, Debug, PartialEq, Eq, Structural)]
pub struct CrossShape {
    /// Queries per sequence.
    pub q_len: usize,
    /// Keys and values per sequence.
    pub kv_len: usize,
    pub sequences: usize,
}

impl CrossShape {
    /// The rows of the queries.
    pub fn q_rows(&self) -> (rows: usize)
        requires
            self.q_len * self.sequences <= usize::MAX,
        ensures
            rows == self.q_len * self.sequences,
    {
        self.q_len * self.sequences
    }

    /// The rows of the keys.
    pub fn kv_rows(&self) -> (rows: usize)
        requires
            self.kv_len * self.sequences <= usize::MAX,
        ensures
            rows == self.kv_len * self.sequences,
    {
        self.kv_len * self.sequences
    }
}

/// What a pass reads of an attention layer. Several query heads share one key
/// head.
#[derive(Clone, Copy, Debug, PartialEq, Eq, Structural)]
pub struct CrossLayer {
    pub d_model: usize,
    pub kv_features: usize,
    pub heads: usize,
    pub kv_heads: usize,
    pub head_dim: usize,
    pub rope: bool,
    pub causal: bool,
}

impl CrossLayer {
    /// Whether the query heads come in groups of one size.
    pub open spec fn wf(&self) -> bool {
        self.kv_heads > 0 && self.heads % self.kv_heads == 0
    }

    /// Whether every buffer of a pass is short enough to be counted.
    pub open spec fn fits(&self, shape: CrossShape) -> bool {
        let query_width = self.heads * self.head_dim;
        let kv_stride = 2 * (self.kv_heads * self.head_dim);
        let q_rows = shape.q_len * shape.sequences;
        let kv_rows = shape.kv_len * shape.sequences;
        &&& query_width <= usize::MAX
        &&& kv_stride <= usize::MAX
        &&& q_rows <= usize::MAX
        &&& kv_rows <= usize::MAX
        &&& q_rows * self.d_model <= usize::MAX
        &&& kv_rows * self.kv_features <= usize::MAX
        &&& q_rows * query_width <= usize::MAX
        &&& kv_rows * kv_stride <= usize::MAX
        &&& shape.q_len * query_width <= usize::MAX
        &&& shape.kv_len * kv_stride <= usize::MAX
        &&& query_width * self.d_model <= usize::MAX
        &&& kv_stride * self.kv_features <= usize::MAX
        &&& shape.q_len * shape.kv_len <= usize::MAX
        &&& shape.sequences * (shape.q_len * shape.kv_len) <= usize::MAX
        &&& self.heads * (shape.sequences * (shape.q_len * shape.kv_len)) <= usize::MAX
        &&& self.heads * shape.sequences <= usize::MAX
        &&& self.heads * shape.sequences * shape.q_len <= usize::MAX
    }
}

/// The widths, offsets and lengths both passes derive from the layer, in one
/// place so the two cannot disagree about where a head's keys start.
#[derive(Clone, Copy, Debug, PartialEq, Eq, Structural)]
pub struct Plan {
    pub q_len: usize,
    pub kv_len: usize,
    pub sequences: usize,
    pub q_rows: usize,
    pub kv_rows: usize,
    pub d_model: usize,
    pub d_kv: usize,
    pub heads: usize,
    pub group: usize,
    pub head_dim: usize,
    pub query_width: usize,
    /// Key and value packed: the stride of one row of the fused buffer.
    pub kv_stride: usize,
    pub key_base: usize,
    pub value_base: usize,
    pub block_size: usize,
    /// From one head's scores to the next head's.
    pub head_scores: usize,
    /// From one sequence's queries, or keys, to the next sequence's.
    pub q_step: usize,
    pub kv_step: usize,
    /// How long the buffers are.
    pub queries_in: usize,
    pub keys_in: usize,
    pub queries: usize,
    pub keys_values: usize,
    pub scores: usize,
    pub score_rows: usize,
    pub query_weight: usize,
    pub key_weight: usize,
    pub key_weights: usize,
}

/// Why there is no plan for a layer and a shape, when there is none.
pub open spec fn objection(layer: CrossLayer, shape: CrossShape) -> Option<Fault> {
    if shape.q_len == 0 || shape.kv_len == 0 || shape.sequences == 0 {
        Some(
            Fault::InvalidConfig(
                "cross-attention needs a non-empty shape, not "@ + decimal(shape.q_len as nat)
                    + " x "@ + decimal(shape.kv_len as nat) + " over "@ + decimal(
                    shape.sequences as nat,
                ) + " sequences"@,
            ),
        )
    } else if layer.rope || layer.causal {
        Some(
            Fault::InvalidConfig(
                "device cross-attention wants a layer built with `MultiHeadAttention::cross`: rotary positions and the causal mask both have to be off"@,
            ),
        )
    } else {
        None
    }
}

impl Plan {
    /// Whether the widths and lengths are those of the layer and the shape.
    pub open spec fn is_of(&self, layer: CrossLayer, shape: CrossShape) -> bool {
        &&& self.q_len == shape.q_len
        &&& self.kv_len == shape.kv_len
        &&& self.sequences == shape.sequences
        &&& self.d_model == layer.d_model
        &&& self.d_kv == layer.kv_features
        &&& self.heads == layer.heads
        &&& self.head_dim == layer.head_dim
        &&& self.group == layer.heads / layer.kv_heads
        &&& self.value_base == layer.kv_heads * layer.head_dim
    }

    /// Whether the widths and lengths go together.
    pub open spec fn wf(&self) -> bool {
        &&& self.q_rows == self.q_len * self.sequences
        &&& self.kv_rows == self.kv_len * self.sequences
        &&& self.heads > 0 ==> self.group > 0 && self.heads % self.group == 0
        &&& self.query_width == self.heads * self.head_dim
        &&& self.heads > 0 ==> self.value_base == (self.heads as int / self.group as int)
            * self.head_dim
        &&& self.kv_stride == 2 * self.value_base
        &&& self.key_base == 0
        &&& self.block_size == self.q_len * self.kv_len
        &&& self.head_scores == self.sequences * self.block_size
        &&& self.q_step == self.q_len * self.query_width
        &&& self.kv_step == self.kv_len * self.kv_stride
        &&& self.queries_in == self.q_rows * self.d_model
        &&& self.keys_in == self.kv_rows * self.d_kv
        &&& self.queries == self.q_rows * self.query_width
        &&& self.keys_values == self.kv_rows * self.kv_stride
        &&& self.scores == self.heads * self.head_scores
        &&& self.score_rows == self.heads * self.sequences * self.q_len
        &&& self.query_weight == self.query_width * self.d_model
        &&& self.key_weight == self.value_base * self.d_kv
        &&& self.key_weights == self.kv_stride * self.d_kv
    }

    /// The plan of a layer for a shape.
    pub fn new(layer: CrossLayer, shape: CrossShape) -> (plan: Result<Plan, NetworkError>)
        requires
            layer.wf(),
            layer.fits(shape),
        ensures
            match plan {
                Ok(plan) => objection(layer, shape) is None && plan.is_of(layer, shape)
                    && plan.wf(),
                Err(error) => objection(layer, shape) == Some(error@),
            },
    {
        if shape.q_len == 0 || shape.kv_len == 0 || shape.sequences == 0 {
            let first = with_two_numbers(
                "cross-attention needs a non-empty shape, not ",
                shape.q_len as u64,
                " x ",
                shape.kv_len as u64,
                " over ",
            );
            let second = with_number("", shape.sequences as u64, " sequences");
            let message = with_text(first.as_str(), second.as_str(), "");
            proof {
                reveal_strlit("");
                assert(message@ =~= "cross-attention needs a non-empty shape, not "@ + decimal(
                    shape.q_len as nat,
                ) + " x "@ + decimal(shape.kv_len as nat) + " over "@ + decimal(
                    shape.sequences as nat,
                ) + " sequences"@);
            }
            return Err(NetworkError::InvalidConfig(message));
        }
        if layer.rope || layer.causal {
            return Err(
                invalid_config(
                    "device cross-attention wants a layer built with `MultiHeadAttention::cross`: rotary positions and the causal mask both have to be off",
                ),
            );
        }
        proof {
            lemma_groups(layer.heads as int, layer.kv_heads as int);
            lemma_half(layer.kv_heads * layer.head_dim, layer.kv_features as int);
        }
        let query_width: usize = layer.heads * layer.head_dim;
        let kv_width: usize = layer.kv_heads * layer.head_dim;
        let kv_stride: usize = 2 * kv_width;
        let q_rows: usize = shape.q_rows();
        let kv_rows: usize = shape.kv_rows();
        let block_size: usize = shape.q_len * shape.kv_len;
        let head_scores: usize = shape.sequences * block_size;
        Ok(
            Plan {
                q_len: shape.q_len,
                kv_len: shape.kv_len,
                sequences: shape.sequences,
                q_rows,
                kv_rows,
                d_model: layer.d_model,
                d_kv: layer.kv_features,
                heads: layer.heads,
                group: layer.heads / layer.kv_heads,
                head_dim: layer.head_dim,
                query_width,
                kv_stride,
                key_base: 0,
                value_base: kv_width,
                block_size,
                head_scores,
                q_step: shape.q_len * query_width,
                kv_step: shape.kv_len * kv_stride,
                queries_in: q_rows * layer.d_model,
                keys_in: kv_rows * layer.kv_features,
                queries: q_rows * query_width,
                keys_values: kv_rows * kv_stride,
                scores: layer.heads * head_scores,
                score_rows: layer.heads * shape.sequences * shape.q_len,
                query_weight: query_width * layer.d_model,
                key_weight: kv_width * layer.kv_features,
                key_weights: kv_stride * layer.kv_features,
            },
        )
    }

    /// Where a head's key and value columns start inside their half of a fused
    /// row. The heads of a group share one.
    pub fn kv_base(&self, head: usize) -> (base: usize)
        requires
            self.wf(),
            head < self.heads,
        ensures
            base == (head as int / self.group as int) * self.head_dim,
            base + self.head_dim <= self.value_base,
    {
        proof {
            let (h, n, g, d) = (
                head as int,
                self.heads as int,
                self.group as int,
                self.head_dim as int,
            );
            vstd::arithmetic::div_mod::lemma_fundamental_div_mod(n, g);
            vstd::arithmetic::div_mod::lemma_fundamental_div_mod(h, g);
            let (q, r, k) = (h / g, h % g, n / g);
            assert(0 <= q < k) by (nonlinear_arith)
                requires
                    h == g * q + r,
                    0 <= r < g,
                    n == g * k + 0,
                    0 <= h < n,
            ;
            assert(0 <= q * d && q * d + d <= k * d) by (nonlinear_arith)
                requires
                    0 <= q < k,
                    0 <= d,
            ;
        }
        (head / self.group) * self.head_dim
    }

    /// The columns of each head in the rows of the queries.
    #[verifier::allow_in_spec]
    pub fn columns(&self, buffer: Buffer) -> Tile
        returns
            (Tile {
                buffer,
                offset: 0,
                shift: self.head_dim,
                shared: false,
                stride: self.query_width,
                step: self.q_step,
            }),
    {
        Tile {
            buffer,
            offset: 0,
            shift: self.head_dim,
            shared: false,
            stride: self.query_width,
            step: self.q_step,
        }
    }

    /// The columns of each group in one half of the fused rows.
    #[verifier::allow_in_spec]
    pub fn keys(&self, buffer: Buffer, base: usize) -> Tile
        returns
            (Tile {
                buffer,
                offset: base,
                shift: self.head_dim,
                shared: true,
                stride: self.kv_stride,
                step: self.kv_step,
            }),
    {
        Tile {
            buffer,
            offset: base,
            shift: self.head_dim,
            shared: true,
            stride: self.kv_stride,
            step: self.kv_step,
        }
    }

    /// The scores of each head: a block per sequence.
    #[verifier::allow_in_spec]
    pub fn blocks(&self, buffer: Buffer) -> Tile
        returns
            (Tile {
                buffer,
                offset: 0,
                shift: self.head_scores,
                shared: false,
                stride: self.kv_len,
                step: self.block_size,
            }),
    {
        Tile {
            buffer,
            offset: 0,
            shift: self.head_scores,
            shared: false,
            stride: self.kv_len,
            step: self.block_size,
        }
    }

    /// The scores of a head: its queries against the keys its group shares.
    #[verifier::allow_in_spec]
    pub fn score_product(&self) -> Product
        returns
            (Product {
                kind: Kind::RhsTransposed,
                factor: Factor::Scale,
                accumulate: false,
                m: self.q_len,
                n: self.kv_len,
                k: self.head_dim,
                a: self.columns(Buffer::Query),
                b: self.keys(Buffer::KeysValues, self.key_base),
                out: self.blocks(Buffer::Probabilities),
            }),
    {
        Product {
            kind: Kind::RhsTransposed,
            factor: Factor::Scale,
            accumulate: false,
            m: self.q_len,
            n: self.kv_len,
            k: self.head_dim,
            a: self.columns(Buffer::Query),
            b: self.keys(Buffer::KeysValues, self.key_base),
            out: self.blocks(Buffer::Probabilities),
        }
    }

    /// What a head merges: its probabilities against the values its group shares.
    #[verifier::allow_in_spec]
    pub fn value_product(&self) -> Product
        returns
            (Product {
                kind: Kind::Plain,
                factor: Factor::One,
                accumulate: false,
                m: self.q_len,
                n: self.head_dim,
                k: self.kv_len,
                a: self.blocks(Buffer::Probabilities),
                b: self.keys(Buffer::KeysValues, self.value_base),
                out: self.columns(Buffer::Merged),
            }),
    {
        Product {
            kind: Kind::Plain,
            factor: Factor::One,
            accumulate: false,
            m: self.q_len,
            n: self.head_dim,
            k: self.kv_len,
            a: self.blocks(Buffer::Probabilities),
            b: self.keys(Buffer::KeysValues, self.value_base),
            out: self.columns(Buffer::Merged),
        }
    }

    /// The gradient of the probabilities of a head.
    #[verifier::allow_in_spec]
    pub fn grad_score_product(&self) -> Product
        returns
            (Product {
                kind: Kind::RhsTransposed,
                factor: Factor::One,
                accumulate: false,
                m: self.q_len,
                n: self.kv_len,
                k: self.head_dim,
                a: self.columns(Buffer::GradMerged),
                b: self.keys(Buffer::KeysValues, self.value_base),
                out: self.blocks(Buffer::GradScores),
            }),
    {
        Product {
            kind: Kind::RhsTransposed,
            factor: Factor::One,
            accumulate: false,
            m: self.q_len,
            n: self.kv_len,
            k: self.head_dim,
            a: self.columns(Buffer::GradMerged),
            b: self.keys(Buffer::KeysValues, self.value_base),
            out: self.blocks(Buffer::GradScores),
        }
    }

    /// The gradient of the values of a group, added up over its heads.
    #[verifier::allow_in_spec]
    pub fn grad_value_product(&self) -> Product
        returns
            (Product {
                kind: Kind::LhsTransposed,
                factor: Factor::One,
                accumulate: true,
                m: self.kv_len,
                n: self.head_dim,
                k: self.q_len,
                a: self.blocks(Buffer::Probabilities),
                b: self.columns(Buffer::GradMerged),
                out: self.keys(Buffer::GradKeysValues, self.value_base),
            }),
    {
        Product {
            kind: Kind::LhsTransposed,
            factor: Factor::One,
            accumulate: true,
            m: self.kv_len,
            n: self.head_dim,
            k: self.q_len,
            a: self.blocks(Buffer::Probabilities),
            b: self.columns(Buffer::GradMerged),
            out: self.keys(Buffer::GradKeysValues, self.value_base),
        }
    }

    /// The gradient of the queries of a head.
    #[verifier::allow_in_spec]
    pub fn grad_query_product(&self) -> Product
        returns
            (Product {
                kind: Kind::Plain,
                factor: Factor::Scale,
                accumulate: false,
                m: self.q_len,
                n: self.head_dim,
                k: self.kv_len,
                a: self.blocks(Buffer::GradScores),
                b: self.keys(Buffer::KeysValues, self.key_base),
                out: self.columns(Buffer::GradQueries),
            }),
    {
        Product {
            kind: Kind::Plain,
            factor: Factor::Scale,
            accumulate: false,
            m: self.q_len,
            n: self.head_dim,
            k: self.kv_len,
            a: self.blocks(Buffer::GradScores),
            b: self.keys(Buffer::KeysValues, self.key_base),
            out: self.columns(Buffer::GradQueries),
        }
    }

    /// The gradient of the keys of a group, added up over its heads.
    #[verifier::allow_in_spec]
    pub fn grad_key_product(&self) -> Product
        returns
            (Product {
                kind: Kind::LhsTransposed,
                factor: Factor::Scale,
                accumulate: true,
                m: self.kv_len,
                n: self.head_dim,
                k: self.q_len,
                a: self.blocks(Buffer::GradScores),
                b: self.columns(Buffer::Query),
                out: self.keys(Buffer::GradKeysValues, self.key_base),
            }),
    {
        Product {
            kind: Kind::LhsTransposed,
            factor: Factor::Scale,
            accumulate: true,
            m: self.kv_len,
            n: self.head_dim,
            k: self.q_len,
            a: self.blocks(Buffer::GradScores),
            b: self.columns(Buffer::Query),
            out: self.keys(Buffer::GradKeysValues, self.key_base),
        }
    }

    /// A product for every head and sequence.
    #[verifier::allow_in_spec]
    pub fn heads_step(&self, product: Product) -> Step
        returns
            (Step::Heads {
                heads: self.heads,
                group: self.group,
                sequences: self.sequences,
                product,
            }),
    {
        Step::Heads { heads: self.heads, group: self.group, sequences: self.sequences, product }
    }

    /// Two products for every head and sequence.
    #[verifier::allow_in_spec]
    pub fn pairs_step(&self, first: Product, second: Product) -> Step
        returns
            (Step::HeadPairs {
                heads: self.heads,
                group: self.group,
                sequences: self.sequences,
                first,
                second,
            }),
    {
        Step::HeadPairs {
            heads: self.heads,
            group: self.group,
            sequences: self.sequences,
            first,
            second,
        }
    }
}

proof fn lemma_groups(heads: int, kv_heads: int)
    requires
        heads >= 0,
        kv_heads > 0,
        heads % kv_heads == 0,
    ensures
        heads > 0 ==> heads / kv_heads > 0 && heads % (heads / kv_heads) == 0 && heads / (heads
            / kv_heads) == kv_heads,
{
    let g = heads / kv_heads;
    vstd::arithmetic::div_mod::lemma_fundamental_div_mod(heads, kv_heads);
    if heads > 0 {
        assert(g > 0) by (nonlinear_arith)
            requires
                heads == kv_heads * g + 0,
                heads > 0,
                kv_heads > 0,
        ;
        assert(heads == kv_heads * g + 0);
        vstd::arithmetic::div_mod::lemma_fundamental_div_mod_converse(heads, g, kv_heads, 0);
    }
}

proof fn lemma_half(kv_width: int, features: int)
    requires
        0 <= kv_width,
        0 <= features,
        2 * kv_width * features <= usize::MAX,
    ensures
        kv_width * features <= usize::MAX,
        2 * kv_width * features == kv_width * features + kv_width * features,
{
    assert(2 * kv_width * features == kv_width * features + kv_width * features)
        by (nonlinear_arith);
    assert(0 <= kv_width * features) by (nonlinear_arith)
        requires
            0 <= kv_width,
            0 <= features,
    ;
}

/// The forward pass, step by step: `output(merge(softmax(Q K^T * scale) V))`,
/// with the queries from one input and the keys and values from another.
pub open spec fn forward_steps(plan: Plan) -> Seq<Step> {
    seq![
        reserve(Buffer::InputCopy, plan.queries_in),
        copy(Buffer::Input, Buffer::InputCopy, plan.queries_in),
        reserve(Buffer::KeysCopy, plan.keys_in),
        copy(Buffer::KeysInput, Buffer::KeysCopy, plan.keys_in),
        reserve(Buffer::PackedWeights, plan.query_weight),
        pack(
            reads1(start_of(Buffer::QueryWeight, plan.query_weight)),
            Buffer::PackedWeights,
            plan.query_weight,
        ),
        reserve(Buffer::PackedKeyWeights, plan.key_weights),
        pack(
            reads2(
                start_of(Buffer::KeyWeight, plan.key_weight),
                start_of(Buffer::ValueWeight, plan.key_weight),
            ),
            Buffer::PackedKeyWeights,
            plan.key_weights,
        ),
        reserve(Buffer::PackedOutput, plan.query_weight),
        pack(
            reads1(start_of(Buffer::OutputWeight, plan.query_weight)),
            Buffer::PackedOutput,
            plan.query_weight,
        ),
        reserve(Buffer::Query, plan.queries),
        project(
            tile(Buffer::InputCopy, 0, plan.d_model),
            tile(Buffer::PackedWeights, 0, plan.d_model),
            tile(Buffer::Query, 0, plan.query_width),
            plan.q_rows,
            plan.query_width,
            plan.d_model,
            false,
        ),
        reserve(Buffer::KeysValues, plan.keys_values),
        project(
            tile(Buffer::KeysCopy, 0, plan.d_kv),
            tile(Buffer::PackedKeyWeights, 0, plan.d_kv),
            tile(Buffer::KeysValues, 0, plan.kv_stride),
            plan.kv_rows,
            plan.kv_stride,
            plan.d_kv,
            false,
        ),
        reserve(Buffer::Probabilities, plan.scores),
        plan.heads_step(plan.score_product()),
        reserve(Buffer::LogSumExp, plan.score_rows),
        launch(
            Kernel::SoftmaxLse,
            warp_per_row_grid(plan.score_rows),
            sized(plan.score_rows, plan.kv_len),
            reads1(start_of(Buffer::Probabilities, plan.scores)),
            writes2(
                start_of(Buffer::Probabilities, plan.scores),
                start_of(Buffer::LogSumExp, plan.score_rows),
            ),
        ),
        reserve(Buffer::Merged, plan.queries),
        plan.heads_step(plan.value_product()),
        reserve(Buffer::Output, plan.queries_in),
        project(
            tile(Buffer::Merged, 0, plan.query_width),
            tile(Buffer::PackedOutput, 0, plan.query_width),
            tile(Buffer::Output, 0, plan.d_model),
            plan.q_rows,
            plan.d_model,
            plan.query_width,
            false,
        ),
    ]
}

/// The forward pass.
pub fn forward(plan: &Plan) -> (steps: Vec<Step>)
    ensures
        steps@ == forward_steps(*plan),
{
    let steps: Vec<Step> = vec![
        reserve(Buffer::InputCopy, plan.queries_in),
        copy(Buffer::Input, Buffer::InputCopy, plan.queries_in),
        reserve(Buffer::KeysCopy, plan.keys_in),
        copy(Buffer::KeysInput, Buffer::KeysCopy, plan.keys_in),
        reserve(Buffer::PackedWeights, plan.query_weight),
        pack(
            reads1(start_of(Buffer::QueryWeight, plan.query_weight)),
            Buffer::PackedWeights,
            plan.query_weight,
        ),
        reserve(Buffer::PackedKeyWeights, plan.key_weights),
        pack(
            reads2(
                start_of(Buffer::KeyWeight, plan.key_weight),
                start_of(Buffer::ValueWeight, plan.key_weight),
            ),
            Buffer::PackedKeyWeights,
            plan.key_weights,
        ),
        reserve(Buffer::PackedOutput, plan.query_weight),
        pack(
            reads1(start_of(Buffer::OutputWeight, plan.query_weight)),
            Buffer::PackedOutput,
            plan.query_weight,
        ),
        reserve(Buffer::Query, plan.queries),
        project(
            tile(Buffer::InputCopy, 0, plan.d_model),
            tile(Buffer::PackedWeights, 0, plan.d_model),
            tile(Buffer::Query, 0, plan.query_width),
            plan.q_rows,
            plan.query_width,
            plan.d_model,
            false,
        ),
        reserve(Buffer::KeysValues, plan.keys_values),
        project(
            tile(Buffer::KeysCopy, 0, plan.d_kv),
            tile(Buffer::PackedKeyWeights, 0, plan.d_kv),
            tile(Buffer::KeysValues, 0, plan.kv_stride),
            plan.kv_rows,
            plan.kv_stride,
            plan.d_kv,
            false,
        ),
        reserve(Buffer::Probabilities, plan.scores),
        plan.heads_step(plan.score_product()),
        reserve(Buffer::LogSumExp, plan.score_rows),
        launch(
            Kernel::SoftmaxLse,
            warp_per_row_grid(plan.score_rows),
            sized(plan.score_rows, plan.kv_len),
            reads1(start_of(Buffer::Probabilities, plan.scores)),
            writes2(
                start_of(Buffer::Probabilities, plan.scores),
                start_of(Buffer::LogSumExp, plan.score_rows),
            ),
        ),
        reserve(Buffer::Merged, plan.queries),
        plan.heads_step(plan.value_product()),
        reserve(Buffer::Output, plan.queries_in),
        project(
            tile(Buffer::Merged, 0, plan.query_width),
            tile(Buffer::PackedOutput, 0, plan.query_width),
            tile(Buffer::Output, 0, plan.d_model),
            plan.q_rows,
            plan.d_model,
            plan.query_width,
            false,
        ),
    ];
    assert(steps@ =~= forward_steps(*plan));
    steps
}

/// The backward pass, step by step. The forward pass kept only one number per
/// query, so the probabilities are rebuilt; the heads of a group all add to
/// one key and value head, so that buffer starts at zero.
pub open spec fn backward_steps(plan: Plan) -> Seq<Step> {
    seq![
        reserve(Buffer::GradOutputCopy, plan.queries_in),
        copy(Buffer::GradOutput, Buffer::GradOutputCopy, plan.queries_in),
        reserve(Buffer::GradMerged, plan.queries),
        project_back(
            tile(Buffer::GradOutputCopy, 0, plan.d_model),
            tile(Buffer::PackedOutput, 0, plan.query_width),
            tile(Buffer::GradMerged, 0, plan.query_width),
            plan.q_rows,
            plan.query_width,
            plan.d_model,
            false,
        ),
        weight_gradient(
            tile(Buffer::GradOutputCopy, 0, plan.d_model),
            tile(Buffer::Merged, 0, plan.query_width),
            tile(Buffer::OutputGrad, 0, plan.query_width),
            plan.d_model,
            plan.query_width,
            plan.q_rows,
            true,
        ),
        reserve(Buffer::Probabilities, plan.scores),
        plan.heads_step(plan.score_product()),
        launch(
            Kernel::ProbsFromLse,
            Grid::Elements(plan.scores),
            sized(plan.score_rows, plan.kv_len),
            reads2(
                start_of(Buffer::Probabilities, plan.scores),
                start_of(Buffer::LogSumExp, plan.score_rows),
            ),
            writes1(start_of(Buffer::Probabilities, plan.scores)),
        ),
        reserve(Buffer::GradScores, plan.scores),
        reserve(Buffer::GradQueries, plan.queries),
        reserve(Buffer::GradKeysValues, plan.keys_values),
        clear(Buffer::GradKeysValues, plan.keys_values),
        plan.pairs_step(plan.grad_score_product(), plan.grad_value_product()),
        launch(
            Kernel::SoftmaxBackward,
            warp_per_row_grid(plan.score_rows),
            sized(plan.score_rows, plan.kv_len),
            reads2(
                start_of(Buffer::GradScores, plan.scores),
                start_of(Buffer::Probabilities, plan.scores),
            ),
            writes1(start_of(Buffer::GradScores, plan.scores)),
        ),
        plan.pairs_step(plan.grad_query_product(), plan.grad_key_product()),
        reserve(Buffer::GradInput, plan.queries_in),
        project_back(
            tile(Buffer::GradQueries, 0, plan.query_width),
            tile(Buffer::PackedWeights, 0, plan.d_model),
            tile(Buffer::GradInput, 0, plan.d_model),
            plan.q_rows,
            plan.d_model,
            plan.query_width,
            false,
        ),
        reserve(Buffer::Scratch, plan.query_weight),
        weight_gradient(
            tile(Buffer::GradQueries, 0, plan.query_width),
            tile(Buffer::InputCopy, 0, plan.d_model),
            tile(Buffer::Scratch, 0, plan.d_model),
            plan.query_width,
            plan.d_model,
            plan.q_rows,
            false,
        ),
        add_span(Buffer::QueryGrad, Buffer::Scratch, 0, plan.query_weight),
        reserve(Buffer::GradKeysInput, plan.keys_in),
        project_back(
            tile(Buffer::GradKeysValues, 0, plan.kv_stride),
            tile(Buffer::PackedKeyWeights, 0, plan.d_kv),
            tile(Buffer::GradKeysInput, 0, plan.d_kv),
            plan.kv_rows,
            plan.d_kv,
            plan.kv_stride,
            false,
        ),
        reserve(Buffer::Scratch, plan.key_weights),
        weight_gradient(
            tile(Buffer::GradKeysValues, 0, plan.kv_stride),
            tile(Buffer::KeysCopy, 0, plan.d_kv),
            tile(Buffer::Scratch, 0, plan.d_kv),
            plan.kv_stride,
            plan.d_kv,
            plan.kv_rows,
            false,
        ),
        add_span(Buffer::KeyGrad, Buffer::Scratch, 0, plan.key_weight),
        add_span(Buffer::ValueGrad, Buffer::Scratch, plan.key_weight, plan.key_weight),
    ]
}

/// The backward pass.
pub fn backward(plan: &Plan) -> (steps: Vec<Step>)
    ensures
        steps@ == backward_steps(*plan),
{
    let steps: Vec<Step> = vec![
        reserve(Buffer::GradOutputCopy, plan.queries_in),
        copy(Buffer::GradOutput, Buffer::GradOutputCopy, plan.queries_in),
        reserve(Buffer::GradMerged, plan.queries),
        project_back(
            tile(Buffer::GradOutputCopy, 0, plan.d_model),
            tile(Buffer::PackedOutput, 0, plan.query_width),
            tile(Buffer::GradMerged, 0, plan.query_width),
            plan.q_rows,
            plan.query_width,
            plan.d_model,
            false,
        ),
        weight_gradient(
            tile(Buffer::GradOutputCopy, 0, plan.d_model),
            tile(Buffer::Merged, 0, plan.query_width),
            tile(Buffer::OutputGrad, 0, plan.query_width),
            plan.d_model,
            plan.query_width,
            plan.q_rows,
            true,
        ),
        reserve(Buffer::Probabilities, plan.scores),
        plan.heads_step(plan.score_product()),
        launch(
            Kernel::ProbsFromLse,
            Grid::Elements(plan.scores),
            sized(plan.score_rows, plan.kv_len),
            reads2(
                start_of(Buffer::Probabilities, plan.scores),
                start_of(Buffer::LogSumExp, plan.score_rows),
            ),
            writes1(start_of(Buffer::Probabilities, plan.scores)),
        ),
        reserve(Buffer::GradScores, plan.scores),
        reserve(Buffer::GradQueries, plan.queries),
        reserve(Buffer::GradKeysValues, plan.keys_values),
        clear(Buffer::GradKeysValues, plan.keys_values),
        plan.pairs_step(plan.grad_score_product(), plan.grad_value_product()),
        launch(
            Kernel::SoftmaxBackward,
            warp_per_row_grid(plan.score_rows),
            sized(plan.score_rows, plan.kv_len),
            reads2(
                start_of(Buffer::GradScores, plan.scores),
                start_of(Buffer::Probabilities, plan.scores),
            ),
            writes1(start_of(Buffer::GradScores, plan.scores)),
        ),
        plan.pairs_step(plan.grad_query_product(), plan.grad_key_product()),
        reserve(Buffer::GradInput, plan.queries_in),
        project_back(
            tile(Buffer::GradQueries, 0, plan.query_width),
            tile(Buffer::PackedWeights, 0, plan.d_model),
            tile(Buffer::GradInput, 0, plan.d_model),
            plan.q_rows,
            plan.d_model,
            plan.query_width,
            false,
        ),
        reserve(Buffer::Scratch, plan.query_weight),
        weight_gradient(
            tile(Buffer::GradQueries, 0, plan.query_width),
            tile(Buffer::InputCopy, 0, plan.d_model),
            tile(Buffer::Scratch, 0, plan.d_model),
            plan.query_width,
            plan.d_model,
            plan.q_rows,
            false,
        ),
        add_span(Buffer::QueryGrad, Buffer::Scratch, 0, plan.query_weight),
        reserve(Buffer::GradKeysInput, plan.keys_in),
        project_back(
            tile(Buffer::GradKeysValues, 0, plan.kv_stride),
            tile(Buffer::PackedKeyWeights, 0, plan.d_kv),
            tile(Buffer::GradKeysInput, 0, plan.d_kv),
            plan.kv_rows,
            plan.d_kv,
            plan.kv_stride,
            false,
        ),
        reserve(Buffer::Scratch, plan.key_weights),
        weight_gradient(
            tile(Buffer::GradKeysValues, 0, plan.kv_stride),
            tile(Buffer::KeysCopy, 0, plan.d_kv),
            tile(Buffer::Scratch, 0, plan.d_kv),
            plan.kv_stride,
            plan.d_kv,
            plan.kv_rows,
            false,
        ),
        add_span(Buffer::KeyGrad, Buffer::Scratch, 0, plan.key_weight),
        add_span(Buffer::ValueGrad, Buffer::Scratch, plan.key_weight, plan.key_weight),
    ];
    assert(steps@ =~= backward_steps(*plan));
    steps
}

// -- Laws ----------------------------------------------------------------------

/// Whether what the forward pass reads is there: the two inputs and the four
/// weights.
pub open spec fn forward_ready(plan: Plan, memory: Memory) -> bool {
    &&& memory.holds(Buffer::Input, plan.queries_in as int)
    &&& memory.holds(Buffer::KeysInput, plan.keys_in as int)
    &&& memory.holds(Buffer::QueryWeight, plan.query_weight as int)
    &&& memory.holds(Buffer::KeyWeight, plan.key_weight as int)
    &&& memory.holds(Buffer::ValueWeight, plan.key_weight as int)
    &&& memory.holds(Buffer::OutputWeight, plan.query_weight as int)
}

/// Whether what the backward pass reads of the forward pass is there.
pub open spec fn is_cached(plan: Plan, memory: Memory) -> bool {
    &&& memory.holds(Buffer::InputCopy, plan.queries_in as int)
    &&& memory.holds(Buffer::KeysCopy, plan.keys_in as int)
    &&& memory.holds(Buffer::PackedWeights, plan.query_weight as int)
    &&& memory.holds(Buffer::PackedKeyWeights, plan.key_weights as int)
    &&& memory.holds(Buffer::PackedOutput, plan.query_weight as int)
    &&& memory.holds(Buffer::Query, plan.queries as int)
    &&& memory.holds(Buffer::KeysValues, plan.keys_values as int)
    &&& memory.holds(Buffer::LogSumExp, plan.score_rows as int)
    &&& memory.holds(Buffer::Merged, plan.queries as int)
}

/// Whether what the backward pass reads is there: what the forward pass left,
/// the gradient of its output, and the gradients it adds to.
pub open spec fn backward_ready(plan: Plan, memory: Memory) -> bool {
    &&& is_cached(plan, memory)
    &&& memory.holds(Buffer::GradOutput, plan.queries_in as int)
    &&& memory.holds(Buffer::QueryGrad, plan.query_weight as int)
    &&& memory.holds(Buffer::KeyGrad, plan.key_weight as int)
    &&& memory.holds(Buffer::ValueGrad, plan.key_weight as int)
    &&& memory.holds(Buffer::OutputGrad, plan.query_weight as int)
}

/// The tiles of a plan lie inside their buffers, and those that a pass writes
/// without clearing fill them.
proof fn lemma_tiles(plan: Plan)
    requires
        plan.wf(),
        plan.heads > 0,
    ensures
        forall|buffer: Buffer|
            (#[trigger] plan.columns(buffer)).stays_within(
                plan.heads as int,
                plan.group as int,
                plan.sequences as int,
                plan.q_len as int,
                plan.head_dim as int,
                plan.queries as int,
            ) && plan.columns(buffer).fills(
                plan.heads as int,
                plan.group as int,
                plan.sequences as int,
                plan.q_len as int,
                plan.head_dim as int,
                plan.queries as int,
            ),
        forall|buffer: Buffer|
            (#[trigger] plan.blocks(buffer)).stays_within(
                plan.heads as int,
                plan.group as int,
                plan.sequences as int,
                plan.q_len as int,
                plan.kv_len as int,
                plan.scores as int,
            ) && plan.blocks(buffer).fills(
                plan.heads as int,
                plan.group as int,
                plan.sequences as int,
                plan.q_len as int,
                plan.kv_len as int,
                plan.scores as int,
            ),
        forall|buffer: Buffer, base: usize|
            base + plan.value_base <= plan.kv_stride ==> (#[trigger] plan.keys(
                buffer,
                base,
            )).stays_within(
                plan.heads as int,
                plan.group as int,
                plan.sequences as int,
                plan.kv_len as int,
                plan.head_dim as int,
                plan.keys_values as int,
            ),
{
    let (h, g, s) = (plan.heads as int, plan.group as int, plan.sequences as int);
    let (q, k, d) = (plan.q_len as int, plan.kv_len as int, plan.head_dim as int);
    lemma_regroup(q, s, plan.query_width as int);
    lemma_regroup(k, s, plan.kv_stride as int);
    assert forall|buffer: Buffer|
        (#[trigger] plan.columns(buffer)).stays_within(h, g, s, q, d, plan.queries as int)
            && plan.columns(buffer).fills(h, g, s, q, d, plan.queries as int) by {
        lemma_columns(
            plan.columns(buffer),
            h,
            g,
            s,
            q,
            d,
            plan.query_width as int,
            plan.queries as int,
        );
    }
    assert forall|buffer: Buffer|
        (#[trigger] plan.blocks(buffer)).stays_within(h, g, s, q, k, plan.scores as int)
            && plan.blocks(buffer).fills(h, g, s, q, k, plan.scores as int) by {
        lemma_blocks(plan.blocks(buffer), h, g, s, q, k, plan.scores as int);
    }
    assert forall|buffer: Buffer, base: usize|
        base + plan.value_base <= plan.kv_stride implies (#[trigger] plan.keys(
        buffer,
        base,
    )).stays_within(h, g, s, k, d, plan.keys_values as int) by {
        lemma_columns(
            plan.keys(buffer, base),
            h,
            g,
            s,
            k,
            d,
            plan.kv_stride as int,
            plan.keys_values as int,
        );
    }
}

proof fn lemma_regroup(rows: int, sequences: int, width: int)
    ensures
        rows * sequences * width == sequences * (rows * width),
{
    assert(rows * sequences * width == sequences * (rows * width)) by (nonlinear_arith);
}

/// The forward pass never leaves its buffers, and every buffer is written in
/// full before it is read, although none is cleared. It leaves its output, and
/// what the backward pass reads.
pub proof fn law_forward_runs(plan: Plan, memory: Memory)
    requires
        plan.wf(),
        plan.heads > 0,
        forward_ready(plan, memory),
    ensures
        runs(memory, forward_steps(plan)),
        after_all(memory, forward_steps(plan)).holds(Buffer::Output, plan.queries_in as int),
        is_cached(plan, after_all(memory, forward_steps(plan))),
{
    let steps = forward_steps(plan);
    let m0 = memory;
    lemma_swap(plan.query_width as int, plan.d_model as int);
    lemma_one_more(m0, steps, 0, m0);
    let m1 = after(m0, steps[0]);
    lemma_one_more(m0, steps, 1, m1);
    let m2 = after(m1, steps[1]);
    lemma_one_more(m0, steps, 2, m2);
    let m3 = after(m2, steps[2]);
    lemma_one_more(m0, steps, 3, m3);
    let m4 = after(m3, steps[3]);
    lemma_one_more(m0, steps, 4, m4);
    let m5 = after(m4, steps[4]);
    lemma_one_more(m0, steps, 5, m5);
    let m6 = after(m5, steps[5]);
    lemma_one_more(m0, steps, 6, m6);
    let m7 = after(m6, steps[6]);
    lemma_one_more(m0, steps, 7, m7);
    let m8 = after(m7, steps[7]);
    lemma_one_more(m0, steps, 8, m8);
    let m9 = after(m8, steps[8]);
    lemma_one_more(m0, steps, 9, m9);
    let m10 = after(m9, steps[9]);
    lemma_one_more(m0, steps, 10, m10);
    let m11 = after(m10, steps[10]);
    lemma_project(
        m11,
        tile(Buffer::InputCopy, 0, plan.d_model),
        tile(Buffer::PackedWeights, 0, plan.d_model),
        tile(Buffer::Query, 0, plan.query_width),
        plan.q_rows,
        plan.query_width,
        plan.d_model,
        false,
    );
    lemma_one_more(m0, steps, 11, m11);
    let m12 = after(m11, steps[11]);
    lemma_one_more(m0, steps, 12, m12);
    let m13 = after(m12, steps[12]);
    lemma_project(
        m13,
        tile(Buffer::KeysCopy, 0, plan.d_kv),
        tile(Buffer::PackedKeyWeights, 0, plan.d_kv),
        tile(Buffer::KeysValues, 0, plan.kv_stride),
        plan.kv_rows,
        plan.kv_stride,
        plan.d_kv,
        false,
    );
    lemma_one_more(m0, steps, 13, m13);
    let m14 = after(m13, steps[13]);
    lemma_one_more(m0, steps, 14, m14);
    let m15 = after(m14, steps[14]);
    lemma_tiles(plan);
    lemma_one_more(m0, steps, 15, m15);
    let m16 = after(m15, steps[15]);
    lemma_one_more(m0, steps, 16, m16);
    let m17 = after(m16, steps[16]);
    lemma_one_more(m0, steps, 17, m17);
    let m18 = after(m17, steps[17]);
    lemma_one_more(m0, steps, 18, m18);
    let m19 = after(m18, steps[18]);
    lemma_one_more(m0, steps, 19, m19);
    let m20 = after(m19, steps[19]);
    lemma_one_more(m0, steps, 20, m20);
    let m21 = after(m20, steps[20]);
    lemma_project(
        m21,
        tile(Buffer::Merged, 0, plan.query_width),
        tile(Buffer::PackedOutput, 0, plan.query_width),
        tile(Buffer::Output, 0, plan.d_model),
        plan.q_rows,
        plan.d_model,
        plan.query_width,
        false,
    );
    lemma_one_more(m0, steps, 21, m21);
    let m22 = after(m21, steps[21]);
}

/// The backward pass never leaves its buffers, and every buffer is written in
/// full before it is read; only the one that the heads of a group share is
/// cleared. It leaves the gradients of both inputs.
pub proof fn law_backward_runs(plan: Plan, memory: Memory)
    requires
        plan.wf(),
        plan.heads > 0,
        backward_ready(plan, memory),
    ensures
        runs(memory, backward_steps(plan)),
        after_all(memory, backward_steps(plan)).holds(Buffer::GradInput, plan.queries_in as int),
        after_all(memory, backward_steps(plan)).holds(Buffer::GradKeysInput, plan.keys_in as int),
{
    let steps = backward_steps(plan);
    let m0 = memory;
    lemma_swap(plan.query_width as int, plan.d_model as int);
    lemma_double(plan.value_base as int, plan.d_kv as int);
    lemma_one_more(m0, steps, 0, m0);
    let m1 = after(m0, steps[0]);
    lemma_one_more(m0, steps, 1, m1);
    let m2 = after(m1, steps[1]);
    lemma_one_more(m0, steps, 2, m2);
    let m3 = after(m2, steps[2]);
    lemma_project_back(
        m3,
        tile(Buffer::GradOutputCopy, 0, plan.d_model),
        tile(Buffer::PackedOutput, 0, plan.query_width),
        tile(Buffer::GradMerged, 0, plan.query_width),
        plan.q_rows,
        plan.query_width,
        plan.d_model,
        false,
    );
    lemma_one_more(m0, steps, 3, m3);
    let m4 = after(m3, steps[3]);
    lemma_weight_gradient(
        m4,
        tile(Buffer::GradOutputCopy, 0, plan.d_model),
        tile(Buffer::Merged, 0, plan.query_width),
        tile(Buffer::OutputGrad, 0, plan.query_width),
        plan.d_model,
        plan.query_width,
        plan.q_rows,
        true,
    );
    lemma_one_more(m0, steps, 4, m4);
    let m5 = after(m4, steps[4]);
    lemma_one_more(m0, steps, 5, m5);
    let m6 = after(m5, steps[5]);
    lemma_tiles(plan);
    lemma_one_more(m0, steps, 6, m6);
    let m7 = after(m6, steps[6]);
    lemma_one_more(m0, steps, 7, m7);
    let m8 = after(m7, steps[7]);
    lemma_one_more(m0, steps, 8, m8);
    let m9 = after(m8, steps[8]);
    lemma_one_more(m0, steps, 9, m9);
    let m10 = after(m9, steps[9]);
    lemma_one_more(m0, steps, 10, m10);
    let m11 = after(m10, steps[10]);
    lemma_one_more(m0, steps, 11, m11);
    let m12 = after(m11, steps[11]);
    lemma_one_more(m0, steps, 12, m12);
    let m13 = after(m12, steps[12]);
    lemma_one_more(m0, steps, 13, m13);
    let m14 = after(m13, steps[13]);
    lemma_one_more(m0, steps, 14, m14);
    let m15 = after(m14, steps[14]);
    lemma_one_more(m0, steps, 15, m15);
    let m16 = after(m15, steps[15]);
    lemma_project_back(
        m16,
        tile(Buffer::GradQueries, 0, plan.query_width),
        tile(Buffer::PackedWeights, 0, plan.d_model),
        tile(Buffer::GradInput, 0, plan.d_model),
        plan.q_rows,
        plan.d_model,
        plan.query_width,
        false,
    );
    lemma_one_more(m0, steps, 16, m16);
    let m17 = after(m16, steps[16]);
    lemma_one_more(m0, steps, 17, m17);
    let m18 = after(m17, steps[17]);
    lemma_weight_gradient(
        m18,
        tile(Buffer::GradQueries, 0, plan.query_width),
        tile(Buffer::InputCopy, 0, plan.d_model),
        tile(Buffer::Scratch, 0, plan.d_model),
        plan.query_width,
        plan.d_model,
        plan.q_rows,
        false,
    );
    lemma_one_more(m0, steps, 18, m18);
    let m19 = after(m18, steps[18]);
    lemma_one_more(m0, steps, 19, m19);
    let m20 = after(m19, steps[19]);
    lemma_one_more(m0, steps, 20, m20);
    let m21 = after(m20, steps[20]);
    lemma_project_back(
        m21,
        tile(Buffer::GradKeysValues, 0, plan.kv_stride),
        tile(Buffer::PackedKeyWeights, 0, plan.d_kv),
        tile(Buffer::GradKeysInput, 0, plan.d_kv),
        plan.kv_rows,
        plan.d_kv,
        plan.kv_stride,
        false,
    );
    lemma_one_more(m0, steps, 21, m21);
    let m22 = after(m21, steps[21]);
    lemma_one_more(m0, steps, 22, m22);
    let m23 = after(m22, steps[22]);
    lemma_weight_gradient(
        m23,
        tile(Buffer::GradKeysValues, 0, plan.kv_stride),
        tile(Buffer::KeysCopy, 0, plan.d_kv),
        tile(Buffer::Scratch, 0, plan.d_kv),
        plan.kv_stride,
        plan.d_kv,
        plan.kv_rows,
        false,
    );
    lemma_one_more(m0, steps, 23, m23);
    let m24 = after(m23, steps[23]);
    lemma_one_more(m0, steps, 24, m24);
    let m25 = after(m24, steps[24]);
    lemma_one_more(m0, steps, 25, m25);
    let m26 = after(m25, steps[25]);
}

proof fn lemma_double(width: int, features: int)
    ensures
        2 * width * features == width * features + width * features,
{
    assert(2 * width * features == width * features + width * features) by (nonlinear_arith);
}

proof fn lemma_swap(a: int, b: int)
    ensures
        a * b == b * a,
{
    assert(a * b == b * a) by (nonlinear_arith);
}

} // verus!
