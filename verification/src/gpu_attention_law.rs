//! What a self-attention computes on the device, and its gradients.
//!
//! Rows are normalized and projected to queries, keys and values by one packed
//! weight; queries and keys are turned by their positions; every head looks for
//! its own queries among the keys its group shares and merges the values behind
//! them; and what the heads merge is projected and added to the rows.
use crate::device::{Buffer, Factor, Kernel, Kind, Sizes, Step};
use crate::device_law::{
    also_made, args1, args2, args4, copied, input_gradient, inverse_lengths, lemma_both,
    linear, made, new_part, normalized, packed3, paired, run, run_to, size, weight_step, whole,
    with_linear, with_part, zeros, Device, Form, Rows, Values,
};
use crate::gpu_attention::{
    backward_steps, forward_steps, fused_gradient_steps, fused_steps, merged_gradient_steps,
    projection_gradient_steps, projection_steps, residual_steps, scores_gradient_steps,
    scores_steps, AttentionPlan,
};
use vstd::prelude::*;

verus! {

/// The sizes of an attention: so many sequences of a length, rows of `features`,
/// so many heads and key heads of a size.
pub ghost struct Shape {
    pub length: int,
    pub sequences: int,
    pub features: int,
    pub heads: int,
    pub key_heads: int,
    pub size: int,
}

/// The sizes of a plan.
pub open spec fn shape_of(plan: AttentionPlan) -> Shape {
    Shape {
        length: plan.seq_len as int,
        sequences: plan.sequences as int,
        features: plan.d_model as int,
        heads: plan.heads as int,
        key_heads: plan.kv_heads as int,
        size: plan.head_dim as int,
    }
}

impl Shape {
    pub open spec fn rows(self) -> int {
        self.length * self.sequences
    }

    /// The columns of all queries, and of all keys or values.
    pub open spec fn queries(self) -> int {
        self.heads * self.size
    }

    pub open spec fn keys(self) -> int {
        self.key_heads * self.size
    }

    /// The columns of queries, keys and values together.
    pub open spec fn packed(self) -> int {
        self.queries() + 2 * self.keys()
    }

    /// One score for each head, sequence, query and key.
    pub open spec fn scores(self) -> int {
        self.heads * (self.sequences * (self.length * self.length))
    }

    /// One row of scores for each head, sequence and query.
    pub open spec fn score_rows(self) -> int {
        self.heads * self.sequences * self.length
    }

    /// A product for every head and sequence.
    pub open spec fn form(
        self,
        kind: Kind,
        factor: Factor,
        add: bool,
        m: int,
        n: int,
        k: int,
        group: int,
    ) -> Form {
        Form {
            kind,
            factor,
            accumulate: add,
            m,
            n,
            k,
            heads: self.heads,
            group,
            sequences: self.sequences,
        }
    }

    /// The columns of each head among the packed ones, from a column on, or of
    /// each group of heads.
    pub open spec fn among<V>(self, value: V, column: int, shared: bool) -> Rows<V> {
        Rows {
            value,
            offset: column,
            shift: self.size,
            shared,
            stride: self.packed(),
            step: self.length * self.packed(),
        }
    }

    /// The columns of each head among those of all heads.
    pub open spec fn merged<V>(self, value: V) -> Rows<V> {
        Rows {
            value,
            offset: 0,
            shift: self.size,
            shared: false,
            stride: self.queries(),
            step: self.length * self.queries(),
        }
    }

    /// The scores of each head and sequence.
    pub open spec fn blocks<V>(self, value: V) -> Rows<V> {
        Rows {
            value,
            offset: 0,
            shift: self.sequences * (self.length * self.length),
            shared: false,
            stride: self.length,
            step: self.length * self.length,
        }
    }

    /// What a rotation is told: how many heads it turns, from which column on.
    pub open spec fn turn(self, heads: int, column: int) -> Sizes {
        Sizes {
            rows: self.rows() as usize,
            cols: 0,
            heads: heads as usize,
            head_dim: self.size as usize,
            length: self.length as usize,
            width: self.packed() as usize,
            base: column as usize,
        }
    }

    /// What the fused kernels are told.
    pub open spec fn fused(self, group: int) -> Sizes {
        Sizes {
            rows: self.rows() as usize,
            cols: self.queries() as usize,
            heads: self.heads as usize,
            head_dim: self.size as usize,
            length: self.length as usize,
            width: self.packed() as usize,
            base: group as usize,
        }
    }
}

/// Queries and keys turned by their positions; values are left alone.
#[verifier::opaque]
pub open spec fn turned<V>(d: Device<V>, s: Shape, kernel: Kernel, x: V) -> V {
    let len = s.rows() * s.packed();
    let queries = made(d, kernel, s.turn(s.heads, 0), args1(whole(x, len)), whole(x, len));
    made(
        d,
        kernel,
        s.turn(s.key_heads, s.queries()),
        args1(whole(queries, len)),
        whole(queries, len),
    )
}

/// Each head's queries against the keys of its group.
pub open spec fn scores<V>(d: Device<V>, s: Shape, group: int, x: V) -> V {
    (d.product)(
        s.form(Kind::RhsTransposed, Factor::Scale, false, s.length, s.length, s.size, group),
        s.among(x, 0, false),
        s.among(x, s.queries(), true),
        s.blocks((d.fresh)(s.scores())),
    )
}

/// The causal softmax of scores.
pub open spec fn weights<V>(d: Device<V>, s: Shape, scores: V) -> V {
    made(
        d,
        Kernel::CausalSoftmaxLse,
        size(s.score_rows(), s.length),
        args1(whole(scores, s.scores())),
        whole(scores, s.scores()),
    )
}

/// What the heads merge, and the logarithms of the sums of their scores.
#[verifier::opaque]
pub open spec fn attended<V>(d: Device<V>, s: Shape, group: int, fused: bool, x: V) -> (V, V) {
    let len = s.rows() * s.packed();
    let room = s.rows() * s.queries();
    if fused {
        (
            made(
                d,
                Kernel::FusedAttention,
                s.fused(group),
                args1(whole(x, len)),
                new_part(d, room),
            ),
            also_made(
                d,
                Kernel::FusedAttention,
                s.fused(group),
                args1(whole(x, len)),
                new_part(d, s.score_rows()),
            ),
        )
    } else {
        let scores = scores(d, s, group, x);
        (
            (d.product)(
                s.form(Kind::Plain, Factor::One, false, s.length, s.size, s.length, group),
                s.blocks(weights(d, s, scores)),
                s.among(x, s.queries() + s.keys(), true),
                s.merged((d.fresh)(room)),
            ),
            also_made(
                d,
                Kernel::CausalSoftmaxLse,
                size(s.score_rows(), s.length),
                args1(whole(scores, s.scores())),
                new_part(d, s.score_rows()),
            ),
        )
    }
}

/// The three projections as one weight.
#[verifier::opaque]
pub open spec fn packed_weights<V>(d: Device<V>, s: Shape, values: Values<V>) -> V {
    packed3(
        d,
        values[Buffer::QueryWeight],
        values[Buffer::KeyWeight],
        values[Buffer::ValueWeight],
        s.queries() * s.features,
        s.keys() * s.features,
        s.keys() * s.features,
    )
}

/// Queries, keys and values, turned.
#[verifier::opaque]
pub open spec fn projections<V>(d: Device<V>, s: Shape, values: Values<V>) -> V {
    turned(
        d,
        s,
        Kernel::Rope,
        linear(
            d,
            normalized(
                d,
                values[Buffer::Input],
                values[Buffer::NormWeight],
                s.rows(),
                s.features,
            ),
            packed_weights(d, s, values),
            s.rows(),
            s.packed(),
            s.features,
        ),
    )
}

/// The rows with what their heads found added.
#[verifier::opaque]
pub open spec fn with_attention<V>(
    d: Device<V>,
    s: Shape,
    group: int,
    fused: bool,
    values: Values<V>,
) -> V {
    with_linear(
        d,
        copied(d, values[Buffer::Input], s.rows() * s.features),
        attended(d, s, group, fused, projections(d, s, values)).0,
        values[Buffer::OutputWeight],
        s.rows(),
        s.features,
        s.queries(),
    )
}

proof fn lemma_sizes(plan: AttentionPlan)
    requires
        plan.wf(),
    ensures
        ({
            let s = shape_of(plan);
            &&& plan.rows == s.rows()
            &&& plan.query_width == s.queries()
            &&& plan.kv_width == s.keys()
            &&& plan.qkv_width == s.packed()
            &&& plan.scores == s.scores()
            &&& plan.score_rows == s.score_rows()
            &&& plan.packed_weights == plan.query_weight + plan.key_weight + plan.key_weight
            &&& plan.query_weight == s.queries() * s.features
            &&& plan.key_weight == s.keys() * s.features
            &&& plan.merged == s.rows() * s.queries()
            &&& plan.projections == s.rows() * s.packed()
            &&& plan.hidden == s.rows() * s.features
        }),
{
    let (q, k, f) = (plan.query_width as int, plan.kv_width as int, plan.d_model as int);
    assert((q + 2 * k) * f == q * f + k * f + k * f) by (nonlinear_arith);
}

proof fn lemma_projection<V>(d: Device<V>, values: Values<V>, plan: AttentionPlan)
    requires
        plan.wf(),
    ensures
        ({
            let s = shape_of(plan);
            let after = run(d, values, projection_steps(plan));
            let normed = normalized(
                d,
                values[Buffer::Input],
                values[Buffer::NormWeight],
                s.rows(),
                s.features,
            );
            &&& after[Buffer::Normed] == normed
            &&& after[Buffer::InverseNorm] == inverse_lengths(
                d,
                values[Buffer::Input],
                values[Buffer::NormWeight],
                s.rows(),
                s.features,
            )
            &&& after[Buffer::PackedWeights] == packed_weights(d, s, values)
            &&& after[Buffer::Projections] == linear(
                d,
                normed,
                packed_weights(d, s, values),
                s.rows(),
                s.packed(),
                s.features,
            )
            &&& after[Buffer::Input] == values[Buffer::Input]
            &&& after[Buffer::OutputWeight] == values[Buffer::OutputWeight]
            &&& forall|b: Buffer| is_kept(b) ==> #[trigger] after[b] == values[b]
        }),
{
    reveal(packed_weights);
    lemma_sizes(plan);
    reveal_with_fuel(run_to, 8);
}

/// The steps in which the heads look.
spec fn looking_steps(plan: AttentionPlan) -> Seq<Step> {
    if plan.fused {
        fused_steps(plan)
    } else {
        scores_steps(plan)
    }
}

/// The steps that take their looking back.
spec fn looking_back_steps(plan: AttentionPlan) -> Seq<Step> {
    if plan.fused {
        fused_gradient_steps(plan)
    } else {
        scores_gradient_steps(plan)
    }
}

proof fn lemma_attended<V>(d: Device<V>, values: Values<V>, plan: AttentionPlan)
    requires
        plan.wf(),
    ensures
        ({
            let s = shape_of(plan);
            let after = run(d, values, looking_steps(plan));
            let x = turned(d, s, Kernel::Rope, values[Buffer::Projections]);
            &&& after[Buffer::Projections] == x
            &&& after[Buffer::Merged] == attended(d, s, plan.group as int, plan.fused, x).0
            &&& after[Buffer::LogSumExp] == attended(d, s, plan.group as int, plan.fused, x).1
            &&& after[Buffer::Normed] == values[Buffer::Normed]
            &&& after[Buffer::InverseNorm] == values[Buffer::InverseNorm]
            &&& after[Buffer::PackedWeights] == values[Buffer::PackedWeights]
            &&& after[Buffer::Input] == values[Buffer::Input]
            &&& after[Buffer::OutputWeight] == values[Buffer::OutputWeight]
            &&& forall|b: Buffer| is_kept(b) ==> #[trigger] after[b] == values[b]
        }),
{
    lemma_sizes(plan);
    reveal(turned);
    reveal(attended);
    if plan.fused {
        reveal_with_fuel(run_to, 6);
    } else {
        reveal_with_fuel(run_to, 9);
    }
}

proof fn lemma_residual<V>(d: Device<V>, values: Values<V>, plan: AttentionPlan)
    requires
        plan.wf(),
    ensures
        ({
            let s = shape_of(plan);
            let after = run(d, values, residual_steps(plan));
            let rows = with_linear(
                d,
                copied(d, values[Buffer::Input], s.rows() * s.features),
                values[Buffer::Merged],
                values[Buffer::OutputWeight],
                s.rows(),
                s.features,
                s.queries(),
            );
            &&& after[Buffer::Residual] == rows
            &&& after[Buffer::Output] == copied(d, rows, s.rows() * s.features)
            &&& after[Buffer::FeedForwardNormed] == normalized(
                d,
                rows,
                values[Buffer::FeedForwardWeight],
                s.rows(),
                s.features,
            )
            &&& after[Buffer::FeedForwardInverse] == inverse_lengths(
                d,
                rows,
                values[Buffer::FeedForwardWeight],
                s.rows(),
                s.features,
            )
            &&& forall|b: Buffer|
                b != Buffer::Residual && b != Buffer::Output && b != Buffer::FeedForwardNormed && b
                    != Buffer::FeedForwardInverse ==> #[trigger] after[b] == values[b]
        }),
{
    lemma_sizes(plan);
    reveal_with_fuel(run_to, 9);
}

/// The forward pass leaves the rows with what their heads found added, in the
/// residual and in the output, and those rows normalized for what follows. It
/// keeps the projections, what the heads merged, and what else its gradients
/// need.
pub proof fn law_forward_is_the_attention<V>(d: Device<V>, values: Values<V>, plan: AttentionPlan)
    requires
        plan.wf(),
    ensures
        ({
            let s = shape_of(plan);
            let group = plan.group as int;
            let after = run(d, values, forward_steps(plan));
            let rows = with_attention(d, s, group, plan.fused, values);
            &&& after[Buffer::Residual] == rows
            &&& after[Buffer::Output] == copied(d, rows, s.rows() * s.features)
            &&& after[Buffer::FeedForwardNormed] == normalized(
                d,
                rows,
                values[Buffer::FeedForwardWeight],
                s.rows(),
                s.features,
            )
            &&& after[Buffer::FeedForwardInverse] == inverse_lengths(
                d,
                rows,
                values[Buffer::FeedForwardWeight],
                s.rows(),
                s.features,
            )
            &&& after[Buffer::Projections] == projections(d, s, values)
            &&& after[Buffer::Merged] == attended(
                d,
                s,
                group,
                plan.fused,
                projections(d, s, values),
            ).0
            &&& after[Buffer::LogSumExp] == attended(
                d,
                s,
                group,
                plan.fused,
                projections(d, s, values),
            ).1
            &&& after[Buffer::PackedWeights] == packed_weights(d, s, values)
            &&& after[Buffer::Normed] == normalized(
                d,
                values[Buffer::Input],
                values[Buffer::NormWeight],
                s.rows(),
                s.features,
            )
            &&& after[Buffer::InverseNorm] == inverse_lengths(
                d,
                values[Buffer::Input],
                values[Buffer::NormWeight],
                s.rows(),
                s.features,
            )
            &&& forall|b: Buffer| is_kept(b) ==> #[trigger] after[b] == values[b]
        }),
{
    lemma_sizes(plan);
    let s1 = projection_steps(plan);
    lemma_projection(d, values, plan);
    let m1 = run(d, values, s1);
    let s2 = looking_steps(plan);
    lemma_both(d, values, s1, s2);
    lemma_attended(d, m1, plan);
    let m2 = run(d, m1, s2);
    let s3 = residual_steps(plan);
    lemma_both(d, values, s1 + s2, s3);
    lemma_residual(d, m2, plan);
    assert(forward_steps(plan) == s1 + s2 + s3);
    reveal(projections);
    reveal(with_attention);
}

// -- Gradients -------------------------------------------------------------------

/// The gradient of the turned projections: over the scores, or fused.
#[verifier::opaque]
pub open spec fn projections_gradient<V>(
    d: Device<V>,
    s: Shape,
    group: int,
    fused: bool,
    x: V,
    log_sums: V,
    merged: V,
    upstream: V,
) -> V {
    let len = s.rows() * s.packed();
    let room = s.rows() * s.queries();
    if fused {
        let delta = made(
            d,
            Kernel::FusedDelta,
            s.fused(group),
            args2(whole(merged, room), whole(upstream, room)),
            new_part(d, s.score_rows()),
        );
        made(
            d,
            Kernel::FusedGradients,
            s.fused(group),
            args4(
                whole(x, len),
                whole(upstream, room),
                whole(log_sums, s.score_rows()),
                whole(delta, s.score_rows()),
            ),
            new_part(d, len),
        )
    } else {
        let again = scores(d, s, group, x);
        let weights = made(
            d,
            Kernel::CausalProbsFromLse,
            size(s.score_rows(), s.length),
            args2(whole(again, s.scores()), whole(log_sums, s.score_rows())),
            whole(again, s.scores()),
        );
        // What the values behind a key add to a weight, and the gradient of
        // the values that the weights merge.
        let of_weights = (d.product)(
            s.form(Kind::RhsTransposed, Factor::One, false, s.length, s.length, s.size, group),
            s.merged(upstream),
            s.among(x, s.queries() + s.keys(), true),
            s.blocks((d.fresh)(s.scores())),
        );
        let of_values = (d.product)(
            s.form(Kind::LhsTransposed, Factor::One, true, s.length, s.size, s.length, group),
            s.blocks(weights),
            s.merged(upstream),
            s.among(zeros(d, len), s.queries() + s.keys(), true),
        );
        let of_scores = made(
            d,
            Kernel::CausalSoftmaxBackward,
            size(s.score_rows(), s.length),
            args2(whole(of_weights, s.scores()), whole(weights, s.scores())),
            whole(of_weights, s.scores()),
        );
        // A query's gradient is made of keys, and a key's of queries.
        let of_queries = (d.product)(
            s.form(Kind::Plain, Factor::Scale, false, s.length, s.size, s.length, group),
            s.blocks(of_scores),
            s.among(x, s.queries(), true),
            s.among(of_values, 0, false),
        );
        (d.product)(
            s.form(Kind::LhsTransposed, Factor::Scale, true, s.length, s.size, s.length, group),
            s.blocks(of_scores),
            s.among(x, 0, false),
            s.among(of_queries, s.queries(), true),
        )
    }
}

proof fn lemma_scores_gradient<V>(d: Device<V>, values: Values<V>, plan: AttentionPlan)
    requires
        plan.wf(),
    ensures
        ({
            let s = shape_of(plan);
            let after = run(d, values, looking_back_steps(plan));
            &&& after[Buffer::GradProjections] == projections_gradient(
                d,
                s,
                plan.group as int,
                plan.fused,
                values[Buffer::Projections],
                values[Buffer::LogSumExp],
                values[Buffer::Merged],
                values[Buffer::GradMerged],
            )
            &&& after[Buffer::PackedWeights] == values[Buffer::PackedWeights]
            &&& after[Buffer::Normed] == values[Buffer::Normed]
            &&& after[Buffer::OutputGrad] == values[Buffer::OutputGrad]
            &&& after[Buffer::QueryGrad] == values[Buffer::QueryGrad]
            &&& after[Buffer::KeyGrad] == values[Buffer::KeyGrad]
            &&& after[Buffer::ValueGrad] == values[Buffer::ValueGrad]
            &&& forall|b: Buffer| is_left_alone(b) ==> #[trigger] after[b] == values[b]
        }),
{
    lemma_sizes(plan);
    reveal(projections_gradient);
    reveal(paired);
    if plan.fused {
        reveal_with_fuel(run_to, 5);
    } else {
        reveal_with_fuel(run_to, 10);
    }
}

/// Whether a buffer is none of those that the backward pass writes.
pub open spec fn is_left_alone(b: Buffer) -> bool {
    match b {
        Buffer::GradMerged | Buffer::OutputGrad | Buffer::Probabilities | Buffer::GradScores
        | Buffer::GradProjections | Buffer::Delta | Buffer::GradNormed | Buffer::Scratch
        | Buffer::QueryGrad | Buffer::KeyGrad | Buffer::ValueGrad => false,
        _ => true,
    }
}

/// Whether a buffer is none of those that the forward pass writes.
pub open spec fn is_kept(b: Buffer) -> bool {
    match b {
        Buffer::Normed | Buffer::InverseNorm | Buffer::PackedWeights | Buffer::Projections
        | Buffer::LogSumExp | Buffer::Merged | Buffer::Probabilities | Buffer::Residual
        | Buffer::FeedForwardNormed | Buffer::FeedForwardInverse | Buffer::Output => false,
        _ => true,
    }
}

proof fn lemma_merged_gradient<V>(d: Device<V>, values: Values<V>, plan: AttentionPlan)
    requires
        plan.wf(),
    ensures
        ({
            let s = shape_of(plan);
            let after = run(d, values, merged_gradient_steps(plan));
            &&& after[Buffer::GradMerged] == input_gradient(
                d,
                (d.fresh)(s.rows() * s.queries()),
                false,
                values[Buffer::GradResidual],
                values[Buffer::OutputWeight],
                s.rows(),
                s.queries(),
                s.features,
            )
            &&& after[Buffer::OutputGrad] == weight_step(
                d,
                values[Buffer::OutputGrad],
                true,
                values[Buffer::GradResidual],
                values[Buffer::Merged],
                s.features,
                s.queries(),
                s.rows(),
            )
            &&& forall|b: Buffer|
                b != Buffer::GradMerged && b != Buffer::OutputGrad ==> #[trigger] after[b]
                    == values[b]
        }),
{
    lemma_sizes(plan);
    reveal_with_fuel(run_to, 4);
}

/// What the packed projection gets back from the gradient of what it made.
pub open spec fn is_taken_back<V>(
    d: Device<V>,
    s: Shape,
    values: Values<V>,
    after: Values<V>,
    of_projections: V,
) -> bool {
    let of_weights = weight_step(
        d,
        (d.fresh)(s.packed() * s.features),
        false,
        of_projections,
        values[Buffer::Normed],
        s.packed(),
        s.features,
        s.rows(),
    );
    let (first, second) = (s.queries() * s.features, s.keys() * s.features);
    &&& after[Buffer::GradNormed] == input_gradient(
        d,
        (d.fresh)(s.rows() * s.features),
        false,
        of_projections,
        values[Buffer::PackedWeights],
        s.rows(),
        s.features,
        s.packed(),
    )
    &&& after[Buffer::QueryGrad] == with_part(
        d,
        values[Buffer::QueryGrad],
        of_weights,
        0,
        first,
    )
    &&& after[Buffer::KeyGrad] == with_part(
        d,
        values[Buffer::KeyGrad],
        of_weights,
        first,
        second,
    )
    &&& after[Buffer::ValueGrad] == with_part(
        d,
        values[Buffer::ValueGrad],
        of_weights,
        first + second,
        second,
    )
}

proof fn lemma_projection_gradient<V>(d: Device<V>, values: Values<V>, plan: AttentionPlan)
    requires
        plan.wf(),
    ensures
        ({
            let s = shape_of(plan);
            let after = run(d, values, projection_gradient_steps(plan));
            let back = turned(d, s, Kernel::RopeBackward, values[Buffer::GradProjections]);
            &&& is_taken_back(d, s, values, after, back)
            &&& after[Buffer::OutputGrad] == values[Buffer::OutputGrad]
            &&& forall|b: Buffer| is_left_alone(b) ==> #[trigger] after[b] == values[b]
        }),
{
    lemma_sizes(plan);
    reveal(turned);
    reveal_with_fuel(run_to, 10);
}

/// The backward pass takes the gradient of the residual back through the
/// output projection, the heads, the rotations and the packed projection to
/// that of the normalized rows, and adds to each weight's gradient what that
/// weight's own columns give it.
pub proof fn law_backward_is_the_gradient<V>(d: Device<V>, values: Values<V>, plan: AttentionPlan)
    requires
        plan.wf(),
    ensures
        ({
            let s = shape_of(plan);
            let after = run(d, values, backward_steps(plan));
            let upstream = values[Buffer::GradResidual];
            let of_merged = input_gradient(
                d,
                (d.fresh)(s.rows() * s.queries()),
                false,
                upstream,
                values[Buffer::OutputWeight],
                s.rows(),
                s.queries(),
                s.features,
            );
            let of_projections = turned(
                d,
                s,
                Kernel::RopeBackward,
                projections_gradient(
                    d,
                    s,
                    plan.group as int,
                    plan.fused,
                    values[Buffer::Projections],
                    values[Buffer::LogSumExp],
                    values[Buffer::Merged],
                    of_merged,
                ),
            );
            &&& is_taken_back(d, s, values, after, of_projections)
            &&& after[Buffer::OutputGrad] == weight_step(
                d,
                values[Buffer::OutputGrad],
                true,
                upstream,
                values[Buffer::Merged],
                s.features,
                s.queries(),
                s.rows(),
            )
            &&& forall|b: Buffer| is_left_alone(b) ==> #[trigger] after[b] == values[b]
        }),
{
    let s1 = merged_gradient_steps(plan);
    lemma_merged_gradient(d, values, plan);
    let m1 = run(d, values, s1);
    let s2 = looking_back_steps(plan);
    lemma_both(d, values, s1, s2);
    lemma_scores_gradient(d, m1, plan);
    let m2 = run(d, m1, s2);
    let s3 = projection_gradient_steps(plan);
    lemma_both(d, values, s1 + s2, s3);
    lemma_projection_gradient(d, m2, plan);
    assert(backward_steps(plan) == s1 + s2 + s3);
    assert(m2[Buffer::PackedWeights] == values[Buffer::PackedWeights]);
    assert(m2[Buffer::Normed] == values[Buffer::Normed]);
}

} // verus!
