//! What a cross-attention computes on the device, and its gradients.
//!
//! Queries come from one sequence of rows, keys and values from another. Every
//! head looks for its own queries among the keys that its group shares, merges
//! the values behind them, and what the heads merge is projected.
use crate::device::{Buffer, Factor, Kernel, Kind};
use crate::device_law::{
    also_made, args1, args2, copied, input_gradient, lemma_both, linear, made, new_part, packed2, paired, run, run_to,
    size, weight_step, whole, with_part, zeros, Device, Form, Rows, Values,
};
use crate::gpu_cross::{backward_steps, forward_steps, Plan};
use vstd::prelude::*;

verus! {

/// The sizes of a cross-attention: in each of some sequences so many queries of
/// `features` and so many keys of `key_features`, in heads of a size; `keys` is
/// how many columns all key heads have together.
pub ghost struct Crossing {
    pub queries: int,
    pub others: int,
    pub sequences: int,
    pub features: int,
    pub key_features: int,
    pub heads: int,
    pub group: int,
    pub size: int,
    pub keys: int,
}

/// The sizes of a plan.
pub open spec fn crossing_of(plan: Plan) -> Crossing {
    Crossing {
        queries: plan.q_len as int,
        others: plan.kv_len as int,
        sequences: plan.sequences as int,
        features: plan.d_model as int,
        key_features: plan.d_kv as int,
        heads: plan.heads as int,
        group: plan.group as int,
        size: plan.head_dim as int,
        keys: plan.value_base as int,
    }
}

impl Crossing {
    pub open spec fn rows(self) -> int {
        self.queries * self.sequences
    }

    pub open spec fn key_rows(self) -> int {
        self.others * self.sequences
    }

    /// The columns of all query heads.
    pub open spec fn width(self) -> int {
        self.heads * self.size
    }

    pub open spec fn scores(self) -> int {
        self.heads * (self.sequences * (self.queries * self.others))
    }

    pub open spec fn score_rows(self) -> int {
        self.heads * self.sequences * self.queries
    }

    /// A product for every head and sequence.
    pub open spec fn form(
        self,
        kind: Kind,
        factor: Factor,
        add: bool,
        m: int,
        n: int,
        k: int,
    ) -> Form {
        Form {
            kind,
            factor,
            accumulate: add,
            m,
            n,
            k,
            heads: self.heads,
            group: self.group,
            sequences: self.sequences,
        }
    }

    /// The columns of each query head.
    pub open spec fn own<V>(self, value: V) -> Rows<V> {
        Rows {
            value,
            offset: 0,
            shift: self.size,
            shared: false,
            stride: self.width(),
            step: self.queries * self.width(),
        }
    }

    /// The columns of the key head that a group shares, or of the values
    /// behind it, from a column on.
    pub open spec fn shared<V>(self, value: V, column: int) -> Rows<V> {
        Rows {
            value,
            offset: column,
            shift: self.size,
            shared: true,
            stride: 2 * self.keys,
            step: self.others * (2 * self.keys),
        }
    }

    /// The scores of each head and sequence.
    pub open spec fn blocks<V>(self, value: V) -> Rows<V> {
        Rows {
            value,
            offset: 0,
            shift: self.sequences * (self.queries * self.others),
            shared: false,
            stride: self.others,
            step: self.queries * self.others,
        }
    }
}

/// One weight in a buffer of its own.
pub open spec fn packed1<V>(d: Device<V>, a: V, len: int) -> V {
    made(d, Kernel::Pack, size(1, len), args1(whole(a, len)), new_part(d, len))
}

/// The queries of rows.
#[verifier::opaque]
pub open spec fn queries<V>(d: Device<V>, s: Crossing, x: V, weight: V) -> V {
    linear(
        d,
        copied(d, x, s.rows() * s.features),
        packed1(d, weight, s.width() * s.features),
        s.rows(),
        s.width(),
        s.features,
    )
}

/// The keys of rows and, behind them, their values.
#[verifier::opaque]
pub open spec fn keys_values<V>(d: Device<V>, s: Crossing, y: V, key_weight: V, value_weight: V) -> V {
    linear(
        d,
        copied(d, y, s.key_rows() * s.key_features),
        packed2(d, key_weight, value_weight, s.keys * s.key_features, s.keys * s.key_features),
        s.key_rows(),
        2 * s.keys,
        s.key_features,
    )
}

/// Each head's queries against the keys of its group.
#[verifier::opaque]
pub open spec fn scores<V>(d: Device<V>, s: Crossing, q: V, kv: V) -> V {
    (d.product)(
        s.form(Kind::RhsTransposed, Factor::Scale, false, s.queries, s.others, s.size),
        s.own(q),
        s.shared(kv, 0),
        s.blocks((d.fresh)(s.scores())),
    )
}

/// What the heads merge: the values behind their keys, by the softmax of the
/// scores.
#[verifier::opaque]
pub open spec fn merged<V>(d: Device<V>, s: Crossing, q: V, kv: V) -> V {
    let scores = scores(d, s, q, kv);
    let weights = made(
        d,
        Kernel::SoftmaxLse,
        size(s.score_rows(), s.others),
        args1(whole(scores, s.scores())),
        whole(scores, s.scores()),
    );
    (d.product)(
        s.form(Kind::Plain, Factor::One, false, s.queries, s.size, s.others),
        s.blocks(weights),
        s.shared(kv, s.keys),
        s.own((d.fresh)(s.rows() * s.width())),
    )
}

proof fn lemma_sizes(plan: Plan)
    requires
        plan.wf(),
    ensures
        ({
            let s = crossing_of(plan);
            &&& plan.q_rows == s.rows()
            &&& plan.kv_rows == s.key_rows()
            &&& plan.query_width == s.width()
            &&& plan.kv_stride == 2 * s.keys
            &&& plan.scores == s.scores()
            &&& plan.score_rows == s.score_rows()
            &&& plan.query_weight == s.width() * s.features
            &&& plan.key_weight == s.keys * s.key_features
            &&& plan.key_weights == s.keys * s.key_features + s.keys * s.key_features
        }),
{
    let (k, f) = (plan.value_base as int, plan.d_kv as int);
    assert((2 * k) * f == k * f + k * f) by (nonlinear_arith);
}

/// Whether the buffers hold what the rows were projected to, and what that
/// took.
pub open spec fn is_projected<V>(
    d: Device<V>,
    s: Crossing,
    values: Values<V>,
    after: Values<V>,
) -> bool {
    &&& after[Buffer::Query] == queries(
        d,
        s,
        values[Buffer::Input],
        values[Buffer::QueryWeight],
    )
    &&& after[Buffer::KeysValues] == keys_values(
        d,
        s,
        values[Buffer::KeysInput],
        values[Buffer::KeyWeight],
        values[Buffer::ValueWeight],
    )
    &&& after[Buffer::InputCopy] == copied(d, values[Buffer::Input], s.rows() * s.features)
    &&& after[Buffer::KeysCopy] == copied(
        d,
        values[Buffer::KeysInput],
        s.key_rows() * s.key_features,
    )
    &&& after[Buffer::PackedWeights] == packed1(
        d,
        values[Buffer::QueryWeight],
        s.width() * s.features,
    )
    &&& after[Buffer::PackedKeyWeights] == packed2(
        d,
        values[Buffer::KeyWeight],
        values[Buffer::ValueWeight],
        s.keys * s.key_features,
        s.keys * s.key_features,
    )
    &&& after[Buffer::PackedOutput] == packed1(
        d,
        values[Buffer::OutputWeight],
        s.width() * s.features,
    )
}

proof fn lemma_projected<V>(d: Device<V>, values: Values<V>, plan: Plan)
    requires
        plan.wf(),
    ensures
        is_projected(
            d,
            crossing_of(plan),
            values,
            run(d, values, forward_steps(plan).take(14)),
        ),
{
    lemma_sizes(plan);
    reveal(queries);
    reveal(keys_values);
    reveal_with_fuel(run_to, 15);
}

proof fn lemma_looked<V>(d: Device<V>, values: Values<V>, plan: Plan)
    requires
        plan.wf(),
    ensures
        ({
            let s = crossing_of(plan);
            let after = run(d, values, forward_steps(plan).skip(14));
            let (q, kv) = (values[Buffer::Query], values[Buffer::KeysValues]);
            let scores = scores(d, s, q, kv);
            &&& after[Buffer::Output] == linear(
                d,
                merged(d, s, q, kv),
                values[Buffer::PackedOutput],
                s.rows(),
                s.features,
                s.width(),
            )
            &&& after[Buffer::Merged] == merged(d, s, q, kv)
            &&& after[Buffer::LogSumExp] == also_made(
                d,
                Kernel::SoftmaxLse,
                size(s.score_rows(), s.others),
                args1(whole(scores, s.scores())),
                new_part(d, s.score_rows()),
            )
            &&& forall|b: Buffer|
                b != Buffer::Output && b != Buffer::Merged && b != Buffer::LogSumExp && b
                    != Buffer::Probabilities ==> #[trigger] after[b] == values[b]
        }),
{
    lemma_sizes(plan);
    reveal(scores);
    reveal(merged);
    reveal_with_fuel(run_to, 9);
}

/// The forward pass of a cross-attention leaves, in a buffer of its own, what
/// its heads found projected by the output weight, and keeps what its gradients
/// need.
pub proof fn law_forward_is_the_attention<V>(d: Device<V>, values: Values<V>, plan: Plan)
    requires
        plan.wf(),
    ensures
        ({
            let s = crossing_of(plan);
            let after = run(d, values, forward_steps(plan));
            let q = queries(d, s, values[Buffer::Input], values[Buffer::QueryWeight]);
            let kv = keys_values(
                d,
                s,
                values[Buffer::KeysInput],
                values[Buffer::KeyWeight],
                values[Buffer::ValueWeight],
            );
            let scores = scores(d, s, q, kv);
            &&& after[Buffer::Output] == linear(
                d,
                merged(d, s, q, kv),
                packed1(d, values[Buffer::OutputWeight], s.width() * s.features),
                s.rows(),
                s.features,
                s.width(),
            )
            &&& after[Buffer::Merged] == merged(d, s, q, kv)
            &&& after[Buffer::LogSumExp] == also_made(
                d,
                Kernel::SoftmaxLse,
                size(s.score_rows(), s.others),
                args1(whole(scores, s.scores())),
                new_part(d, s.score_rows()),
            )
            &&& is_projected(d, s, values, after)
        }),
{
    let steps = forward_steps(plan);
    assert(steps =~= steps.take(14) + steps.skip(14));
    lemma_both(d, values, steps.take(14), steps.skip(14));
    lemma_projected(d, values, plan);
    lemma_looked(d, run(d, values, steps.take(14)), plan);
}

/// The gradients of the queries and of the keys with their values.
#[verifier::opaque]
pub open spec fn projections_gradient<V>(
    d: Device<V>,
    s: Crossing,
    q: V,
    kv: V,
    log_sums: V,
    upstream: V,
) -> (V, V) {
    let again = scores(d, s, q, kv);
    let weights = made(
        d,
        Kernel::ProbsFromLse,
        size(s.score_rows(), s.others),
        args2(whole(again, s.scores()), whole(log_sums, s.score_rows())),
        whole(again, s.scores()),
    );
    let of_weights = (d.product)(
        s.form(Kind::RhsTransposed, Factor::One, false, s.queries, s.others, s.size),
        s.own(upstream),
        s.shared(kv, s.keys),
        s.blocks((d.fresh)(s.scores())),
    );
    let of_values = (d.product)(
        s.form(Kind::LhsTransposed, Factor::One, true, s.others, s.size, s.queries),
        s.blocks(weights),
        s.own(upstream),
        s.shared(zeros(d, s.key_rows() * (2 * s.keys)), s.keys),
    );
    let of_scores = made(
        d,
        Kernel::SoftmaxBackward,
        size(s.score_rows(), s.others),
        args2(whole(of_weights, s.scores()), whole(weights, s.scores())),
        whole(of_weights, s.scores()),
    );
    (
        (d.product)(
            s.form(Kind::Plain, Factor::Scale, false, s.queries, s.size, s.others),
            s.blocks(of_scores),
            s.shared(kv, 0),
            s.own((d.fresh)(s.rows() * s.width())),
        ),
        (d.product)(
            s.form(Kind::LhsTransposed, Factor::Scale, true, s.others, s.size, s.queries),
            s.blocks(of_scores),
            s.own(q),
            s.shared(of_values, 0),
        ),
    )
}

proof fn lemma_looked_back<V>(d: Device<V>, values: Values<V>, plan: Plan)
    requires
        plan.wf(),
    ensures
        ({
            let s = crossing_of(plan);
            let after = run(d, values, backward_steps(plan).take(15));
            let upstream = copied(d, values[Buffer::GradOutput], s.rows() * s.features);
            let both = projections_gradient(
                d,
                s,
                values[Buffer::Query],
                values[Buffer::KeysValues],
                values[Buffer::LogSumExp],
                input_gradient(
                    d,
                    (d.fresh)(s.rows() * s.width()),
                    false,
                    upstream,
                    values[Buffer::PackedOutput],
                    s.rows(),
                    s.width(),
                    s.features,
                ),
            );
            &&& after[Buffer::GradQueries] == both.0
            &&& after[Buffer::GradKeysValues] == both.1
            &&& after[Buffer::OutputGrad] == weight_step(
                d,
                values[Buffer::OutputGrad],
                true,
                upstream,
                values[Buffer::Merged],
                s.features,
                s.width(),
                s.rows(),
            )
            &&& after[Buffer::PackedWeights] == values[Buffer::PackedWeights]
            &&& after[Buffer::PackedKeyWeights] == values[Buffer::PackedKeyWeights]
            &&& after[Buffer::InputCopy] == values[Buffer::InputCopy]
            &&& after[Buffer::KeysCopy] == values[Buffer::KeysCopy]
            &&& after[Buffer::QueryGrad] == values[Buffer::QueryGrad]
            &&& after[Buffer::KeyGrad] == values[Buffer::KeyGrad]
            &&& after[Buffer::ValueGrad] == values[Buffer::ValueGrad]
        }),
{
    lemma_sizes(plan);
    reveal(scores);
    reveal(projections_gradient);
    reveal(paired);
    reveal_with_fuel(run_to, 16);
}

/// Whether the inputs and the first weights have the gradients that those of
/// queries, and of keys with their values, give them.
pub open spec fn is_taken_back<V>(
    d: Device<V>,
    s: Crossing,
    values: Values<V>,
    after: Values<V>,
    of_queries: V,
    of_keys: V,
) -> bool {
    let of_query_weight = weight_step(
        d,
        (d.fresh)(s.width() * s.features),
        false,
        of_queries,
        values[Buffer::InputCopy],
        s.width(),
        s.features,
        s.rows(),
    );
    let one = s.keys * s.key_features;
    let of_key_weights = weight_step(
        d,
        (d.fresh)(one + one),
        false,
        of_keys,
        values[Buffer::KeysCopy],
        2 * s.keys,
        s.key_features,
        s.key_rows(),
    );
    &&& after[Buffer::GradInput] == input_gradient(
        d,
        (d.fresh)(s.rows() * s.features),
        false,
        of_queries,
        values[Buffer::PackedWeights],
        s.rows(),
        s.features,
        s.width(),
    )
    &&& after[Buffer::GradKeysInput] == input_gradient(
        d,
        (d.fresh)(s.key_rows() * s.key_features),
        false,
        of_keys,
        values[Buffer::PackedKeyWeights],
        s.key_rows(),
        s.key_features,
        2 * s.keys,
    )
    &&& after[Buffer::QueryGrad] == with_part(
        d,
        values[Buffer::QueryGrad],
        of_query_weight,
        0,
        s.width() * s.features,
    )
    &&& after[Buffer::KeyGrad] == with_part(d, values[Buffer::KeyGrad], of_key_weights, 0, one)
    &&& after[Buffer::ValueGrad] == with_part(
        d,
        values[Buffer::ValueGrad],
        of_key_weights,
        one,
        one,
    )
}

proof fn lemma_inputs_back<V>(d: Device<V>, values: Values<V>, plan: Plan)
    requires
        plan.wf(),
    ensures
        ({
            let after = run(d, values, backward_steps(plan).skip(15));
            &&& is_taken_back(
                d,
                crossing_of(plan),
                values,
                after,
                values[Buffer::GradQueries],
                values[Buffer::GradKeysValues],
            )
            &&& after[Buffer::OutputGrad] == values[Buffer::OutputGrad]
        }),
{
    lemma_sizes(plan);
    reveal_with_fuel(run_to, 12);
}

/// The backward pass of a cross-attention takes the gradient of its output back
/// to both of its inputs, and adds to each weight's gradient what that weight's
/// own columns give it: the query weight's from the rows that ask, the key and
/// value weights' from those that answer.
pub proof fn law_backward_is_the_gradient<V>(d: Device<V>, values: Values<V>, plan: Plan)
    requires
        plan.wf(),
    ensures
        ({
            let s = crossing_of(plan);
            let after = run(d, values, backward_steps(plan));
            let upstream = copied(d, values[Buffer::GradOutput], s.rows() * s.features);
            let of_merged = input_gradient(
                d,
                (d.fresh)(s.rows() * s.width()),
                false,
                upstream,
                values[Buffer::PackedOutput],
                s.rows(),
                s.width(),
                s.features,
            );
            let both = projections_gradient(
                d,
                s,
                values[Buffer::Query],
                values[Buffer::KeysValues],
                values[Buffer::LogSumExp],
                of_merged,
            );
            &&& is_taken_back(d, s, values, after, both.0, both.1)
            &&& after[Buffer::OutputGrad] == weight_step(
                d,
                values[Buffer::OutputGrad],
                true,
                upstream,
                values[Buffer::Merged],
                s.features,
                s.width(),
                s.rows(),
            )
        }),
{
    let steps = backward_steps(plan);
    assert(steps =~= steps.take(15) + steps.skip(15));
    lemma_both(d, values, steps.take(15), steps.skip(15));
    lemma_looked_back(d, values, plan);
    lemma_inputs_back(d, run(d, values, steps.take(15)), plan);
}

} // verus!
