//! What a routed feed-forward computes on the device.
//!
//! Every routed row goes through the expert it was sent to, scaled by its gate
//! and added to the row it came from; where there is a shared expert, what it
//! makes of every row is added too. Backwards each of these hands its gradient
//! to its own weights, and all of them to the layer's input.
use crate::device::{Buffer, Factor, Kernel, Kind, Sizes};
use crate::device_law::{
    args1, args2, args3, args4, args5, done, also_made, input_gradient, lemma_both, linear, made,
    matrix, matrix_at, new_part, plain_form, run, run_to, size, weight_step, whole, with_part,
    with_weights, zeros, Device, Values,
};
use crate::gpu_feed_forward::{self, is_outside, GatedPlan};
use crate::gpu_feed_forward_law::{
    gate_up_gradient, gated_in, kept_in, law_backward_is_the_gradient, law_forward_is_the_formula,
    pair_gradient, with_feed_forward,
};
use crate::gpu_moe::{
    activated_steps, backward_steps, balance_steps, deactivated_steps,
    down_gradient_step, down_gradient_steps, down_steps, downstream_steps, experts_gradient_steps,
    forward_steps, gate_gradient_steps, gate_up_gradient_step, gate_up_gradient_steps,
    gate_up_steps, gather_steps, lemma_packed, lemma_run, packing_steps,
    probabilities_gradient_steps, room_steps, router_gradient_steps, router_steps, scatter_steps,
    shared_gradient_steps, shared_steps, statistics_steps, upstream_steps, MoePlan,
};
use crate::gpu_moe_law::is_shared;
use crate::moe::total;
use vstd::prelude::*;

verus! {

/// How many rows the first experts got together.
pub open spec fn rows_before(counts: Seq<usize>, e: int) -> int
    decreases e,
{
    if e <= 0 {
        0
    } else {
        rows_before(counts, e - 1) + counts[e - 1]
    }
}

proof fn lemma_rows_before(counts: Seq<usize>, e: int)
    ensures
        rows_before(counts, e) == total(counts, e),
    decreases e,
{
    if e > 0 {
        lemma_rows_before(counts, e - 1);
    }
}

/// A mixture: how many rows of how many features, through how many experts of
/// how many gates, and how many rows each expert got.
pub ghost struct Mixture {
    pub rows: int,
    pub features: int,
    pub width: int,
    pub experts: int,
    pub top_k: int,
    pub routed: int,
    pub counts: Seq<usize>,
}

/// The mixture of a plan.
pub open spec fn mixture_of(plan: MoePlan, counts: Seq<usize>) -> Mixture {
    Mixture {
        rows: plan.rows as int,
        features: plan.d_model as int,
        width: plan.width as int,
        experts: plan.experts as int,
        top_k: plan.top_k as int,
        routed: plan.routed as int,
        counts,
    }
}

impl Mixture {
    /// How long the weight of one projection of an expert is.
    pub open spec fn weight(self) -> int {
        self.width * self.features
    }

    /// The sizes the router's kernels are told.
    pub open spec fn choice(self) -> Sizes {
        Sizes { heads: self.top_k as usize, ..size(self.rows, self.experts) }
    }
}

// -- Forwards ----------------------------------------------------------------------

/// The routed rows, one expert's after another's.
#[verifier::opaque]
pub open spec fn gathered<V>(d: Device<V>, m: Mixture, normed: V, token_of: V) -> V {
    let room = m.routed * m.features;
    if m.routed > 0 {
        made(
            d,
            Kernel::Gather,
            size(m.routed, m.features),
            args2(whole(normed, m.rows * m.features), whole(token_of, m.routed)),
            new_part(d, room),
        )
    } else {
        (d.fresh)(room)
    }
}

/// Gate and up weights of all experts.
#[verifier::opaque]
pub open spec fn expert_weights<V>(d: Device<V>, m: Mixture, values: Values<V>) -> V {
    (d.experts)(
        Seq::new(m.experts as nat, |e: int| values[Buffer::ExpertGateWeight(e as usize)]),
        Seq::new(m.experts as nat, |e: int| values[Buffer::ExpertUpWeight(e as usize)]),
        m.weight(),
        (d.fresh)(m.experts * (2 * m.weight())),
    )
}

/// Gate and up projections of the rows of the first `e` experts, each
/// expert's rows by its own weights.
pub open spec fn projected<V>(d: Device<V>, m: Mixture, rows: V, weights: V, e: int) -> V
    decreases e,
{
    if e <= 0 {
        (d.fresh)(m.routed * (2 * m.width))
    } else {
        let before = projected(d, m, rows, weights, e - 1);
        let at = rows_before(m.counts, e - 1);
        if m.counts[e - 1] == 0 {
            before
        } else {
            (d.product)(
                plain_form(
                    Kind::RhsTransposed,
                    Factor::One,
                    false,
                    m.counts[e - 1] as int,
                    2 * m.width,
                    m.features,
                ),
                matrix_at(rows, at * m.features, m.features),
                matrix_at(weights, (e - 1) * (2 * m.weight()), m.features),
                matrix_at(before, at * (2 * m.width), 2 * m.width),
            )
        }
    }
}

/// The gated activations of projected rows.
#[verifier::opaque]
pub open spec fn activations<V>(d: Device<V>, m: Mixture, projected: V) -> V {
    made(
        d,
        Kernel::SwiGlu,
        size(m.routed, m.width),
        args1(whole(projected, m.routed * (2 * m.width))),
        new_part(d, m.routed * m.width),
    )
}

/// What the first `e` experts make of their activations, each by its own down
/// weight.
pub open spec fn outputs<V>(d: Device<V>, m: Mixture, hidden: V, values: Values<V>, e: int) -> V
    decreases e,
{
    if e <= 0 {
        (d.fresh)(m.routed * m.features)
    } else {
        let before = outputs(d, m, hidden, values, e - 1);
        let at = rows_before(m.counts, e - 1);
        if m.counts[e - 1] == 0 {
            before
        } else {
            (d.product)(
                plain_form(
                    Kind::RhsTransposed,
                    Factor::One,
                    false,
                    m.counts[e - 1] as int,
                    m.features,
                    m.width,
                ),
                matrix_at(hidden, at * m.width, m.width),
                matrix(values[Buffer::ExpertDownWeight((e - 1) as usize)], m.width),
                matrix_at(before, at * m.features, m.features),
            )
        }
    }
}

/// Everything the experts make of the rows sent to them.
#[verifier::opaque]
pub open spec fn expert_outputs<V>(d: Device<V>, m: Mixture, values: Values<V>) -> V {
    let rows = gathered(d, m, values[Buffer::FeedForwardNormed], values[Buffer::TokenOf]);
    let weights = expert_weights(d, m, values);
    let hidden = activations(d, m, projected(d, m, rows, weights, m.experts));
    outputs(d, m, hidden, values, m.experts)
}

/// The output with every routed row added where it came from, by its gate.
#[verifier::opaque]
pub open spec fn with_experts<V>(d: Device<V>, m: Mixture, to: V, made_of: V, values: Values<V>) -> V {
    if m.routed > 0 {
        made(
            d,
            Kernel::ScatterScaled,
            size(m.routed, m.features),
            args4(
                whole(made_of, m.routed * m.features),
                whole(values[Buffer::TokenOf], m.routed),
                whole(values[Buffer::Gates], m.routed),
                whole(to, m.rows * m.features),
            ),
            whole(to, m.rows * m.features),
        )
    } else {
        to
    }
}

/// The output of a mixture: what was there, the experts by their gates, and
/// the shared expert where there is one.
#[verifier::opaque]
pub open spec fn mixed<V>(
    d: Device<V>,
    m: Mixture,
    shared: Option<GatedPlan>,
    values: Values<V>,
) -> V {
    let routed = with_experts(d, m, values[Buffer::Output], expert_outputs(d, m, values), values);
    match shared {
        Some(gated) => with_feed_forward(
            d,
            gated_in(gated, values),
            routed,
            values[Buffer::FeedForwardNormed],
        ),
        None => routed,
    }
}

/// Whether a buffer is none of those the experts work in.
pub open spec fn is_given(b: Buffer) -> bool {
    match b {
        Buffer::Gathered | Buffer::ExpertWeights | Buffer::ExpertGateUp | Buffer::ExpertHidden
        | Buffer::ExpertOutput | Buffer::Output | Buffer::Sums => false,
        _ => true,
    }
}

proof fn lemma_gate_up<V>(
    d: Device<V>,
    values: Values<V>,
    plan: MoePlan,
    counts: Seq<usize>,
    k: int,
)
    requires
        plan.wf(),
        counts.len() == plan.experts,
        plan.routed == total(counts, plan.experts as int),
        0 <= k <= plan.experts,
        values[Buffer::ExpertGateUp] == (d.fresh)(plan.routed * (2 * plan.width)),
    ensures
        run(d, values, gate_up_steps(plan, counts, k))[Buffer::ExpertGateUp] == projected(
            d,
            mixture_of(plan, counts),
            values[Buffer::Gathered],
            values[Buffer::ExpertWeights],
            k,
        ),
        forall|b: Buffer|
            b != Buffer::ExpertGateUp ==> #[trigger] run(
                d,
                values,
                gate_up_steps(plan, counts, k),
            )[b] == values[b],
    decreases k,
{
    if k > 0 {
        lemma_gate_up(d, values, plan, counts, k - 1);
        let before = gate_up_steps(plan, counts, k - 1);
        let now = run(d, values, before);
        if counts[k - 1] != 0 {
            let all = gate_up_steps(plan, counts, k);
            let next = all.skip(before.len() as int);
            assert(all =~= before + next);
            lemma_both(d, values, before, next);
            lemma_run(plan, counts, k - 1, plan.d_model as int);
            lemma_run(plan, counts, k - 1, plan.double as int);
            lemma_packed(plan, k - 1);
            lemma_rows_before(counts, k - 1);
            assert(0 <= counts[k - 1] * plan.d_model && 0 <= counts[k - 1] * plan.double)
                by (nonlinear_arith);
            assert(run(d, now, next) == done(d, now, next[0])) by {
                reveal_with_fuel(run_to, 2);
            }
        }
    }
}

proof fn lemma_down<V>(
    d: Device<V>,
    values: Values<V>,
    plan: MoePlan,
    counts: Seq<usize>,
    k: int,
)
    requires
        plan.wf(),
        counts.len() == plan.experts,
        plan.routed == total(counts, plan.experts as int),
        0 <= k <= plan.experts,
        values[Buffer::ExpertOutput] == (d.fresh)(plan.routed * plan.d_model),
    ensures
        run(d, values, down_steps(plan, counts, k))[Buffer::ExpertOutput] == outputs(
            d,
            mixture_of(plan, counts),
            values[Buffer::ExpertHidden],
            values,
            k,
        ),
        forall|b: Buffer|
            b != Buffer::ExpertOutput ==> #[trigger] run(d, values, down_steps(plan, counts, k))[b]
                == values[b],
    decreases k,
{
    if k > 0 {
        lemma_down(d, values, plan, counts, k - 1);
        let before = down_steps(plan, counts, k - 1);
        let now = run(d, values, before);
        if counts[k - 1] != 0 {
            let all = down_steps(plan, counts, k);
            let next = all.skip(before.len() as int);
            assert(all =~= before + next);
            lemma_both(d, values, before, next);
            lemma_run(plan, counts, k - 1, plan.d_model as int);
            lemma_run(plan, counts, k - 1, plan.width as int);
            lemma_narrow(plan);
            lemma_rows_before(counts, k - 1);
            assert(0 <= counts[k - 1] * plan.d_model && 0 <= counts[k - 1] * plan.width)
                by (nonlinear_arith);
            assert(run(d, now, next) == done(d, now, next[0])) by {
                reveal_with_fuel(run_to, 2);
            }
        }
    }
}

proof fn lemma_narrow(plan: MoePlan)
    requires
        plan.wf(),
    ensures
        plan.routed * plan.width <= usize::MAX,
        plan.packed_stride == 2 * (plan.width * plan.d_model),
        plan.packed == plan.experts * (2 * (plan.width * plan.d_model)),
{
    assert(plan.expert_hidden == plan.routed * plan.width);
}

/// What the outputs of the experts depend on.
proof fn lemma_outputs_agree<V>(
    d: Device<V>,
    m: Mixture,
    hidden: V,
    a: Values<V>,
    b: Values<V>,
    e: int,
)
    requires
        e <= m.experts,
        forall|i: usize|
            #[trigger] a[Buffer::ExpertDownWeight(i)] == b[Buffer::ExpertDownWeight(i)],
    ensures
        outputs(d, m, hidden, a, e) == outputs(d, m, hidden, b, e),
    decreases e,
{
    if e > 0 {
        lemma_outputs_agree(d, m, hidden, a, b, e - 1);
    }
}

proof fn lemma_weights_agree<V>(d: Device<V>, m: Mixture, a: Values<V>, b: Values<V>)
    requires
        forall|i: usize|
            #[trigger] a[Buffer::ExpertGateWeight(i)] == b[Buffer::ExpertGateWeight(i)],
        forall|i: usize|
            #[trigger] a[Buffer::ExpertUpWeight(i)] == b[Buffer::ExpertUpWeight(i)],
    ensures
        expert_weights(d, m, a) == expert_weights(d, m, b),
{
    reveal(expert_weights);
    assert(Seq::new(m.experts as nat, |e: int| a[Buffer::ExpertGateWeight(e as usize)])
        =~= Seq::new(m.experts as nat, |e: int| b[Buffer::ExpertGateWeight(e as usize)]));
    assert(Seq::new(m.experts as nat, |e: int| a[Buffer::ExpertUpWeight(e as usize)])
        =~= Seq::new(m.experts as nat, |e: int| b[Buffer::ExpertUpWeight(e as usize)]));
}

/// The rows, weights and room the experts start from.
proof fn lemma_prepared<V>(d: Device<V>, values: Values<V>, plan: MoePlan, counts: Seq<usize>)
    requires
        plan.wf(),
        counts.len() == plan.experts,
    ensures
        ({
            let after = run(
                d,
                values,
                room_steps(plan) + gather_steps(plan) + packing_steps(plan),
            );
            let m = mixture_of(plan, counts);
            &&& after[Buffer::Gathered] == gathered(
                d,
                m,
                values[Buffer::FeedForwardNormed],
                values[Buffer::TokenOf],
            )
            &&& after[Buffer::ExpertWeights] == expert_weights(d, m, values)
            &&& after[Buffer::ExpertGateUp] == (d.fresh)(plan.routed * (2 * plan.width))
            &&& forall|b: Buffer|
                is_given(b) || b == Buffer::Output ==> #[trigger] after[b] == values[b]
        }),
{
    lemma_narrow(plan);
    let m = mixture_of(plan, counts);
    let (s1, s2, s3) = (room_steps(plan), gather_steps(plan), packing_steps(plan));
    lemma_both(d, values, s1, s2);
    lemma_both(d, values, s1 + s2, s3);
    let m1 = run(d, values, s1);
    assert(m1 == values.insert(Buffer::Gathered, (d.fresh)(plan.gathered as int))) by {
        reveal_with_fuel(run_to, 2);
    }
    let m2 = run(d, m1, s2);
    assert(m2[Buffer::Gathered] == gathered(
        d,
        m,
        values[Buffer::FeedForwardNormed],
        values[Buffer::TokenOf],
    ) && forall|b: Buffer| b != Buffer::Gathered ==> #[trigger] m2[b] == values[b]) by {
        reveal(gathered);
        reveal_with_fuel(run_to, 2);
    }
    let m3 = run(d, m2, s3);
    let a = done(d, m2, s3[0]);
    let b = done(d, a, s3[1]);
    let c = done(d, b, s3[2]);
    assert(m3 == c) by {
        reveal_with_fuel(run_to, 4);
    }
    reveal(with_weights);
    lemma_weights_agree(d, m, a, values);
    assert(b[Buffer::ExpertWeights] == expert_weights(d, m, a)) by {
        reveal(expert_weights);
    }
}

proof fn lemma_activated<V>(d: Device<V>, values: Values<V>, plan: MoePlan, counts: Seq<usize>)
    requires
        plan.wf(),
    ensures
        ({
            let after = run(d, values, activated_steps(plan));
            let m = mixture_of(plan, counts);
            &&& after[Buffer::ExpertHidden] == activations(d, m, values[Buffer::ExpertGateUp])
            &&& after[Buffer::ExpertOutput] == (d.fresh)(plan.routed * plan.d_model)
            &&& forall|b: Buffer|
                b != Buffer::ExpertHidden && b != Buffer::ExpertOutput ==> #[trigger] after[b]
                    == values[b]
        }),
{
    lemma_narrow(plan);
    reveal(activations);
    reveal_with_fuel(run_to, 4);
}

proof fn lemma_scattered<V>(d: Device<V>, values: Values<V>, plan: MoePlan, counts: Seq<usize>)
    requires
        plan.wf(),
    ensures
        ({
            let after = run(d, values, scatter_steps(plan));
            let m = mixture_of(plan, counts);
            &&& after[Buffer::Output] == with_experts(
                d,
                m,
                values[Buffer::Output],
                values[Buffer::ExpertOutput],
                values,
            )
            &&& forall|b: Buffer| b != Buffer::Output ==> #[trigger] after[b] == values[b]
        }),
{
    reveal(with_experts);
    reveal_with_fuel(run_to, 2);
}

proof fn lemma_statistics<V>(d: Device<V>, values: Values<V>, plan: MoePlan, counts: Seq<usize>)
    requires
        plan.wf(),
    ensures
        ({
            let after = run(d, values, statistics_steps(plan));
            &&& after[Buffer::Sums] == statistics(d, mixture_of(plan, counts), values)
            &&& forall|b: Buffer| b != Buffer::Sums ==> #[trigger] after[b] == values[b]
        }),
{
    reveal(statistics);
    reveal_with_fuel(run_to, 4);
}

/// What the scatter and the statistics read.
proof fn lemma_reads_agree<V>(d: Device<V>, m: Mixture, a: Values<V>, b: Values<V>, to: V, x: V)
    requires
        a[Buffer::TokenOf] == b[Buffer::TokenOf],
        a[Buffer::Gates] == b[Buffer::Gates],
        a[Buffer::RouterProbabilities] == b[Buffer::RouterProbabilities],
        a[Buffer::RouterLogSumExp] == b[Buffer::RouterLogSumExp],
        a[Buffer::Valid] == b[Buffer::Valid],
    ensures
        with_experts(d, m, to, x, a) == with_experts(d, m, to, x, b),
        statistics(d, m, a) == statistics(d, m, b),
{
    reveal(with_experts);
    reveal(statistics);
}

/// The forward pass of a mixture leaves in the output what was there, with
/// every routed row's own expert added by its gate, and, where there is a
/// shared expert, with what its weights make of every row added as well. It
/// keeps the gathered rows, the projections, activations and outputs of the
/// experts for their gradients, and leaves everything it was given as it was.
pub proof fn law_forward_is_the_mixture<V>(
    d: Device<V>,
    values: Values<V>,
    plan: MoePlan,
    counts: Seq<usize>,
    shared: Option<GatedPlan>,
)
    requires
        plan.wf(),
        counts.len() == plan.experts,
        plan.routed == total(counts, plan.experts as int),
        is_shared(plan, shared),
    ensures
        ({
            let after = run(d, values, forward_steps(plan, counts, shared));
            let m = mixture_of(plan, counts);
            let rows = gathered(d, m, values[Buffer::FeedForwardNormed], values[Buffer::TokenOf]);
            let weights = expert_weights(d, m, values);
            let projections = projected(d, m, rows, weights, m.experts);
            &&& after[Buffer::Output] == mixed(d, m, shared, values)
            &&& after[Buffer::Gathered] == rows
            &&& after[Buffer::ExpertWeights] == weights
            &&& after[Buffer::ExpertGateUp] == projections
            &&& after[Buffer::ExpertHidden] == activations(d, m, projections)
            &&& after[Buffer::ExpertOutput] == expert_outputs(d, m, values)
            &&& after[Buffer::Sums] == statistics(d, m, values)
            &&& forall|b: Buffer|
                is_given(b) && is_outside(b) ==> #[trigger] after[b] == values[b]
        }),
{
    lemma_narrow(plan);
    let m = mixture_of(plan, counts);
    let n = plan.experts as int;
    let s3 = room_steps(plan) + gather_steps(plan) + packing_steps(plan);
    lemma_prepared(d, values, plan, counts);
    let m3 = run(d, values, s3);
    let s4 = gate_up_steps(plan, counts, n);
    lemma_both(d, values, s3, s4);
    lemma_gate_up(d, m3, plan, counts, n);
    let m4 = run(d, m3, s4);
    let s5 = activated_steps(plan);
    lemma_both(d, values, s3 + s4, s5);
    let m5 = run(d, m4, s5);
    lemma_activated(d, m4, plan, counts);
    let s6 = down_steps(plan, counts, n);
    lemma_both(d, values, s3 + s4 + s5, s6);
    lemma_down(d, m5, plan, counts, n);
    lemma_outputs_agree(d, m, m5[Buffer::ExpertHidden], m5, values, n);
    let m6 = run(d, m5, s6);
    let s7 = scatter_steps(plan);
    lemma_both(d, values, s3 + s4 + s5 + s6, s7);
    let m7 = run(d, m6, s7);
    lemma_scattered(d, m6, plan, counts);
    lemma_reads_agree(
        d,
        m,
        m6,
        values,
        m6[Buffer::Output],
        m6[Buffer::ExpertOutput],
    );
    let s8 = shared_steps(shared);
    lemma_both(d, values, s3 + s4 + s5 + s6 + s7, s8);
    let m8 = run(d, m7, s8);
    match shared {
        Some(gated) => {
            law_forward_is_the_formula(d, m7, gated);
            assert(gated_in(gated, m7) == gated_in(gated, values));
        },
        None => {},
    }
    let s9 = statistics_steps(plan);
    lemma_both(d, values, s3 + s4 + s5 + s6 + s7 + s8, s9);
    let m9 = run(d, m8, s9);
    lemma_statistics(d, m8, plan, counts);
    lemma_reads_agree(d, m, m8, values, values[Buffer::Output], values[Buffer::Output]);
    assert(forward_steps(plan, counts, shared) == s3 + s4 + s5 + s6 + s7 + s8 + s9);
    reveal(expert_outputs);
    reveal(mixed);
}

/// The sums that the auxiliary losses need, over the valid rows.
#[verifier::opaque]
pub open spec fn statistics<V>(d: Device<V>, m: Mixture, values: Values<V>) -> V {
    let sums = zeros(d, m.experts + 1);
    made(
        d,
        Kernel::Stats,
        size(m.rows, m.experts),
        args4(
            whole(values[Buffer::RouterProbabilities], m.rows * m.experts),
            whole(values[Buffer::RouterLogSumExp], m.rows),
            whole(values[Buffer::Valid], m.rows),
            whole(sums, m.experts + 1),
        ),
        whole(sums, m.experts + 1),
    )
}

// -- The router ----------------------------------------------------------------------

/// One logit per row and expert.
pub open spec fn logits<V>(d: Device<V>, m: Mixture, values: Values<V>) -> V {
    linear(
        d,
        values[Buffer::FeedForwardNormed],
        values[Buffer::RouterWeight],
        m.rows,
        m.experts,
        m.features,
    )
}

/// The softmax of the logits, row by row.
pub open spec fn probabilities<V>(d: Device<V>, m: Mixture, logits: V) -> V {
    made(
        d,
        Kernel::RouterSoftmax,
        size(m.rows, m.experts),
        args1(whole(logits, m.rows * m.experts)),
        whole(zeros(d, m.rows * m.experts), m.rows * m.experts),
    )
}

/// The router turns rows into logits by its weight, logits into probabilities
/// and the logarithms of their sums, and those of valid rows into the best
/// experts and their gates.
pub proof fn law_router_chooses<V>(
    d: Device<V>,
    values: Values<V>,
    plan: MoePlan,
    counts: Seq<usize>,
)
    requires
        plan.wf(),
    ensures
        ({
            let after = run(d, values, router_steps(plan));
            let m = mixture_of(plan, counts);
            let made_of = logits(d, m, values);
            let slots = m.rows * m.top_k;
            let read = args2(
                whole(probabilities(d, m, made_of), m.rows * m.experts),
                whole(values[Buffer::Valid], m.rows),
            );
            &&& after[Buffer::RouterLogits] == made_of
            &&& after[Buffer::RouterProbabilities] == probabilities(d, m, made_of)
            &&& after[Buffer::RouterLogSumExp] == also_made(
                d,
                Kernel::RouterSoftmax,
                size(m.rows, m.experts),
                args1(whole(made_of, m.rows * m.experts)),
                whole(zeros(d, m.rows), m.rows),
            )
            &&& after[Buffer::ExpertOf] == made(
                d,
                Kernel::TopKGate,
                m.choice(),
                read,
                whole(zeros(d, slots), slots),
            )
            &&& after[Buffer::GateOf] == also_made(
                d,
                Kernel::TopKGate,
                m.choice(),
                read,
                whole(zeros(d, slots), slots),
            )
        }),
{
    reveal_with_fuel(run_to, 13);
}

// -- Backwards -------------------------------------------------------------------------

/// Gradients of gates, slot by slot.
#[verifier::opaque]
pub open spec fn gate_gradient<V>(d: Device<V>, m: Mixture, values: Values<V>) -> V {
    let slots = m.rows * m.top_k;
    let none = zeros(d, slots);
    if m.routed > 0 {
        made(
            d,
            Kernel::RowDot,
            size(m.routed, m.features),
            args5(
                whole(values[Buffer::SlotOf], m.routed),
                whole(values[Buffer::GradOutput], m.rows * m.features),
                whole(values[Buffer::TokenOf], m.routed),
                whole(values[Buffer::ExpertOutput], m.routed * m.features),
                whole(none, slots),
            ),
            whole(none, slots),
        )
    } else {
        none
    }
}

/// The gradient of what the experts made.
#[verifier::opaque]
pub open spec fn output_gradient<V>(d: Device<V>, m: Mixture, values: Values<V>) -> V {
    made(
        d,
        Kernel::GatherScaled,
        size(m.routed, m.features),
        args3(
            whole(values[Buffer::GradOutput], m.rows * m.features),
            whole(values[Buffer::TokenOf], m.routed),
            whole(values[Buffer::Gates], m.routed),
        ),
        new_part(d, m.routed * m.features),
    )
}

/// The gradient of the activations of the first `e` experts, each back through
/// its own down weight.
pub open spec fn hidden_gradient<V>(
    d: Device<V>,
    m: Mixture,
    upstream: V,
    values: Values<V>,
    e: int,
) -> V
    decreases e,
{
    if e <= 0 {
        (d.fresh)(m.routed * m.width)
    } else {
        let before = hidden_gradient(d, m, upstream, values, e - 1);
        let at = rows_before(m.counts, e - 1);
        if m.counts[e - 1] == 0 {
            before
        } else {
            (d.product)(
                plain_form(
                    Kind::Plain,
                    Factor::One,
                    false,
                    m.counts[e - 1] as int,
                    m.width,
                    m.features,
                ),
                matrix_at(upstream, at * m.features, m.features),
                matrix(values[Buffer::ExpertDownWeight((e - 1) as usize)], m.width),
                matrix_at(before, at * m.width, m.width),
            )
        }
    }
}

/// The gradient of the down weight of an expert, from its own rows.
#[verifier::opaque]
pub open spec fn down_gradient<V>(
    d: Device<V>,
    m: Mixture,
    upstream: V,
    values: Values<V>,
    e: int,
) -> V {
    let before = values[Buffer::ExpertDownGrad(e as usize)];
    let at = rows_before(m.counts, e);
    if m.counts[e] == 0 {
        before
    } else {
        (d.product)(
            plain_form(
                Kind::LhsTransposed,
                Factor::MinusOne,
                true,
                m.features,
                m.width,
                m.counts[e] as int,
            ),
            matrix_at(upstream, at * m.features, m.features),
            matrix_at(values[Buffer::ExpertHidden], at * m.width, m.width),
            matrix(before, m.width),
        )
    }
}

/// The gradient of both first projections.
#[verifier::opaque]
pub open spec fn projection_gradient<V>(
    d: Device<V>,
    m: Mixture,
    hidden_gradient: V,
    values: Values<V>,
) -> V {
    made(
        d,
        Kernel::SwiGluBackward,
        size(m.routed, m.width),
        args2(
            whole(values[Buffer::ExpertGateUp], m.routed * (2 * m.width)),
            whole(hidden_gradient, m.routed * m.width),
        ),
        new_part(d, m.routed * (2 * m.width)),
    )
}

/// The gradient of the routed rows of the first `e` experts, each back through
/// its own packed weights.
pub open spec fn rows_gradient<V>(
    d: Device<V>,
    m: Mixture,
    upstream: V,
    values: Values<V>,
    e: int,
) -> V
    decreases e,
{
    if e <= 0 {
        (d.fresh)(m.routed * m.features)
    } else {
        let before = rows_gradient(d, m, upstream, values, e - 1);
        let at = rows_before(m.counts, e - 1);
        if m.counts[e - 1] == 0 {
            before
        } else {
            (d.product)(
                plain_form(
                    Kind::Plain,
                    Factor::One,
                    false,
                    m.counts[e - 1] as int,
                    m.features,
                    2 * m.width,
                ),
                matrix_at(upstream, at * (2 * m.width), 2 * m.width),
                matrix_at(
                    values[Buffer::ExpertWeights],
                    (e - 1) * (2 * m.weight()),
                    m.features,
                ),
                matrix_at(before, at * m.features, m.features),
            )
        }
    }
}

/// The gradient of the packed weights of an expert, from its own rows.
#[verifier::opaque]
pub open spec fn packed_gradient<V>(
    d: Device<V>,
    m: Mixture,
    upstream: V,
    values: Values<V>,
    e: int,
) -> V {
    let at = rows_before(m.counts, e);
    (d.product)(
        plain_form(
            Kind::LhsTransposed,
            Factor::MinusOne,
            false,
            2 * m.width,
            m.features,
            m.counts[e] as int,
        ),
        matrix_at(upstream, at * (2 * m.width), 2 * m.width),
        matrix_at(values[Buffer::Gathered], at * m.features, m.features),
        matrix((d.fresh)(2 * m.weight()), m.features),
    )
}

/// The gradients of an expert's gate weight and of its up weight: the two
/// halves of the packed one.
#[verifier::opaque]
pub open spec fn gate_weight_gradient<V>(
    d: Device<V>,
    m: Mixture,
    upstream: V,
    values: Values<V>,
    e: int,
) -> V {
    let before = values[Buffer::ExpertGateGrad(e as usize)];
    if m.counts[e] == 0 {
        before
    } else {
        with_part(d, before, packed_gradient(d, m, upstream, values, e), 0, m.weight())
    }
}

#[verifier::opaque]
pub open spec fn up_weight_gradient<V>(
    d: Device<V>,
    m: Mixture,
    upstream: V,
    values: Values<V>,
    e: int,
) -> V {
    let before = values[Buffer::ExpertUpGrad(e as usize)];
    if m.counts[e] == 0 {
        before
    } else {
        with_part(
            d,
            before,
            packed_gradient(d, m, upstream, values, e),
            m.weight(),
            m.weight(),
        )
    }
}

/// The gradient of the layer's input so far, with that of every routed row
/// added where it came from.
#[verifier::opaque]
pub open spec fn with_rows<V>(
    d: Device<V>,
    m: Mixture,
    to: V,
    rows_gradient: V,
    values: Values<V>,
) -> V {
    made(
        d,
        Kernel::Scatter,
        size(m.routed, m.features),
        args3(
            whole(rows_gradient, m.routed * m.features),
            whole(values[Buffer::TokenOf], m.routed),
            whole(to, m.rows * m.features),
        ),
        whole(to, m.rows * m.features),
    )
}

/// The gradient of the router's probabilities: what their gates give them, and
/// what the load-balancing loss adds where it has a weight.
#[verifier::opaque]
pub open spec fn probability_gradient<V>(
    d: Device<V>,
    m: Mixture,
    gate_gradient: V,
    values: Values<V>,
    balance: bool,
) -> V {
    let (len, slots) = (m.rows * m.experts, m.rows * m.top_k);
    let none = zeros(d, len);
    let from_gates = made(
        d,
        Kernel::GradProbabilities,
        m.choice(),
        args4(
            whole(gate_gradient, slots),
            whole(values[Buffer::RouterProbabilities], len),
            whole(values[Buffer::ExpertOf], slots),
            whole(none, len),
        ),
        whole(none, len),
    );
    if balance {
        made(
            d,
            Kernel::AuxGrad,
            m.choice(),
            args3(
                whole(values[Buffer::Loads], m.experts),
                whole(values[Buffer::ExpertOf], slots),
                whole(from_gates, len),
            ),
            whole(from_gates, len),
        )
    } else {
        from_gates
    }
}

/// The gradient of the router's logits.
#[verifier::opaque]
pub open spec fn logit_gradient<V>(
    d: Device<V>,
    m: Mixture,
    probability_gradient: V,
    values: Values<V>,
) -> V {
    let (len, slots) = (m.rows * m.experts, m.rows * m.top_k);
    let none = zeros(d, len);
    made(
        d,
        Kernel::GradLogits,
        m.choice(),
        args5(
            whole(probability_gradient, len),
            whole(values[Buffer::RouterProbabilities], len),
            whole(values[Buffer::RouterLogSumExp], m.rows),
            whole(values[Buffer::ExpertOf], slots),
            whole(none, len),
        ),
        whole(none, len),
    )
}

proof fn lemma_down_gradient<V>(
    d: Device<V>,
    values: Values<V>,
    plan: MoePlan,
    counts: Seq<usize>,
    k: int,
)
    requires
        plan.wf(),
        counts.len() == plan.experts,
        plan.routed == total(counts, plan.experts as int),
        0 <= k <= plan.experts,
        values[Buffer::GradExpertHidden] == (d.fresh)(plan.routed * plan.width),
    ensures
        ({
            let m = mixture_of(plan, counts);
            let upstream = values[Buffer::GradExpertOutput];
            let after = run(d, values, down_gradient_steps(plan, counts, k));
            &&& after[Buffer::GradExpertHidden] == hidden_gradient(d, m, upstream, values, k)
            &&& forall|e: usize|
                e < k ==> #[trigger] after[Buffer::ExpertDownGrad(e)] == down_gradient(
                    d,
                    m,
                    upstream,
                    values,
                    e as int,
                )
            &&& forall|e: usize|
                e >= k ==> #[trigger] after[Buffer::ExpertDownGrad(e)]
                    == values[Buffer::ExpertDownGrad(e)]
            &&& forall|b: Buffer|
                b != Buffer::GradExpertHidden && !(b is ExpertDownGrad) ==> #[trigger] after[b]
                    == values[b]
        }),
    decreases k,
{
    if k > 0 {
        lemma_down_gradient(d, values, plan, counts, k - 1);
        reveal(down_gradient);
        let before = down_gradient_steps(plan, counts, k - 1);
        let now = run(d, values, before);
        if counts[k - 1] != 0 {
            let next = down_gradient_step(plan, counts, k - 1);
            lemma_both(d, values, before, next);
            lemma_run(plan, counts, k - 1, plan.d_model as int);
            lemma_run(plan, counts, k - 1, plan.width as int);
            lemma_narrow(plan);
            lemma_rows_before(counts, k - 1);
            assert(0 <= counts[k - 1] * plan.d_model && 0 <= counts[k - 1] * plan.width)
                by (nonlinear_arith);
            let first = done(d, now, next[0]);
            let second = done(d, first, next[1]);
            assert(run(d, now, next) == second) by {
                reveal_with_fuel(run_to, 3);
            }
        }
    }
}

proof fn lemma_gate_up_gradient<V>(
    d: Device<V>,
    values: Values<V>,
    plan: MoePlan,
    counts: Seq<usize>,
    k: int,
)
    requires
        plan.wf(),
        counts.len() == plan.experts,
        plan.routed == total(counts, plan.experts as int),
        0 <= k <= plan.experts,
        values[Buffer::GradExpertInput] == (d.fresh)(plan.routed * plan.d_model),
    ensures
        ({
            let m = mixture_of(plan, counts);
            let upstream = values[Buffer::GradExpertGateUp];
            let after = run(d, values, gate_up_gradient_steps(plan, counts, k));
            &&& after[Buffer::GradExpertInput] == rows_gradient(d, m, upstream, values, k)
            &&& forall|e: usize|
                e < k ==> #[trigger] after[Buffer::ExpertGateGrad(e)] == gate_weight_gradient(
                    d,
                    m,
                    upstream,
                    values,
                    e as int,
                )
            &&& forall|e: usize|
                e < k ==> #[trigger] after[Buffer::ExpertUpGrad(e)] == up_weight_gradient(
                    d,
                    m,
                    upstream,
                    values,
                    e as int,
                )
            &&& forall|e: usize|
                e >= k ==> #[trigger] after[Buffer::ExpertGateGrad(e)]
                    == values[Buffer::ExpertGateGrad(e)]
            &&& forall|e: usize|
                e >= k ==> #[trigger] after[Buffer::ExpertUpGrad(e)]
                    == values[Buffer::ExpertUpGrad(e)]
            &&& forall|b: Buffer|
                b != Buffer::GradExpertInput && b != Buffer::Scratch && !(b is ExpertGateGrad) && !(
                b is ExpertUpGrad) ==> #[trigger] after[b] == values[b]
        }),
    decreases k,
{
    if k > 0 {
        lemma_gate_up_gradient(d, values, plan, counts, k - 1);
        reveal(gate_weight_gradient);
        reveal(up_weight_gradient);
        reveal(packed_gradient);
        let before = gate_up_gradient_steps(plan, counts, k - 1);
        let now = run(d, values, before);
        if counts[k - 1] != 0 {
            let m = mixture_of(plan, counts);
            let next = gate_up_gradient_step(plan, counts, k - 1);
            lemma_both(d, values, before, next);
            lemma_run(plan, counts, k - 1, plan.d_model as int);
            lemma_run(plan, counts, k - 1, plan.double as int);
            lemma_packed(plan, k - 1);
            lemma_narrow(plan);
            lemma_rows_before(counts, k - 1);
            assert(0 <= counts[k - 1] * plan.d_model && 0 <= counts[k - 1] * plan.double)
                by (nonlinear_arith);
            let m1 = done(d, now, next[0]);
            let m2 = done(d, m1, next[1]);
            let m3 = done(d, m2, next[2]);
            let m4 = done(d, m3, next[3]);
            let m5 = done(d, m4, next[4]);
            assert(run(d, now, next) == m5) by {
                reveal_with_fuel(run_to, 6);
            }
            assert(m3[Buffer::Scratch] == packed_gradient(
                d,
                m,
                values[Buffer::GradExpertGateUp],
                values,
                k - 1,
            ));
        }
    }
}

/// What the gradients of the mixture depend on.
proof fn lemma_gradients_agree<V>(
    d: Device<V>,
    m: Mixture,
    x: V,
    a: Values<V>,
    b: Values<V>,
    e: int,
)
    requires
        e <= m.experts,
        a[Buffer::ExpertWeights] == b[Buffer::ExpertWeights],
        forall|i: usize|
            #[trigger] a[Buffer::ExpertDownWeight(i)] == b[Buffer::ExpertDownWeight(i)],
    ensures
        hidden_gradient(d, m, x, a, e) == hidden_gradient(d, m, x, b, e),
        rows_gradient(d, m, x, a, e) == rows_gradient(d, m, x, b, e),
    decreases e,
{
    if e > 0 {
        lemma_gradients_agree(d, m, x, a, b, e - 1);
    }
}

/// Whether the gradients of the experts are made in a buffer.
spec fn is_worked_in(b: Buffer) -> bool {
    match b {
        Buffer::GradGates | Buffer::GradExpertOutput | Buffer::GradExpertHidden
        | Buffer::ExpertDownGrad(_) | Buffer::GradExpertGateUp | Buffer::GradExpertInput
        | Buffer::Scratch | Buffer::ExpertGateGrad(_) | Buffer::ExpertUpGrad(_)
        | Buffer::GradFeedForward => true,
        _ => false,
    }
}

/// The gradient of the layer's input so far, with what every expert gives the
/// rows it got.
pub open spec fn with_expert_rows<V>(d: Device<V>, m: Mixture, values: Values<V>, to: V) -> V {
    let hidden = hidden_gradient(d, m, output_gradient(d, m, values), values, m.experts);
    let upstream = projection_gradient(d, m, hidden, values);
    if m.routed > 0 {
        with_rows(d, m, to, rows_gradient(d, m, upstream, values, m.experts), values)
    } else {
        to
    }
}

/// The gradients that the experts give their weights, each from its own rows.
pub open spec fn has_expert_gradients<V>(
    d: Device<V>,
    m: Mixture,
    values: Values<V>,
    after: Values<V>,
) -> bool {
    let made_of = output_gradient(d, m, values);
    let hidden = hidden_gradient(d, m, made_of, values, m.experts);
    let upstream = projection_gradient(d, m, hidden, values);
    &&& forall|e: usize|
        e < m.experts ==> #[trigger] after[Buffer::ExpertDownGrad(e)] == down_gradient(
            d,
            m,
            made_of,
            values,
            e as int,
        )
    &&& forall|e: usize|
        e < m.experts ==> #[trigger] after[Buffer::ExpertGateGrad(e)] == gate_weight_gradient(
            d,
            m,
            upstream,
            values,
            e as int,
        )
    &&& forall|e: usize|
        e < m.experts ==> #[trigger] after[Buffer::ExpertUpGrad(e)] == up_weight_gradient(
            d,
            m,
            upstream,
            values,
            e as int,
        )
}

proof fn lemma_upstream<V>(d: Device<V>, values: Values<V>, plan: MoePlan, counts: Seq<usize>)
    requires
        plan.wf(),
        plan.routed > 0,
        values[Buffer::GradGates] == zeros(d, plan.rows * plan.top_k),
    ensures
        ({
            let m = mixture_of(plan, counts);
            let after = run(d, values, upstream_steps(plan));
            &&& after[Buffer::GradGates] == gate_gradient(d, m, values)
            &&& after[Buffer::GradExpertOutput] == output_gradient(d, m, values)
            &&& after[Buffer::GradExpertHidden] == (d.fresh)(plan.routed * plan.width)
            &&& forall|b: Buffer|
                b != Buffer::GradGates && b != Buffer::GradExpertOutput && b
                    != Buffer::GradExpertHidden ==> #[trigger] after[b] == values[b]
        }),
{
    lemma_narrow(plan);
    reveal(gate_gradient);
    reveal(output_gradient);
    reveal_with_fuel(run_to, 5);
}

proof fn lemma_deactivated<V>(d: Device<V>, values: Values<V>, plan: MoePlan, counts: Seq<usize>)
    requires
        plan.wf(),
    ensures
        ({
            let after = run(d, values, deactivated_steps(plan));
            &&& after[Buffer::GradExpertGateUp] == projection_gradient(
                d,
                mixture_of(plan, counts),
                values[Buffer::GradExpertHidden],
                values,
            )
            &&& after[Buffer::GradExpertInput] == (d.fresh)(plan.routed * plan.d_model)
            &&& forall|b: Buffer|
                b != Buffer::GradExpertGateUp && b != Buffer::GradExpertInput ==> #[trigger]
                    after[b] == values[b]
        }),
{
    lemma_narrow(plan);
    reveal(projection_gradient);
    reveal_with_fuel(run_to, 4);
}

proof fn lemma_downstream<V>(d: Device<V>, values: Values<V>, plan: MoePlan, counts: Seq<usize>)
    requires
        plan.wf(),
    ensures
        ({
            let after = run(d, values, downstream_steps(plan));
            &&& after[Buffer::GradFeedForward] == with_rows(
                d,
                mixture_of(plan, counts),
                values[Buffer::GradFeedForward],
                values[Buffer::GradExpertInput],
                values,
            )
            &&& forall|b: Buffer|
                b != Buffer::GradFeedForward ==> #[trigger] after[b] == values[b]
        }),
{
    reveal(with_rows);
    reveal_with_fuel(run_to, 2);
}

/// What one expert's gradients read.
proof fn lemma_expert_agrees<V>(
    d: Device<V>,
    m: Mixture,
    x: V,
    a: Values<V>,
    b: Values<V>,
    e: usize,
)
    requires
        a[Buffer::ExpertHidden] == b[Buffer::ExpertHidden],
        a[Buffer::Gathered] == b[Buffer::Gathered],
        a[Buffer::ExpertDownGrad(e)] == b[Buffer::ExpertDownGrad(e)],
        a[Buffer::ExpertGateGrad(e)] == b[Buffer::ExpertGateGrad(e)],
        a[Buffer::ExpertUpGrad(e)] == b[Buffer::ExpertUpGrad(e)],
    ensures
        down_gradient(d, m, x, a, e as int) == down_gradient(d, m, x, b, e as int),
        gate_weight_gradient(d, m, x, a, e as int) == gate_weight_gradient(d, m, x, b, e as int),
        up_weight_gradient(d, m, x, a, e as int) == up_weight_gradient(d, m, x, b, e as int),
{
    reveal(down_gradient);
    reveal(gate_weight_gradient);
    reveal(up_weight_gradient);
    reveal(packed_gradient);
}

/// What the gradients of one expert's first weights read.
proof fn lemma_gate_weights_agree<V>(
    d: Device<V>,
    m: Mixture,
    x: V,
    a: Values<V>,
    b: Values<V>,
    e: usize,
)
    requires
        a[Buffer::Gathered] == b[Buffer::Gathered],
        a[Buffer::ExpertGateGrad(e)] == b[Buffer::ExpertGateGrad(e)],
        a[Buffer::ExpertUpGrad(e)] == b[Buffer::ExpertUpGrad(e)],
    ensures
        gate_weight_gradient(d, m, x, a, e as int) == gate_weight_gradient(d, m, x, b, e as int),
        up_weight_gradient(d, m, x, a, e as int) == up_weight_gradient(d, m, x, b, e as int),
{
    reveal(gate_weight_gradient);
    reveal(up_weight_gradient);
    reveal(packed_gradient);
}

/// What the gradients of the rows read.
proof fn lemma_rows_agree<V>(d: Device<V>, m: Mixture, x: V, to: V, a: Values<V>, b: Values<V>)
    requires
        a[Buffer::ExpertGateUp] == b[Buffer::ExpertGateUp],
        a[Buffer::TokenOf] == b[Buffer::TokenOf],
    ensures
        projection_gradient(d, m, x, a) == projection_gradient(d, m, x, b),
        with_rows(d, m, to, x, a) == with_rows(d, m, to, x, b),
{
    reveal(projection_gradient);
    reveal(with_rows);
}

proof fn lemma_experts_gradient<V>(
    d: Device<V>,
    values: Values<V>,
    plan: MoePlan,
    counts: Seq<usize>,
)
    requires
        plan.wf(),
        counts.len() == plan.experts,
        plan.routed == total(counts, plan.experts as int),
        plan.routed > 0,
        values[Buffer::GradGates] == zeros(d, plan.rows * plan.top_k),
    ensures
        ({
            let m = mixture_of(plan, counts);
            let after = run(d, values, experts_gradient_steps(plan, counts));
            &&& has_expert_gradients(d, m, values, after)
            &&& after[Buffer::GradFeedForward] == with_expert_rows(
                d,
                m,
                values,
                values[Buffer::GradFeedForward],
            )
            &&& after[Buffer::GradGates] == gate_gradient(d, m, values)
            &&& forall|b: Buffer| !is_worked_in(b) ==> #[trigger] after[b] == values[b]
        }),
{
    lemma_narrow(plan);
    let m = mixture_of(plan, counts);
    let n = plan.experts as int;
    let s1 = upstream_steps(plan);
    let m1 = run(d, values, s1);
    lemma_upstream(d, values, plan, counts);
    let s2 = down_gradient_steps(plan, counts, n);
    lemma_both(d, values, s1, s2);
    lemma_down_gradient(d, m1, plan, counts, n);
    lemma_gradients_agree(d, m, m1[Buffer::GradExpertOutput], m1, values, n);
    let m2 = run(d, m1, s2);
    let s3 = deactivated_steps(plan);
    lemma_both(d, values, s1 + s2, s3);
    let m3 = run(d, m2, s3);
    lemma_deactivated(d, m2, plan, counts);
    lemma_rows_agree(
        d,
        m,
        m2[Buffer::GradExpertHidden],
        values[Buffer::GradFeedForward],
        m2,
        values,
    );
    let s4 = gate_up_gradient_steps(plan, counts, n);
    lemma_both(d, values, s1 + s2 + s3, s4);
    lemma_gate_up_gradient(d, m3, plan, counts, n);
    lemma_gradients_agree(d, m, m3[Buffer::GradExpertGateUp], m3, values, n);
    let m4 = run(d, m3, s4);
    let s5 = downstream_steps(plan);
    lemma_both(d, values, s1 + s2 + s3 + s4, s5);
    let m5 = run(d, m4, s5);
    lemma_downstream(d, m4, plan, counts);
    lemma_rows_agree(
        d,
        m,
        m4[Buffer::GradExpertInput],
        values[Buffer::GradFeedForward],
        m4,
        values,
    );
    let made_of = output_gradient(d, m, values);
    let upstream = m3[Buffer::GradExpertGateUp];
    assert forall|e: usize| e < m.experts implies #[trigger] m5[Buffer::ExpertDownGrad(e)]
        == down_gradient(d, m, made_of, values, e as int) by {
        lemma_expert_agrees(d, m, made_of, m1, values, e);
        assert(m2[Buffer::ExpertDownGrad(e)] == down_gradient(d, m, made_of, m1, e as int));
        assert(m4[Buffer::ExpertDownGrad(e)] == m2[Buffer::ExpertDownGrad(e)]);
    }
    assert forall|e: usize| e < m.experts implies #[trigger] m5[Buffer::ExpertGateGrad(e)]
        == gate_weight_gradient(d, m, upstream, values, e as int) by {
        assert(m2[Buffer::ExpertGateGrad(e)] == m1[Buffer::ExpertGateGrad(e)]);
        lemma_gate_weights_agree(d, m, upstream, m3, values, e);
        assert(m4[Buffer::ExpertGateGrad(e)] == gate_weight_gradient(
            d,
            m,
            upstream,
            m3,
            e as int,
        ));
    }
    assert forall|e: usize| e < m.experts implies #[trigger] m5[Buffer::ExpertUpGrad(e)]
        == up_weight_gradient(d, m, upstream, values, e as int) by {
        assert(m2[Buffer::ExpertUpGrad(e)] == m1[Buffer::ExpertUpGrad(e)]);
        assert(m2[Buffer::ExpertGateGrad(e)] == m1[Buffer::ExpertGateGrad(e)]);
        lemma_gate_weights_agree(d, m, upstream, m3, values, e);
        assert(m4[Buffer::ExpertUpGrad(e)] == up_weight_gradient(
            d,
            m,
            upstream,
            m3,
            e as int,
        ));
    }
    assert(experts_gradient_steps(plan, counts) == s1 + s2 + s3 + s4 + s5);
}

/// The gradient of the layer's input that the shared expert leaves, or what
/// was there.
#[verifier::opaque]
pub open spec fn shared_gradient<V>(
    d: Device<V>,
    shared: Option<GatedPlan>,
    values: Values<V>,
) -> V {
    match shared {
        Some(gated) => {
            let g = gated_in(gated, values);
            input_gradient(
                d,
                values[Buffer::GradFeedForward],
                false,
                gate_up_gradient(d, g, kept_in(values), values[Buffer::GradOutput]),
                values[Buffer::GateUpWeights],
                g.rows,
                g.inner,
                2 * g.width,
            )
        },
        None => values[Buffer::GradFeedForward],
    }
}

/// What the shared expert's gradients come to.
#[verifier::opaque]
pub open spec fn has_shared_gradients<V>(
    d: Device<V>,
    shared: Option<GatedPlan>,
    values: Values<V>,
    after: Values<V>,
) -> bool {
    match shared {
        Some(gated) => {
            let g = gated_in(gated, values);
            let packed = pair_gradient(
                d,
                g,
                kept_in(values),
                values[Buffer::GradOutput],
                values[Buffer::FeedForwardNormed],
            );
            &&& after[Buffer::DownGrad] == weight_step(
                d,
                values[Buffer::DownGrad],
                true,
                values[Buffer::GradOutput],
                values[Buffer::Hidden],
                g.inner,
                g.width,
                g.rows,
            )
            &&& after[Buffer::GateGrad] == with_part(
                d,
                values[Buffer::GateGrad],
                packed,
                0,
                g.width * g.inner,
            )
            &&& after[Buffer::UpGrad] == with_part(
                d,
                values[Buffer::UpGrad],
                packed,
                g.width * g.inner,
                g.width * g.inner,
            )
        },
        None => {
            &&& after[Buffer::DownGrad] == values[Buffer::DownGrad]
            &&& after[Buffer::GateGrad] == values[Buffer::GateGrad]
            &&& after[Buffer::UpGrad] == values[Buffer::UpGrad]
        },
    }
}

proof fn lemma_shared_gradient<V>(
    d: Device<V>,
    values: Values<V>,
    plan: MoePlan,
    shared: Option<GatedPlan>,
)
    requires
        is_shared(plan, shared),
    ensures
        ({
            let after = run(d, values, shared_gradient_steps(shared) + gate_gradient_steps(plan));
            &&& after[Buffer::GradFeedForward] == shared_gradient(d, shared, values)
            &&& after[Buffer::GradGates] == zeros(d, plan.slots as int)
            &&& has_shared_gradients(d, shared, values, after)
            &&& forall|b: Buffer|
                is_outside(b) && b != Buffer::GradFeedForward && b != Buffer::GradGates
                    ==> #[trigger] after[b] == values[b]
        }),
{
    reveal(shared_gradient);
    reveal(has_shared_gradients);
    let s1 = shared_gradient_steps(shared);
    let m1 = run(d, values, s1);
    match shared {
        Some(gated) => {
            law_backward_is_the_gradient(d, values, gated);
        },
        None => {},
    }
    assert(has_shared_gradients(d, shared, values, m1));
    let s2 = gate_gradient_steps(plan);
    lemma_both(d, values, s1, s2);
    let m2 = run(d, m1, s2);
    assert(m2[Buffer::GradGates] == zeros(d, plan.slots as int) && forall|b: Buffer|
        b != Buffer::GradGates ==> #[trigger] m2[b] == m1[b]) by {
        reveal_with_fuel(run_to, 3);
    }
}

proof fn lemma_all_experts<V>(
    d: Device<V>,
    values: Values<V>,
    now: Values<V>,
    plan: MoePlan,
    counts: Seq<usize>,
)
    requires
        plan.wf(),
        counts.len() == plan.experts,
        plan.routed == total(counts, plan.experts as int),
        now[Buffer::GradGates] == zeros(d, plan.slots as int),
        forall|b: Buffer|
            is_outside(b) && b != Buffer::GradFeedForward && b != Buffer::GradGates ==> #[trigger]
                now[b] == values[b],
    ensures
        ({
            let m = mixture_of(plan, counts);
            let after = run(d, now, experts_gradient_steps(plan, counts));
            &&& has_expert_gradients(d, m, values, after)
            &&& after[Buffer::GradFeedForward] == with_expert_rows(
                d,
                m,
                values,
                now[Buffer::GradFeedForward],
            )
            &&& after[Buffer::GradGates] == gate_gradient(d, m, values)
            &&& forall|b: Buffer| !is_worked_in(b) ==> #[trigger] after[b] == now[b]
        }),
{
    let m = mixture_of(plan, counts);
    let after = run(d, now, experts_gradient_steps(plan, counts));
    if plan.routed > 0 {
        lemma_experts_gradient(d, now, plan, counts);
        lemma_mixture_agrees(d, m, now, values, after, now[Buffer::GradFeedForward]);
    } else {
        assert(after == now);
        reveal(down_gradient);
        reveal(gate_weight_gradient);
        reveal(up_weight_gradient);
        reveal(gate_gradient);
        assert forall|e: usize| e < plan.experts implies #[trigger] counts[e as int] == 0 by {
            lemma_run(plan, counts, e as int, 1);
        }
        assert forall|e: usize| e < plan.experts implies #[trigger]
            after[Buffer::ExpertDownGrad(e)] == values[Buffer::ExpertDownGrad(e)] && counts[e as int]
            == 0 by {}
        assert forall|e: usize| e < plan.experts implies #[trigger]
            after[Buffer::ExpertGateGrad(e)] == values[Buffer::ExpertGateGrad(e)] && counts[e as int]
            == 0 by {}
        assert forall|e: usize| e < plan.experts implies #[trigger]
            after[Buffer::ExpertUpGrad(e)] == values[Buffer::ExpertUpGrad(e)] && counts[e as int]
            == 0 by {}
    }
}

proof fn lemma_probabilities_gradient<V>(
    d: Device<V>,
    now: Values<V>,
    plan: MoePlan,
    counts: Seq<usize>,
    balance: bool,
)
    requires
        plan.wf(),
    ensures
        ({
            let after = run(
                d,
                now,
                probabilities_gradient_steps(plan) + balance_steps(plan, balance),
            );
            &&& after[Buffer::GradRouterProbabilities] == probability_gradient(
                d,
                mixture_of(plan, counts),
                now[Buffer::GradGates],
                now,
                balance,
            )
            &&& forall|b: Buffer|
                b != Buffer::GradRouterProbabilities ==> #[trigger] after[b] == now[b]
        }),
{
    reveal(probability_gradient);
    let s4 = probabilities_gradient_steps(plan);
    let s5 = balance_steps(plan, balance);
    lemma_both(d, now, s4, s5);
    reveal_with_fuel(run_to, 4);
}

proof fn lemma_logits_gradient<V>(
    d: Device<V>,
    now: Values<V>,
    plan: MoePlan,
    counts: Seq<usize>,
)
    requires
        plan.wf(),
    ensures
        ({
            let m = mixture_of(plan, counts);
            let after = run(d, now, router_gradient_steps(plan));
            let of_logits = logit_gradient(d, m, now[Buffer::GradRouterProbabilities], now);
            &&& after[Buffer::GradFeedForward] == input_gradient(
                d,
                now[Buffer::GradFeedForward],
                true,
                of_logits,
                now[Buffer::RouterWeight],
                m.rows,
                m.features,
                m.experts,
            )
            &&& after[Buffer::RouterGrad] == weight_step(
                d,
                now[Buffer::RouterGrad],
                true,
                of_logits,
                now[Buffer::FeedForwardNormed],
                m.experts,
                m.features,
                m.rows,
            )
            &&& forall|b: Buffer|
                b != Buffer::GradRouterLogits && b != Buffer::GradFeedForward && b
                    != Buffer::RouterGrad ==> #[trigger] after[b] == now[b]
        }),
{
    reveal(logit_gradient);
    reveal_with_fuel(run_to, 6);
}

/// What the router's gradients read.
proof fn lemma_router_agrees<V>(
    d: Device<V>,
    m: Mixture,
    x: V,
    a: Values<V>,
    b: Values<V>,
    balance: bool,
)
    requires
        a[Buffer::RouterProbabilities] == b[Buffer::RouterProbabilities],
        a[Buffer::RouterLogSumExp] == b[Buffer::RouterLogSumExp],
        a[Buffer::ExpertOf] == b[Buffer::ExpertOf],
        a[Buffer::Loads] == b[Buffer::Loads],
    ensures
        probability_gradient(d, m, x, a, balance) == probability_gradient(d, m, x, b, balance),
        logit_gradient(d, m, x, a) == logit_gradient(d, m, x, b),
{
    reveal(probability_gradient);
    reveal(logit_gradient);
}

proof fn lemma_router_gradient<V>(
    d: Device<V>,
    now: Values<V>,
    plan: MoePlan,
    counts: Seq<usize>,
    balance: bool,
)
    requires
        plan.wf(),
    ensures
        ({
            let m = mixture_of(plan, counts);
            let after = run(
                d,
                now,
                probabilities_gradient_steps(plan) + balance_steps(plan, balance)
                    + router_gradient_steps(plan),
            );
            let of_logits = logit_gradient(
                d,
                m,
                probability_gradient(d, m, now[Buffer::GradGates], now, balance),
                now,
            );
            &&& after[Buffer::GradFeedForward] == input_gradient(
                d,
                now[Buffer::GradFeedForward],
                true,
                of_logits,
                now[Buffer::RouterWeight],
                m.rows,
                m.features,
                m.experts,
            )
            &&& after[Buffer::RouterGrad] == weight_step(
                d,
                now[Buffer::RouterGrad],
                true,
                of_logits,
                now[Buffer::FeedForwardNormed],
                m.experts,
                m.features,
                m.rows,
            )
            &&& forall|b: Buffer|
                b != Buffer::GradRouterLogits && b != Buffer::GradRouterProbabilities && b
                    != Buffer::GradFeedForward && b != Buffer::RouterGrad ==> #[trigger] after[b]
                    == now[b]
        }),
{
    let m = mixture_of(plan, counts);
    let s5 = probabilities_gradient_steps(plan) + balance_steps(plan, balance);
    let s6 = router_gradient_steps(plan);
    lemma_both(d, now, s5, s6);
    lemma_probabilities_gradient(d, now, plan, counts, balance);
    let m5 = run(d, now, s5);
    lemma_logits_gradient(d, m5, plan, counts);
    lemma_router_agrees(d, m, m5[Buffer::GradRouterProbabilities], m5, now, balance);
}

/// The backward pass of a mixture. The gradient of the layer's input is what
/// the shared expert gives it, with what every expert gives its own rows and
/// what the router's logits give all rows added; each expert's weights get
/// their gradients from that expert's rows alone, the shared expert's from all
/// rows, and the router's weight from the logits, whose gradient comes from the
/// gates and, where it has a weight, from the load-balancing loss.
pub proof fn law_backward_is_the_gradient_of_the_mixture<V>(
    d: Device<V>,
    values: Values<V>,
    plan: MoePlan,
    counts: Seq<usize>,
    shared: Option<GatedPlan>,
    balance: bool,
)
    requires
        plan.wf(),
        counts.len() == plan.experts,
        plan.routed == total(counts, plan.experts as int),
        is_shared(plan, shared),
    ensures
        ({
            let after = run(d, values, backward_steps(plan, counts, shared, balance));
            let m = mixture_of(plan, counts);
            let from_shared = shared_gradient(d, shared, values);
            let of_logits = logit_gradient(
                d,
                m,
                probability_gradient(d, m, gate_gradient(d, m, values), values, balance),
                values,
            );
            &&& after[Buffer::GradFeedForward] == input_gradient(
                d,
                with_expert_rows(d, m, values, from_shared),
                true,
                of_logits,
                values[Buffer::RouterWeight],
                m.rows,
                m.features,
                m.experts,
            )
            &&& has_expert_gradients(d, m, values, after)
            &&& after[Buffer::RouterGrad] == weight_step(
                d,
                values[Buffer::RouterGrad],
                true,
                of_logits,
                values[Buffer::FeedForwardNormed],
                m.experts,
                m.features,
                m.rows,
            )
            &&& has_shared_gradients(d, shared, values, after)
        }),
{
    let m = mixture_of(plan, counts);
    let s2 = shared_gradient_steps(shared) + gate_gradient_steps(plan);
    lemma_shared_gradient(d, values, plan, shared);
    let m2 = run(d, values, s2);
    let s3 = experts_gradient_steps(plan, counts);
    lemma_both(d, values, s2, s3);
    lemma_all_experts(d, values, m2, plan, counts);
    let m3 = run(d, m2, s3);
    let s6 = probabilities_gradient_steps(plan) + balance_steps(plan, balance)
        + router_gradient_steps(plan);
    lemma_both(d, values, s2 + s3, s6);
    lemma_router_gradient(d, m3, plan, counts, balance);
    let m6 = run(d, m3, s6);
    assert(backward_steps(plan, counts, shared, balance) =~= s2 + s3 + s6);
    assert(m3[Buffer::RouterProbabilities] == values[Buffer::RouterProbabilities]);
    assert(m3[Buffer::RouterLogSumExp] == values[Buffer::RouterLogSumExp]);
    assert(m3[Buffer::ExpertOf] == values[Buffer::ExpertOf]);
    assert(m3[Buffer::Loads] == values[Buffer::Loads]);
    assert(m3[Buffer::RouterWeight] == values[Buffer::RouterWeight]);
    assert(m3[Buffer::FeedForwardNormed] == values[Buffer::FeedForwardNormed]);
    assert(m3[Buffer::RouterGrad] == values[Buffer::RouterGrad]);
    lemma_router_agrees(d, m, gate_gradient(d, m, values), m3, values, balance);
    lemma_router_agrees(
        d,
        m,
        probability_gradient(d, m, gate_gradient(d, m, values), values, balance),
        m3,
        values,
        balance,
    );
    assert(has_shared_gradients(d, shared, values, m6)) by {
        reveal(has_shared_gradients);
        assert(m3[Buffer::DownGrad] == m2[Buffer::DownGrad]);
        assert(m3[Buffer::GateGrad] == m2[Buffer::GateGrad]);
        assert(m3[Buffer::UpGrad] == m2[Buffer::UpGrad]);
    }
    assert(has_expert_gradients(d, m, values, m6)) by {
        assert forall|e: usize| #[trigger] m6[Buffer::ExpertDownGrad(e)]
            == m3[Buffer::ExpertDownGrad(e)] by {}
        assert forall|e: usize| #[trigger] m6[Buffer::ExpertGateGrad(e)]
            == m3[Buffer::ExpertGateGrad(e)] by {}
        assert forall|e: usize| #[trigger] m6[Buffer::ExpertUpGrad(e)]
            == m3[Buffer::ExpertUpGrad(e)] by {}
    }
}

/// The gradients of the experts depend on no buffer that the shared expert or
/// its gates write.
proof fn lemma_mixture_agrees<V>(
    d: Device<V>,
    m: Mixture,
    a: Values<V>,
    b: Values<V>,
    after: Values<V>,
    to: V,
)
    requires
        forall|c: Buffer|
            is_outside(c) && c != Buffer::GradFeedForward && c != Buffer::GradGates
                ==> #[trigger] a[c] == b[c],
        has_expert_gradients(d, m, a, after),
    ensures
        has_expert_gradients(d, m, b, after),
        with_expert_rows(d, m, a, to) == with_expert_rows(d, m, b, to),
        gate_gradient(d, m, a) == gate_gradient(d, m, b),
{
    assert(gate_gradient(d, m, a) == gate_gradient(d, m, b)) by {
        reveal(gate_gradient);
    }
    let made_of = output_gradient(d, m, a);
    assert(made_of == output_gradient(d, m, b)) by {
        reveal(output_gradient);
    }
    lemma_gradients_agree(d, m, made_of, a, b, m.experts);
    let hidden = hidden_gradient(d, m, made_of, a, m.experts);
    lemma_rows_agree(d, m, hidden, to, a, b);
    let upstream = projection_gradient(d, m, hidden, a);
    lemma_gradients_agree(d, m, upstream, a, b, m.experts);
    lemma_rows_agree(d, m, rows_gradient(d, m, upstream, a, m.experts), to, a, b);
    assert forall|e: usize| e < m.experts implies #[trigger] after[Buffer::ExpertDownGrad(e)]
        == down_gradient(d, m, made_of, b, e as int) by {
        assert(a[Buffer::ExpertGateGrad(e)] == b[Buffer::ExpertGateGrad(e)]);
        assert(a[Buffer::ExpertUpGrad(e)] == b[Buffer::ExpertUpGrad(e)]);
        assert(a[Buffer::ExpertDownGrad(e)] == b[Buffer::ExpertDownGrad(e)]);
        lemma_expert_agrees(d, m, made_of, a, b, e);
    }
    assert forall|e: usize| e < m.experts implies #[trigger] after[Buffer::ExpertGateGrad(e)]
        == gate_weight_gradient(d, m, upstream, b, e as int) by {
        assert(a[Buffer::ExpertGateGrad(e)] == b[Buffer::ExpertGateGrad(e)]);
        assert(a[Buffer::ExpertUpGrad(e)] == b[Buffer::ExpertUpGrad(e)]);
        lemma_gate_weights_agree(d, m, upstream, a, b, e);
    }
    assert forall|e: usize| e < m.experts implies #[trigger] after[Buffer::ExpertUpGrad(e)]
        == up_weight_gradient(d, m, upstream, b, e as int) by {
        assert(a[Buffer::ExpertGateGrad(e)] == b[Buffer::ExpertGateGrad(e)]);
        assert(a[Buffer::ExpertUpGrad(e)] == b[Buffer::ExpertUpGrad(e)]);
        lemma_gate_weights_agree(d, m, upstream, a, b, e);
    }
}

} // verus!
